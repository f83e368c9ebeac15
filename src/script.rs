//! Edit scripts between two sequences of identity keys.
use vstd::prelude::*;

verus! {

/// One step of an edit script, read left to right over both sequences.
#[derive(PartialEq, Eq, Structural, Debug, Clone, Copy)]
pub enum Step {
    /// The next old item and the next new item are the same.
    Unchanged,
    /// The next old item has no counterpart.
    Deletion,
    /// The next new item has no counterpart.
    Insertion,
}

/// `s` walks `a` and `b` to their ends, pairing only equal items.
pub open spec fn aligns(s: Seq<Step>, a: Seq<usize>, b: Seq<usize>) -> bool
    decreases s.len(),
{
    if s.len() == 0 {
        a.len() == 0 && b.len() == 0
    } else {
        match s[0] {
            Step::Unchanged => a.len() > 0 && b.len() > 0 && a[0] == b[0] && aligns(
                s.drop_first(),
                a.drop_first(),
                b.drop_first(),
            ),
            Step::Deletion => a.len() > 0 && aligns(s.drop_first(), a.drop_first(), b),
            Step::Insertion => b.len() > 0 && aligns(s.drop_first(), a, b.drop_first()),
        }
    }
}

/// How many steps of `s` are `t`.
pub open spec fn count(s: Seq<Step>, t: Step) -> nat
    decreases s.len(),
{
    if s.len() == 0 {
        0
    } else {
        count(s.drop_first(), t) + if s[0] == t { 1nat } else { 0nat }
    }
}

/// `s` aligns `a` and `b` and keeps as many pairs as any alignment can:
/// its kept items form a longest common subsequence.
pub open spec fn is_lcs_script(s: Seq<Step>, a: Seq<usize>, b: Seq<usize>) -> bool {
    &&& aligns(s, a, b)
    &&& forall|t: Seq<Step>| #[trigger] aligns(t, a, b) ==> count(t, Step::Unchanged) <= count(
        s,
        Step::Unchanged,
    )
}

/// Relies on `lcs::LcsTable::new` and `LcsTable::diff`: a diff from `a` to
/// `b` read off the table of longest common subsequence lengths, so that its
/// unchanged items form a longest common subsequence.
#[verifier::external_body]
pub(crate) fn lcs_script(a: &Vec<usize>, b: &Vec<usize>) -> (r: Vec<Step>)
    ensures
        is_lcs_script(r@, a@, b@),
{
    lcs::LcsTable::new(a, b).diff().into_iter().map(|c| match c {
        lcs::DiffComponent::Unchanged(_, _) => Step::Unchanged,
        lcs::DiffComponent::Deletion(_) => Step::Deletion,
        lcs::DiffComponent::Insertion(_) => Step::Insertion,
    }).collect()
}

/// An aligning script consumes every old item once, by keeping or deleting
/// it, and every new item once, by keeping or inserting it.
pub proof fn lemma_aligns_counts(s: Seq<Step>, a: Seq<usize>, b: Seq<usize>)
    requires
        aligns(s, a, b),
    ensures
        count(s, Step::Unchanged) + count(s, Step::Deletion) == a.len(),
        count(s, Step::Unchanged) + count(s, Step::Insertion) == b.len(),
    decreases s.len(),
{
    if s.len() > 0 {
        match s[0] {
            Step::Unchanged => lemma_aligns_counts(s.drop_first(), a.drop_first(), b.drop_first()),
            Step::Deletion => lemma_aligns_counts(s.drop_first(), a.drop_first(), b),
            Step::Insertion => lemma_aligns_counts(s.drop_first(), a, b.drop_first()),
        }
    }
}

/// Keeping every item aligns a sequence with itself.
pub proof fn lemma_keep_all_aligns(a: Seq<usize>)
    ensures
        aligns(Seq::new(a.len(), |i: int| Step::Unchanged), a, a),
        count(Seq::new(a.len(), |i: int| Step::Unchanged), Step::Unchanged) == a.len(),
    decreases a.len(),
{
    let s = Seq::new(a.len(), |i: int| Step::Unchanged);
    if a.len() > 0 {
        lemma_keep_all_aligns(a.drop_first());
        assert(s.drop_first() =~= Seq::new(a.drop_first().len(), |i: int| Step::Unchanged));
    }
}

/// A longest-subsequence script between a sequence and itself keeps every item.
pub proof fn lemma_lcs_of_same_keeps_all(s: Seq<Step>, a: Seq<usize>)
    requires
        is_lcs_script(s, a, a),
    ensures
        s == Seq::new(a.len(), |i: int| Step::Unchanged),
{
    let all = Seq::new(a.len(), |i: int| Step::Unchanged);
    lemma_keep_all_aligns(a);
    assert(aligns(all, a, a));
    lemma_aligns_counts(s, a, a);
    lemma_count_total(s);
    lemma_all_of_count(s);
}

/// A script whose length equals its count of kept steps keeps at every step.
proof fn lemma_all_of_count(s: Seq<Step>)
    requires
        count(s, Step::Unchanged) == s.len(),
    ensures
        s == Seq::new(s.len(), |i: int| Step::Unchanged),
    decreases s.len(),
{
    if s.len() > 0 {
        lemma_count_bound(s.drop_first(), Step::Unchanged);
        assert(s[0] == Step::Unchanged);
        lemma_all_of_count(s.drop_first());
        assert forall|i: int| 0 <= i < s.len() implies s[i] == Step::Unchanged by {
            if i > 0 {
                assert(s[i] == s.drop_first()[i - 1]);
            }
        }
        assert(s =~= Seq::new(s.len(), |i: int| Step::Unchanged));
    } else {
        assert(s =~= Seq::new(s.len(), |i: int| Step::Unchanged));
    }
}

/// Where no key of `a` occurs in `b`, an aligning script keeps nothing.
pub proof fn lemma_aligns_disjoint_keeps_nothing(s: Seq<Step>, a: Seq<usize>, b: Seq<usize>)
    requires
        aligns(s, a, b),
        forall|i: int, j: int| 0 <= i < a.len() && 0 <= j < b.len() ==> a[i] != b[j],
    ensures
        forall|k: int| 0 <= k < s.len() ==> s[k] != Step::Unchanged,
        count(s, Step::Unchanged) == 0,
    decreases s.len(),
{
    if s.len() > 0 {
        let (a2, b2) = match s[0] {
            Step::Unchanged => {
                assert(a[0] != b[0]);
                (a, b)
            },
            Step::Deletion => (a.drop_first(), b),
            Step::Insertion => (a, b.drop_first()),
        };
        assert forall|i: int, j: int| 0 <= i < a2.len() && 0 <= j < b2.len() implies a2[i] != b2[j] by {
            if s[0] == Step::Deletion {
                assert(a2[i] == a[i + 1]);
            } else {
                assert(b2[j] == b[j + 1]);
            }
        }
        lemma_aligns_disjoint_keeps_nothing(s.drop_first(), a2, b2);
        assert forall|k: int| 0 <= k < s.len() implies s[k] != Step::Unchanged by {
            if k > 0 {
                assert(s[k] == s.drop_first()[k - 1]);
            }
        }
    }
}

/// Counting is additive over concatenation.
pub proof fn lemma_count_concat(a: Seq<Step>, b: Seq<Step>, t: Step)
    ensures
        count(a + b, t) == count(a, t) + count(b, t),
    decreases a.len(),
{
    if a.len() > 0 {
        lemma_count_concat(a.drop_first(), b, t);
        assert((a + b).drop_first() =~= a.drop_first() + b);
    } else {
        assert(a + b =~= b);
    }
}

proof fn lemma_count_bound(s: Seq<Step>, t: Step)
    ensures
        count(s, t) <= s.len(),
    decreases s.len(),
{
    if s.len() > 0 {
        lemma_count_bound(s.drop_first(), t);
    }
}

/// Every step is of one of the three kinds.
pub proof fn lemma_count_total(s: Seq<Step>)
    ensures
        count(s, Step::Unchanged) + count(s, Step::Deletion) + count(s, Step::Insertion) == s.len(),
    decreases s.len(),
{
    if s.len() > 0 {
        lemma_count_total(s.drop_first());
    }
}

} // verus!
