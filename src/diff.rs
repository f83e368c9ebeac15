//! Comparing two node snapshots and sending the edits between them to a sink.
use crate::attrs::{
    attr_changes, attr_edits, is_attr_diff, is_attr_edit, AttrChange,
};
use crate::script::{
    aligns, count, is_lcs_script, lcs_script, lemma_aligns_counts, lemma_aligns_disjoint_keeps_nothing,
    lemma_count_concat, lemma_count_total, lemma_lcs_of_same_keeps_all, Step,
};
use crate::types::{identity_keys, attr_entries, Element, Node, NodePtr};
use crate::writer::{DiffWriter, Edit};
use vstd::prelude::*;

verus! {

/// How many new items the steps consume, by keeping or inserting.
pub open spec fn consumed(s: Seq<Step>) -> nat {
    count(s, Step::Unchanged) + count(s, Step::Insertion)
}

/// The edit for step `k` of `s`, where `new` is the new child list. Only an
/// insertion at the very first step is sent as a prepend.
pub open spec fn step_edit(s: Seq<Step>, new: Seq<NodePtr>, k: int) -> Edit {
    match s[k] {
        Step::Unchanged => Edit::SkipChild,
        Step::Deletion => Edit::DeleteChild,
        Step::Insertion => if k == 0 {
            Edit::PrependChild(new[consumed(s.take(k)) as int])
        } else {
            Edit::InsertChild(new[consumed(s.take(k)) as int])
        },
    }
}

/// The cursor-relative edits for a whole script.
pub open spec fn script_edits(s: Seq<Step>, new: Seq<NodePtr>) -> Seq<Edit> {
    Seq::new(s.len(), |k: int| step_edit(s, new, k))
}

/// An old and a new child with equal identity keys hold equal values.
pub open spec fn same_key_same_child(
    prev: Seq<NodePtr>,
    new: Seq<NodePtr>,
    prev_keys: Seq<usize>,
    new_keys: Seq<usize>,
) -> bool {
    forall|i: int, j: int|
        0 <= i < prev.len() && 0 <= j < new.len() && prev_keys[i] == new_keys[j] ==> prev[i] == new[j]
}

/// Edits for two child lists whose items carry the identity keys `prev_keys`
/// and `new_keys`.
pub open spec fn child_list_edits(
    prev: Seq<NodePtr>,
    new: Seq<NodePtr>,
    prev_keys: Seq<usize>,
    new_keys: Seq<usize>,
    e: Seq<Edit>,
) -> bool {
    if prev.len() == 0 && new.len() == 0 {
        e == Seq::<Edit>::empty()
    } else if new.len() == 0 {
        e == seq![Edit::RemoveAllChildren]
    } else if prev.len() == 0 {
        e == seq![Edit::AddAllChildren(new)]
    } else {
        &&& prev_keys.len() == prev.len()
        &&& new_keys.len() == new.len()
        &&& same_key_same_child(prev, new, prev_keys, new_keys)
        &&& exists|s: Seq<Step>| is_lcs_script(s, prev_keys, new_keys) && e == script_edits(s, new)
    }
}

/// Edits between two elements: a replacement where the tags differ, else the
/// attribute edits followed by the child list edits.
pub open spec fn element_edits(
    prev: Element,
    new: Element,
    prev_keys: Seq<usize>,
    new_keys: Seq<usize>,
    e: Seq<Edit>,
) -> bool {
    if prev.tag@ != new.tag@ {
        e == seq![Edit::ReplaceWithElement(new@)]
    } else {
        exists|a: Seq<Edit>, c: Seq<Edit>|
            e == a + c && attr_edits(attr_entries(prev.attrs), attr_entries(new.attrs), a)
                && child_list_edits(prev.children@, new.children@, prev_keys, new_keys, c)
    }
}

/// Edits between two nodes, where the children carry the given identity keys.
pub open spec fn node_edits(
    prev: Node,
    new: Node,
    prev_keys: Seq<usize>,
    new_keys: Seq<usize>,
    e: Seq<Edit>,
) -> bool {
    match (prev, new) {
        (Node::Text(_), Node::Text(t)) => e == seq![Edit::SetText(t@)],
        (Node::Element(_), Node::Text(t)) => e == seq![Edit::ReplaceWithText(t@)],
        (Node::Text(_), Node::Element(n)) => e == seq![Edit::ReplaceWithElement(n@)],
        (Node::Element(p), Node::Element(n)) => element_edits(p, n, prev_keys, new_keys, e),
    }
}

/// Sends the edits of `s` to `w`.
fn emit_script<W: DiffWriter>(s: &Vec<Step>, new: &Vec<NodePtr>, w: &mut W)
    requires
        consumed(s@) == new@.len(),
    ensures
        final(w).log() == old(w).log() + script_edits(s@, new@),
{
    let ghost start = old(w).log();
    let mut i: usize = 0;
    let mut j: usize = 0;
    let n: usize = new.len();
    while i < s.len()
        invariant
            n == new@.len(),
            i <= s@.len(),
            j == consumed(s@.take(i as int)),
            consumed(s@) == new@.len(),
            w.log() == start + Seq::new(i as nat, |k: int| step_edit(s@, new@, k)),
        decreases s@.len() - i,
    {
        let ghost head = s@.take(i as int);
        let ghost rest = s@.skip(i as int);
        proof {
            assert(s@ =~= head + rest);
            lemma_count_concat(head, rest, Step::Unchanged);
            lemma_count_concat(head, rest, Step::Insertion);
            assert(s@.take(i + 1) =~= head + seq![s@[i as int]]);
            lemma_count_concat(head, seq![s@[i as int]], Step::Unchanged);
            lemma_count_concat(head, seq![s@[i as int]], Step::Insertion);
            let one = seq![s@[i as int]];
            assert(one.drop_first() =~= Seq::<Step>::empty());
            assert(count(one.drop_first(), Step::Unchanged) == 0);
            assert(count(one.drop_first(), Step::Insertion) == 0);
            assert(count(one, Step::Unchanged) == if s@[i as int] == Step::Unchanged { 1nat } else { 0nat });
            assert(count(one, Step::Insertion) == if s@[i as int] == Step::Insertion { 1nat } else { 0nat });
            assert(rest[0] == s@[i as int]);
            assert(count(rest, Step::Unchanged) >= count(one, Step::Unchanged));
            assert(count(rest, Step::Insertion) >= count(one, Step::Insertion));
        }
        match s[i] {
            Step::Unchanged => {
                w.skip_child();
                j = j + 1;
            },
            Step::Deletion => {
                w.delete_child();
            },
            Step::Insertion => {
                if i == 0 {
                    w.prepend_child(&new[j]);
                } else {
                    w.insert_child(&new[j]);
                }
                j = j + 1;
            },
        }
        i = i + 1;
        assert(w.log() =~= start + Seq::new(i as nat, |k: int| step_edit(s@, new@, k)));
    }
    assert(s@.take(i as int) =~= s@);
}

/// Sends the cursor-relative edits that turn the old child list into `new`,
/// where `prev_keys` and `new_keys` are the identity keys of the old and new
/// children: two children are the same where their keys are equal. The
/// kept children form a longest common subsequence of the keys.
pub fn reconcile_children<W: DiffWriter>(
    prev_keys: &Vec<usize>,
    new_keys: &Vec<usize>,
    new: &Vec<NodePtr>,
    w: &mut W,
)
    requires
        new_keys@.len() == new@.len(),
    ensures
        exists|s: Seq<Step>|
            is_lcs_script(s, prev_keys@, new_keys@) && final(w).log() == old(w).log()
                + script_edits(s, new@),
{
    let script = lcs_script(prev_keys, new_keys);
    proof {
        lemma_aligns_counts(script@, prev_keys@, new_keys@);
    }
    emit_script(&script, new, w);
}

/// Diffing a node against itself changes nothing: a text node gets its own
/// text back, and an element, where each child keeps its identity, gets no
/// attribute edit and one skip per child.
pub proof fn lemma_diff_same_node(a: Node, keys: Seq<usize>, e: Seq<Edit>)
    requires
        node_edits(a, a, keys, keys, e),
    ensures
        match a {
            Node::Text(t) => e == seq![Edit::SetText(t@)],
            Node::Element(el) => e == Seq::new(el.children@.len(), |i: int| Edit::SkipChild),
        },
{
    if let Node::Element(el) = a {
        let m = attr_entries(el.attrs);
        let (ae, ce) = choose|ae: Seq<Edit>, ce: Seq<Edit>|
            e == ae + ce && attr_edits(m, m, ae) && child_list_edits(
                el.children@,
                el.children@,
                keys,
                keys,
                ce,
            );
        let changes = choose|c: Seq<AttrChange>|
            is_attr_diff(c, m, m) && ae == c.map_values(|x: AttrChange| x.edit());
        if changes.len() > 0 {
            assert(changes[0].fits(m, m));
        }
        assert(ae =~= Seq::<Edit>::empty());
        let n = el.children@.len();
        if n == 0 {
            assert(ce =~= Seq::new(n, |i: int| Edit::SkipChild));
        } else {
            let s = choose|s: Seq<Step>| is_lcs_script(s, keys, keys) && ce == script_edits(s, el.children@);
            lemma_lcs_of_same_keeps_all(s, keys);
            assert(ce =~= Seq::new(n, |i: int| Edit::SkipChild));
        }
        assert(e =~= Seq::new(n, |i: int| Edit::SkipChild));
    }
}

/// Children are matched by identity alone: where no old child shares an
/// identity with a new one, however alike their contents, no child is
/// skipped; every old child is deleted and every new one inserted.
pub proof fn lemma_distinct_identities_never_skip(
    s: Seq<Step>,
    prev_keys: Seq<usize>,
    new_keys: Seq<usize>,
    new: Seq<NodePtr>,
)
    requires
        is_lcs_script(s, prev_keys, new_keys),
        forall|i: int, j: int|
            0 <= i < prev_keys.len() && 0 <= j < new_keys.len() ==> prev_keys[i] != new_keys[j],
    ensures
        forall|k: int| 0 <= k < s.len() ==> script_edits(s, new)[k] != Edit::SkipChild,
        count(s, Step::Deletion) == prev_keys.len(),
        count(s, Step::Insertion) == new_keys.len(),
{
    lemma_aligns_disjoint_keeps_nothing(s, prev_keys, new_keys);
    lemma_aligns_counts(s, prev_keys, new_keys);
}

/// The child edits are minimal: with `k` children kept, where no alignment
/// of the identities keeps more, exactly `m - k` deletions and `n - k`
/// insertions are sent, and every other edit is a skip.
pub proof fn lemma_script_edits_minimal(
    s: Seq<Step>,
    prev_keys: Seq<usize>,
    new_keys: Seq<usize>,
    new: Seq<NodePtr>,
)
    requires
        is_lcs_script(s, prev_keys, new_keys),
    ensures
        forall|t: Seq<Step>| #[trigger] aligns(t, prev_keys, new_keys) ==> count(t, Step::Unchanged)
            <= count(s, Step::Unchanged),
        script_edits(s, new).len() == s.len(),
        forall|k: int|
            0 <= k < s.len() ==> (script_edits(s, new)[k] == Edit::SkipChild) == (s[k]
                == Step::Unchanged),
        count(s, Step::Deletion) == prev_keys.len() - count(s, Step::Unchanged),
        count(s, Step::Insertion) == new_keys.len() - count(s, Step::Unchanged),
        s.len() - count(s, Step::Unchanged) == (prev_keys.len() - count(s, Step::Unchanged)) + (
        new_keys.len() - count(s, Step::Unchanged)),
{
    lemma_aligns_counts(s, prev_keys, new_keys);
    lemma_count_total(s);
}

/// Between two elements of one tag, every attribute edit comes before every
/// child edit: the edits open with the attribute edits for the two maps
/// (classified by key and ascending, see `lemma_attr_edits_classified`),
/// and no attribute edit follows them.
pub proof fn lemma_element_edits_attrs_first(
    prev: Element,
    new: Element,
    prev_keys: Seq<usize>,
    new_keys: Seq<usize>,
    e: Seq<Edit>,
)
    requires
        element_edits(prev, new, prev_keys, new_keys, e),
        prev.tag@ == new.tag@,
    ensures
        exists|n: int|
            0 <= n <= e.len() && attr_edits(attr_entries(prev.attrs), attr_entries(new.attrs), e.take(n))
                && forall|i: int| n <= i < e.len() ==> !is_attr_edit(#[trigger] e[i]),
{
    let (a, c) = choose|a: Seq<Edit>, c: Seq<Edit>|
        e == a + c && attr_edits(attr_entries(prev.attrs), attr_entries(new.attrs), a)
            && child_list_edits(prev.children@, new.children@, prev_keys, new_keys, c);
    assert forall|i: int| 0 <= i < c.len() implies !is_attr_edit(c[i]) by {
        if prev.children@.len() > 0 && new.children@.len() > 0 {
            let s = choose|s: Seq<Step>|
                is_lcs_script(s, prev_keys, new_keys) && c == script_edits(s, new.children@);
            assert(c[i] == step_edit(s, new.children@, i));
        }
    }
    assert(e.take(a.len() as int) =~= a);
    assert forall|i: int| a.len() <= i < e.len() implies !is_attr_edit(#[trigger] e[i]) by {
        assert(e[i] == c[i - a.len()]);
    }
    let n = a.len() as int;
    assert(0 <= n <= e.len() && attr_edits(attr_entries(prev.attrs), attr_entries(new.attrs), e.take(n)));
}

/// Sends one attribute edit per change, in the order of `changes`.
fn emit_attr_changes<W: DiffWriter>(changes: &Vec<AttrChange>, w: &mut W)
    ensures
        final(w).log() == old(w).log() + changes@.map_values(|x: AttrChange| x.edit()),
{
    let ghost start = old(w).log();
    let mut i: usize = 0;
    while i < changes.len()
        invariant
            i <= changes@.len(),
            w.log() == start + changes@.take(i as int).map_values(|x: AttrChange| x.edit()),
        decreases changes@.len() - i,
    {
        match &changes[i] {
            AttrChange::Added(k, v) => w.set_attribute(k.as_str(), v.as_str()),
            AttrChange::Updated(k, v) => w.set_attribute(k.as_str(), v.as_str()),
            AttrChange::Removed(k) => w.remove_attribute(k.as_str()),
        }
        assert(changes@.take(i + 1).map_values(|x: AttrChange| x.edit()) =~= changes@.take(
            i as int,
        ).map_values(|x: AttrChange| x.edit()).push(changes@[i as int].edit()));
        i = i + 1;
    }
    assert(changes@.take(i as int) =~= changes@);
}

/// Sends the edits between two elements: a replacement where the tags
/// differ, else the attribute edits and then the child list edits.
fn diff_element<W: DiffWriter>(prev: &Element, new: &Element, w: &mut W)
    ensures
        exists|pk: Seq<usize>, nk: Seq<usize>, e: Seq<Edit>|
            element_edits(*prev, *new, pk, nk, e) && final(w).log() == old(w).log() + e,
{
    let ghost start = old(w).log();
    if !(prev.tag == new.tag) {
        w.replace_with_element(new);
        proof {
            let e = seq![Edit::ReplaceWithElement(new@)];
            assert(element_edits(*prev, *new, seq![], seq![], e));
            assert(w.log() =~= start + e);
        }
        return;
    }
    let changes = attr_changes(&prev.attrs, &new.attrs);
    emit_attr_changes(&changes, w);
    let ghost a = changes@.map_values(|x: AttrChange| x.edit());
    let ghost mid = w.log();
    assert(attr_edits(attr_entries(prev.attrs), attr_entries(new.attrs), a));
    let ghost mut pk: Seq<usize> = seq![];
    let ghost mut nk: Seq<usize> = seq![];
    let ghost mut c: Seq<Edit> = seq![];
    if prev.children.len() == 0 && new.children.len() == 0 {
        assert(w.log() =~= mid + c);
    } else if new.children.len() == 0 {
        w.remove_all_children();
        proof {
            c = seq![Edit::RemoveAllChildren];
            assert(w.log() =~= mid + c);
        }
    } else if prev.children.len() == 0 {
        w.add_all_children(new.children.as_slice());
        proof {
            c = seq![Edit::AddAllChildren(new.children@)];
            assert(w.log() =~= mid + c);
        }
    } else {
        let (prev_keys, new_keys) = identity_keys(&prev.children, &new.children);
        reconcile_children(&prev_keys, &new_keys, &new.children, w);
        proof {
            pk = prev_keys@;
            nk = new_keys@;
            let s = choose|s: Seq<Step>|
                is_lcs_script(s, pk, nk) && w.log() == mid + script_edits(s, new.children@);
            c = script_edits(s, new.children@);
        }
    }
    assert(child_list_edits(prev.children@, new.children@, pk, nk, c));
    assert(w.log() =~= start + (a + c));
    assert(element_edits(*prev, *new, pk, nk, a + c));
}

/// Compares two node snapshots and sends to `w`, in order, the edits that
/// turn `prev` into `new`. Children are compared by allocation: a child kept
/// from the old list is skipped, and nothing inside it is compared. The
/// identity keys are the children's addresses, which the contract does not
/// see; `reconcile_children` states the child list edits for given keys.
pub fn diff<W: DiffWriter>(prev: &Node, new: &Node, w: &mut W)
    ensures
        exists|pk: Seq<usize>, nk: Seq<usize>, e: Seq<Edit>|
            node_edits(*prev, *new, pk, nk, e) && final(w).log() == old(w).log() + e,
{
    let ghost start = old(w).log();
    match (prev, new) {
        (Node::Text(_), Node::Text(t)) => {
            w.set_text(t.as_str());
            assert(w.log() =~= start + seq![Edit::SetText(t@)]);
            assert(node_edits(*prev, *new, seq![], seq![], seq![Edit::SetText(t@)]));
        },
        (Node::Element(_), Node::Text(t)) => {
            w.replace_with_text(t.as_str());
            assert(w.log() =~= start + seq![Edit::ReplaceWithText(t@)]);
            assert(node_edits(*prev, *new, seq![], seq![], seq![Edit::ReplaceWithText(t@)]));
        },
        (Node::Text(_), Node::Element(n)) => {
            w.replace_with_element(n);
            assert(w.log() =~= start + seq![Edit::ReplaceWithElement(n@)]);
            assert(node_edits(*prev, *new, seq![], seq![], seq![Edit::ReplaceWithElement(n@)]));
        },
        (Node::Element(p), Node::Element(n)) => {
            diff_element(p, n, w);
            proof {
                let (pk, nk, e) = choose|pk: Seq<usize>, nk: Seq<usize>, e: Seq<Edit>|
                    element_edits(*p, *n, pk, nk, e) && w.log() == start + e;
                assert(node_edits(*prev, *new, pk, nk, e));
            }
        },
    }
}

} // verus!
