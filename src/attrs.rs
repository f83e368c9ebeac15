//! Differences between two attribute maps, in ascending key order.
use crate::types::{attr_entries, Attrs};
use crate::writer::Edit;
use vstd::prelude::*;

verus! {

/// One difference between an old and a new attribute map.
pub enum AttrChange {
    /// The key is only in the new map.
    Added(String, String),
    /// The key is in both maps, with another value in the new one.
    Updated(String, String),
    /// The key is only in the old map.
    Removed(String),
}

impl AttrChange {
    pub open spec fn key(self) -> Seq<char> {
        match self {
            AttrChange::Added(k, _) => k@,
            AttrChange::Updated(k, _) => k@,
            AttrChange::Removed(k) => k@,
        }
    }

    /// The edit that brings the old map in line for this key.
    pub open spec fn edit(self) -> Edit {
        match self {
            AttrChange::Added(k, v) => Edit::SetAttribute(k@, v@),
            AttrChange::Updated(k, v) => Edit::SetAttribute(k@, v@),
            AttrChange::Removed(k) => Edit::RemoveAttribute(k@),
        }
    }

    /// The change describes what the two maps hold at its key.
    pub open spec fn fits(self, old: Map<Seq<char>, Seq<char>>, new: Map<Seq<char>, Seq<char>>) -> bool {
        match self {
            AttrChange::Added(k, v) => !old.contains_key(k@) && new.contains_key(k@) && new[k@] == v@,
            AttrChange::Updated(k, v) => old.contains_key(k@) && new.contains_key(k@) && old[k@] != new[k@]
                && new[k@] == v@,
            AttrChange::Removed(k) => old.contains_key(k@) && !new.contains_key(k@),
        }
    }
}

/// Strict order of strings: lexicographic by code point, as `Ord` for `String` orders them.
pub open spec fn key_lt(a: Seq<char>, b: Seq<char>) -> bool
    decreases a.len(),
{
    if a.len() == 0 {
        b.len() > 0
    } else if b.len() == 0 {
        false
    } else if a[0] != b[0] {
        (a[0] as int) < (b[0] as int)
    } else {
        key_lt(a.drop_first(), b.drop_first())
    }
}

/// The key is absent from one map only, or holds different values in the two.
pub open spec fn key_changed(k: Seq<char>, old: Map<Seq<char>, Seq<char>>, new: Map<Seq<char>, Seq<char>>) -> bool {
    if old.contains_key(k) {
        !new.contains_key(k) || old[k] != new[k]
    } else {
        new.contains_key(k)
    }
}

/// `changes` lists each changed key once, in ascending key order, and nothing else.
pub open spec fn is_attr_diff(
    changes: Seq<AttrChange>,
    old: Map<Seq<char>, Seq<char>>,
    new: Map<Seq<char>, Seq<char>>,
) -> bool {
    &&& forall|i: int| 0 <= i < changes.len() ==> #[trigger] changes[i].fits(old, new)
    &&& forall|k: Seq<char>| #[trigger] key_changed(k, old, new) ==> exists|i: int|
        0 <= i < changes.len() && #[trigger] changes[i].key() == k
    &&& forall|i: int, j: int| 0 <= i < j < changes.len() ==> key_lt(
        #[trigger] changes[i].key(),
        #[trigger] changes[j].key(),
    )
}

/// Edits that turn the attribute map `old` into `new`, in ascending key order.
pub open spec fn attr_edits(old: Map<Seq<char>, Seq<char>>, new: Map<Seq<char>, Seq<char>>, e: Seq<Edit>) -> bool {
    exists|c: Seq<AttrChange>| is_attr_diff(c, old, new) && e == c.map_values(|x: AttrChange| x.edit())
}

/// The edit owed to a changed key: its new value, or its removal.
pub open spec fn key_edit(k: Seq<char>, new: Map<Seq<char>, Seq<char>>) -> Edit {
    if new.contains_key(k) {
        Edit::SetAttribute(k, new[k])
    } else {
        Edit::RemoveAttribute(k)
    }
}

/// Keys in strictly ascending order.
pub open spec fn ascending(x: Seq<Seq<char>>) -> bool {
    forall|i: int, j: int| 0 <= i < j < x.len() ==> key_lt(#[trigger] x[i], #[trigger] x[j])
}

proof fn lemma_key_lt_asymmetric(a: Seq<char>, b: Seq<char>)
    requires
        key_lt(a, b),
    ensures
        !key_lt(b, a),
    decreases a.len(),
{
    if a.len() > 0 && b.len() > 0 && a[0] == b[0] {
        lemma_key_lt_asymmetric(a.drop_first(), b.drop_first());
    }
}

proof fn lemma_key_lt_total(a: Seq<char>, b: Seq<char>)
    requires
        a != b,
    ensures
        key_lt(a, b) || key_lt(b, a),
    decreases a.len(),
{
    if a.len() == 0 {
        assert(b.len() > 0) by {
            if b.len() == 0 {
                assert(a =~= b);
            }
        }
    } else if b.len() > 0 && a[0] == b[0] {
        if a.drop_first() == b.drop_first() {
            assert(a =~= seq![a[0]] + a.drop_first());
            assert(b =~= seq![b[0]] + b.drop_first());
        }
        lemma_key_lt_total(a.drop_first(), b.drop_first());
    } else if b.len() > 0 {
        assert((a[0] as int) != (b[0] as int));
    }
}

/// Two ascending key lists that hold the same keys are the same list.
proof fn lemma_ascending_unique(x: Seq<Seq<char>>, y: Seq<Seq<char>>)
    requires
        ascending(x),
        ascending(y),
        forall|k: Seq<char>| x.contains(k) <==> y.contains(k),
    ensures
        x == y,
    decreases x.len(),
{
    if x.len() == 0 {
        if y.len() > 0 {
            assert(y.contains(y[0]));
        }
        assert(x =~= y);
    } else {
        assert(x.contains(x[0]));
        assert(y.len() > 0);
        assert(y.contains(y[0]));
        if x[0] != y[0] {
            let i = choose|i: int| 0 <= i < x.len() && x[i] == y[0];
            let j = choose|j: int| 0 <= j < y.len() && y[j] == x[0];
            lemma_key_lt_total(x[0], y[0]);
            if key_lt(x[0], y[0]) {
                assert(j > 0);
                assert(key_lt(y[0], y[j]));
                lemma_key_lt_asymmetric(x[0], y[0]);
            } else {
                assert(i > 0);
                assert(key_lt(x[0], x[i]));
                lemma_key_lt_asymmetric(y[0], x[0]);
            }
        }
        let xt = x.drop_first();
        let yt = y.drop_first();
        assert forall|k: Seq<char>| xt.contains(k) <==> yt.contains(k) by {
            if xt.contains(k) {
                let i = choose|i: int| 0 <= i < xt.len() && xt[i] == k;
                assert(key_lt(x[0], x[i + 1]));
                lemma_key_lt_asymmetric(x[0], k);
                assert(y.contains(k));
                let j = choose|j: int| 0 <= j < y.len() && y[j] == k;
                assert(j != 0);
                assert(yt[j - 1] == k);
            }
            if yt.contains(k) {
                let j = choose|j: int| 0 <= j < yt.len() && yt[j] == k;
                assert(key_lt(y[0], y[j + 1]));
                lemma_key_lt_asymmetric(y[0], k);
                assert(x.contains(k));
                let i = choose|i: int| 0 <= i < x.len() && x[i] == k;
                assert(i != 0);
                assert(xt[i - 1] == k);
            }
        }
        assert(ascending(xt)) by {
            assert forall|i: int, j: int| 0 <= i < j < xt.len() implies key_lt(xt[i], xt[j]) by {
                assert(key_lt(x[i + 1], x[j + 1]));
            }
        }
        assert(ascending(yt)) by {
            assert forall|i: int, j: int| 0 <= i < j < yt.len() implies key_lt(yt[i], yt[j]) by {
                assert(key_lt(y[i + 1], y[j + 1]));
            }
        }
        lemma_ascending_unique(xt, yt);
        assert(x =~= seq![x[0]] + xt);
        assert(y =~= seq![y[0]] + yt);
    }
}

/// The keys of a valid change list, and the edits it gives, are fixed by the
/// two maps: the edit of each change is the one owed to its key.
proof fn lemma_attr_diff_keys(c: Seq<AttrChange>, old: Map<Seq<char>, Seq<char>>, new: Map<Seq<char>, Seq<char>>)
    requires
        is_attr_diff(c, old, new),
    ensures
        ascending(c.map_values(|x: AttrChange| x.key())),
        forall|k: Seq<char>|
            c.map_values(|x: AttrChange| x.key()).contains(k) <==> key_changed(k, old, new),
        c.map_values(|x: AttrChange| x.edit()) == c.map_values(|x: AttrChange| x.key()).map_values(
            |k: Seq<char>| key_edit(k, new),
        ),
{
    let ks = c.map_values(|x: AttrChange| x.key());
    assert forall|i: int, j: int| 0 <= i < j < ks.len() implies key_lt(ks[i], ks[j]) by {
        assert(key_lt(c[i].key(), c[j].key()));
    }
    assert forall|k: Seq<char>| ks.contains(k) <==> key_changed(k, old, new) by {
        if ks.contains(k) {
            let i = choose|i: int| 0 <= i < ks.len() && ks[i] == k;
            assert(c[i].fits(old, new));
        }
        if key_changed(k, old, new) {
            let i = choose|i: int| 0 <= i < c.len() && #[trigger] c[i].key() == k;
            assert(ks[i] == k);
        }
    }
    assert forall|i: int| 0 <= i < c.len() implies c[i].edit() == key_edit(c[i].key(), new) by {
        assert(c[i].fits(old, new));
    }
    assert(c.map_values(|x: AttrChange| x.edit()) =~= ks.map_values(|k: Seq<char>| key_edit(k, new)));
}

/// Attribute edits are classified from the two maps' contents alone and sent
/// in ascending key order, so the edit stream is the same on every call:
/// any two edit lists that meet the contract for one pair of maps are equal.
pub proof fn lemma_attr_edits_deterministic(
    old: Map<Seq<char>, Seq<char>>,
    new: Map<Seq<char>, Seq<char>>,
    e1: Seq<Edit>,
    e2: Seq<Edit>,
)
    requires
        attr_edits(old, new, e1),
        attr_edits(old, new, e2),
    ensures
        e1 == e2,
{
    let c1 = choose|c: Seq<AttrChange>| is_attr_diff(c, old, new) && e1 == c.map_values(|x: AttrChange| x.edit());
    let c2 = choose|c: Seq<AttrChange>| is_attr_diff(c, old, new) && e2 == c.map_values(|x: AttrChange| x.edit());
    lemma_attr_diff_keys(c1, old, new);
    lemma_attr_diff_keys(c2, old, new);
    let ks1 = c1.map_values(|x: AttrChange| x.key());
    let ks2 = c2.map_values(|x: AttrChange| x.key());
    assert forall|k: Seq<char>| ks1.contains(k) <==> ks2.contains(k) by {
        assert(ks1.contains(k) <==> key_changed(k, old, new));
        assert(ks2.contains(k) <==> key_changed(k, old, new));
    }
    lemma_ascending_unique(ks1, ks2);
}

/// The key an attribute edit is about.
pub open spec fn edit_key(e: Edit) -> Seq<char> {
    match e {
        Edit::SetAttribute(k, _) => k,
        Edit::RemoveAttribute(k) => k,
        _ => Seq::empty(),
    }
}

/// The edit is `set_attribute` or `remove_attribute`.
pub open spec fn is_attr_edit(e: Edit) -> bool {
    e is SetAttribute || e is RemoveAttribute
}

/// Attribute edits are classified by the two maps' contents alone: a key is
/// removed exactly when only the old map holds it, and set to a value exactly
/// when the new map holds that value and the old map does not. Each edit is
/// an attribute edit, and their keys ascend strictly, so no key comes twice.
pub proof fn lemma_attr_edits_classified(
    old: Map<Seq<char>, Seq<char>>,
    new: Map<Seq<char>, Seq<char>>,
    a: Seq<Edit>,
)
    requires
        attr_edits(old, new, a),
    ensures
        forall|k: Seq<char>|
            a.contains(Edit::RemoveAttribute(k)) <==> (old.contains_key(k) && !new.contains_key(k)),
        forall|k: Seq<char>, v: Seq<char>|
            a.contains(Edit::SetAttribute(k, v)) <==> (new.contains_key(k) && new[k] == v && !(
            old.contains_key(k) && old[k] == v)),
        forall|i: int| 0 <= i < a.len() ==> is_attr_edit(#[trigger] a[i]),
        forall|i: int, j: int|
            0 <= i < j < a.len() ==> key_lt(edit_key(#[trigger] a[i]), edit_key(#[trigger] a[j])),
{
    let c = choose|c: Seq<AttrChange>| is_attr_diff(c, old, new) && a == c.map_values(|x: AttrChange| x.edit());
    lemma_attr_diff_keys(c, old, new);
    let ks = c.map_values(|x: AttrChange| x.key());
    assert(a == ks.map_values(|k: Seq<char>| key_edit(k, new)));
    assert forall|i: int| 0 <= i < a.len() implies edit_key(a[i]) == ks[i] && is_attr_edit(a[i]) by {
        assert(a[i] == key_edit(ks[i], new));
    }
    assert forall|k: Seq<char>|
        a.contains(Edit::RemoveAttribute(k)) <==> (old.contains_key(k) && !new.contains_key(k)) by {
        if a.contains(Edit::RemoveAttribute(k)) {
            let i = choose|i: int| 0 <= i < a.len() && a[i] == Edit::RemoveAttribute(k);
            assert(a[i] == key_edit(ks[i], new));
            assert(ks[i] == k);
            assert(ks.contains(ks[i]));
            assert(key_changed(k, old, new));
        }
        if old.contains_key(k) && !new.contains_key(k) {
            assert(key_changed(k, old, new));
            assert(ks.contains(k));
            let i = choose|i: int| 0 <= i < ks.len() && ks[i] == k;
            assert(a[i] == key_edit(ks[i], new));
            assert(a[i] == Edit::RemoveAttribute(k));
            assert(a.contains(Edit::RemoveAttribute(k)));
        }
    }
    assert forall|k: Seq<char>, v: Seq<char>|
        a.contains(Edit::SetAttribute(k, v)) <==> (new.contains_key(k) && new[k] == v && !(
        old.contains_key(k) && old[k] == v)) by {
        if a.contains(Edit::SetAttribute(k, v)) {
            let i = choose|i: int| 0 <= i < a.len() && a[i] == Edit::SetAttribute(k, v);
            assert(a[i] == key_edit(ks[i], new));
            assert(ks[i] == k);
            assert(ks.contains(ks[i]));
            assert(key_changed(k, old, new));
        }
        if new.contains_key(k) && new[k] == v && !(old.contains_key(k) && old[k] == v) {
            assert(key_changed(k, old, new));
            assert(ks.contains(k));
            let i = choose|i: int| 0 <= i < ks.len() && ks[i] == k;
            assert(a[i] == key_edit(ks[i], new));
            assert(a[i] == Edit::SetAttribute(k, v));
            assert(a.contains(Edit::SetAttribute(k, v)));
        }
    }
    assert forall|i: int, j: int| 0 <= i < j < a.len() implies key_lt(edit_key(a[i]), edit_key(a[j])) by {
        assert(edit_key(a[i]) == ks[i]);
        assert(edit_key(a[j]) == ks[j]);
    }
}

/// Relies on `im::OrdMap::diff`: the entries to add, update or remove to turn
/// `old` into `new`, walked in ascending key order; an update is reported
/// only where the two values differ.
#[verifier::external_body]
pub(crate) fn attr_changes(old: &Attrs, new: &Attrs) -> (r: Vec<AttrChange>)
    ensures
        is_attr_diff(r@, attr_entries(*old), attr_entries(*new)),
{
    old.diff(new).map(|item| match item {
        im::ordmap::DiffItem::Add(k, v) => AttrChange::Added(k.clone(), v.clone()),
        im::ordmap::DiffItem::Update { new: (k, v), .. } => AttrChange::Updated(k.clone(), v.clone()),
        im::ordmap::DiffItem::Remove(k, _) => AttrChange::Removed(k.clone()),
    }).collect()
}

} // verus!
