//! The order in which endpoints are written: by name.

use vstd::prelude::*;
use crate::descriptor::Descriptor;

verus! {

/// Whether `a` comes before `b`, or is `b`, when the two are compared
/// character by character from index `i` on; they agree before `i`.
pub open spec fn le_from(a: Seq<char>, b: Seq<char>, i: int) -> bool
    decreases a.len() - i,
{
    if i >= a.len() {
        true
    } else if i >= b.len() {
        false
    } else if a[i] != b[i] {
        a[i] < b[i]
    } else {
        le_from(a, b, i + 1)
    }
}

/// The order of names: character by character, a name before those it is a
/// proper start of.
pub open spec fn name_le(a: Seq<char>, b: Seq<char>) -> bool {
    le_from(a, b, 0)
}

/// The names of a sequence of descriptors.
pub open spec fn names_of(ds: Seq<Descriptor>) -> Seq<Seq<char>> {
    ds.map_values(|d: Descriptor| d.name)
}

/// Each descriptor's name is at most that of the next.
pub open spec fn sorted_by_name(ds: Seq<Descriptor>) -> bool {
    forall|i: int, j: int| 0 <= i <= j < ds.len() ==> name_le(ds[i].name, ds[j].name)
}

/// The first index from `from` on whose descriptor has a name after `name`, or
/// the length.
pub open spec fn first_after(ds: Seq<Descriptor>, name: Seq<char>, from: int) -> int
    decreases ds.len() - from,
{
    if 0 <= from < ds.len() && name_le(ds[from].name, name) {
        first_after(ds, name, from + 1)
    } else {
        from
    }
}

/// `ds` with `d` put in before the first descriptor whose name is after that
/// of `d`.
pub open spec fn insert_by_name(ds: Seq<Descriptor>, d: Descriptor) -> Seq<Descriptor> {
    ds.insert(first_after(ds, d.name, 0), d)
}

pub proof fn lemma_first_after(ds: Seq<Descriptor>, name: Seq<char>, from: int)
    requires
        0 <= from <= ds.len(),
    ensures
        from <= first_after(ds, name, from) <= ds.len(),
        forall|k: int|
            from <= k < first_after(ds, name, from) ==> name_le((#[trigger] ds[k]).name, name),
        first_after(ds, name, from) < ds.len() ==> !name_le(
            ds[first_after(ds, name, from)].name,
            name,
        ),
    decreases ds.len() - from,
{
    if from < ds.len() && name_le(ds[from].name, name) {
        lemma_first_after(ds, name, from + 1);
    }
}

/// Two names that agree before `i` and are each at most the other from `i` on
/// are one name.
pub proof fn lemma_le_from_antisymmetric(a: Seq<char>, b: Seq<char>, i: int)
    requires
        0 <= i,
        i <= a.len(),
        i <= b.len(),
        forall|k: int| 0 <= k < i ==> a[k] == b[k],
        le_from(a, b, i),
        le_from(b, a, i),
    ensures
        a == b,
    decreases a.len() - i,
{
    if i >= a.len() || i >= b.len() {
        assert(a =~= b);
    } else {
        lemma_le_from_antisymmetric(a, b, i + 1);
    }
}

pub proof fn lemma_le_from_transitive(a: Seq<char>, b: Seq<char>, c: Seq<char>, i: int)
    requires
        0 <= i,
        le_from(a, b, i),
        le_from(b, c, i),
    ensures
        le_from(a, c, i),
    decreases a.len() - i,
{
    if i < a.len() && i < b.len() && i < c.len() && a[i] == b[i] && b[i] == c[i] {
        lemma_le_from_transitive(a, b, c, i + 1);
    }
}

pub proof fn lemma_le_from_total(a: Seq<char>, b: Seq<char>, i: int)
    requires
        0 <= i,
    ensures
        le_from(a, b, i) || le_from(b, a, i),
    decreases a.len() - i,
{
    if i < a.len() && i < b.len() && a[i] == b[i] {
        lemma_le_from_total(a, b, i + 1);
    }
}

pub proof fn lemma_le_from_reflexive(a: Seq<char>, i: int)
    requires
        0 <= i,
    ensures
        le_from(a, a, i),
    decreases a.len() - i,
{
    if i < a.len() {
        lemma_le_from_reflexive(a, i + 1);
    }
}

/// The order of names is a total order.
pub proof fn lemma_name_le_total_order()
    ensures
        forall|a: Seq<char>| #[trigger] name_le(a, a),
        forall|a: Seq<char>, b: Seq<char>| #[trigger] name_le(a, b) || #[trigger] name_le(b, a),
        forall|a: Seq<char>, b: Seq<char>|
            #[trigger] name_le(a, b) && #[trigger] name_le(b, a) ==> a == b,
        forall|a: Seq<char>, b: Seq<char>, c: Seq<char>|
            #[trigger] name_le(a, b) && #[trigger] name_le(b, c) ==> name_le(a, c),
{
    assert forall|a: Seq<char>| #[trigger] name_le(a, a) by {
        lemma_le_from_reflexive(a, 0);
    }
    assert forall|a: Seq<char>, b: Seq<char>| #[trigger]
        name_le(a, b) || #[trigger] name_le(b, a) by {
        lemma_le_from_total(a, b, 0);
    }
    assert forall|a: Seq<char>, b: Seq<char>| #[trigger]
        name_le(a, b) && #[trigger] name_le(b, a) implies a == b by {
        lemma_le_from_antisymmetric(a, b, 0);
    }
    assert forall|a: Seq<char>, b: Seq<char>, c: Seq<char>| #[trigger]
        name_le(a, b) && #[trigger] name_le(b, c) implies name_le(a, c) by {
        lemma_le_from_transitive(a, b, c, 0);
    }
}

/// Putting a descriptor in by name keeps the names in order.
pub proof fn lemma_insert_keeps_sorted(ds: Seq<Descriptor>, d: Descriptor)
    requires
        sorted_by_name(ds),
    ensures
        sorted_by_name(insert_by_name(ds, d)),
{
    let p = first_after(ds, d.name, 0);
    let after = insert_by_name(ds, d);
    lemma_first_after(ds, d.name, 0);
    lemma_name_le_total_order();
    assert forall|i: int, j: int| 0 <= i <= j < after.len() implies name_le(
        after[i].name,
        after[j].name,
    ) by {
        if i == j {
        } else if j < p {
            assert(after[i] == ds[i] && after[j] == ds[j]);
        } else if j == p {
            assert(after[i] == ds[i]);
        } else if i < p {
            assert(after[i] == ds[i] && after[j] == ds[j - 1]);
        } else if i == p {
            assert(after[j] == ds[j - 1]);
            assert(name_le(ds[p].name, ds[j - 1].name));
            assert(!name_le(ds[p].name, d.name));
            assert(name_le(d.name, ds[p].name));
        } else {
            assert(after[i] == ds[i - 1] && after[j] == ds[j - 1]);
        }
    }
}

/// Whether the name `a` comes before the name `b`, or is `b`.
pub(crate) fn chars_le(a: &[char], b: &[char]) -> (r: bool)
    ensures
        r == name_le(a@, b@),
{
    let mut i: usize = 0;
    while i < a.len() && i < b.len() && a[i] == b[i]
        invariant
            i <= a.len(),
            i <= b.len(),
            name_le(a@, b@) == le_from(a@, b@, i as int),
        decreases a.len() - i,
    {
        i += 1;
    }
    if i >= a.len() {
        true
    } else if i >= b.len() {
        false
    } else {
        a[i] < b[i]
    }
}

} // verus!
