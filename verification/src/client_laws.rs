//! What holds of every generated client.

use vstd::prelude::*;
use crate::client::{client, emitted, first_repeat, missing, selects};
use crate::descriptor::Descriptor;
use crate::error::Failure;
use crate::order::{
    first_after, lemma_first_after, lemma_insert_keeps_sorted, lemma_name_le_total_order, name_le,
    names_of, sorted_by_name,
};

verus! {

/// How many descriptors of `ds` are named `name`.
pub open spec fn count_named(ds: Seq<Descriptor>, name: Seq<char>) -> nat
    decreases ds.len(),
{
    if ds.len() == 0 {
        0
    } else {
        count_named(ds.drop_last(), name) + if ds.last().name == name {
            1nat
        } else {
            0nat
        }
    }
}

/// How many descriptors of `registry` are named `name` and written.
pub open spec fn count_selected(
    active: Seq<Seq<char>>,
    registry: Seq<Descriptor>,
    only_registered: bool,
    name: Seq<char>,
) -> nat {
    if selects(active, only_registered, name) {
        count_named(registry, name)
    } else {
        0
    }
}

/// The descriptors that are written stand in the order of their names.
pub proof fn lemma_emitted_sorted(
    active: Seq<Seq<char>>,
    registry: Seq<Descriptor>,
    only_registered: bool,
)
    ensures
        sorted_by_name(emitted(active, registry, only_registered)),
    decreases registry.len(),
{
    if registry.len() > 0 {
        lemma_emitted_sorted(active, registry.drop_last(), only_registered);
        lemma_insert_keeps_sorted(
            emitted(active, registry.drop_last(), only_registered),
            registry.last(),
        );
    }
}

/// Putting a descriptor in adds one to the count of its name, and nothing to
/// the others.
pub proof fn lemma_count_insert(ds: Seq<Descriptor>, p: int, d: Descriptor, name: Seq<char>)
    requires
        0 <= p <= ds.len(),
    ensures
        count_named(ds.insert(p, d), name) == count_named(ds, name) + if d.name == name {
            1nat
        } else {
            0nat
        },
    decreases ds.len() - p,
{
    let after = ds.insert(p, d);
    if p == ds.len() {
        assert(after.drop_last() =~= ds);
        assert(after.last() == d);
    } else {
        assert(after.drop_last() =~= ds.drop_last().insert(p, d));
        assert(after.last() == ds.last());
        lemma_count_insert(ds.drop_last(), p, d, name);
    }
}

/// Of each name as many descriptors are written as are declared and
/// selected.
pub proof fn lemma_emitted_count(
    active: Seq<Seq<char>>,
    registry: Seq<Descriptor>,
    only_registered: bool,
    name: Seq<char>,
)
    ensures
        count_named(emitted(active, registry, only_registered), name) == count_selected(
            active,
            registry,
            only_registered,
            name,
        ),
    decreases registry.len(),
{
    if registry.len() > 0 {
        let before = emitted(active, registry.drop_last(), only_registered);
        lemma_emitted_count(active, registry.drop_last(), only_registered, name);
        if selects(active, only_registered, registry.last().name) {
            lemma_first_after(before, registry.last().name, 0);
            lemma_count_insert(
                before,
                first_after(before, registry.last().name, 0),
                registry.last(),
                name,
            );
        }
    }
}

/// A name is counted once for each index at which it stands.
pub proof fn lemma_count_bounds(ds: Seq<Descriptor>, name: Seq<char>)
    ensures
        count_named(ds, name) >= 1 <==> exists|i: int| 0 <= i < ds.len() && (#[trigger] ds[i]).name
            == name,
        count_named(ds, name) >= 2 <==> exists|i: int, j: int|
            0 <= i < j < ds.len() && (#[trigger] ds[i]).name == name && (#[trigger] ds[j]).name
                == name,
    decreases ds.len(),
{
    if ds.len() > 0 {
        let head = ds.drop_last();
        let last = ds.len() - 1;
        lemma_count_bounds(head, name);
        if count_named(ds, name) >= 1 {
            if ds.last().name == name {
                assert(ds[last].name == name);
            } else {
                let i = choose|i: int| 0 <= i < head.len() && (#[trigger] head[i]).name == name;
                assert(ds[i].name == name);
            }
        }
        if exists|i: int| 0 <= i < ds.len() && (#[trigger] ds[i]).name == name {
            let i = choose|i: int| 0 <= i < ds.len() && (#[trigger] ds[i]).name == name;
            if i < last {
                assert(head[i].name == name);
            }
        }
        if count_named(ds, name) >= 2 {
            if ds.last().name == name {
                let i = choose|i: int| 0 <= i < head.len() && (#[trigger] head[i]).name == name;
                assert(ds[i].name == name && ds[last].name == name);
            } else {
                let (i, j) = choose|i: int, j: int|
                    0 <= i < j < head.len() && (#[trigger] head[i]).name == name && (
                    #[trigger] head[j]).name == name;
                assert(ds[i].name == name && ds[j].name == name);
            }
        }
        if exists|i: int, j: int|
            0 <= i < j < ds.len() && (#[trigger] ds[i]).name == name && (#[trigger] ds[j]).name
                == name {
            let (i, j) = choose|i: int, j: int|
                0 <= i < j < ds.len() && (#[trigger] ds[i]).name == name && (#[trigger] ds[j]).name
                    == name;
            assert(head[i].name == name);
            if j < last {
                assert(head[j].name == name);
            }
        }
    }
}

/// What `first_repeat` finds: no descriptor before it has the name of the one
/// before, and the one at it, if there is one, has.
pub proof fn lemma_first_repeat(ds: Seq<Descriptor>, from: int)
    requires
        1 <= from,
    ensures
        from <= first_repeat(ds, from),
        first_repeat(ds, from) <= ds.len() || first_repeat(ds, from) == from,
        forall|k: int| from <= k < first_repeat(ds, from) ==> (#[trigger] ds[k]).name != ds[k - 1].name,
        first_repeat(ds, from) < ds.len() ==> ds[first_repeat(ds, from)].name == ds[first_repeat(
            ds,
            from,
        ) - 1].name,
    decreases ds.len() - from,
{
    if from < ds.len() && ds[from].name != ds[from - 1].name {
        lemma_first_repeat(ds, from + 1);
    }
}

/// Among descriptors in the order of their names, those of one name stand
/// side by side: where a name occurs twice, `first_repeat` finds a repeat.
pub proof fn lemma_sorted_repeat(ds: Seq<Descriptor>, i: int, j: int)
    requires
        sorted_by_name(ds),
        0 <= i < j < ds.len(),
        ds[i].name == ds[j].name,
    ensures
        first_repeat(ds, 1) < ds.len(),
{
    lemma_first_repeat(ds, 1);
    lemma_name_le_total_order();
    assert(name_le(ds[i].name, ds[i + 1].name));
    assert(name_le(ds[i + 1].name, ds[j].name));
    assert(ds[i + 1].name == ds[i].name);
    if first_repeat(ds, 1) >= ds.len() {
        assert(ds[i + 1].name != ds[i].name);
    }
}

/// Two declared endpoints of one name, both of which are to be written, make
/// the client fail with `DuplicateExportName`.
pub proof fn lemma_shared_name_fails(
    active: Seq<Seq<char>>,
    registry: Seq<Descriptor>,
    server_url: Seq<char>,
    transport: Seq<char>,
    only_registered: bool,
    must_export: bool,
    i: int,
    j: int,
)
    requires
        0 <= i < j < registry.len(),
        registry[i].name == registry[j].name,
        selects(active, only_registered, registry[i].name),
    ensures
        client(active, registry, server_url, transport, only_registered, must_export) matches Err(
            Failure::DuplicateExportName(_),
        ),
{
    let name = registry[i].name;
    let ds = emitted(active, registry, only_registered);
    lemma_count_bounds(registry, name);
    lemma_emitted_count(active, registry, only_registered, name);
    lemma_count_bounds(ds, name);
    lemma_emitted_sorted(active, registry, only_registered);
    let (a, b) = choose|a: int, b: int|
        0 <= a < b < ds.len() && (#[trigger] ds[a]).name == name && (#[trigger] ds[b]).name == name;
    lemma_sorted_repeat(ds, a, b);
}

/// The client fails with `DuplicateExportName` only for a name under which
/// two declared endpoints are to be written.
pub proof fn lemma_duplicate_export_name(
    active: Seq<Seq<char>>,
    registry: Seq<Descriptor>,
    server_url: Seq<char>,
    transport: Seq<char>,
    only_registered: bool,
    must_export: bool,
    name: Seq<char>,
)
    requires
        client(active, registry, server_url, transport, only_registered, must_export) == Err::<
            Seq<char>,
            Failure,
        >(Failure::DuplicateExportName(name)),
    ensures
        selects(active, only_registered, name),
        exists|i: int, j: int|
            0 <= i < j < registry.len() && (#[trigger] registry[i]).name == name && (
            #[trigger] registry[j]).name == name,
{
    let ds = emitted(active, registry, only_registered);
    let r = first_repeat(ds, 1);
    lemma_first_repeat(ds, 1);
    assert(ds[r].name == name && ds[r - 1].name == name);
    lemma_count_bounds(ds, name);
    lemma_emitted_count(active, registry, only_registered, name);
    lemma_count_bounds(registry, name);
}

/// A name is among those written where an endpoint of that name is declared
/// and selected.
pub proof fn lemma_written_names(
    active: Seq<Seq<char>>,
    registry: Seq<Descriptor>,
    only_registered: bool,
    name: Seq<char>,
)
    ensures
        names_of(emitted(active, registry, only_registered)).contains(name) <==> selects(
            active,
            only_registered,
            name,
        ) && names_of(registry).contains(name),
{
    let ds = emitted(active, registry, only_registered);
    lemma_count_bounds(ds, name);
    lemma_emitted_count(active, registry, only_registered, name);
    lemma_count_bounds(registry, name);
    if names_of(ds).contains(name) {
        let i = choose|i: int| 0 <= i < names_of(ds).len() && names_of(ds)[i] == name;
        assert(ds[i].name == name);
        let k = choose|k: int| 0 <= k < registry.len() && (#[trigger] registry[k]).name == name;
        assert(names_of(registry)[k] == name);
    }
    if selects(active, only_registered, name) && names_of(registry).contains(name) {
        let k = choose|k: int| 0 <= k < names_of(registry).len() && names_of(registry)[k] == name;
        assert(registry[k].name == name);
        let i = choose|i: int| 0 <= i < ds.len() && (#[trigger] ds[i]).name == name;
        assert(names_of(ds)[i] == name);
    }
}

/// The missing names are the bound names that are not written, each as
/// often and in the order in which it is bound.
pub proof fn lemma_missing(active: Seq<Seq<char>>, present: Seq<Seq<char>>, name: Seq<char>)
    ensures
        missing(active, present).contains(name) <==> active.contains(name) && !present.contains(
            name,
        ),
    decreases active.len(),
{
    if active.len() > 0 {
        let head = active.drop_last();
        let last = active.last();
        lemma_missing(head, present, name);
        let rest = missing(head, present);
        if active.contains(name) {
            let i = choose|i: int| 0 <= i < active.len() && active[i] == name;
            if i < active.len() - 1 {
                assert(head[i] == name);
            }
        }
        if head.contains(name) {
            let i = choose|i: int| 0 <= i < head.len() && head[i] == name;
            assert(active[i] == name);
        }
        assert(active[active.len() - 1] == last);
        if !present.contains(last) {
            let m = rest.push(last);
            assert(m[m.len() - 1] == last);
            if rest.contains(name) {
                let i = choose|i: int| 0 <= i < rest.len() && rest[i] == name;
                assert(m[i] == name);
            }
            if m.contains(name) {
                let i = choose|i: int| 0 <= i < m.len() && m[i] == name;
                if i < rest.len() {
                    assert(rest[i] == name);
                }
            }
        }
    }
}

/// Where every bound name must be written, the client is never given while
/// one is not: it fails, and where it fails with `UnexportedActivation`, that
/// names every bound name of which no endpoint is written, and no other.
pub proof fn lemma_unexported_activation(
    active: Seq<Seq<char>>,
    registry: Seq<Descriptor>,
    server_url: Seq<char>,
    transport: Seq<char>,
    only_registered: bool,
    name: Seq<char>,
)
    requires
        active.contains(name),
        !names_of(registry).contains(name),
    ensures
        client(active, registry, server_url, transport, only_registered, true) is Err,
        forall|names: Seq<Seq<char>>|
            client(active, registry, server_url, transport, only_registered, true) == Err::<
                Seq<char>,
                Failure,
            >(Failure::UnexportedActivation(names)) ==> names.contains(name) && forall|
                other: Seq<char>,
            |
                names.contains(other) <==> active.contains(other) && !names_of(registry).contains(
                    other,
                ),
{
    let ds = emitted(active, registry, only_registered);
    let unexported = missing(active, names_of(ds));
    lemma_written_names(active, registry, only_registered, name);
    lemma_missing(active, names_of(ds), name);
    assert(unexported.contains(name));
    assert forall|other: Seq<char>|
        unexported.contains(other) <==> active.contains(other) && !names_of(registry).contains(
            other,
        ) by {
        lemma_written_names(active, registry, only_registered, other);
        lemma_missing(active, names_of(ds), other);
    }
}

/// The client is settled by the bound names, the declared endpoints and the
/// settings: generated twice from the same, it is twice the same, text or
/// failure.
pub proof fn lemma_client_is_settled(
    active: Seq<Seq<char>>,
    registry: Seq<Descriptor>,
    server_url: Seq<char>,
    transport: Seq<char>,
    only_registered: bool,
    must_export: bool,
    first: Result<Seq<char>, Failure>,
    second: Result<Seq<char>, Failure>,
)
    requires
        first == client(active, registry, server_url, transport, only_registered, must_export),
        second == client(active, registry, server_url, transport, only_registered, must_export),
    ensures
        first == second,
{
}

} // verus!
