//! The order in which endpoints were declared has no bearing on the client.

use vstd::prelude::*;
use crate::client::{client, emitted, first_repeat, selects};
use crate::client_laws::{lemma_emitted_sorted, lemma_first_repeat};
use crate::descriptor::Descriptor;
use crate::order::{
    first_after, insert_by_name, lemma_first_after, lemma_name_le_total_order, name_le,
    sorted_by_name,
};

verus! {

/// The descriptor at `i` has the name of one that stands next to it.
pub open spec fn has_twin(ds: Seq<Descriptor>, i: int) -> bool {
    ||| 0 < i < ds.len() && ds[i].name == ds[i - 1].name
    ||| 0 <= i && i + 1 < ds.len() && ds[i].name == ds[i + 1].name
}

/// Two sequences of descriptors with the same names in the same places, which
/// differ only where a name stands twice in a row.
pub open spec fn alike(a: Seq<Descriptor>, b: Seq<Descriptor>) -> bool {
    &&& a.len() == b.len()
    &&& forall|i: int| 0 <= i < a.len() ==> (#[trigger] a[i]).name == b[i].name
    &&& forall|i: int| 0 <= i < a.len() && #[trigger] a[i] != b[i] ==> has_twin(a, i)
}

/// An insertion point is found by what bounds it.
pub proof fn lemma_first_after_is(ds: Seq<Descriptor>, name: Seq<char>, from: int, n: int)
    requires
        0 <= from <= n <= ds.len(),
        forall|k: int| from <= k < n ==> name_le((#[trigger] ds[k]).name, name),
        n < ds.len() ==> !name_le(ds[n].name, name),
    ensures
        first_after(ds, name, from) == n,
    decreases n - from,
{
    if from < n {
        lemma_first_after_is(ds, name, from + 1, n);
    }
}

/// Where a descriptor goes depends on the names alone.
proof fn lemma_alike_first_after(a: Seq<Descriptor>, b: Seq<Descriptor>, name: Seq<char>)
    requires
        alike(a, b),
    ensures
        first_after(a, name, 0) == first_after(b, name, 0),
{
    lemma_first_after(a, name, 0);
    let p = first_after(a, name, 0);
    assert forall|k: int| 0 <= k < p implies name_le((#[trigger] b[k]).name, name) by {
        assert(a[k].name == b[k].name);
    }
    if p < b.len() {
        assert(a[p].name == b[p].name);
    }
    lemma_first_after_is(b, name, 0, p);
}

/// Putting the same descriptor into two sequences that are alike leaves them
/// alike.
proof fn lemma_alike_insert(a: Seq<Descriptor>, b: Seq<Descriptor>, d: Descriptor)
    requires
        alike(a, b),
    ensures
        alike(insert_by_name(a, d), insert_by_name(b, d)),
{
    lemma_alike_first_after(a, b, d.name);
    lemma_first_after(a, d.name, 0);
    let p = first_after(a, d.name, 0);
    let x = a.insert(p, d);
    let y = b.insert(p, d);
    assert forall|i: int| 0 <= i < x.len() implies (#[trigger] x[i]).name == y[i].name by {
        if i < p {
            assert(a[i].name == b[i].name);
        } else if i > p {
            assert(a[i - 1].name == b[i - 1].name);
        }
    }
    assert forall|i: int| 0 <= i < x.len() && #[trigger] x[i] != y[i] implies has_twin(x, i) by {
        if i < p {
            assert(a[i] != b[i]);
            assert(has_twin(a, i));
            if 0 < i && a[i].name == a[i - 1].name {
                assert(x[i - 1] == a[i - 1]);
            } else {
                assert(a[i].name == a[i + 1].name);
                if i + 1 == p {
                    assert(name_le(a[i].name, d.name));
                    assert(!name_le(a[p].name, d.name));
                }
                assert(x[i + 1] == a[i + 1]);
            }
        } else {
            let j = i - 1;
            assert(a[j] != b[j]);
            assert(has_twin(a, j));
            if j + 1 < a.len() && a[j].name == a[j + 1].name {
                assert(x[i + 1] == a[j + 1]);
            } else {
                assert(a[j].name == a[j - 1].name);
                if j == p {
                    assert(name_le(a[j - 1].name, d.name));
                    assert(!name_le(a[p].name, d.name));
                }
                assert(x[i - 1] == a[j - 1]);
            }
        }
    }
}

/// Two descriptors of one name go in side by side: put in in either order,
/// the results are alike.
proof fn lemma_insert_same_name(s: Seq<Descriptor>, x: Descriptor, y: Descriptor)
    requires
        x.name == y.name,
    ensures
        alike(insert_by_name(insert_by_name(s, x), y), insert_by_name(insert_by_name(s, y), x)),
{
    lemma_name_le_total_order();
    lemma_first_after(s, x.name, 0);
    let p = first_after(s, x.name, 0);
    let sx = s.insert(p, x);
    let sy = s.insert(p, y);
    assert forall|k: int| 0 <= k < p + 1 implies name_le((#[trigger] sx[k]).name, y.name) by {
        if k < p {
            assert(sx[k] == s[k]);
        }
    }
    if p + 1 < sx.len() {
        assert(sx[p + 1] == s[p]);
    }
    lemma_first_after_is(sx, y.name, 0, p + 1);
    assert forall|k: int| 0 <= k < p + 1 implies name_le((#[trigger] sy[k]).name, x.name) by {
        if k < p {
            assert(sy[k] == s[k]);
        }
    }
    if p + 1 < sy.len() {
        assert(sy[p + 1] == s[p]);
    }
    lemma_first_after_is(sy, x.name, 0, p + 1);
    let a = sx.insert(p + 1, y);
    let b = sy.insert(p + 1, x);
    assert forall|i: int| 0 <= i < a.len() && #[trigger] a[i] != b[i] implies has_twin(a, i) by {
        assert(a[p] == x && a[p + 1] == y);
        if i < p {
            assert(a[i] == s[i] && b[i] == s[i]);
        } else if i > p + 1 {
            assert(a[i] == s[i - 2] && b[i] == s[i - 2]);
        }
    }
    assert forall|i: int| 0 <= i < a.len() implies (#[trigger] a[i]).name == b[i].name by {
        if i < p {
            assert(a[i] == s[i] && b[i] == s[i]);
        } else if i > p + 1 {
            assert(a[i] == s[i - 2] && b[i] == s[i - 2]);
        }
    }
}

/// Two descriptors of which the first has the smaller name go to their places
/// whichever is put in first.
proof fn lemma_insert_commutes(s: Seq<Descriptor>, x: Descriptor, y: Descriptor)
    requires
        sorted_by_name(s),
        name_le(x.name, y.name),
        x.name != y.name,
    ensures
        insert_by_name(insert_by_name(s, x), y) == insert_by_name(insert_by_name(s, y), x),
{
    lemma_name_le_total_order();
    lemma_first_after(s, x.name, 0);
    lemma_first_after(s, y.name, 0);
    let px = first_after(s, x.name, 0);
    let py = first_after(s, y.name, 0);
    assert(!name_le(y.name, x.name));
    if py < px {
        assert(name_le(s[py].name, x.name));
        assert(name_le(s[py].name, y.name));
    }
    let sx = s.insert(px, x);
    let sy = s.insert(py, y);
    assert forall|k: int| 0 <= k < py + 1 implies name_le((#[trigger] sx[k]).name, y.name) by {
        if k < px {
            assert(sx[k] == s[k]);
        } else if k > px {
            assert(sx[k] == s[k - 1]);
        }
    }
    if py + 1 < sx.len() {
        assert(sx[py + 1] == s[py]);
    }
    lemma_first_after_is(sx, y.name, 0, py + 1);
    assert forall|k: int| 0 <= k < px implies name_le((#[trigger] sy[k]).name, x.name) by {
        assert(sy[k] == s[k]);
    }
    if px < py {
        assert(sy[px] == s[px]);
    } else {
        assert(sy[px] == y);
    }
    lemma_first_after_is(sy, x.name, 0, px);
    assert(sx.insert(py + 1, y) =~= sy.insert(px, x));
}

/// Exchanging the last two declared endpoints leaves what is written alike.
proof fn lemma_exchange_last(
    active: Seq<Seq<char>>,
    before: Seq<Descriptor>,
    x: Descriptor,
    y: Descriptor,
    only_registered: bool,
)
    ensures
        alike(
            emitted(active, before + seq![x, y], only_registered),
            emitted(active, before + seq![y, x], only_registered),
        ),
{
    let s = emitted(active, before, only_registered);
    let xy = before + seq![x, y];
    let yx = before + seq![y, x];
    assert(xy.drop_last() =~= before.push(x));
    assert(yx.drop_last() =~= before.push(y));
    assert(before.push(x).drop_last() =~= before);
    assert(before.push(y).drop_last() =~= before);
    assert(xy.last() == y && yx.last() == x);
    assert(before.push(x).last() == x && before.push(y).last() == y);
    lemma_emitted_sorted(active, before, only_registered);
    lemma_name_le_total_order();
    let a = emitted(active, xy, only_registered);
    let b = emitted(active, yx, only_registered);
    let with_x = emitted(active, before.push(x), only_registered);
    let with_y = emitted(active, before.push(y), only_registered);
    let takes_x = selects(active, only_registered, x.name);
    let takes_y = selects(active, only_registered, y.name);
    assert(with_x == if takes_x {
        insert_by_name(s, x)
    } else {
        s
    });
    assert(with_y == if takes_y {
        insert_by_name(s, y)
    } else {
        s
    });
    assert(a == if takes_y {
        insert_by_name(with_x, y)
    } else {
        with_x
    });
    assert(b == if takes_x {
        insert_by_name(with_y, x)
    } else {
        with_y
    });
    if selects(active, only_registered, x.name) && selects(active, only_registered, y.name) {
        if x.name == y.name {
            lemma_insert_same_name(s, x, y);
        } else if name_le(x.name, y.name) {
            lemma_insert_commutes(s, x, y);
        } else {
            lemma_insert_commutes(s, y, x);
        }
    }
}

/// What is written of two registries stays alike as the same endpoints are
/// declared after them.
proof fn lemma_alike_extend(
    active: Seq<Seq<char>>,
    first: Seq<Descriptor>,
    second: Seq<Descriptor>,
    after: Seq<Descriptor>,
    only_registered: bool,
)
    requires
        alike(
            emitted(active, first, only_registered),
            emitted(active, second, only_registered),
        ),
    ensures
        alike(
            emitted(active, first + after, only_registered),
            emitted(active, second + after, only_registered),
        ),
    decreases after.len(),
{
    if after.len() == 0 {
        assert(first + after =~= first);
        assert(second + after =~= second);
    } else {
        let head = after.drop_last();
        lemma_alike_extend(active, first, second, head, only_registered);
        assert((first + after).drop_last() =~= first + head);
        assert((second + after).drop_last() =~= second + head);
        assert((first + after).last() == after.last());
        assert((second + after).last() == after.last());
        if selects(active, only_registered, after.last().name) {
            lemma_alike_insert(
                emitted(active, first + head, only_registered),
                emitted(active, second + head, only_registered),
                after.last(),
            );
        }
    }
}

/// Whether and where a name stands twice in a row depends on the names
/// alone.
proof fn lemma_alike_first_repeat(a: Seq<Descriptor>, b: Seq<Descriptor>, from: int)
    requires
        alike(a, b),
        1 <= from,
    ensures
        first_repeat(a, from) == first_repeat(b, from),
    decreases a.len() - from,
{
    if from < a.len() {
        assert(a[from].name == b[from].name);
        assert(a[from - 1].name == b[from - 1].name);
        if a[from].name != a[from - 1].name {
            lemma_alike_first_repeat(a, b, from + 1);
        }
    }
}

/// The order in which the endpoints were declared has no bearing on the
/// client: with two neighbours of the registry exchanged it is the same, text
/// or failure. Every other order is reached by such exchanges.
pub proof fn lemma_order_of_registration(
    active: Seq<Seq<char>>,
    before: Seq<Descriptor>,
    x: Descriptor,
    y: Descriptor,
    after: Seq<Descriptor>,
    server_url: Seq<char>,
    transport: Seq<char>,
    only_registered: bool,
    must_export: bool,
)
    ensures
        client(
            active,
            before + seq![x, y] + after,
            server_url,
            transport,
            only_registered,
            must_export,
        ) == client(
            active,
            before + seq![y, x] + after,
            server_url,
            transport,
            only_registered,
            must_export,
        ),
{
    let a = emitted(active, before + seq![x, y] + after, only_registered);
    let b = emitted(active, before + seq![y, x] + after, only_registered);
    lemma_exchange_last(active, before, x, y, only_registered);
    lemma_alike_extend(active, before + seq![x, y], before + seq![y, x], after, only_registered);
    lemma_alike_first_repeat(a, b, 1);
    lemma_first_repeat(a, 1);
    let r = first_repeat(a, 1);
    if r < a.len() {
        assert(a[r].name == b[r].name);
    } else {
        assert forall|i: int| 0 <= i < a.len() implies a[i] == b[i] by {
            if a[i] != b[i] {
                assert(has_twin(a, i));
                if 0 < i && a[i].name == a[i - 1].name {
                    assert(a[i].name != a[i - 1].name);
                } else {
                    assert(a[i + 1].name != a[i].name);
                }
            }
        }
        assert(a =~= b);
    }
}

} // verus!
