//! The order of names. Names are ordered as texts are: by the bytes of
//! their UTF-8 form. A table of texts is put in that order by insertion,
//! each field in its turn taking its place among those before it.

use vstd::prelude::*;
use vstd::string::{StrSliceExecFns, StringExecFns, StringSliceAdditionalSpecFns};
use vstd::utf8::encode_utf8;
use crate::table::Table;

verus! {

/// The content of a table of texts.
pub open spec fn texts(t: Table<String>) -> Map<Seq<char>, Seq<char>> {
    t@.map_values(|s: String| s@)
}

/// The texts that a table holds, in the order of its names.
pub open spec fn type_texts(t: Table<String>) -> Seq<Seq<char>> {
    Seq::new(t.vals().len(), |i: int| t.vals()[i]@)
}

/// The positions of the entries of a sequence, as numbers.
pub open spec fn positions(v: Seq<usize>) -> Seq<int> {
    Seq::new(v.len(), |i: int| v[i] as int)
}

/// Whether one sequence of bytes comes before another in the order of the
/// dictionary: at the first place where they differ it has the smaller
/// byte, or it ends there and the other goes on.
pub open spec fn bytes_less(a: Seq<u8>, b: Seq<u8>) -> bool
    decreases a.len(),
{
    if b.len() == 0 {
        false
    } else if a.len() == 0 {
        true
    } else if a[0] != b[0] {
        a[0] < b[0]
    } else {
        bytes_less(a.drop_first(), b.drop_first())
    }
}

/// Whether one name comes before another: by the bytes of their UTF-8
/// form, as texts are ordered.
pub open spec fn name_less(a: Seq<char>, b: Seq<char>) -> bool {
    bytes_less(encode_utf8(a), encode_utf8(b))
}

/// Whether the names stand in order: none comes before one that stands
/// before it.
pub open spec fn in_order(names: Seq<Seq<char>>) -> bool {
    forall|i: int, j: int|
        0 <= i < j < names.len() ==> !name_less(#[trigger] names[j], #[trigger] names[i])
}

proof fn lemma_less_irreflexive(a: Seq<u8>)
    ensures
        !bytes_less(a, a),
    decreases a.len(),
{
    if a.len() > 0 {
        lemma_less_irreflexive(a.drop_first());
    }
}

proof fn lemma_less_transitive(a: Seq<u8>, b: Seq<u8>, c: Seq<u8>)
    requires
        bytes_less(a, b),
        bytes_less(b, c),
    ensures
        bytes_less(a, c),
    decreases a.len(),
{
    if a.len() > 0 && a[0] == b[0] && b[0] == c[0] {
        lemma_less_transitive(a.drop_first(), b.drop_first(), c.drop_first());
    }
}

/// Whether one name comes before another.
pub fn comes_before(a: &str, b: &str) -> (r: bool)
    ensures
        r == name_less(a@, b@),
{
    let x = a.as_bytes();
    let y = b.as_bytes();
    let mut i: usize = 0;
    assert(x@.skip(0) =~= x@ && y@.skip(0) =~= y@);
    while i < x.len() && i < y.len()
        invariant
            i <= x@.len(),
            i <= y@.len(),
            x@ == encode_utf8(a@),
            y@ == encode_utf8(b@),
            bytes_less(x@, y@) == bytes_less(x@.skip(i as int), y@.skip(i as int)),
        decreases x@.len() - i,
    {
        assert(x@.skip(i as int).drop_first() =~= x@.skip(i + 1));
        assert(y@.skip(i as int).drop_first() =~= y@.skip(i + 1));
        assert(x@.skip(i as int)[0] == x@[i as int]);
        assert(y@.skip(i as int)[0] == y@[i as int]);
        if x[i] != y[i] {
            return x[i] < y[i];
        }
        i = i + 1;
    }
    i < y.len()
}

/// An order of positions with one more position put in its place: before
/// the first whose name comes after its own, or at the end.
pub open spec fn place(names: Seq<Seq<char>>, order: Seq<int>, i: int) -> Seq<int>
    decreases order.len(),
{
    if order.len() == 0 {
        seq![i]
    } else if name_less(names[i], names[order[0]]) {
        seq![i] + order
    } else {
        seq![order[0]] + place(names, order.drop_first(), i)
    }
}

/// The first `k` positions of a list of names, in the order of the names.
/// Of two equal names the one that stands first stays first.
pub open spec fn name_order(names: Seq<Seq<char>>, k: int) -> Seq<int>
    decreases k,
{
    if k <= 0 {
        Seq::empty()
    } else {
        place(names, name_order(names, k - 1), k - 1)
    }
}

/// The positions of a list of names, in the order of the names.
pub open spec fn by_name(names: Seq<Seq<char>>) -> Seq<int> {
    name_order(names, names.len() as int)
}

/// The texts that stand at the given positions, in the order of the
/// positions.
pub open spec fn arranged(items: Seq<Seq<char>>, order: Seq<int>) -> Seq<Seq<char>> {
    Seq::new(order.len(), |j: int| items[order[j]])
}

proof fn lemma_place(names: Seq<Seq<char>>, order: Seq<int>, i: int)
    requires
        in_order(arranged(names, order)),
    ensures
        place(names, order, i).len() == order.len() + 1,
        forall|x: int| #[trigger] place(names, order, i).contains(x) <==> x == i || order.contains(x),
        in_order(arranged(names, place(names, order, i))),
        order.no_duplicates() && !order.contains(i) ==> place(names, order, i).no_duplicates(),
    decreases order.len(),
{
    let placed = place(names, order, i);
    if order.len() == 0 {
        assert(placed[0] == i);
    } else if name_less(names[i], names[order[0]]) {
        assert(placed[0] == i);
        assert forall|x: int| #[trigger] placed.contains(x) <==> x == i || order.contains(x) by {
            if order.contains(x) {
                let k = order.index_of(x);
                assert(placed[k + 1] == x);
            }
        }
        assert forall|a: int, b: int| 0 <= a < b < placed.len() implies !name_less(
            #[trigger] arranged(names, placed)[b],
            #[trigger] arranged(names, placed)[a],
        ) by {
            if a == 0 {
                let late = names[order[b - 1]];
                if name_less(late, names[i]) {
                    lemma_less_transitive(
                        encode_utf8(late),
                        encode_utf8(names[i]),
                        encode_utf8(names[order[0]]),
                    );
                    lemma_less_irreflexive(encode_utf8(late));
                    assert(arranged(names, order)[b - 1] == late);
                    assert(arranged(names, order)[0] == names[order[0]]);
                }
            } else {
                assert(arranged(names, order)[b - 1] == arranged(names, placed)[b]);
                assert(arranged(names, order)[a - 1] == arranged(names, placed)[a]);
            }
        }
    } else {
        let rest = order.drop_first();
        let inner = place(names, rest, i);
        assert forall|a: int, b: int| 0 <= a < b < rest.len() implies !name_less(
            #[trigger] arranged(names, rest)[b],
            #[trigger] arranged(names, rest)[a],
        ) by {
            assert(arranged(names, order)[b + 1] == arranged(names, rest)[b]);
            assert(arranged(names, order)[a + 1] == arranged(names, rest)[a]);
        }
        lemma_place(names, rest, i);
        assert(placed[0] == order[0]);
        assert forall|x: int| #[trigger] placed.contains(x) <==> x == i || order.contains(x) by {
            if placed.contains(x) {
                let k = placed.index_of(x);
                if k > 0 {
                    assert(inner[k - 1] == x);
                    assert(inner.contains(x));
                    if rest.contains(x) {
                        let j = rest.index_of(x);
                        assert(order[j + 1] == x);
                    }
                }
            }
            if x == i {
                assert(inner.contains(x));
                let k = inner.index_of(x);
                assert(placed[k + 1] == x);
            }
            if order.contains(x) {
                let j = order.index_of(x);
                if j == 0 {
                    assert(placed[0] == x);
                } else {
                    assert(rest[j - 1] == x);
                    assert(inner.contains(x));
                    let k = inner.index_of(x);
                    assert(placed[k + 1] == x);
                }
            }
        }
        assert forall|a: int, b: int| 0 <= a < b < placed.len() implies !name_less(
            #[trigger] arranged(names, placed)[b],
            #[trigger] arranged(names, placed)[a],
        ) by {
            if a == 0 {
                let x = inner[b - 1];
                assert(inner.contains(x));
                if x != i {
                    let j = rest.index_of(x);
                    assert(order[j + 1] == x);
                    assert(arranged(names, order)[j + 1] == names[x]);
                    assert(arranged(names, order)[0] == names[order[0]]);
                }
            } else {
                assert(arranged(names, inner)[b - 1] == arranged(names, placed)[b]);
                assert(arranged(names, inner)[a - 1] == arranged(names, placed)[a]);
            }
        }
        if order.no_duplicates() && !order.contains(i) {
            assert forall|a: int, b: int| 0 <= a < rest.len() && 0 <= b < rest.len() && a
                != b implies rest[a] != rest[b] by {
                assert(order[a + 1] == rest[a] && order[b + 1] == rest[b]);
            }
            if rest.contains(i) {
                let j = rest.index_of(i);
                assert(order[j + 1] == i);
            }
            assert forall|a: int, b: int| 0 <= a < placed.len() && 0 <= b < placed.len() && a
                != b implies placed[a] != placed[b] by {
                if a == 0 || b == 0 {
                    let c = if a == 0 {
                        b
                    } else {
                        a
                    };
                    let x = inner[c - 1];
                    assert(inner.contains(x));
                    if x == order[0] {
                        let j = rest.index_of(x);
                        assert(order[j + 1] == x);
                    }
                } else {
                    assert(inner[a - 1] == placed[a] && inner[b - 1] == placed[b]);
                }
            }
        }
    }
}

proof fn lemma_name_order(names: Seq<Seq<char>>, k: int)
    requires
        0 <= k <= names.len(),
    ensures
        name_order(names, k).len() == k,
        name_order(names, k).no_duplicates(),
        forall|x: int| #[trigger] name_order(names, k).contains(x) <==> 0 <= x < k,
        in_order(arranged(names, name_order(names, k))),
    decreases k,
{
    if k > 0 {
        lemma_name_order(names, k - 1);
        lemma_place(names, name_order(names, k - 1), k - 1);
    }
}

/// The order of names holds each position of the list once, and the names
/// stand in order in it.
pub proof fn law_name_order_arranges(names: Seq<Seq<char>>)
    ensures
        by_name(names).len() == names.len(),
        by_name(names).no_duplicates(),
        forall|x: int| #[trigger] by_name(names).contains(x) <==> 0 <= x < names.len(),
        in_order(arranged(names, by_name(names))),
{
    lemma_name_order(names, names.len() as int);
}

fn slot(t: &Table<String>, order: &Vec<usize>, i: usize) -> (p: usize)
    requires
        i < t.keys().len(),
        forall|j: int| 0 <= j < order.len() ==> (#[trigger] order@[j]) < t.keys().len(),
    ensures
        p <= order.len(),
        place(t.keys(), positions(order@), i as int) == positions(order@).insert(
            p as int,
            i as int,
        ),
        forall|j: int|
            0 <= j < p ==> !name_less(t.keys()[i as int], t.keys()[(#[trigger] order@[j]) as int]),
        p < order.len() ==> name_less(t.keys()[i as int], t.keys()[order@[p as int] as int]),
{
    let ghost names = t.keys();
    let ghost o = positions(order@);
    let mut p: usize = 0;
    assert(o.skip(0) =~= o);
    assert(o.take(0) + place(names, o, i as int) =~= place(names, o, i as int));
    while p < order.len()
        invariant
            p <= order.len(),
            i < t.keys().len(),
            names == t.keys(),
            o == positions(order@),
            forall|j: int| 0 <= j < order.len() ==> (#[trigger] order@[j]) < t.keys().len(),
            place(names, o, i as int) == o.take(p as int) + place(names, o.skip(p as int), i as int),
            forall|j: int|
                0 <= j < p ==> !name_less(names[i as int], names[(#[trigger] order@[j]) as int]),
        decreases order.len() - p,
    {
        assert(o.skip(p as int)[0] == order@[p as int] as int);
        assert(o.skip(p as int).drop_first() =~= o.skip(p + 1));
        if comes_before(t.key_at(i).as_str(), t.key_at(order[p]).as_str()) {
            assert(o.take(p as int) + (seq![i as int] + o.skip(p as int)) =~= o.insert(
                p as int,
                i as int,
            ));
            return p;
        }
        assert(o.take(p as int) + (seq![o[p as int]] + place(names, o.skip(p + 1), i as int))
            =~= o.take(p + 1) + place(names, o.skip(p + 1), i as int));
        p = p + 1;
    }
    assert(o.take(p as int) + seq![i as int] =~= o.insert(p as int, i as int));
    p
}

fn order_of(t: &Table<String>) -> (r: Vec<usize>)
    ensures
        positions(r@) == by_name(t.keys()),
        r.len() == t.keys().len(),
        forall|j: int| 0 <= j < r.len() ==> (#[trigger] r@[j]) < t.keys().len(),
        forall|a: int, b: int| 0 <= a < b < r.len() ==> #[trigger] r@[a] != #[trigger] r@[b],
        forall|i: int| 0 <= i < t.keys().len() ==> #[trigger] positions(r@).contains(i),
        forall|a: int, b: int|
            0 <= a < b < r.len() ==> !name_less(
                t.keys()[(#[trigger] r@[b]) as int],
                t.keys()[(#[trigger] r@[a]) as int],
            ),
{
    let n = t.len();
    let mut order: Vec<usize> = Vec::new();
    let mut k: usize = 0;
    assert(positions(order@) =~= name_order(t.keys(), 0));
    while k < n
        invariant
            k <= n,
            n == t.keys().len(),
            order.len() == k,
            positions(order@) == name_order(t.keys(), k as int),
            forall|j: int| 0 <= j < order.len() ==> (#[trigger] order@[j]) < k,
            forall|a: int, b: int|
                0 <= a < b < order.len() ==> #[trigger] order@[a] != #[trigger] order@[b],
            forall|i: int| 0 <= i < k ==> #[trigger] positions(order@).contains(i),
            forall|a: int, b: int|
                0 <= a < b < order.len() ==> !name_less(
                    t.keys()[(#[trigger] order@[b]) as int],
                    t.keys()[(#[trigger] order@[a]) as int],
                ),
        decreases n - k,
    {
        let p = slot(t, &order, k);
        let ghost before = order@;
        order.insert(p, k);
        proof {
            let names = t.keys();
            assert(positions(order@) =~= positions(before).insert(p as int, k as int));
            assert forall|j: int| 0 <= j < order.len() implies (#[trigger] order@[j]) < k + 1 by {
                if j < p {
                    assert(order@[j] == before[j]);
                } else if j > p {
                    assert(order@[j] == before[j - 1]);
                }
            }
            assert forall|a: int, b: int| 0 <= a < b < order.len() implies #[trigger] order@[a]
                != #[trigger] order@[b] by {
                let x = if a < p { a } else { a - 1 };
                let y = if b < p { b } else { b - 1 };
                if a != p {
                    assert(order@[a] == before[x]);
                }
                if b != p {
                    assert(order@[b] == before[y]);
                }
            }
            assert forall|i: int| 0 <= i < k + 1 implies #[trigger] positions(order@).contains(
                i,
            ) by {
                if i == k {
                    assert(positions(order@)[p as int] == i);
                } else {
                    assert(positions(before).contains(i));
                    let j = positions(before).index_of(i);
                    assert(0 <= j < before.len() && positions(before)[j] == i);
                    let x = if j < p { j } else { j + 1 };
                    assert(positions(order@)[x] == i);
                }
            }
            assert forall|a: int, b: int| 0 <= a < b < order.len() implies !name_less(
                names[(#[trigger] order@[b]) as int],
                names[(#[trigger] order@[a]) as int],
            ) by {
                let x = if a < p { a } else { a - 1 };
                let y = if b < p { b } else { b - 1 };
                if a != p {
                    assert(order@[a] == before[x]);
                }
                if b != p {
                    assert(order@[b] == before[y]);
                }
                if a == p {
                    let late = names[before[y] as int];
                    let first = names[before[p as int] as int];
                    if name_less(late, names[k as int]) {
                        lemma_less_transitive(
                            encode_utf8(late),
                            encode_utf8(names[k as int]),
                            encode_utf8(first),
                        );
                        lemma_less_irreflexive(encode_utf8(first));
                    }
                }
            }
        }
        k = k + 1;
    }
    order
}

/// The same fields with their names in order.
pub fn sorted_by_name(t: &Table<String>) -> (r: Table<String>)
    ensures
        r.keys() == arranged(t.keys(), by_name(t.keys())),
        type_texts(r) == arranged(type_texts(*t), by_name(t.keys())),
        texts(r) == texts(*t),
        in_order(r.keys()),
{
    proof {
        use_type_invariant(t);
    }
    let order = order_of(t);
    let ghost o = positions(order@);
    let mut out: Table<String> = Table::new();
    let mut j: usize = 0;
    while j < order.len()
        invariant
            t.wf(),
            j <= order.len(),
            o == positions(order@),
            forall|x: int| 0 <= x < order.len() ==> (#[trigger] order@[x]) < t.keys().len(),
            forall|a: int, b: int|
                0 <= a < b < order.len() ==> #[trigger] order@[a] != #[trigger] order@[b],
            out.wf(),
            out.keys().len() == j,
            forall|x: int| 0 <= x < j ==> #[trigger] out.keys()[x] == t.keys()[o[x]],
            forall|x: int| 0 <= x < j ==> (#[trigger] out.vals()[x])@ == t.vals()[o[x]]@,
        decreases order.len() - j,
    {
        let name = t.key_at(order[j]).clone();
        let ty = t.value_at(order[j]).clone();
        let ghost before = out;
        proof {
            if before.keys().contains(name@) {
                let x = before.keys().index_of(name@);
                assert(0 <= x < j && before.keys()[x] == name@);
                assert(t.keys()[order@[x] as int] == t.keys()[order@[j as int] as int]);
            }
        }
        out.insert(name, ty);
        proof {
            use_type_invariant(&out);
        }
        j = j + 1;
    }
    proof {
        use_type_invariant(&out);
        assert(out.keys() =~= arranged(t.keys(), o));
        assert(type_texts(out) =~= arranged(type_texts(*t), o));
        out.lemma_dom();
        t.lemma_dom();
        assert forall|k: Seq<char>| texts(*t).contains_key(k) implies texts(out).contains_key(
            k,
        ) by {
            let i = t.keys().index_of(k);
            assert(0 <= i < t.keys().len() && t.keys()[i] == k);
            assert(o.contains(i));
            let x = o.index_of(i);
            assert(0 <= x < o.len() && o[x] == i);
            assert(out.keys()[x] == k);
        }
        assert forall|k: Seq<char>| texts(out).contains_key(k) implies texts(*t).contains_key(k)
            && #[trigger] texts(out)[k] == texts(*t)[k] by {
            let x = out.keys().index_of(k);
            assert(0 <= x < out.keys().len() && out.keys()[x] == k);
            out.lemma_at(x);
            t.lemma_at(o[x]);
        }
        assert(texts(out) =~= texts(*t));
        assert forall|a: int, b: int| 0 <= a < b < out.keys().len() implies !name_less(
            #[trigger] out.keys()[b],
            #[trigger] out.keys()[a],
        ) by {
            assert(out.keys()[a] == t.keys()[order@[a] as int]);
            assert(out.keys()[b] == t.keys()[order@[b] as int]);
        }
    }
    out
}

} // verus!
