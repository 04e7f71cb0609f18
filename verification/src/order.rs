//! Dictionary order, and the stable sort by it.

use crate::text::to_chars;
use vstd::prelude::*;
use vstd::string::*;

verus! {

/// Whether `a` stands before `b` in dictionary order.
pub open spec fn precedes(a: Seq<char>, b: Seq<char>) -> bool
    decreases a.len(),
{
    if b.len() == 0 {
        false
    } else if a.len() == 0 {
        true
    } else if a[0] == b[0] {
        precedes(a.skip(1), b.skip(1))
    } else {
        a[0] < b[0]
    }
}

/// Whether `a` stands before `b` in dictionary order.
pub fn is_before(a: &str, b: &str) -> (r: bool)
    ensures
        r == precedes(a@, b@),
{
    let x = to_chars(a);
    let y = to_chars(b);
    let mut i: usize = 0;
    assert(a@.skip(0) =~= a@);
    assert(b@.skip(0) =~= b@);
    while i < x.len() && i < y.len() && x[i] == y[i]
        invariant
            x@ == a@,
            y@ == b@,
            i <= x@.len(),
            i <= y@.len(),
            precedes(a@, b@) == precedes(a@.skip(i as int), b@.skip(i as int)),
        decreases x@.len() - i,
    {
        assert(a@.skip(i as int).skip(1) =~= a@.skip(i + 1));
        assert(b@.skip(i as int).skip(1) =~= b@.skip(i + 1));
        i += 1;
    }
    if i >= y.len() {
        false
    } else if i >= x.len() {
        true
    } else {
        x[i] < y[i]
    }
}

proof fn lemma_irreflexive(a: Seq<char>)
    ensures
        !precedes(a, a),
    decreases a.len(),
{
    if a.len() > 0 {
        lemma_irreflexive(a.skip(1));
    }
}

proof fn lemma_asymmetric(a: Seq<char>, b: Seq<char>)
    requires
        precedes(a, b),
    ensures
        !precedes(b, a),
    decreases a.len(),
{
    if a.len() > 0 && b.len() > 0 && a[0] == b[0] {
        lemma_asymmetric(a.skip(1), b.skip(1));
    }
}

proof fn lemma_transitive(a: Seq<char>, b: Seq<char>, c: Seq<char>)
    requires
        !precedes(b, a),
        !precedes(c, b),
    ensures
        !precedes(c, a),
    decreases a.len(),
{
    if a.len() > 0 && b.len() > 0 && c.len() > 0 && a[0] == b[0] && b[0] == c[0] {
        lemma_transitive(a.skip(1), b.skip(1), c.skip(1));
    }
}

/// Two texts of which neither stands before the other are the same.
pub proof fn law_order_is_total(a: Seq<char>, b: Seq<char>)
    ensures
        precedes(a, b) || precedes(b, a) || a == b,
    decreases a.len(),
{
    if a.len() > 0 && b.len() > 0 && a[0] == b[0] {
        law_order_is_total(a.skip(1), b.skip(1));
        if a.skip(1) == b.skip(1) {
            assert(a =~= seq![a[0]] + a.skip(1));
            assert(b =~= seq![b[0]] + b.skip(1));
        }
    } else if a.len() == 0 && b.len() == 0 {
        assert(a =~= b);
    }
}

/// A name with its value.
pub type Item = (Seq<char>, Seq<char>);

/// The views of some names with their values.
pub open spec fn items(v: Seq<(String, String)>) -> Seq<Item> {
    Seq::new(v.len(), |i: int| (v[i].0@, v[i].1@))
}

/// Whether no name stands after one that it precedes.
pub open spec fn is_sorted(s: Seq<Item>) -> bool {
    forall|i: int, j: int|
        0 <= i < j < s.len() ==> !precedes((#[trigger] s[j]).0, (#[trigger] s[i]).0)
}

/// `s` with `x` put behind the last item that does not stand after it.
pub open spec fn placed(s: Seq<Item>, x: Item) -> Seq<Item>
    decreases s.len(),
{
    if s.len() == 0 || !precedes(x.0, s.last().0) {
        s.push(x)
    } else {
        placed(s.drop_last(), x).push(s.last())
    }
}

/// `s` in the order of the names; items of one name stay in their order.
pub open spec fn sorted(s: Seq<Item>) -> Seq<Item>
    decreases s.len(),
{
    if s.len() == 0 {
        s
    } else {
        placed(sorted(s.drop_last()), s.last())
    }
}

proof fn lemma_placed_at(s: Seq<Item>, x: Item, p: int)
    requires
        0 <= p <= s.len(),
        p > 0 ==> !precedes(x.0, s[p - 1].0),
        forall|i: int| p <= i < s.len() ==> precedes(x.0, (#[trigger] s[i]).0),
    ensures
        placed(s, x) == s.insert(p, x),
    decreases s.len(),
{
    if p < s.len() {
        assert(precedes(x.0, s.last().0));
        lemma_placed_at(s.drop_last(), x, p);
        assert(s.drop_last().insert(p, x).push(s.last()) =~= s.insert(p, x));
    } else {
        assert(s.push(x) =~= s.insert(p, x));
    }
}

proof fn lemma_placed_len(s: Seq<Item>, x: Item)
    ensures
        placed(s, x).len() == s.len() + 1,
    decreases s.len(),
{
    if s.len() > 0 {
        lemma_placed_len(s.drop_last(), x);
    }
}

/// Sorting keeps the number of items.
pub proof fn lemma_sorted_len(s: Seq<Item>)
    ensures
        sorted(s).len() == s.len(),
    decreases s.len(),
{
    if s.len() > 0 {
        lemma_sorted_len(s.drop_last());
        lemma_placed_len(sorted(s.drop_last()), s.last());
    }
}

/// Puts an item into its place.
fn place(v: &mut Vec<(String, String)>, x: (String, String))
    ensures
        items(final(v)@) == placed(items(old(v)@), (x.0@, x.1@)),
{
    let ghost s = items(v@);
    let ghost y = (x.0@, x.1@);
    let mut p: usize = v.len();
    while p > 0 && is_before(x.0.as_str(), v[p - 1].0.as_str())
        invariant
            p <= v@.len(),
            s == items(v@),
            y == (x.0@, x.1@),
            forall|i: int| p <= i < s.len() ==> precedes(y.0, (#[trigger] s[i]).0),
        decreases p,
    {
        assert(s[p - 1].0 == v@[p - 1].0@);
        p -= 1;
    }
    proof {
        lemma_placed_at(s, y, p as int);
    }
    v.insert(p, x);
    assert(items(v@) =~= s.insert(p as int, y));
}

/// Sorts items by name, keeping those of one name in their order.
pub fn sort_items(v: &Vec<(String, String)>) -> (r: Vec<(String, String)>)
    ensures
        items(r@) == sorted(items(v@)),
{
    let mut r: Vec<(String, String)> = Vec::new();
    let ghost s = items(v@);
    let mut i: usize = 0;
    assert(items(r@) =~= s.take(0));
    while i < v.len()
        invariant
            i <= v@.len(),
            s == items(v@),
            items(r@) == sorted(s.take(i as int)),
        decreases v@.len() - i,
    {
        assert(s.take(i + 1).drop_last() =~= s.take(i as int));
        place(&mut r, (v[i].0.as_str().to_owned(), v[i].1.as_str().to_owned()));
        i += 1;
    }
    assert(s.take(i as int) =~= s);
    r
}

// ---------------------------------------------------------------------------
// Laws
// ---------------------------------------------------------------------------

/// The items of one name.
pub open spec fn named(s: Seq<Item>, name: Seq<char>) -> Seq<Item>
    decreases s.len(),
{
    if s.len() == 0 {
        s
    } else if s.last().0 == name {
        named(s.drop_last(), name).push(s.last())
    } else {
        named(s.drop_last(), name)
    }
}

proof fn lemma_placed_is_sorted(s: Seq<Item>, x: Item)
    requires
        is_sorted(s),
    ensures
        is_sorted(placed(s, x)),
        placed(s, x).to_multiset() == s.to_multiset().insert(x),
        forall|i: int|
            0 <= i < placed(s, x).len() ==> (#[trigger] placed(s, x)[i]) == x || exists|j: int|
                0 <= j < s.len() && s[j] == placed(s, x)[i],
    decreases s.len(),
{
    broadcast use vstd::seq_lib::group_to_multiset_ensures;

    let r = placed(s, x);
    if s.len() == 0 || !precedes(x.0, s.last().0) {
        assert forall|i: int, j: int| 0 <= i < j < r.len() implies !precedes(
            (#[trigger] r[j]).0,
            (#[trigger] r[i]).0,
        ) by {
            if j == s.len() {
                if i < s.len() - 1 {
                    assert(!precedes(s[s.len() - 1].0, s[i].0));
                } else {
                    lemma_irreflexive(s.last().0);
                }
                lemma_transitive(s[i].0, s.last().0, x.0);
            }
        }
        assert forall|i: int| 0 <= i < r.len() implies (#[trigger] r[i]) == x || exists|j: int|
            0 <= j < s.len() && s[j] == r[i] by {
            if i < s.len() {
                assert(s[i] == r[i]);
            }
        }
    } else {
        let t = s.drop_last();
        let q = placed(t, x);
        lemma_placed_is_sorted(t, x);
        assert(s =~= t.push(s.last()));
        assert(s.to_multiset() =~= t.to_multiset().insert(s.last()));
        assert(r.to_multiset() =~= s.to_multiset().insert(x));
        assert forall|i: int, j: int| 0 <= i < j < r.len() implies !precedes(
            (#[trigger] r[j]).0,
            (#[trigger] r[i]).0,
        ) by {
            if j == q.len() {
                if q[i] == x {
                    lemma_asymmetric(x.0, s.last().0);
                } else {
                    let k = choose|k: int| 0 <= k < t.len() && t[k] == q[i];
                    assert(!precedes(s[s.len() - 1].0, s[k].0));
                }
            } else {
                assert(r[i] == q[i] && r[j] == q[j]);
            }
        }
        assert forall|i: int| 0 <= i < r.len() implies (#[trigger] r[i]) == x || exists|j: int|
            0 <= j < s.len() && s[j] == r[i] by {
            if i < q.len() {
                assert(r[i] == q[i]);
                if q[i] != x {
                    let k = choose|k: int| 0 <= k < t.len() && t[k] == q[i];
                    assert(s[k] == r[i]);
                }
            } else {
                assert(s[s.len() - 1] == r[i]);
            }
        }
    }
}

proof fn lemma_placed_is_stable(s: Seq<Item>, x: Item, name: Seq<char>)
    ensures
        named(placed(s, x), name) == (if x.0 == name {
            named(s, name).push(x)
        } else {
            named(s, name)
        }),
    decreases s.len(),
{
    if s.len() == 0 || !precedes(x.0, s.last().0) {
        assert(s.push(x).drop_last() =~= s);
    } else {
        lemma_irreflexive(x.0);
        lemma_placed_is_stable(s.drop_last(), x, name);
        let q = placed(s.drop_last(), x);
        assert(q.push(s.last()).drop_last() =~= q);
    }
}

/// Sorting puts the names in order, and neither adds nor loses an item.
pub proof fn law_sorting_orders(s: Seq<Item>)
    ensures
        is_sorted(sorted(s)),
        sorted(s).to_multiset() == s.to_multiset(),
    decreases s.len(),
{
    broadcast use vstd::seq_lib::group_to_multiset_ensures;

    if s.len() > 0 {
        law_sorting_orders(s.drop_last());
        lemma_placed_is_sorted(sorted(s.drop_last()), s.last());
        assert(s =~= s.drop_last().push(s.last()));
    }
}

/// Sorting keeps the items of one name in the order they had.
pub proof fn law_sorting_is_stable(s: Seq<Item>, name: Seq<char>)
    ensures
        named(sorted(s), name) == named(s, name),
    decreases s.len(),
{
    if s.len() > 0 {
        law_sorting_is_stable(s.drop_last(), name);
        lemma_placed_is_stable(sorted(s.drop_last()), s.last(), name);
    }
}

/// What is sorted is what was there.
pub proof fn law_sorting_keeps_every_item(s: Seq<Item>, x: Item)
    ensures
        sorted(s).contains(x) <==> s.contains(x),
        sorted(s).len() == s.len(),
{
    broadcast use vstd::seq_lib::group_to_multiset_ensures;

    law_sorting_orders(s);
    lemma_sorted_len(s);
    assert(s.to_multiset().contains(x) <==> s.contains(x));
    assert(sorted(s).to_multiset().contains(x) <==> sorted(s).contains(x));
}

/// In dictionary order the first difference decides, and a text stands before
/// what it begins.
pub proof fn law_dictionary_order(p: Seq<char>, a: char, x: Seq<char>, b: char, y: Seq<char>)
    ensures
        a < b ==> precedes(p + seq![a] + x, p + seq![b] + y) && !precedes(
            p + seq![b] + y,
            p + seq![a] + x,
        ),
        precedes(p, p + seq![b] + y),
        !precedes(p + seq![b] + y, p),
    decreases p.len(),
{
    let s = p + seq![a] + x;
    let t = p + seq![b] + y;
    if p.len() > 0 {
        let q = p.skip(1);
        law_dictionary_order(q, a, x, b, y);
        assert(s.skip(1) =~= q + seq![a] + x);
        assert(t.skip(1) =~= q + seq![b] + y);
    } else {
        assert(s[0] == a && t[0] == b);
    }
}

} // verus!
