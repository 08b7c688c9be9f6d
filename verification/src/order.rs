//! Stable sorting and selection of list elements.
use vstd::prelude::*;
use vstd::seq_lib::*;

verus! {

/// The first `n` elements of a list, or all of it where it has fewer.
pub open spec fn first_of_list<T>(s: Seq<T>, n: int) -> Seq<T> {
    if n < s.len() {
        s.take(n)
    } else {
        s
    }
}

/// One time is earlier than another; an unknown time is earlier than any known one.
pub open spec fn time_before(a: Option<i128>, b: Option<i128>) -> bool {
    match (a, b) {
        (None, Some(_)) => true,
        (Some(x), Some(y)) => x < y,
        _ => false,
    }
}

/// Whether one time is earlier than another.
pub fn earlier(a: Option<i128>, b: Option<i128>) -> (r: bool)
    ensures
        r == time_before(a, b),
{
    match (a, b) {
        (None, Some(_)) => true,
        (Some(x), Some(y)) => x < y,
        _ => false,
    }
}

/// `x` put behind every element of `s` that it does not come before, and in front of the
/// rest, where `s` is already in order.
pub open spec fn placed<T>(s: Seq<T>, x: T, lt: spec_fn(T, T) -> bool) -> Seq<T>
    decreases s.len(),
{
    if s.len() == 0 {
        seq![x]
    } else if lt(x, s.last()) {
        placed(s.drop_last(), x, lt).push(s.last())
    } else {
        s.push(x)
    }
}

/// The stable sort of `s` by the strict order `lt`: elements that neither precedes the other
/// keep the order in which they came.
pub open spec fn sorted_by<T>(s: Seq<T>, lt: spec_fn(T, T) -> bool) -> Seq<T>
    decreases s.len(),
{
    if s.len() == 0 {
        s
    } else {
        placed(sorted_by(s.drop_last(), lt), s.last(), lt)
    }
}

/// A strict order in which elements that do not precede each other are alike.
pub open spec fn weak_order<T>(lt: spec_fn(T, T) -> bool) -> bool {
    &&& forall|a: T| !#[trigger] lt(a, a)
    &&& forall|a: T, b: T, c: T|
        #![trigger lt(a, b), lt(b, c)]
        (lt(a, b) && lt(b, c) ==> lt(a, c)) && (!lt(a, b) && !lt(b, c) ==> !lt(a, c))
}

/// No element stands behind one that it precedes.
pub open spec fn in_order<T>(s: Seq<T>, lt: spec_fn(T, T) -> bool) -> bool {
    forall|i: int, j: int| 0 <= i < j < s.len() ==> !lt(#[trigger] s[j], #[trigger] s[i])
}

proof fn lemma_placed<T>(s: Seq<T>, x: T, lt: spec_fn(T, T) -> bool)
    ensures
        placed(s, x, lt).len() == s.len() + 1,
        placed(s, x, lt).to_multiset() == s.to_multiset().insert(x),
    decreases s.len(),
{
    broadcast use group_to_multiset_ensures;

    if s.len() == 0 {
        assert(seq![x] =~= Seq::<T>::empty().push(x));
        assert(s =~= Seq::<T>::empty());
    } else if lt(x, s.last()) {
        lemma_placed(s.drop_last(), x, lt);
        assert(s =~= s.drop_last().push(s.last()));
        assert(s.to_multiset() =~= s.drop_last().to_multiset().insert(s.last()));
        assert(placed(s, x, lt).to_multiset() =~= s.to_multiset().insert(x));
    }
}

/// Putting an element in keeps a list in order.
pub proof fn lemma_placed_in_order<T>(s: Seq<T>, x: T, lt: spec_fn(T, T) -> bool)
    requires
        weak_order(lt),
        in_order(s, lt),
    ensures
        in_order(placed(s, x, lt), lt),
        forall|y: T| placed(s, x, lt).contains(y) ==> y == x || s.contains(y),
    decreases s.len(),
{
    let r = placed(s, x, lt);
    if s.len() == 0 {
    } else if lt(x, s.last()) {
        let front = s.drop_last();
        lemma_placed_in_order(front, x, lt);
        lemma_placed(front, x, lt);
        let placed_front = placed(front, x, lt);
        assert(r == placed_front.push(s.last()));
        assert(r.len() == placed_front.len() + 1);
        assert forall|i: int, j: int| 0 <= i < j < r.len() implies !lt(
            #[trigger] r[j],
            #[trigger] r[i],
        ) by {
            assert(r.len() == placed_front.len() + 1);
            assert(r[i] == placed_front[i]);
            if j < r.len() - 1 {
                assert(r[j] == placed_front[j]);
            } else {
                assert(r[j] == s.last());
                assert(placed_front.contains(placed_front[i]));
                if placed_front[i] != x {
                    assert(front.contains(placed_front[i]));
                    let k = choose|k: int| 0 <= k < front.len() && front[k] == placed_front[i];
                    assert(s[k] == front[k]);
                } else {
                    assert(lt(x, s.last()) && lt(s.last(), x) ==> lt(x, x));
                }
            }
        }
        assert forall|y: T| r.contains(y) implies y == x || s.contains(y) by {
            let k = choose|k: int| 0 <= k < r.len() && r[k] == y;
            if k < r.len() - 1 {
                assert(r[k] == placed_front[k]);
                assert(placed_front.contains(placed_front[k]));
                if y != x {
                    assert(front.contains(y));
                    let m = choose|m: int| 0 <= m < front.len() && front[m] == y;
                    assert(s[m] == y);
                }
            } else {
                assert(s[s.len() - 1] == y);
            }
        }
    } else {
        assert forall|i: int, j: int| 0 <= i < j < r.len() implies !lt(
            #[trigger] r[j],
            #[trigger] r[i],
        ) by {
            if j == r.len() - 1 && i < s.len() - 1 {
                assert(!lt(s[s.len() - 1], s[i]));
                assert(!lt(x, s.last()));
                assert(!lt(s.last(), s[i]));
            }
        }
        assert forall|y: T| r.contains(y) implies y == x || s.contains(y) by {
            let k = choose|k: int| 0 <= k < r.len() && r[k] == y;
            if k < s.len() {
                assert(s[k] == y);
            }
        }
    }
}

/// Sorting keeps every element as often as it occurs.
pub proof fn sorting_permutes<T>(s: Seq<T>, lt: spec_fn(T, T) -> bool)
    ensures
        sorted_by(s, lt).len() == s.len(),
        sorted_by(s, lt).to_multiset() == s.to_multiset(),
    decreases s.len(),
{
    broadcast use group_to_multiset_ensures;

    if s.len() > 0 {
        sorting_permutes(s.drop_last(), lt);
        lemma_placed(sorted_by(s.drop_last(), lt), s.last(), lt);
        assert(s =~= s.drop_last().push(s.last()));
    }
}

proof fn lemma_placed_images<T, U>(
    s: Seq<T>,
    x: T,
    f: spec_fn(T) -> U,
    lt: spec_fn(T, T) -> bool,
)
    ensures
        placed(s, x, lt).map_values(f).to_multiset() =~= s.map_values(f).to_multiset().insert(f(x)),
    decreases s.len(),
{
    broadcast use group_to_multiset_ensures;

    let mapped = s.map_values(f);
    if s.len() == 0 {
        assert(placed(s, x, lt).map_values(f) =~= mapped.push(f(x)));
    } else if lt(x, s.last()) {
        let front = s.drop_last();
        lemma_placed_images(front, x, f, lt);
        assert(placed(s, x, lt).map_values(f) =~= placed(front, x, lt).map_values(f).push(
            f(s.last()),
        ));
        assert(mapped =~= front.map_values(f).push(f(s.last())));
    } else {
        assert(placed(s, x, lt).map_values(f) =~= mapped.push(f(x)));
    }
}

/// Whatever is read off the elements of a list, sorting keeps it as often as it occurs.
pub proof fn sorting_keeps_images<T, U>(
    s: Seq<T>,
    f: spec_fn(T) -> U,
    lt: spec_fn(T, T) -> bool,
)
    ensures
        sorted_by(s, lt).map_values(f).to_multiset() =~= s.map_values(f).to_multiset(),
    decreases s.len(),
{
    broadcast use group_to_multiset_ensures;

    if s.len() > 0 {
        sorting_keeps_images(s.drop_last(), f, lt);
        lemma_placed_images(sorted_by(s.drop_last(), lt), s.last(), f, lt);
        assert(s.map_values(f) =~= s.drop_last().map_values(f).push(f(s.last())));
    }
}

/// A sorted list is in order.
pub proof fn sorting_orders<T>(s: Seq<T>, lt: spec_fn(T, T) -> bool)
    requires
        weak_order(lt),
    ensures
        in_order(sorted_by(s, lt), lt),
    decreases s.len(),
{
    if s.len() > 0 {
        sorting_orders(s.drop_last(), lt);
        lemma_placed_in_order(sorted_by(s.drop_last(), lt), s.last(), lt);
    }
}

/// A list that is in order is left as it is by sorting, and so a second sort changes nothing.
pub proof fn sorting_keeps_order<T>(s: Seq<T>, lt: spec_fn(T, T) -> bool)
    requires
        in_order(s, lt),
    ensures
        sorted_by(s, lt) == s,
    decreases s.len(),
{
    if s.len() > 0 {
        let front = s.drop_last();
        assert forall|i: int, j: int| 0 <= i < j < front.len() implies !lt(
            #[trigger] front[j],
            #[trigger] front[i],
        ) by {
            assert(front[j] == s[j] && front[i] == s[i]);
        }
        sorting_keeps_order(front, lt);
        if front.len() > 0 {
            assert(!lt(s[s.len() - 1], s[s.len() - 2]));
            assert(front.last() == s[s.len() - 2]);
        }
        assert(front.push(s.last()) =~= s);
        assert(seq![s.last()] =~= Seq::<T>::empty().push(s.last()));
        if front.len() == 0 {
            assert(front =~= Seq::<T>::empty());
        }
    }
}

proof fn lemma_placed_keeps_class<T>(s: Seq<T>, x: T, lt: spec_fn(T, T) -> bool, a: T)
    requires
        weak_order(lt),
    ensures
        placed(s, x, lt).filter(alike(lt, a)) == s.push(x).filter(alike(lt, a)),
    decreases s.len(),
{
    broadcast use Seq::lemma_filter_push;

    let p = alike(lt, a);
    if s.len() == 0 {
        assert(s.push(x) =~= seq![x]);
    } else if lt(x, s.last()) {
        let front = s.drop_last();
        lemma_placed_keeps_class(front, x, lt, a);
        assert(s =~= front.push(s.last()));
        if p(x) && p(s.last()) {
            assert(!lt(x, a) && !lt(a, s.last()));
        }
    }
}

/// The elements that neither precede nor follow `a`.
pub open spec fn alike<T>(lt: spec_fn(T, T) -> bool, a: T) -> spec_fn(T) -> bool {
    |y: T| !lt(y, a) && !lt(a, y)
}

/// Sorting is stable: elements that do not precede each other keep the order in which they came.
pub proof fn sorting_is_stable<T>(s: Seq<T>, lt: spec_fn(T, T) -> bool, a: T)
    requires
        weak_order(lt),
    ensures
        sorted_by(s, lt).filter(alike(lt, a)) == s.filter(alike(lt, a)),
    decreases s.len(),
{
    broadcast use Seq::lemma_filter_push;

    if s.len() > 0 {
        let front = s.drop_last();
        sorting_is_stable(front, lt, a);
        lemma_placed_keeps_class(sorted_by(front, lt), s.last(), lt, a);
        assert(s =~= front.push(s.last()));
    }
}

proof fn lemma_placed_map<T, U>(
    s: Seq<T>,
    x: T,
    f: spec_fn(T) -> U,
    lt: spec_fn(T, T) -> bool,
    lt_image: spec_fn(U, U) -> bool,
)
    requires
        forall|a: T, b: T| #[trigger] lt(a, b) == lt_image(f(a), f(b)),
    ensures
        placed(s, x, lt).map_values(f) == placed(s.map_values(f), f(x), lt_image),
    decreases s.len(),
{
    let t = s.map_values(f);
    if s.len() == 0 {
        assert(seq![x].map_values(f) =~= seq![f(x)]);
    } else {
        assert(t.last() == f(s.last()));
        assert(t.drop_last() =~= s.drop_last().map_values(f));
        if lt(x, s.last()) {
            lemma_placed_map(s.drop_last(), x, f, lt, lt_image);
            let front = placed(s.drop_last(), x, lt);
            assert(front.push(s.last()).map_values(f) =~= front.map_values(f).push(f(s.last())));
        } else {
            assert(s.push(x).map_values(f) =~= t.push(f(x)));
        }
    }
}

/// Sorting goes with a map that keeps the order.
pub proof fn sorting_maps<T, U>(
    s: Seq<T>,
    f: spec_fn(T) -> U,
    lt: spec_fn(T, T) -> bool,
    lt_image: spec_fn(U, U) -> bool,
)
    requires
        forall|a: T, b: T| #[trigger] lt(a, b) == lt_image(f(a), f(b)),
    ensures
        sorted_by(s, lt).map_values(f) == sorted_by(s.map_values(f), lt_image),
    decreases s.len(),
{
    if s.len() > 0 {
        sorting_maps(s.drop_last(), f, lt, lt_image);
        lemma_placed_map(sorted_by(s.drop_last(), lt), s.last(), f, lt, lt_image);
        assert(s.map_values(f).drop_last() =~= s.drop_last().map_values(f));
    } else {
        assert(sorted_by(s, lt).map_values(f) =~= sorted_by(s.map_values(f), lt_image));
    }
}

/// A sorted list has the same members.
pub proof fn lemma_sorted_contains<T>(s: Seq<T>, lt: spec_fn(T, T) -> bool, x: T)
    ensures
        sorted_by(s, lt).contains(x) <==> s.contains(x),
{
    broadcast use group_to_multiset_ensures;

    sorting_permutes(s, lt);
    assert(s.to_multiset().count(x) > 0 <==> s.contains(x));
    assert(sorted_by(s, lt).to_multiset().count(x) > 0 <==> sorted_by(s, lt).contains(x));
}

/// What is kept of a list is what has the property, and no more than that.
pub proof fn filtering_is_exact<T>(s: Seq<T>, p: spec_fn(T) -> bool)
    ensures
        forall|x: T| #[trigger] s.filter(p).contains(x) <==> s.contains(x) && p(x),
        s.filter(p).len() <= s.len(),
{
    s.lemma_filter_len(p);
    assert forall|x: T| #[trigger] s.filter(p).contains(x) <==> s.contains(x) && p(x) by {
        if s.filter(p).contains(x) {
            filtered_items_fit(s, p, x);
        }
        if s.contains(x) && p(x) {
            filter_holds(s, p, x);
        }
    }
}

/// One time is not later than another, where an unknown time is no later than any.
pub open spec fn no_later(a: Option<i128>, b: Option<i128>) -> bool {
    a matches Some(x) ==> (b matches Some(y) && x <= y)
}

/// The first `k` elements of a sorted list are as many as can be had, each is one of the list,
/// none comes before one in front of it, and none that was left out comes before one of them.
pub proof fn first_are_foremost<T>(s: Seq<T>, lt: spec_fn(T, T) -> bool, k: int)
    requires
        weak_order(lt),
        0 <= k,
    ensures
        ({
            let cut = first_of_list(sorted_by(s, lt), k);
            &&& cut.len() == (if k < s.len() {
                k
            } else {
                s.len() as int
            })
            &&& forall|i: int| 0 <= i < cut.len() ==> s.contains(#[trigger] cut[i])
            &&& forall|i: int, j: int|
                0 <= i < j < cut.len() ==> !lt(#[trigger] cut[j], #[trigger] cut[i])
            &&& forall|x: T, i: int|
                s.contains(x) && 0 <= i < cut.len() && !cut.contains(x) ==> !#[trigger] lt(
                    x,
                    cut[i],
                )
        }),
{
    let sorted = sorted_by(s, lt);
    let cut = first_of_list(sorted, k);
    sorting_permutes(s, lt);
    sorting_orders(s, lt);
    assert forall|i: int| 0 <= i < cut.len() implies s.contains(#[trigger] cut[i]) by {
        assert(cut[i] == sorted[i]);
        lemma_sorted_contains(s, lt, cut[i]);
    }
    assert forall|i: int, j: int| 0 <= i < j < cut.len() implies !lt(
        #[trigger] cut[j],
        #[trigger] cut[i],
    ) by {
        assert(!lt(sorted[j], sorted[i]));
    }
    assert forall|x: T, i: int|
        s.contains(x) && 0 <= i < cut.len() && !cut.contains(x) implies !#[trigger] lt(
        x,
        cut[i],
    ) by {
        lemma_sorted_contains(s, lt, x);
        let j = choose|j: int| 0 <= j < sorted.len() && sorted[j] == x;
        if j < cut.len() {
            assert(cut[j] == x);
        }
        assert(!lt(sorted[j], sorted[i]));
    }
}

/// The stable sort of a list. `before` decides the order `lt`.
pub(crate) fn sort<T, F: Fn(&T, &T) -> bool>(
    v: Vec<T>,
    before: F,
    Ghost(lt): Ghost<spec_fn(T, T) -> bool>,
) -> (r: Vec<T>)
    requires
        forall|a: &T, b: &T| #[trigger] call_requires(before, (a, b)),
        forall|a: &T, b: &T, o: bool| #[trigger] call_ensures(before, (a, b), o) ==> o == lt(*a, *b),
    ensures
        r@ == sorted_by(v@, lt),
{
    let ghost all = v@;
    let mut out: Vec<T> = Vec::new();
    for x in it: v
        invariant
            it.seq() == all,
            out@ == sorted_by(all.take(it.index() as int), lt),
            forall|a: &T, b: &T| #[trigger] call_requires(before, (a, b)),
            forall|a: &T, b: &T, o: bool| #[trigger]
                call_ensures(before, (a, b), o) ==> o == lt(*a, *b),
    {
        let ghost done = out@;
        let ghost next = all.take(it.index() + 1);
        proof {
            assert(next.drop_last() =~= all.take(it.index() as int));
            assert(next.last() == x);
        }
        let mut i: usize = out.len();
        let mut moving: bool = true;
        proof {
            assert(done.take(i as int) =~= done);
            assert(placed(done, x, lt) + done.skip(i as int) =~= placed(done, x, lt));
        }
        while moving && i > 0
            invariant
                out@ == done,
                i <= done.len(),
                placed(done.take(i as int), x, lt) + done.skip(i as int) == placed(done, x, lt),
                !moving ==> i > 0 && !lt(x, done[i - 1]),
                forall|a: &T, b: &T| #[trigger] call_requires(before, (a, b)),
                forall|a: &T, b: &T, o: bool| #[trigger]
                    call_ensures(before, (a, b), o) ==> o == lt(*a, *b),
            decreases i + (if moving { 1int } else { 0int }),
        {
            if before(&x, &out[i - 1]) {
                proof {
                    let part = done.take(i as int);
                    assert(part.last() == done[i - 1]);
                    assert(part.drop_last() =~= done.take(i - 1));
                    assert(placed(done.take(i - 1), x, lt) + done.skip(i - 1) =~= placed(part, x, lt)
                        + done.skip(i as int));
                }
                i = i - 1;
            } else {
                moving = false;
            }
        }
        proof {
            let part = done.take(i as int);
            if i > 0 {
                assert(part.last() == done[i - 1]);
            } else {
                assert(part =~= Seq::empty());
                assert(placed(part, x, lt) =~= seq![x]);
                assert(seq![x] =~= part.push(x));
            }
            assert(placed(done, x, lt) =~= done.take(i as int).push(x) + done.skip(i as int));
            assert(done.insert(i as int, x) =~= done.take(i as int).push(x) + done.skip(i as int));
        }
        out.insert(i, x);
    }
    proof {
        assert(all.take(all.len() as int) =~= all);
    }
    out
}

/// The elements of a list for which `test` holds, in order. `test` decides the property `p`.
pub(crate) fn keep<T, F: Fn(&T) -> bool>(
    v: Vec<T>,
    test: F,
    Ghost(p): Ghost<spec_fn(T) -> bool>,
) -> (r: Vec<T>)
    requires
        forall|a: &T| #[trigger] call_requires(test, (a,)),
        forall|a: &T, o: bool| #[trigger] call_ensures(test, (a,), o) ==> o == p(*a),
    ensures
        r@ == v@.filter(p),
{
    let ghost all = v@;
    let mut out: Vec<T> = Vec::new();
    for x in it: v
        invariant
            it.seq() == all,
            out@ == all.take(it.index() as int).filter(p),
            forall|a: &T| #[trigger] call_requires(test, (a,)),
            forall|a: &T, o: bool| #[trigger] call_ensures(test, (a,), o) ==> o == p(*a),
    {
        proof {
            broadcast use Seq::lemma_filter_push;

            let i = it.index() as int;
            assert(all.take(i + 1) =~= all.take(i).push(x));
        }
        if test(&x) {
            out.push(x);
        }
    }
    proof {
        assert(all.take(all.len() as int) =~= all);
    }
    out
}

/// The number of elements of a list for which `test` holds. `test` decides the property `p`.
pub(crate) fn count<T, F: Fn(&T) -> bool>(
    v: &Vec<T>,
    test: F,
    Ghost(p): Ghost<spec_fn(T) -> bool>,
) -> (r: usize)
    requires
        forall|a: &T| #[trigger] call_requires(test, (a,)),
        forall|a: &T, o: bool| #[trigger] call_ensures(test, (a,), o) ==> o == p(*a),
    ensures
        r == v@.filter(p).len(),
        r <= v@.len(),
{
    let mut n: usize = 0;
    let mut i: usize = 0;
    proof {
        assert(v@.take(0) =~= Seq::empty());
    }
    while i < v.len()
        invariant
            i <= v@.len(),
            n <= i,
            n == v@.take(i as int).filter(p).len(),
            forall|a: &T| #[trigger] call_requires(test, (a,)),
            forall|a: &T, o: bool| #[trigger] call_ensures(test, (a,), o) ==> o == p(*a),
        decreases v@.len() - i,
    {
        proof {
            broadcast use Seq::lemma_filter_push;

            assert(v@.take(i + 1) =~= v@.take(i as int).push(v@[i as int]));
        }
        if test(&v[i]) {
            n = n + 1;
        }
        i = i + 1;
    }
    proof {
        assert(v@.take(i as int) =~= v@);
    }
    n
}

/// Filtering goes with a map that keeps the property.
pub proof fn lemma_filter_map<T, U>(
    s: Seq<T>,
    f: spec_fn(T) -> U,
    p: spec_fn(T) -> bool,
    q: spec_fn(U) -> bool,
)
    requires
        forall|a: T| #[trigger] p(a) == q(f(a)),
    ensures
        s.filter(p).map_values(f) == s.map_values(f).filter(q),
    decreases s.len(),
{
    broadcast use Seq::lemma_filter_push;

    if s.len() > 0 {
        let front = s.drop_last();
        let x = s.last();
        lemma_filter_map(front, f, p, q);
        assert(s =~= front.push(x));
        assert(s.map_values(f) =~= front.map_values(f).push(f(x)));
        assert(p(x) == q(f(x)));
        if p(x) {
            assert(front.filter(p).push(x).map_values(f) =~= front.filter(p).map_values(f).push(
                f(x),
            ));
        }
    } else {
        assert(s.filter(p).map_values(f) =~= s.map_values(f).filter(q));
    }
}

/// A sorted list with the elements of another put in, one after another.
pub open spec fn all_placed<T>(s: Seq<T>, more: Seq<T>, lt: spec_fn(T, T) -> bool) -> Seq<T>
    decreases more.len(),
{
    if more.len() == 0 {
        s
    } else {
        placed(all_placed(s, more.drop_last(), lt), more.last(), lt)
    }
}

/// Sorting two lists at once is sorting the first and putting in the elements of the second.
pub proof fn lemma_sorted_concat<T>(a: Seq<T>, b: Seq<T>, lt: spec_fn(T, T) -> bool)
    ensures
        sorted_by(a + b, lt) == all_placed(sorted_by(a, lt), b, lt),
    decreases b.len(),
{
    if b.len() == 0 {
        assert(a + b =~= a);
    } else {
        lemma_sorted_concat(a, b.drop_last(), lt);
        assert((a + b).drop_last() =~= a + b.drop_last());
        assert((a + b).last() == b.last());
    }
}

proof fn lemma_placed_at_end<T>(s: Seq<T>, x: T, lt: spec_fn(T, T) -> bool, k: int)
    requires
        weak_order(lt),
        in_order(s, lt),
        0 <= k < s.len(),
    ensures
        placed(s, x, lt).take(k) == placed(s.take(k), x, lt).take(k),
    decreases s.len(),
{
    lemma_placed(s, x, lt);
    lemma_placed(s.take(k), x, lt);
    let front = s.drop_last();
    assert forall|i: int, j: int| 0 <= i < j < front.len() implies !lt(
        #[trigger] front[j],
        #[trigger] front[i],
    ) by {
        assert(front[j] == s[j] && front[i] == s[i]);
    }
    if lt(x, s.last()) {
        lemma_placed(front, x, lt);
        if k < front.len() {
            lemma_placed_at_end(front, x, lt, k);
            assert(front.take(k) =~= s.take(k));
        } else {
            assert(front =~= s.take(k));
        }
        assert(placed(s, x, lt).take(k) =~= placed(front, x, lt).take(k));
    } else {
        assert(s.push(x).take(k) =~= s.take(k));
        if k > 0 {
            if k < s.len() {
                assert(!lt(s[s.len() - 1], s[k - 1]));
                assert(s[s.len() - 1] == s.last());
            }
            assert(s.take(k).last() == s[k - 1]);
            assert(!lt(x, s[k - 1]));
            assert(s.take(k).push(x).take(k) =~= s.take(k));
        } else {
            assert(s.take(k) =~= Seq::empty());
            assert(placed(s.take(k), x, lt).take(0) =~= Seq::empty());
        }
    }
}

proof fn lemma_all_placed_cut<T>(
    s: Seq<T>,
    more: Seq<T>,
    lt: spec_fn(T, T) -> bool,
    k: int,
)
    requires
        weak_order(lt),
        in_order(s, lt),
        0 <= k,
    ensures
        first_of_list(all_placed(s, more, lt), k) == first_of_list(
            all_placed(first_of_list(s, k), more, lt),
            k,
        ),
        in_order(all_placed(s, more, lt), lt),
    decreases more.len(),
{
    if more.len() == 0 {
        if k < s.len() {
            assert(s.take(k).take(k) =~= s.take(k));
        }
    } else {
        let rest = more.drop_last();
        let x = more.last();
        lemma_all_placed_cut(s, rest, lt, k);
        let cut = first_of_list(s, k);
        assert(in_order(cut, lt));
        lemma_all_placed_cut(cut, rest, lt, k);
        let a = all_placed(s, rest, lt);
        let b = all_placed(cut, rest, lt);
        lemma_placed_in_order(a, x, lt);
        lemma_placed_first(a, x, lt, k);
        lemma_placed_first(b, x, lt, k);
    }
}

proof fn lemma_placed_first<T>(a: Seq<T>, x: T, lt: spec_fn(T, T) -> bool, k: int)
    requires
        weak_order(lt),
        in_order(a, lt),
        0 <= k,
    ensures
        first_of_list(placed(a, x, lt), k) == first_of_list(placed(first_of_list(a, k), x, lt), k),
{
    if k < a.len() {
        lemma_placed(a, x, lt);
        lemma_placed(a.take(k), x, lt);
        lemma_placed_at_end(a, x, lt, k);
    }
}

/// Cutting a sorted list to its first `k` elements before more elements are added changes
/// nothing in the first `k` elements of the sorted whole.
pub proof fn cutting_early_changes_nothing<T>(
    a: Seq<T>,
    b: Seq<T>,
    lt: spec_fn(T, T) -> bool,
    k: int,
)
    requires
        weak_order(lt),
        0 <= k,
    ensures
        first_of_list(sorted_by(first_of_list(sorted_by(a, lt), k) + b, lt), k) == first_of_list(
            sorted_by(a + b, lt),
            k,
        ),
{
    let s = sorted_by(a, lt);
    let cut = first_of_list(s, k);
    sorting_orders(a, lt);
    assert(in_order(cut, lt));
    lemma_sorted_concat(a, b, lt);
    lemma_sorted_concat(cut, b, lt);
    sorting_keeps_order(cut, lt);
    lemma_all_placed_cut(s, b, lt, k);
}

/// The elements of a list, the last first.
pub(crate) fn reversed<T>(v: Vec<T>) -> (r: Vec<T>)
    ensures
        r@ == v@.reverse(),
{
    let ghost all = v@;
    let mut rest = v;
    let mut out: Vec<T> = Vec::new();
    while rest.len() > 0
        invariant
            rest@.len() <= all.len(),
            rest@ == all.take(rest@.len() as int),
            out@ == all.skip(rest@.len() as int).reverse(),
        decreases rest@.len(),
    {
        let ghost n = rest@.len();
        match rest.pop() {
            Some(x) => {
                out.push(x);
            },
            None => {},
        }
        proof {
            assert(all.skip(n - 1).reverse() =~= all.skip(n as int).reverse().push(all[n - 1]));
        }
    }
    proof {
        assert(all.skip(0) =~= all);
    }
    out
}

/// An item that is kept was there, and the property holds of it.
pub proof fn filtered_items_fit<T>(s: Seq<T>, p: spec_fn(T) -> bool, x: T)
    requires
        s.filter(p).contains(x),
    ensures
        s.contains(x),
        p(x),
{
    let i = choose|i: int| 0 <= i < s.filter(p).len() && s.filter(p)[i] == x;
    s.lemma_filter_pred(p, i);
    s.lemma_filter_contains_rev(p, x);
}

/// An element with the property is among those that are kept.
pub proof fn filter_holds<T>(s: Seq<T>, p: spec_fn(T) -> bool, x: T)
    requires
        s.contains(x),
        p(x),
    ensures
        s.filter(p).contains(x),
        s.filter(p).len() > 0,
{
    let k = choose|k: int| 0 <= k < s.len() && s[k] == x;
    s.lemma_filter_contains(p, k);
}

} // verus!
