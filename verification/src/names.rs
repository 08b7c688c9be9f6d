//! Sets of names, held in order.
use vstd::prelude::*;

use crate::text;
use crate::text::{precedes, views};

verus! {

/// A set of names in order, with one name put in.
pub open spec fn with_name(sorted: Seq<Seq<char>>, name: Seq<char>) -> Seq<Seq<char>>
    decreases sorted.len(),
{
    if sorted.len() == 0 {
        seq![name]
    } else if sorted.last() == name {
        sorted
    } else if precedes(name, sorted.last()) {
        with_name(sorted.drop_last(), name).push(sorted.last())
    } else {
        sorted.push(name)
    }
}

/// The names in order, each once.
pub open spec fn name_set(names: Seq<Seq<char>>) -> Seq<Seq<char>>
    decreases names.len(),
{
    if names.len() == 0 {
        Seq::empty()
    } else {
        with_name(name_set(names.drop_last()), names.last())
    }
}

/// Every name comes before those behind it.
pub open spec fn names_ascend(names: Seq<Seq<char>>) -> bool {
    forall|i: int, j: int|
        0 <= i < j < names.len() ==> precedes(#[trigger] names[i], #[trigger] names[j])
}

/// Putting a name into a set keeps the order, and adds no other name.
pub proof fn with_name_holds(sorted: Seq<Seq<char>>, name: Seq<char>)
    requires
        names_ascend(sorted),
    ensures
        names_ascend(with_name(sorted, name)),
        forall|x: Seq<char>| #[trigger]
            with_name(sorted, name).contains(x) <==> x == name || sorted.contains(x),
    decreases sorted.len(),
{
    let r = with_name(sorted, name);
    if sorted.len() == 0 {
        assert(r[0] == name);
    } else if sorted.last() == name {
        assert(sorted[sorted.len() - 1] == name);
    } else {
        let front = sorted.drop_last();
        let last = sorted.last();
        assert(sorted[sorted.len() - 1] == last);
        if precedes(name, last) {
            with_name_holds(front, name);
            let inner = with_name(front, name);
            assert(r == inner.push(last));
            assert forall|i: int, j: int| 0 <= i < j < r.len() implies precedes(
                #[trigger] r[i],
                #[trigger] r[j],
            ) by {
                assert(r[i] == inner[i]);
                if j < r.len() - 1 {
                    assert(r[j] == inner[j]);
                } else {
                    assert(inner.contains(inner[i]));
                    if inner[i] != name {
                        assert(front.contains(inner[i]));
                        let k = choose|k: int| 0 <= k < front.len() && front[k] == inner[i];
                        assert(sorted[k] == inner[i]);
                    }
                }
            }
            assert forall|x: Seq<char>| #[trigger] r.contains(x) <==> x == name || sorted.contains(
                x,
            ) by {
                if r.contains(x) {
                    let k = choose|k: int| 0 <= k < r.len() && r[k] == x;
                    if k < r.len() - 1 {
                        assert(inner[k] == x);
                        assert(inner.contains(x));
                        if x != name {
                            assert(front.contains(x));
                            let m = choose|m: int| 0 <= m < front.len() && front[m] == x;
                            assert(sorted[m] == x);
                        }
                    }
                }
                if x == name || sorted.contains(x) {
                    if x == last {
                        assert(r[r.len() - 1] == x);
                    } else {
                        if x != name {
                            let k = choose|k: int| 0 <= k < sorted.len() && sorted[k] == x;
                            assert(front[k] == x);
                        }
                        assert(inner.contains(x));
                        let m = choose|m: int| 0 <= m < inner.len() && inner[m] == x;
                        assert(r[m] == x);
                    }
                }
            }
        } else {
            text::precedes_total(name, last);
            assert forall|i: int, j: int| 0 <= i < j < r.len() implies precedes(
                #[trigger] r[i],
                #[trigger] r[j],
            ) by {
                if j == r.len() - 1 && i < sorted.len() - 1 {
                    assert(precedes(sorted[i], sorted[sorted.len() - 1]));
                    text::precedes_transitive(sorted[i], last, name);
                }
            }
            assert forall|x: Seq<char>| #[trigger] r.contains(x) <==> x == name || sorted.contains(
                x,
            ) by {
                if r.contains(x) {
                    let k = choose|k: int| 0 <= k < r.len() && r[k] == x;
                    if k < r.len() - 1 {
                        assert(sorted[k] == x);
                    }
                }
                if x == name {
                    assert(r[r.len() - 1] == x);
                } else if sorted.contains(x) {
                    let k = choose|k: int| 0 <= k < sorted.len() && sorted[k] == x;
                    assert(r[k] == x);
                }
            }
        }
    }
}

/// A set of names is in order and has the names that were put in.
pub proof fn name_set_holds(names: Seq<Seq<char>>)
    ensures
        names_ascend(name_set(names)),
        forall|x: Seq<char>| #[trigger] name_set(names).contains(x) <==> names.contains(x),
    decreases names.len(),
{
    if names.len() > 0 {
        let front = names.drop_last();
        name_set_holds(front);
        with_name_holds(name_set(front), names.last());
        assert forall|x: Seq<char>| #[trigger]
            name_set(names).contains(x) <==> names.contains(x) by {
            assert(name_set(front).contains(x) <==> front.contains(x));
            assert(names =~= front.push(names.last()));
            if names.contains(x) {
                let k = choose|k: int| 0 <= k < names.len() && names[k] == x;
                if k < names.len() - 1 {
                    assert(front[k] == x);
                }
            }
            if front.contains(x) {
                let k = choose|k: int| 0 <= k < front.len() && front[k] == x;
                assert(names[k] == x);
            }
            if x == names.last() {
                assert(names[names.len() - 1] == x);
            }
        }
    }
}

/// Puts a name into a set.
pub fn insert_name(sorted: &mut Vec<String>, name: String)
    ensures
        views(final(sorted)@) == with_name(views(old(sorted)@), name@),
{
    let ghost start = sorted@;
    let ghost done = views(start);
    let mut i: usize = sorted.len();
    proof {
        assert(done.take(i as int) =~= done);
        assert(done.skip(i as int) =~= Seq::empty());
        assert(with_name(done, name@) + Seq::empty() =~= with_name(done, name@));
    }
    while i > 0 && text::before(name.as_str(), sorted[i - 1].as_str()) && name != sorted[i - 1]
        invariant
            sorted@ == start,
            done == views(start),
            i <= start.len(),
            with_name(done.take(i as int), name@) + done.skip(i as int) == with_name(done, name@),
        decreases i,
    {
        proof {
            let part = done.take(i as int);
            assert(part.last() == done[i - 1]);
            assert(part.drop_last() =~= done.take(i - 1));
            assert(with_name(done.take(i - 1), name@) + done.skip(i - 1) =~= with_name(part, name@)
                + done.skip(i as int));
        }
        i = i - 1;
    }
    let found: bool = i > 0 && name == sorted[i - 1];
    proof {
        let part = done.take(i as int);
        if i > 0 {
            assert(part.last() == done[i - 1]);
        } else {
            assert(part =~= Seq::empty());
            assert(with_name(part, name@) =~= part.push(name@));
        }
        if found {
            assert(with_name(part, name@) == part);
            assert(part + done.skip(i as int) =~= done);
        } else {
            assert(with_name(part, name@) =~= part.push(name@));
        }
    }
    if !found {
        sorted.insert(i, name);
        proof {
            assert(views(sorted@) =~= done.take(i as int).push(name@) + done.skip(i as int));
        }
    }
}

/// Whether a list holds a name.
pub fn holds_name(names: &Vec<String>, name: &str) -> (r: bool)
    ensures
        r == views(names@).contains(name@),
{
    let mut i: usize = 0;
    while i < names.len()
        invariant
            i <= names@.len(),
            forall|k: int| 0 <= k < i ==> (#[trigger] names@[k])@ != name@,
        decreases names@.len() - i,
    {
        if text::same(names[i].as_str(), name) {
            proof {
                assert(views(names@)[i as int] == name@);
            }
            return true;
        }
        i = i + 1;
    }
    proof {
        if views(names@).contains(name@) {
            let k = choose|k: int| 0 <= k < names@.len() && views(names@)[k] == name@;
            assert(names@[k]@ == name@);
        }
    }
    false
}

/// The names of a list in order, each once.
pub fn ordered_names(names: &Vec<String>) -> (r: Vec<String>)
    ensures
        views(r@) == name_set(views(names@)),
        names_ascend(views(r@)),
{
    let mut out: Vec<String> = Vec::new();
    let mut i: usize = 0;
    proof {
        assert(views(names@).take(0) =~= Seq::empty());
        assert(views(out@) =~= name_set(views(names@).take(0)));
    }
    while i < names.len()
        invariant
            i <= names@.len(),
            views(out@) == name_set(views(names@).take(i as int)),
        decreases names@.len() - i,
    {
        proof {
            let next = views(names@).take(i + 1);
            assert(next.drop_last() =~= views(names@).take(i as int));
            assert(next.last() == names@[i as int]@);
            name_set_holds(views(names@).take(i as int));
        }
        insert_name(&mut out, names[i].clone());
        i = i + 1;
    }
    proof {
        assert(views(names@).take(i as int) =~= views(names@));
        name_set_holds(views(names@));
    }
    out
}

/// A copy of a list of names.
pub fn copy_names(names: &Vec<String>) -> (r: Vec<String>)
    ensures
        r@ == names@,
{
    let mut out: Vec<String> = Vec::new();
    let mut i: usize = 0;
    while i < names.len()
        invariant
            i <= names@.len(),
            out@ == names@.take(i as int),
        decreases names@.len() - i,
    {
        out.push(names[i].clone());
        proof {
            assert(names@.take(i + 1) =~= names@.take(i as int).push(names@[i as int]));
        }
        i = i + 1;
    }
    proof {
        assert(names@.take(i as int) =~= names@);
    }
    out
}

} // verus!
