//! Recent sessions: one row for each conversation, the latest first.
//!
//! Sessions that continue each other are one conversation. Forks and spawned sessions are
//! conversations of their own.
use vstd::multiset::Multiset;
use vstd::prelude::*;

use crate::commands::helpers;
use crate::commands::helpers::{has_short_id, id_head};
use crate::commands::OutputFormat;
use crate::json;
use crate::json::{
    fields_view, given_text, given_truth, number_json, optional_size, texts_json, time_json, Json,
    JsonView,
};
use crate::model::Session;
use crate::order;
use crate::order::{first_of_list, sorted_by, time_before};
use crate::provider::{
    key_order, key_precedes, skips_json, skips_view, KeyView, LineageEdge, LineageEdgeKind,
    LogicalSessionKey, ProjectSession, SkippedProvider, UnifiedProject,
};
use crate::text;
use crate::text::{decimal, has, padded, precedes, signed_decimal, views};
use crate::time;
use crate::time::{seconds_of, stamped_if};

verus! {

// ---------------------------------------------------------------------------
// The sessions of a project, by key
// ---------------------------------------------------------------------------

/// A list of sessions in the order of their keys, with one session put in. A session that is
/// there under the same key is replaced.
pub open spec fn with_session(sorted: Seq<ProjectSession>, s: ProjectSession) -> Seq<ProjectSession>
    decreases sorted.len(),
{
    if sorted.len() == 0 {
        seq![s]
    } else if sorted.last().key@ == s.key@ {
        sorted.drop_last().push(s)
    } else if key_precedes(s.key@, sorted.last().key@) {
        with_session(sorted.drop_last(), s).push(sorted.last())
    } else {
        sorted.push(s)
    }
}

/// The sessions by key, each key once, with the session that was named last.
pub open spec fn members_of(sessions: Seq<ProjectSession>) -> Seq<ProjectSession>
    decreases sessions.len(),
{
    if sessions.len() == 0 {
        Seq::empty()
    } else {
        with_session(members_of(sessions.drop_last()), sessions.last())
    }
}

/// Every key comes before the keys behind it.
pub open spec fn keys_ascend(members: Seq<ProjectSession>) -> bool {
    forall|i: int, j: int|
        0 <= i < j < members.len() ==> key_precedes(
            (#[trigger] members[i]).key@,
            (#[trigger] members[j]).key@,
        )
}

proof fn lemma_with_session(sorted: Seq<ProjectSession>, s: ProjectSession)
    requires
        keys_ascend(sorted),
    ensures
        keys_ascend(with_session(sorted, s)),
        with_session(sorted, s).len() <= sorted.len() + 1,
        with_session(sorted, s).len() >= 1,
        forall|x: ProjectSession| #[trigger]
            with_session(sorted, s).contains(x) ==> x == s || sorted.contains(x),
    decreases sorted.len(),
{
    let r = with_session(sorted, s);
    if sorted.len() > 0 {
        let front = sorted.drop_last();
        let last = sorted.last();
        assert(keys_ascend(front));
        key_order(s.key@, last.key@, last.key@);
        if last.key@ == s.key@ {
            assert forall|i: int, j: int| 0 <= i < j < r.len() implies key_precedes(
                (#[trigger] r[i]).key@,
                (#[trigger] r[j]).key@,
            ) by {
                assert(r[i] == sorted[i]);
                if j == r.len() - 1 {
                    assert(key_precedes(sorted[i].key@, sorted[j].key@));
                } else {
                    assert(r[j] == sorted[j]);
                }
            }
            assert forall|x: ProjectSession| #[trigger] r.contains(x) implies x == s
                || sorted.contains(x) by {
                let k = choose|k: int| 0 <= k < r.len() && r[k] == x;
                if k < r.len() - 1 {
                    assert(sorted[k] == x);
                }
            }
        } else if key_precedes(s.key@, last.key@) {
            lemma_with_session(front, s);
            let inner = with_session(front, s);
            assert forall|i: int, j: int| 0 <= i < j < r.len() implies key_precedes(
                (#[trigger] r[i]).key@,
                (#[trigger] r[j]).key@,
            ) by {
                assert(r[i] == inner[i]);
                if j == r.len() - 1 {
                    assert(r[j] == last);
                    assert(inner.contains(inner[i]));
                    if inner[i] != s {
                        let k = choose|k: int| 0 <= k < front.len() && front[k] == inner[i];
                        assert(sorted[k] == inner[i]);
                        assert(key_precedes(sorted[k].key@, sorted[sorted.len() - 1].key@));
                    }
                } else {
                    assert(r[j] == inner[j]);
                }
            }
            assert forall|x: ProjectSession| #[trigger] r.contains(x) implies x == s
                || sorted.contains(x) by {
                let k = choose|k: int| 0 <= k < r.len() && r[k] == x;
                if k < r.len() - 1 {
                    assert(inner[k] == x);
                    assert(inner.contains(x));
                    if x != s {
                        let m = choose|m: int| 0 <= m < front.len() && front[m] == x;
                        assert(sorted[m] == x);
                    }
                } else {
                    assert(sorted[sorted.len() - 1] == x);
                }
            }
        } else {
            assert forall|i: int, j: int| 0 <= i < j < r.len() implies key_precedes(
                (#[trigger] r[i]).key@,
                (#[trigger] r[j]).key@,
            ) by {
                if j == r.len() - 1 {
                    if i < sorted.len() - 1 {
                        assert(key_precedes(sorted[i].key@, sorted[sorted.len() - 1].key@));
                        key_order(sorted[i].key@, last.key@, s.key@);
                    }
                } else {
                    assert(r[i] == sorted[i] && r[j] == sorted[j]);
                }
            }
            assert forall|x: ProjectSession| #[trigger] r.contains(x) implies x == s
                || sorted.contains(x) by {
                let k = choose|k: int| 0 <= k < r.len() && r[k] == x;
                if k < r.len() - 1 {
                    assert(sorted[k] == x);
                }
            }
        }
    }
}

/// The members of a project are in the order of their keys, each key once.
pub proof fn members_ascend(sessions: Seq<ProjectSession>)
    ensures
        keys_ascend(members_of(sessions)),
        members_of(sessions).len() <= sessions.len(),
    decreases sessions.len(),
{
    if sessions.len() > 0 {
        members_ascend(sessions.drop_last());
        lemma_with_session(members_of(sessions.drop_last()), sessions.last());
    }
}

fn collect_members(sessions: &Vec<ProjectSession>) -> (r: Vec<ProjectSession>)
    ensures
        r@ == members_of(sessions@),
{
    let mut out: Vec<ProjectSession> = Vec::new();
    let mut n: usize = 0;
    proof {
        assert(sessions@.take(0) =~= Seq::empty());
    }
    while n < sessions.len()
        invariant
            n <= sessions@.len(),
            out@ == members_of(sessions@.take(n as int)),
        decreases sessions@.len() - n,
    {
        let s = sessions[n].copy();
        let ghost done = out@;
        proof {
            assert(sessions@.take(n + 1).drop_last() =~= sessions@.take(n as int));
            assert(sessions@.take(n + 1).last() == s);
            assert(done.take(done.len() as int) =~= done);
            assert(done.skip(done.len() as int) =~= Seq::empty());
            assert(with_session(done, s) + Seq::empty() =~= with_session(done, s));
        }
        let mut i: usize = out.len();
        while i > 0 && s.key.before(&out[i - 1].key) && !s.key.same(&out[i - 1].key)
            invariant
                out@ == done,
                i <= done.len(),
                with_session(done.take(i as int), s) + done.skip(i as int) == with_session(done, s),
            decreases i,
        {
            proof {
                let part = done.take(i as int);
                assert(part.last() == done[i - 1]);
                assert(part.drop_last() =~= done.take(i - 1));
                assert(with_session(done.take(i - 1), s) + done.skip(i - 1) =~= with_session(
                    part,
                    s,
                ) + done.skip(i as int));
            }
            i = i - 1;
        }
        proof {
            let part = done.take(i as int);
            if i > 0 {
                assert(part.last() == done[i - 1]);
                assert(part.drop_last() =~= done.take(i - 1));
            } else {
                assert(part =~= Seq::empty());
            }
        }
        if i > 0 && s.key.same(&out[i - 1].key) {
            proof {
                assert(done.update(i - 1, s) =~= done.take(i - 1).push(s) + done.skip(i as int));
            }
            out.set(i - 1, s);
        } else {
            proof {
                let part = done.take(i as int);
                if i == 0 {
                    assert(with_session(part, s) =~= part.push(s));
                }
                assert(done.insert(i as int, s) =~= part.push(s) + done.skip(i as int));
            }
            out.insert(i, s);
        }
        n = n + 1;
    }
    proof {
        assert(sessions@.take(n as int) =~= sessions@);
    }
    out
}

// ---------------------------------------------------------------------------
// Parents and spawned sessions
// ---------------------------------------------------------------------------

/// The place of a key among the members, where it is one.
pub open spec fn place_of(members: Seq<ProjectSession>, key: KeyView) -> Option<int>
    decreases members.len(),
{
    if members.len() == 0 {
        None
    } else if members.last().key@ == key {
        Some(members.len() - 1)
    } else {
        place_of(members.drop_last(), key)
    }
}

proof fn lemma_place_of(members: Seq<ProjectSession>, key: KeyView)
    ensures
        match place_of(members, key) {
            Some(i) => 0 <= i < members.len() && members[i].key@ == key,
            None => forall|i: int| 0 <= i < members.len() ==> (#[trigger] members[i]).key@ != key,
        },
    decreases members.len(),
{
    if members.len() > 0 && members.last().key@ != key {
        lemma_place_of(members.drop_last(), key);
        if place_of(members, key) is None {
            assert forall|i: int| 0 <= i < members.len() implies (#[trigger] members[i]).key@
                != key by {
                if i < members.len() - 1 {
                    assert(members.drop_last()[i] == members[i]);
                }
            }
        }
    }
}

fn find_place(members: &Vec<ProjectSession>, key: &LogicalSessionKey) -> (r: Option<usize>)
    ensures
        match r {
            Some(i) => place_of(members@, key@) == Some(i as int) && i < members@.len(),
            None => place_of(members@, key@) is None,
        },
{
    let mut i: usize = members.len();
    proof {
        assert(members@.take(i as int) =~= members@);
    }
    while i > 0
        invariant
            i <= members@.len(),
            place_of(members@.take(i as int), key@) == place_of(members@, key@),
        decreases i,
    {
        proof {
            let part = members@.take(i as int);
            assert(part.last() == members@[i - 1]);
            assert(part.drop_last() =~= members@.take(i - 1));
        }
        if members[i - 1].key.same(key) {
            return Some(i - 1);
        }
        i = i - 1;
    }
    None
}

/// The smaller of two places.
pub open spec fn smaller(a: Option<int>, b: int) -> int {
    match a {
        Some(p) => if b < p {
            b
        } else {
            p
        },
        None => b,
    }
}

/// The member that member `i` continues: of all that it continues, the one whose key comes
/// first.
pub open spec fn parent_of(
    edges: Seq<LineageEdge>,
    members: Seq<ProjectSession>,
    i: int,
) -> Option<int>
    decreases edges.len(),
{
    if edges.len() == 0 {
        None
    } else {
        let before = parent_of(edges.drop_last(), members, i);
        let edge = edges.last();
        match place_of(members, edge.from@) {
            Some(p) if edge.kind is Continuation && place_of(members, edge.to@) == Some(i) => Some(
                smaller(before, p),
            ),
            _ => before,
        }
    }
}

/// Member `i` was spawned.
pub open spec fn is_spawned(
    edges: Seq<LineageEdge>,
    members: Seq<ProjectSession>,
    i: int,
) -> bool {
    exists|e: int|
        0 <= e < edges.len() && (#[trigger] edges[e]).kind is Spawn && place_of(
            members,
            edges[e].to@,
        ) == Some(i)
}

/// The list of parents states `parent_of` for every member.
pub open spec fn parents_match(
    parents: Seq<Option<usize>>,
    edges: Seq<LineageEdge>,
    members: Seq<ProjectSession>,
) -> bool {
    &&& parents.len() == members.len()
    &&& forall|i: int|
        0 <= i < members.len() ==> (match #[trigger] parents[i] {
            Some(p) => parent_of(edges, members, i) == Some(p as int) && p < members.len(),
            None => parent_of(edges, members, i) is None,
        })
}

/// The list of marks states `is_spawned` for every member.
pub open spec fn spawned_match(
    spawned: Seq<bool>,
    edges: Seq<LineageEdge>,
    members: Seq<ProjectSession>,
) -> bool {
    &&& spawned.len() == members.len()
    &&& forall|i: int|
        0 <= i < members.len() ==> #[trigger] spawned[i] == is_spawned(edges, members, i)
}

fn find_parents(edges: &Vec<LineageEdge>, members: &Vec<ProjectSession>) -> (r: (
    Vec<Option<usize>>,
    Vec<bool>,
))
    ensures
        parents_match(r.0@, edges@, members@),
        spawned_match(r.1@, edges@, members@),
{
    let mut parents: Vec<Option<usize>> = Vec::new();
    let mut spawned: Vec<bool> = Vec::new();
    let mut n: usize = 0;
    while n < members.len()
        invariant
            n <= members@.len(),
            parents@.len() == n,
            spawned@.len() == n,
            forall|i: int| 0 <= i < n ==> (#[trigger] parents@[i]) is None,
            forall|i: int| 0 <= i < n ==> !#[trigger] spawned@[i],
        decreases members@.len() - n,
    {
        parents.push(None);
        spawned.push(false);
        n = n + 1;
    }
    let mut e: usize = 0;
    proof {
        assert(edges@.take(0) =~= Seq::empty());
    }
    while e < edges.len()
        invariant
            e <= edges@.len(),
            parents_match(parents@, edges@.take(e as int), members@),
            spawned_match(spawned@, edges@.take(e as int), members@),
        decreases edges@.len() - e,
    {
        let ghost part = edges@.take(e as int);
        let ghost next = edges@.take(e + 1);
        let edge = &edges[e];
        proof {
            assert(next.drop_last() =~= part);
            assert(next.last() == edges@[e as int]);
            lemma_place_of(members@, edge.from@);
            lemma_place_of(members@, edge.to@);
            lemma_spawned_step(edges@, members@, e as int);
        }
        let from = find_place(members, &edge.from);
        let to = find_place(members, &edge.to);
        match &edge.kind {
            LineageEdgeKind::Continuation => {
                match (from, to) {
                    (Some(p), Some(i)) => {
                        let least: usize = match parents[i] {
                            Some(q) => if p < q {
                                p
                            } else {
                                q
                            },
                            None => p,
                        };
                        parents.set(i, Some(least));
                    },
                    _ => {},
                }
            },
            LineageEdgeKind::Fork => {},
            LineageEdgeKind::Spawn { .. } => {
                match to {
                    Some(i) => {
                        spawned.set(i, true);
                    },
                    None => {},
                }
            },
        }
        e = e + 1;
    }
    proof {
        assert(edges@.take(e as int) =~= edges@);
    }
    (parents, spawned)
}

proof fn lemma_spawned_step(edges: Seq<LineageEdge>, members: Seq<ProjectSession>, e: int)
    requires
        0 <= e < edges.len(),
    ensures
        forall|i: int| #[trigger]
            is_spawned(edges.take(e + 1), members, i) == (is_spawned(edges.take(e), members, i) || (
            edges[e].kind is Spawn && place_of(members, edges[e].to@) == Some(i))),
{
    assert forall|i: int| #[trigger]
        is_spawned(edges.take(e + 1), members, i) == (is_spawned(edges.take(e), members, i) || (
        edges[e].kind is Spawn && place_of(members, edges[e].to@) == Some(i))) by {
        let before = edges.take(e);
        let after = edges.take(e + 1);
        if is_spawned(after, members, i) {
            let k = choose|k: int|
                0 <= k < after.len() && (#[trigger] after[k]).kind is Spawn && place_of(
                    members,
                    after[k].to@,
                ) == Some(i);
            if k < e {
                assert(before[k] == after[k]);
            } else {
                assert(after[k] == edges[e]);
            }
        }
        if is_spawned(before, members, i) {
            let k = choose|k: int|
                0 <= k < before.len() && (#[trigger] before[k]).kind is Spawn && place_of(
                    members,
                    before[k].to@,
                ) == Some(i);
            assert(after[k] == before[k]);
        }
        if edges[e].kind is Spawn && place_of(members, edges[e].to@) == Some(i) {
            assert(after[e] == edges[e]);
        }
    }
}

// ---------------------------------------------------------------------------
// The root of a conversation
// ---------------------------------------------------------------------------

/// Every parent is a member.
pub open spec fn parents_ok(parents: Seq<Option<usize>>, spawned: Seq<bool>) -> bool {
    &&& spawned.len() == parents.len()
    &&& forall|i: int|
        0 <= i < parents.len() && (#[trigger] parents[i]) is Some ==> parents[i]->0 < parents.len()
}

/// The first place of `x` in `s`, or the length where it is in none.
pub open spec fn first_place(s: Seq<int>, x: int) -> int
    decreases s.len(),
{
    if s.len() == 0 || s[0] == x {
        0
    } else {
        1 + first_place(s.drop_first(), x)
    }
}

/// The least element of a list.
pub open spec fn least(s: Seq<int>) -> int
    decreases s.len(),
{
    if s.len() <= 1 {
        s[0]
    } else if s.last() < least(s.drop_last()) {
        s.last()
    } else {
        least(s.drop_last())
    }
}

/// The root that is reached from the end of `path`, a walk from parent to parent that began at
/// `start`, and its distance. A walk that comes to a spawned session is given up: the session
/// is then its own root. A walk that runs into itself ends at the first member of the circle.
pub open spec fn walked_root(
    start: int,
    path: Seq<int>,
    parents: Seq<Option<usize>>,
    spawned: Seq<bool>,
) -> (int, int)
    decreases parents.len() - path.len(),
    when path.len() <= parents.len()
{
    let current = path.last();
    match parents[current] {
        None => (current, path.len() - 1),
        Some(parent) => if spawned[parent as int] {
            (start, 0)
        } else if path.contains(parent as int) {
            (least(path.skip(first_place(path, parent as int))), 0)
        } else if path.len() < parents.len() {
            walked_root(start, path.push(parent as int), parents, spawned)
        } else {
            (start, 0)
        },
    }
}

/// The root of the conversation that member `i` belongs to, and how far it is from there.
pub open spec fn root_of(i: int, parents: Seq<Option<usize>>, spawned: Seq<bool>) -> (int, int) {
    if spawned[i] {
        (i, 0)
    } else {
        walked_root(i, seq![i], parents, spawned)
    }
}

/// What a walk holds: members that were not spawned, none twice.
spec fn walk_ok(path: Seq<int>, parents: Seq<Option<usize>>, spawned: Seq<bool>) -> bool {
    &&& path.len() > 0
    &&& path.no_duplicates()
    &&& forall|k: int|
        0 <= k < path.len() ==> 0 <= #[trigger] path[k] < parents.len() && !spawned[path[k]]
}

proof fn lemma_walk_fits(path: Seq<int>, parents: Seq<Option<usize>>, spawned: Seq<bool>)
    requires
        walk_ok(path, parents, spawned),
    ensures
        path.len() <= parents.len(),
{
    let all = vstd::set_lib::set_int_range(0, parents.len() as int);
    vstd::set_lib::lemma_int_range(0, parents.len() as int);
    path.unique_seq_to_set();
    assert(path.to_set().subset_of(all)) by {
        assert forall|x: int| path.to_set().contains(x) implies all.contains(x) by {
            let k = choose|k: int| 0 <= k < path.len() && path[k] == x;
            assert(0 <= path[k] < parents.len());
        }
    }
    vstd::set_lib::lemma_len_subset(path.to_set(), all);
}

proof fn lemma_first_place(s: Seq<int>, x: int, k: int)
    requires
        0 <= k <= s.len(),
        k < s.len() ==> s[k] == x,
        forall|j: int| 0 <= j < k ==> s[j] != x,
    ensures
        first_place(s, x) == k,
    decreases k,
{
    if k > 0 {
        assert(s[0] != x);
        assert forall|j: int| 0 <= j < k - 1 implies s.drop_first()[j] != x by {
            assert(s.drop_first()[j] == s[j + 1]);
        }
        lemma_first_place(s.drop_first(), x, k - 1);
    }
}

spec fn places(v: Seq<usize>) -> Seq<int> {
    Seq::new(v.len(), |i: int| v[i] as int)
}

fn least_from(path: &Vec<usize>, from: usize) -> (r: usize)
    requires
        from < path@.len(),
    ensures
        r == least(places(path@).skip(from as int)),
{
    let ghost tail = places(path@).skip(from as int);
    let total: usize = path.len();
    let mut best: usize = path[from];
    let mut i: usize = from + 1;
    proof {
        assert(tail.take(1) =~= seq![path@[from as int] as int]);
    }
    while i < total
        invariant
            total == path@.len(),
            from < i <= total,
            tail == places(path@).skip(from as int),
            best == least(tail.take(i - from)),
        decreases path@.len() - i,
    {
        proof {
            let next = tail.take(i - from + 1);
            assert(next.drop_last() =~= tail.take(i - from));
            assert(next.last() == path@[i as int]);
        }
        if path[i] < best {
            best = path[i];
        }
        i = i + 1;
    }
    proof {
        assert(tail.take(i - from) =~= tail);
    }
    best
}

/// The root of the conversation that a member belongs to, and how far it is from there.
pub fn continuation_root(start: usize, parents: &Vec<Option<usize>>, spawned: &Vec<bool>) -> (r: (
    usize,
    usize,
))
    requires
        start < parents@.len(),
        parents_ok(parents@, spawned@),
    ensures
        (r.0 as int, r.1 as int) == root_of(start as int, parents@, spawned@),
        r.0 < parents@.len(),
{
    if spawned[start] {
        return (start, 0);
    }
    let mut path: Vec<usize> = Vec::new();
    path.push(start);
    proof {
        assert(places(path@) =~= seq![start as int]);
    }
    loop
        invariant
            start < parents@.len(),
            parents_ok(parents@, spawned@),
            walk_ok(places(path@), parents@, spawned@),
            walked_root(start as int, places(path@), parents@, spawned@) == root_of(
                start as int,
                parents@,
                spawned@,
            ),
        decreases parents@.len() - path@.len(),
    {
        let ghost walk = places(path@);
        proof {
            lemma_walk_fits(walk, parents@, spawned@);
            assert(walk[walk.len() - 1] == walk.last());
        }
        let current: usize = path[path.len() - 1];
        match parents[current] {
            None => {
                return (current, path.len() - 1);
            },
            Some(parent) => {
                if spawned[parent] {
                    return (start, 0);
                }
                let mut k: usize = 0;
                while k < path.len() && path[k] != parent
                    invariant
                        k <= path@.len(),
                        forall|j: int| 0 <= j < k ==> path@[j] != parent,
                    decreases path@.len() - k,
                {
                    k = k + 1;
                }
                if k < path.len() {
                    proof {
                        assert(walk[k as int] == parent);
                        lemma_first_place(walk, parent as int, k as int);
                        let circle = walk.skip(k as int);
                        lemma_least_is_member(circle);
                        let m = choose|m: int| 0 <= m < circle.len() && circle[m] == least(circle);
                        assert(walk[k + m] == circle[m]);
                    }
                    return (least_from(&path, k), 0);
                }
                proof {
                    let next = walk.push(parent as int);
                    assert(!walk.contains(parent as int)) by {
                        if walk.contains(parent as int) {
                            let j = choose|j: int| 0 <= j < walk.len() && walk[j] == parent as int;
                            assert(path@[j] == parent);
                        }
                    }
                    assert(next.no_duplicates());
                    assert(walk_ok(next, parents@, spawned@));
                    lemma_walk_fits(next, parents@, spawned@);
                    assert(places(path@.push(parent)) =~= next);
                }
                path.push(parent);
            },
        }
    }
}

proof fn lemma_least_is_member(s: Seq<int>)
    requires
        s.len() > 0,
    ensures
        s.contains(least(s)),
        forall|i: int| 0 <= i < s.len() ==> least(s) <= #[trigger] s[i],
    decreases s.len(),
{
    if s.len() > 1 {
        let front = s.drop_last();
        lemma_least_is_member(front);
        let k = choose|k: int| 0 <= k < front.len() && front[k] == least(front);
        assert(s[k] == front[k]);
        assert(s[s.len() - 1] == s.last());
        assert forall|i: int| 0 <= i < s.len() implies least(s) <= #[trigger] s[i] by {
            if i < front.len() {
                assert(front[i] == s[i]);
            }
        }
    } else {
        assert(s[0] == least(s));
    }
}

proof fn lemma_walked_root(
    start: int,
    path: Seq<int>,
    parents: Seq<Option<usize>>,
    spawned: Seq<bool>,
)
    requires
        parents_ok(parents, spawned),
        walk_ok(path, parents, spawned),
        0 <= start < parents.len(),
        !spawned[start],
    ensures
        ({
            let r = walked_root(start, path, parents, spawned);
            0 <= r.0 < parents.len() && !spawned[r.0] && 0 <= r.1
        }),
    decreases parents.len() - path.len(),
{
    lemma_walk_fits(path, parents, spawned);
    assert(path[path.len() - 1] == path.last());
    match parents[path.last()] {
        None => {},
        Some(parent) => {
            if !spawned[parent as int] {
                if path.contains(parent as int) {
                    let k = choose|k: int| 0 <= k < path.len() && path[k] == parent as int;
                    assert forall|j: int| 0 <= j < k implies path[j] != parent as int by {}
                    lemma_first_place(path, parent as int, k);
                    let circle = path.skip(k);
                    lemma_least_is_member(circle);
                    let m = choose|m: int| 0 <= m < circle.len() && circle[m] == least(circle);
                    assert(path[k + m] == circle[m]);
                } else {
                    let next = path.push(parent as int);
                    assert(next.no_duplicates());
                    assert(walk_ok(next, parents, spawned));
                    lemma_walk_fits(next, parents, spawned);
                    lemma_walked_root(start, next, parents, spawned);
                }
            }
        },
    }
}

/// A root is a member, and a spawned session is the root of no other session and of itself.
pub proof fn spawned_sessions_stand_alone(
    i: int,
    parents: Seq<Option<usize>>,
    spawned: Seq<bool>,
)
    requires
        parents_ok(parents, spawned),
        0 <= i < parents.len(),
    ensures
        0 <= root_of(i, parents, spawned).0 < parents.len(),
        0 <= root_of(i, parents, spawned).1,
        spawned[i] ==> root_of(i, parents, spawned) == (i, 0int),
        spawned[root_of(i, parents, spawned).0] ==> root_of(i, parents, spawned).0 == i,
{
    if !spawned[i] {
        assert(walk_ok(seq![i], parents, spawned));
        lemma_walked_root(i, seq![i], parents, spawned);
    }
}

/// The member that lies `n` steps up from member `i`, each step from a session to the one that it
/// continues; none where there is nothing left to continue before that.
pub open spec fn ancestor(i: int, n: nat, parents: Seq<Option<usize>>) -> Option<int>
    decreases n,
{
    if n == 0 {
        Some(i)
    } else {
        match ancestor(i, (n - 1) as nat, parents) {
            Some(j) => match parents[j] {
                Some(p) => Some(p as int),
                None => None,
            },
            None => None,
        }
    }
}

/// No session on the way up from member `i` was spawned.
pub open spec fn is_plain(i: int, parents: Seq<Option<usize>>, spawned: Seq<bool>) -> bool {
    forall|n: nat|
        (#[trigger] ancestor(i, n, parents)) matches Some(j) ==> !spawned[j]
}

/// The way up from member `i` ends after `n` steps, at `root`, which continues nothing.
pub open spec fn ends_at(i: int, n: nat, root: int, parents: Seq<Option<usize>>) -> bool {
    ancestor(i, n, parents) == Some(root) && parents[root] is None
}

/// The way up from member `i` enters a circle after `from` steps and has gone round it after
/// `to` steps; `root` is on the circle, and no member of the circle is less.
pub open spec fn circles_at(
    i: int,
    from: nat,
    to: nat,
    root: int,
    parents: Seq<Option<usize>>,
) -> bool {
    &&& from < to
    &&& ancestor(i, from, parents) is Some
    &&& ancestor(i, from, parents) == ancestor(i, to, parents)
    &&& exists|t: nat| from <= t < to && #[trigger] ancestor(i, t, parents) == Some(root)
    &&& forall|t: nat|
        from <= t < to ==> ((#[trigger] ancestor(i, t, parents)) matches Some(j) && root <= j)
}

/// A walk holds the members on the way up from its first one.
spec fn climbs(path: Seq<int>, i: int, parents: Seq<Option<usize>>) -> bool {
    forall|k: int|
        0 <= k < path.len() ==> ancestor(i, k as nat, parents) == Some(#[trigger] path[k])
}

proof fn lemma_walk_climbs(
    i: int,
    path: Seq<int>,
    parents: Seq<Option<usize>>,
    spawned: Seq<bool>,
)
    requires
        parents_ok(parents, spawned),
        walk_ok(path, parents, spawned),
        climbs(path, i, parents),
        is_plain(i, parents, spawned),
    ensures
        ({
            let r = walked_root(i, path, parents, spawned);
            ||| (r.1 >= 0 && ends_at(i, r.1 as nat, r.0, parents))
            ||| (r.1 == 0 && exists|from: nat, to: nat| circles_at(i, from, to, r.0, parents))
        }),
    decreases parents.len() - path.len(),
{
    lemma_walk_fits(path, parents, spawned);
    let last = (path.len() - 1) as nat;
    assert(path[last as int] == path.last());
    assert(ancestor(i, last, parents) == Some(path.last()));
    match parents[path.last()] {
        None => {},
        Some(parent) => {
            assert(ancestor(i, (last + 1) as nat, parents) == Some(parent as int));
            if path.contains(parent as int) {
                let k = choose|k: int| 0 <= k < path.len() && path[k] == parent as int;
                assert forall|j: int| 0 <= j < k implies path[j] != parent as int by {}
                lemma_first_place(path, parent as int, k);
                let circle = path.skip(k);
                lemma_least_is_member(circle);
                let root = least(circle);
                let m = choose|m: int| 0 <= m < circle.len() && circle[m] == root;
                assert(path[k + m] == circle[m]);
                assert(ancestor(i, (k + m) as nat, parents) == Some(root));
                assert forall|t: nat| k <= t < path.len() implies ((#[trigger] ancestor(
                    i,
                    t,
                    parents,
                )) matches Some(j) && root <= j) by {
                    assert(path[t as int] == circle[t - k]);
                }
                assert(circles_at(i, k as nat, path.len() as nat, root, parents));
            } else {
                let next = path.push(parent as int);
                assert(next.no_duplicates());
                assert(walk_ok(next, parents, spawned));
                lemma_walk_fits(next, parents, spawned);
                assert forall|k: int| 0 <= k < next.len() implies ancestor(i, k as nat, parents)
                    == Some(#[trigger] next[k]) by {
                    if k < path.len() {
                        assert(next[k] == path[k]);
                    }
                }
                lemma_walk_climbs(i, next, parents, spawned);
            }
        },
    }
}

/// Where no session on the way up was spawned, the root of a session is the one at which the way
/// up ends, and the distance is the number of steps to it; or the way up runs into a circle, and
/// the root is the least session of the circle, at no distance.
pub proof fn roots_lie_up_the_way(i: int, parents: Seq<Option<usize>>, spawned: Seq<bool>)
    requires
        parents_ok(parents, spawned),
        0 <= i < parents.len(),
        is_plain(i, parents, spawned),
    ensures
        ({
            let r = root_of(i, parents, spawned);
            ||| (r.1 >= 0 && ends_at(i, r.1 as nat, r.0, parents))
            ||| (r.1 == 0 && exists|from: nat, to: nat| circles_at(i, from, to, r.0, parents))
        }),
{
    assert(ancestor(i, 0, parents) == Some(i));
    assert(walk_ok(seq![i], parents, spawned));
    lemma_walk_climbs(i, seq![i], parents, spawned);
}

proof fn lemma_ancestor_of_ancestor(
    i: int,
    n: nat,
    x: int,
    m: nat,
    parents: Seq<Option<usize>>,
)
    requires
        ancestor(i, n, parents) == Some(x),
    ensures
        ancestor(x, m, parents) == ancestor(i, n + m, parents),
    decreases m,
{
    if m > 0 {
        lemma_ancestor_of_ancestor(i, n, x, (m - 1) as nat, parents);
        assert((n + m - 1) as nat == n + (m - 1) as nat);
    }
}

proof fn lemma_way_is_over(i: int, n: nat, more: nat, root: int, parents: Seq<Option<usize>>)
    requires
        ends_at(i, n, root, parents),
        more > 0,
    ensures
        ancestor(i, n + more, parents) is None,
    decreases more,
{
    if more > 1 {
        lemma_way_is_over(i, n, (more - 1) as nat, root, parents);
    }
    assert((n + more - 1) as nat == n + (more - 1) as nat);
}

proof fn lemma_goes_round(
    i: int,
    from: nat,
    to: nat,
    t: nat,
    root: int,
    parents: Seq<Option<usize>>,
)
    requires
        circles_at(i, from, to, root, parents),
        t >= from,
    ensures
        ancestor(i, t, parents) == ancestor(i, (t + (to - from)) as nat, parents),
        ancestor(i, t, parents) matches Some(j) && root <= j,
    decreases t,
{
    let round = (to - from) as nat;
    if t > from {
        lemma_goes_round(i, from, to, (t - 1) as nat, root, parents);
        assert((t + round - 1) as nat == ((t - 1) + round) as nat);
        if t >= to {
            lemma_goes_round(i, from, to, (t - round) as nat, root, parents);
        }
    }
}

proof fn lemma_comes_again(
    i: int,
    from: nat,
    to: nat,
    t: nat,
    times: nat,
    root: int,
    parents: Seq<Option<usize>>,
)
    requires
        circles_at(i, from, to, root, parents),
        t >= from,
    ensures
        exists|u: nat| u >= t + times && #[trigger] ancestor(i, u, parents) == ancestor(
            i,
            t,
            parents,
        ),
    decreases times,
{
    if times > 0 {
        lemma_comes_again(i, from, to, t, (times - 1) as nat, root, parents);
        let u = choose|u: nat|
            u >= t + (times - 1) && #[trigger] ancestor(i, u, parents) == ancestor(i, t, parents);
        lemma_goes_round(i, from, to, u, root, parents);
        let v = (u + (to - from)) as nat;
        assert(ancestor(i, v, parents) == ancestor(i, t, parents));
    } else {
        assert(ancestor(i, t, parents) == ancestor(i, t, parents));
    }
}

proof fn lemma_circle_bounds(
    i: int,
    from: nat,
    to: nat,
    root: int,
    from2: nat,
    to2: nat,
    root2: int,
    parents: Seq<Option<usize>>,
)
    requires
        circles_at(i, from, to, root, parents),
        circles_at(i, from2, to2, root2, parents),
    ensures
        root2 <= root,
{
    let t = choose|t: nat| from <= t < to && #[trigger] ancestor(i, t, parents) == Some(root);
    lemma_comes_again(i, from, to, t, from2, root, parents);
    let u = choose|u: nat|
        u >= t + from2 && #[trigger] ancestor(i, u, parents) == ancestor(i, t, parents);
    lemma_goes_round(i, from2, to2, u, root2, parents);
}

proof fn lemma_one_end(
    i: int,
    n: nat,
    root: int,
    m: nat,
    root2: int,
    parents: Seq<Option<usize>>,
)
    requires
        ends_at(i, n, root, parents),
        ends_at(i, m, root2, parents),
    ensures
        n == m,
        root == root2,
{
    if n < m {
        lemma_way_is_over(i, n, (m - n) as nat, root, parents);
    }
    if m < n {
        lemma_way_is_over(i, m, (n - m) as nat, root2, parents);
    }
}

proof fn lemma_ends_or_circles(
    i: int,
    n: nat,
    root: int,
    from: nat,
    to: nat,
    root2: int,
    parents: Seq<Option<usize>>,
)
    requires
        ends_at(i, n, root, parents),
    ensures
        !circles_at(i, from, to, root2, parents),
{
    if circles_at(i, from, to, root2, parents) {
        lemma_way_is_over(i, n, from + 1, root, parents);
        lemma_goes_round(i, from, to, n + (from + 1), root2, parents);
    }
}

/// Where no session on the way up was spawned, every session on it has the same root: sessions
/// whose ways meet are one conversation, also where they run into one circle.
pub proof fn ways_that_meet_share_a_root(
    i: int,
    n: nat,
    x: int,
    parents: Seq<Option<usize>>,
    spawned: Seq<bool>,
)
    requires
        parents_ok(parents, spawned),
        0 <= i < parents.len(),
        is_plain(i, parents, spawned),
        ancestor(i, n, parents) == Some(x),
    ensures
        root_of(i, parents, spawned).0 == root_of(x, parents, spawned).0,
{
    lemma_ancestor_is_member(i, n, parents, spawned);
    assert forall|m: nat|
        ((#[trigger] ancestor(x, m, parents)) matches Some(j) ==> !spawned[j]) by {
        lemma_ancestor_of_ancestor(i, n, x, m, parents);
        assert(ancestor(i, n + m, parents) matches Some(j) ==> !spawned[j]);
    }
    roots_lie_up_the_way(i, parents, spawned);
    roots_lie_up_the_way(x, parents, spawned);
    let a = root_of(i, parents, spawned);
    let b = root_of(x, parents, spawned);
    if b.1 >= 0 && ends_at(x, b.1 as nat, b.0, parents) {
        lemma_ancestor_of_ancestor(i, n, x, b.1 as nat, parents);
        let steps = n + b.1 as nat;
        assert(ends_at(i, steps, b.0, parents));
        if a.1 >= 0 && ends_at(i, a.1 as nat, a.0, parents) {
            lemma_one_end(i, a.1 as nat, a.0, steps, b.0, parents);
        } else {
            let (from, to) = choose|from: nat, to: nat| circles_at(i, from, to, a.0, parents);
            lemma_ends_or_circles(i, steps, b.0, from, to, a.0, parents);
        }
    } else {
        let (from, to) = choose|from: nat, to: nat| circles_at(x, from, to, b.0, parents);
        lemma_circle_below(i, n, x, from, to, b.0, parents);
        if a.1 >= 0 && ends_at(i, a.1 as nat, a.0, parents) {
            lemma_ends_or_circles(i, a.1 as nat, a.0, n + from, n + to, b.0, parents);
        } else {
            let (from2, to2) = choose|from2: nat, to2: nat|
                circles_at(i, from2, to2, a.0, parents);
            lemma_circle_bounds(i, n + from, n + to, b.0, from2, to2, a.0, parents);
            lemma_circle_bounds(i, from2, to2, a.0, n + from, n + to, b.0, parents);
        }
    }
}

proof fn lemma_circle_below(
    i: int,
    n: nat,
    x: int,
    from: nat,
    to: nat,
    root: int,
    parents: Seq<Option<usize>>,
)
    requires
        ancestor(i, n, parents) == Some(x),
        circles_at(x, from, to, root, parents),
    ensures
        circles_at(i, n + from, n + to, root, parents),
{
    lemma_ancestor_of_ancestor(i, n, x, from, parents);
    lemma_ancestor_of_ancestor(i, n, x, to, parents);
    let t = choose|t: nat| from <= t < to && #[trigger] ancestor(x, t, parents) == Some(root);
    lemma_ancestor_of_ancestor(i, n, x, t, parents);
    assert(ancestor(i, n + t, parents) == Some(root));
    assert forall|u: nat| n + from <= u < n + to implies ((#[trigger] ancestor(
        i,
        u,
        parents,
    )) matches Some(j) && root <= j) by {
        let v = (u - n) as nat;
        lemma_ancestor_of_ancestor(i, n, x, v, parents);
        assert(ancestor(x, v, parents) is Some);
    }
}

proof fn lemma_ancestor_is_member(
    i: int,
    n: nat,
    parents: Seq<Option<usize>>,
    spawned: Seq<bool>,
)
    requires
        parents_ok(parents, spawned),
        0 <= i < parents.len(),
    ensures
        ancestor(i, n, parents) matches Some(j) ==> 0 <= j < parents.len(),
    decreases n,
{
    if n > 0 {
        lemma_ancestor_is_member(i, (n - 1) as nat, parents, spawned);
    }
}

// ---------------------------------------------------------------------------
// Rows
// ---------------------------------------------------------------------------

/// One conversation.
#[derive(Debug, Clone, PartialEq, Eq)]
pub struct ProviderRecentRow {
    /// The provider of its root.
    pub provider: String,
    /// The qualified id of its root.
    pub qualified_id: String,
    /// The native id of its root.
    pub native_id: String,
    /// The qualified id of the session that was modified last.
    pub latest_qualified_id: String,
    /// The number of its sessions.
    pub continuation_member_count: usize,
    /// The qualified ids of its sessions, the root first.
    pub continuation_members: Vec<String>,
    /// The identity of its project.
    pub project_key: String,
    /// The name under which its project is shown.
    pub project: String,
    /// When its latest session was modified.
    pub modified: Option<i128>,
    /// The size of all its sessions.
    pub size_bytes: u64,
}

/// The contents of a row.
#[verifier::ext_equal]
pub struct RowView {
    /// The provider of its root.
    pub provider: Seq<char>,
    /// The qualified id of its root.
    pub qualified_id: Seq<char>,
    /// The native id of its root.
    pub native_id: Seq<char>,
    /// The qualified id of the session that was modified last.
    pub latest_qualified_id: Seq<char>,
    /// The number of its sessions.
    pub member_count: int,
    /// The qualified ids of its sessions.
    pub members: Seq<Seq<char>>,
    /// The identity of its project.
    pub project_key: Seq<char>,
    /// The name under which its project is shown.
    pub project: Seq<char>,
    /// When its latest session was modified.
    pub modified: Option<i128>,
    /// The size of all its sessions.
    pub size_bytes: int,
}

impl View for ProviderRecentRow {
    type V = RowView;

    open spec fn view(&self) -> RowView {
        RowView {
            provider: self.provider@,
            qualified_id: self.qualified_id@,
            native_id: self.native_id@,
            latest_qualified_id: self.latest_qualified_id@,
            member_count: self.continuation_member_count as int,
            members: text::views(self.continuation_members@),
            project_key: self.project_key@,
            project: self.project@,
            modified: self.modified,
            size_bytes: self.size_bytes as int,
        }
    }
}

/// The contents of a list of rows.
pub open spec fn row_views(rows: Seq<ProviderRecentRow>) -> Seq<RowView> {
    Seq::new(rows.len(), |i: int| rows[i]@)
}

/// One session was modified before another; of two modified at once, the one whose key comes
/// first.
pub open spec fn modified_before(a: ProjectSession, b: ProjectSession) -> bool {
    time_before(a.modified_at, b.modified_at) || (a.modified_at == b.modified_at && key_precedes(
        a.key@,
        b.key@,
    ))
}

/// The session that was modified last.
pub open spec fn latest_of(members: Seq<ProjectSession>) -> ProjectSession
    decreases members.len(),
{
    if members.len() <= 1 {
        members[0]
    } else {
        let best = latest_of(members.drop_last());
        if modified_before(members.last(), best) {
            best
        } else {
            members.last()
        }
    }
}

/// The size of a list of sessions.
pub open spec fn size_of(members: Seq<ProjectSession>) -> int
    decreases members.len(),
{
    if members.len() == 0 {
        0
    } else {
        size_of(members.drop_last()) + members.last().artifact_bytes
    }
}

/// The qualified ids of a list of sessions.
pub open spec fn qualified_ids(members: Seq<ProjectSession>) -> Seq<Seq<char>> {
    Seq::new(members.len(), |i: int| members[i].key.qualified@)
}

/// The row of a conversation: what its first session is, which session is the latest, and how
/// large all of them are, at most the largest number there is.
pub open spec fn row_of(
    members: Seq<ProjectSession>,
    project_key: Seq<char>,
    project: Seq<char>,
) -> RowView {
    RowView {
        provider: members[0].key.provider@,
        qualified_id: members[0].key.qualified@,
        native_id: members[0].key.native_id@,
        latest_qualified_id: latest_of(members).key.qualified@,
        member_count: members.len() as int,
        members: qualified_ids(members),
        project_key,
        project,
        modified: latest_of(members).modified_at,
        size_bytes: if size_of(members) <= u64::MAX {
            size_of(members)
        } else {
            u64::MAX as int
        },
    }
}

/// The row of a conversation.
pub fn provider_recent_row(
    members: &Vec<ProjectSession>,
    project_key: &str,
    project: &str,
) -> (r: ProviderRecentRow)
    requires
        members@.len() > 0,
    ensures
        r@ == row_of(members@, project_key@, project@),
{
    let mut ids: Vec<String> = Vec::new();
    let mut best: usize = 0;
    let mut total: u64 = 0;
    let mut i: usize = 0;
    while i < members.len()
        invariant
            i <= members@.len(),
            best < members@.len(),
            i > 0 ==> members@[best as int] == latest_of(members@.take(i as int)),
            i == 0 ==> best == 0,
            total == (if size_of(members@.take(i as int)) <= u64::MAX {
                size_of(members@.take(i as int))
            } else {
                u64::MAX as int
            }),
            text::views(ids@) == qualified_ids(members@.take(i as int)),
            size_of(members@.take(i as int)) >= 0,
        decreases members@.len() - i,
    {
        let member = &members[i];
        proof {
            let next = members@.take(i + 1);
            assert(next.drop_last() =~= members@.take(i as int));
            assert(next.last() == members@[i as int]);
        }
        if i > 0 {
            let kept = &members[best];
            if !(order::earlier(member.modified_at, kept.modified_at) || (same_time(
                member.modified_at,
                kept.modified_at,
            ) && member.key.before(&kept.key))) {
                best = i;
            }
        }
        total = total.saturating_add(member.artifact_bytes);
        let id = member.key.qualified.clone();
        proof {
            text::lemma_views_push(ids@, id);
            assert(qualified_ids(members@.take(i + 1)) =~= qualified_ids(
                members@.take(i as int),
            ).push(id@));
        }
        ids.push(id);
        i = i + 1;
    }
    proof {
        assert(members@.take(i as int) =~= members@);
    }
    let root = &members[0];
    let latest = &members[best];
    ProviderRecentRow {
        provider: root.key.provider.clone(),
        qualified_id: root.key.qualified.clone(),
        native_id: root.key.native_id.clone(),
        latest_qualified_id: latest.key.qualified.clone(),
        continuation_member_count: members.len(),
        continuation_members: ids,
        project_key: project_key.to_owned(),
        project: project.to_owned(),
        modified: latest.modified_at,
        size_bytes: total,
    }
}

proof fn lemma_latest(members: Seq<ProjectSession>)
    requires
        members.len() > 0,
    ensures
        exists|i: int| 0 <= i < members.len() && #[trigger] members[i] == latest_of(members),
        forall|i: int|
            0 <= i < members.len() ==> order::no_later(
                (#[trigger] members[i]).modified_at,
                latest_of(members).modified_at,
            ) && (members[i].modified_at == latest_of(members).modified_at ==> !key_precedes(
                latest_of(members).key@,
                members[i].key@,
            )),
    decreases members.len(),
{
    let r = latest_of(members);
    key_order(r.key@, r.key@, r.key@);
    if members.len() <= 1 {
        assert(members[0] == r);
    } else {
        let front = members.drop_last();
        let best = latest_of(front);
        lemma_latest(front);
        let k = choose|k: int| 0 <= k < front.len() && #[trigger] front[k] == best;
        assert(members[k] == best);
        assert(members[members.len() - 1] == members.last());
        assert forall|i: int| 0 <= i < members.len() implies order::no_later(
            (#[trigger] members[i]).modified_at,
            r.modified_at,
        ) && (members[i].modified_at == r.modified_at ==> !key_precedes(r.key@, members[i].key@)) by {
            if i < front.len() {
                assert(front[i] == members[i]);
                key_order(best.key@, r.key@, members[i].key@);
                key_order(r.key@, best.key@, members[i].key@);
                key_order(r.key@, members[i].key@, best.key@);
            } else {
                key_order(r.key@, members[i].key@, best.key@);
            }
        }
    }
}

/// The time of a row is that of one of its sessions, whose id the row gives as that of the latest;
/// no session of the row was modified after it, and of those modified at that time it is the one
/// whose key comes last. The ids of the root are those of the first session, the sessions are all
/// there in their order, and the size is that of all of them as far as it can be held.
pub proof fn rows_stand_for_their_sessions(
    members: Seq<ProjectSession>,
    project_key: Seq<char>,
    project: Seq<char>,
)
    requires
        members.len() > 0,
    ensures
        ({
            let row = row_of(members, project_key, project);
            &&& forall|i: int|
                0 <= i < members.len() ==> order::no_later(
                    (#[trigger] members[i]).modified_at,
                    row.modified,
                )
            &&& exists|i: int|
                0 <= i < members.len() && (#[trigger] members[i]).modified_at == row.modified
                    && members[i].key.qualified@ == row.latest_qualified_id && forall|j: int|
                    0 <= j < members.len() && (#[trigger] members[j]).modified_at == row.modified
                        ==> !key_precedes(members[i].key@, members[j].key@)
            &&& row.provider == members[0].key.provider@
            &&& row.qualified_id == members[0].key.qualified@
            &&& row.native_id == members[0].key.native_id@
            &&& row.member_count == members.len()
            &&& row.members.len() == members.len()
            &&& forall|i: int|
                0 <= i < members.len() ==> #[trigger] row.members[i] == members[i].key.qualified@
            &&& forall|i: int|
                0 <= i < members.len() ==> row.size_bytes >= (#[trigger] members[i]).artifact_bytes
            &&& row.project_key == project_key
            &&& row.project == project
        }),
{
    lemma_latest(members);
    let row = row_of(members, project_key, project);
    let k = choose|k: int| 0 <= k < members.len() && #[trigger] members[k] == latest_of(members);
    assert(members[k].modified_at == row.modified && members[k].key.qualified@
        == row.latest_qualified_id);
    lemma_size_holds_each(members);
}

proof fn lemma_size_holds_each(members: Seq<ProjectSession>)
    ensures
        size_of(members) >= 0,
        forall|i: int|
            0 <= i < members.len() ==> size_of(members) >= (#[trigger] members[i]).artifact_bytes,
    decreases members.len(),
{
    if members.len() > 0 {
        let front = members.drop_last();
        lemma_size_holds_each(front);
        assert forall|i: int| 0 <= i < members.len() implies size_of(members) >= (
        #[trigger] members[i]).artifact_bytes by {
            if i < front.len() {
                assert(front[i] == members[i]);
            }
        }
    }
}

fn same_time(a: Option<i128>, b: Option<i128>) -> (r: bool)
    ensures
        r == (a == b),
{
    match (a, b) {
        (None, None) => true,
        (Some(x), Some(y)) => x == y,
        _ => false,
    }
}

/// The members below `n` whose root is `root`, with their distances from it.
pub open spec fn rooted_at(
    root: int,
    n: int,
    parents: Seq<Option<usize>>,
    spawned: Seq<bool>,
) -> Seq<(int, int)>
    decreases n,
{
    if n <= 0 {
        Seq::empty()
    } else {
        let before = rooted_at(root, n - 1, parents, spawned);
        let (r, depth) = root_of(n - 1, parents, spawned);
        if r == root {
            before.push((depth, n - 1))
        } else {
            before
        }
    }
}

/// Closer to the root.
pub open spec fn closer() -> spec_fn((int, int), (int, int)) -> bool {
    |a: (int, int), b: (int, int)| a.0 < b.0
}

/// The sessions of the conversation with a given root: those closer to the root first, and
/// among those equally close by key.
pub open spec fn group_of(
    root: int,
    members: Seq<ProjectSession>,
    parents: Seq<Option<usize>>,
    spawned: Seq<bool>,
) -> Seq<ProjectSession> {
    let found = sorted_by(rooted_at(root, members.len() as int, parents, spawned), closer());
    Seq::new(found.len(), |i: int| members[found[i].1])
}

/// The rows of the conversations whose roots stand below `n`, in the order of the roots.
pub open spec fn grouped_rows(
    n: int,
    members: Seq<ProjectSession>,
    parents: Seq<Option<usize>>,
    spawned: Seq<bool>,
    project_key: Seq<char>,
    project: Seq<char>,
) -> Seq<RowView>
    decreases n,
{
    if n <= 0 {
        Seq::empty()
    } else {
        let before = grouped_rows(n - 1, members, parents, spawned, project_key, project);
        let group = group_of(n - 1, members, parents, spawned);
        if group.len() > 0 {
            before.push(row_of(group, project_key, project))
        } else {
            before
        }
    }
}

/// One row for each member.
pub open spec fn flat_rows(
    members: Seq<ProjectSession>,
    project_key: Seq<char>,
    project: Seq<char>,
) -> Seq<RowView> {
    Seq::new(members.len(), |i: int| row_of(seq![members[i]], project_key, project))
}

/// The parents of all members.
pub open spec fn parents_of(edges: Seq<LineageEdge>, members: Seq<ProjectSession>) -> Seq<
    Option<usize>,
> {
    Seq::new(
        members.len(),
        |i: int|
            match parent_of(edges, members, i) {
                Some(p) => Some(p as usize),
                None => None,
            },
    )
}

/// Which members were spawned.
pub open spec fn spawned_of(edges: Seq<LineageEdge>, members: Seq<ProjectSession>) -> Seq<bool> {
    Seq::new(members.len(), |i: int| is_spawned(edges, members, i))
}

/// The rows of a project.
pub open spec fn project_rows(
    project: UnifiedProject,
    edges: Seq<LineageEdge>,
    no_chain: bool,
) -> Seq<RowView> {
    let members = members_of(project.sessions@);
    if no_chain {
        flat_rows(members, project.identity@, project.shown())
    } else {
        grouped_rows(
            members.len() as int,
            members,
            parents_of(edges, members),
            spawned_of(edges, members),
            project.identity@,
            project.shown(),
        )
    }
}

/// The rows of all projects, one project after another.
pub open spec fn all_rows(
    projects: Seq<UnifiedProject>,
    edges: Seq<LineageEdge>,
    no_chain: bool,
) -> Seq<RowView>
    decreases projects.len(),
{
    if projects.len() == 0 {
        Seq::empty()
    } else {
        all_rows(projects.drop_last(), edges, no_chain) + project_rows(
            projects.last(),
            edges,
            no_chain,
        )
    }
}

spec fn pair_views(v: Seq<(usize, usize)>) -> Seq<(int, int)> {
    Seq::new(v.len(), |i: int| (v[i].0 as int, v[i].1 as int))
}

spec fn closer_exec() -> spec_fn((usize, usize), (usize, usize)) -> bool {
    |a: (usize, usize), b: (usize, usize)| a.0 < b.0
}

fn pair_closer(a: &(usize, usize), b: &(usize, usize)) -> (o: bool)
    ensures
        o == closer_exec()(*a, *b),
{
    let x: usize = a.0;
    let y: usize = b.0;
    x < y
}

proof fn lemma_pairs_sorted(s: Seq<(usize, usize)>)
    ensures
        pair_views(sorted_by(s, closer_exec())) == sorted_by(pair_views(s), closer()),
{
    let f = |p: (usize, usize)| (p.0 as int, p.1 as int);
    order::sorting_maps(s, f, closer_exec(), closer());
    assert(pair_views(s) =~= s.map_values(f));
    assert(pair_views(sorted_by(s, closer_exec())) =~= sorted_by(s, closer_exec()).map_values(f));
}

proof fn lemma_rooted_bounds(
    root: int,
    n: int,
    parents: Seq<Option<usize>>,
    spawned: Seq<bool>,
)
    ensures
        rooted_at(root, n, parents, spawned).len() <= (if n > 0 { n } else { 0int }),
        forall|k: int|
            0 <= k < rooted_at(root, n, parents, spawned).len() ==> {
                let e = #[trigger] rooted_at(root, n, parents, spawned)[k];
                0 <= e.1 < n && root_of(e.1, parents, spawned) == (root, e.0)
            },
    decreases n,
{
    if n > 0 {
        lemma_rooted_bounds(root, n - 1, parents, spawned);
    }
}

/// The sessions of the conversation with a given root.
fn collect_group(
    root: usize,
    members: &Vec<ProjectSession>,
    roots: &Vec<(usize, usize)>,
    Ghost(parents): Ghost<Seq<Option<usize>>>,
    Ghost(spawned): Ghost<Seq<bool>>,
) -> (r: Vec<ProjectSession>)
    requires
        roots@.len() == members@.len(),
        forall|i: int|
            0 <= i < roots@.len() ==> ((#[trigger] roots@[i]).0 as int, roots@[i].1 as int)
                == root_of(i, parents, spawned),
    ensures
        r@ == group_of(root as int, members@, parents, spawned),
{
    let mut found: Vec<(usize, usize)> = Vec::new();
    let mut i: usize = 0;
    proof {
        assert(pair_views(found@) =~= Seq::empty());
    }
    while i < roots.len()
        invariant
            i <= roots@.len(),
            forall|k: int|
                0 <= k < roots@.len() ==> ((#[trigger] roots@[k]).0 as int, roots@[k].1 as int)
                    == root_of(k, parents, spawned),
            pair_views(found@) == rooted_at(root as int, i as int, parents, spawned),
        decreases roots@.len() - i,
    {
        let (r, depth) = roots[i];
        if r == root {
            proof {
                assert(pair_views(found@.push((depth, i))) =~= pair_views(found@).push(
                    (depth as int, i as int),
                ));
            }
            found.push((depth, i));
        }
        i = i + 1;
    }
    let ghost all = found@;
    let sorted = order::sort(found, pair_closer, Ghost(closer_exec()));
    proof {
        lemma_pairs_sorted(all);
        lemma_rooted_bounds(root as int, members@.len() as int, parents, spawned);
        assert forall|k: int| 0 <= k < sorted@.len() implies (#[trigger] sorted@[k]).1
            < members@.len() by {
            order::lemma_sorted_contains(all, closer_exec(), sorted@[k]);
            assert(sorted@.contains(sorted@[k]));
            let m = choose|m: int| 0 <= m < all.len() && all[m] == sorted@[k];
            assert(pair_views(all)[m].1 == all[m].1);
        }
    }
    let ghost order_of = sorted_by(
        rooted_at(root as int, members@.len() as int, parents, spawned),
        closer(),
    );
    let mut out: Vec<ProjectSession> = Vec::new();
    let mut k: usize = 0;
    while k < sorted.len()
        invariant
            k <= sorted@.len(),
            pair_views(sorted@) == order_of,
            forall|m: int| 0 <= m < sorted@.len() ==> (#[trigger] sorted@[m]).1 < members@.len(),
            out@.len() == k,
            forall|m: int| 0 <= m < k ==> #[trigger] out@[m] == members@[order_of[m].1],
        decreases sorted@.len() - k,
    {
        let (depth, place) = sorted[k];
        proof {
            assert(order_of[k as int] == (depth as int, place as int));
        }
        out.push(members[place].copy());
        k = k + 1;
    }
    proof {
        assert(out@ =~= group_of(root as int, members@, parents, spawned));
    }
    out
}

/// The rows of a project, and of each conversation of it one.
fn rows_of_project(
    project: &UnifiedProject,
    lineage: &Vec<LineageEdge>,
    no_chain: bool,
) -> (r: Vec<ProviderRecentRow>)
    ensures
        row_views(r@) == project_rows(*project, lineage@, no_chain),
{
    let label = project.label();
    let members = collect_members(&project.sessions);
    let mut rows: Vec<ProviderRecentRow> = Vec::new();
    if no_chain {
        let mut i: usize = 0;
        while i < members.len()
            invariant
                members@ == members_of(project.sessions@),
                label@ == project.shown(),
                i <= members@.len(),
                rows@.len() == i,
                forall|k: int|
                    0 <= k < i ==> (#[trigger] rows@[k])@ == row_of(
                        seq![members@[k]],
                        project.identity@,
                        project.shown(),
                    ),
            decreases members@.len() - i,
        {
            let mut one: Vec<ProjectSession> = Vec::new();
            one.push(members[i].copy());
            proof {
                assert(one@ =~= seq![members@[i as int]]);
            }
            rows.push(provider_recent_row(&one, project.identity.as_str(), label.as_str()));
            i = i + 1;
        }
        proof {
            assert(row_views(rows@) =~= project_rows(*project, lineage@, no_chain));
        }
        return rows;
    }
    let (parents, spawned) = find_parents(lineage, &members);
    proof {
        assert(parents@ =~= parents_of(lineage@, members@));
        assert(spawned@ =~= spawned_of(lineage@, members@));
    }
    let mut roots: Vec<(usize, usize)> = Vec::new();
    let mut i: usize = 0;
    while i < members.len()
        invariant
            i <= members@.len(),
            parents@.len() == members@.len(),
            parents_ok(parents@, spawned@),
            roots@.len() == i,
            forall|k: int|
                0 <= k < i ==> ((#[trigger] roots@[k]).0 as int, roots@[k].1 as int) == root_of(
                    k,
                    parents@,
                    spawned@,
                ),
        decreases members@.len() - i,
    {
        roots.push(continuation_root(i, &parents, &spawned));
        i = i + 1;
    }
    let mut root: usize = 0;
    proof {
        assert(row_views(rows@) =~= Seq::empty());
    }
    while root < members.len()
        invariant
            label@ == project.shown(),
            root <= members@.len(),
            roots@.len() == members@.len(),
            forall|k: int|
                0 <= k < roots@.len() ==> ((#[trigger] roots@[k]).0 as int, roots@[k].1 as int)
                    == root_of(k, parents@, spawned@),
            row_views(rows@) == grouped_rows(
                root as int,
                members@,
                parents@,
                spawned@,
                project.identity@,
                project.shown(),
            ),
        decreases members@.len() - root,
    {
        let group = collect_group(root, &members, &roots, Ghost(parents@), Ghost(spawned@));
        if group.len() > 0 {
            let row = provider_recent_row(&group, project.identity.as_str(), label.as_str());
            proof {
                assert(row_views(rows@.push(row)) =~= row_views(rows@).push(row@));
            }
            rows.push(row);
        }
        root = root + 1;
    }
    rows
}

/// The rows of all projects, one project after another. With `no_chain` every session has a
/// row of its own.
pub fn provider_recent_rows(
    projects: &Vec<UnifiedProject>,
    lineage: &Vec<LineageEdge>,
    no_chain: bool,
) -> (r: Vec<ProviderRecentRow>)
    ensures
        row_views(r@) == all_rows(projects@, lineage@, no_chain),
{
    let mut rows: Vec<ProviderRecentRow> = Vec::new();
    let mut i: usize = 0;
    proof {
        assert(row_views(rows@) =~= Seq::empty());
        assert(projects@.take(0) =~= Seq::empty());
    }
    while i < projects.len()
        invariant
            i <= projects@.len(),
            row_views(rows@) == all_rows(projects@.take(i as int), lineage@, no_chain),
        decreases projects@.len() - i,
    {
        let mut more = rows_of_project(&projects[i], lineage, no_chain);
        proof {
            let next = projects@.take(i + 1);
            assert(next.drop_last() =~= projects@.take(i as int));
            assert(next.last() == projects@[i as int]);
            assert(row_views(rows@ + more@) =~= row_views(rows@) + row_views(more@));
        }
        rows.append(&mut more);
        i = i + 1;
    }
    proof {
        assert(projects@.take(i as int) =~= projects@);
    }
    rows
}

/// The number of sessions that a list of rows stands for.
pub open spec fn sessions_in(rows: Seq<RowView>) -> int
    decreases rows.len(),
{
    if rows.len() == 0 {
        0
    } else {
        sessions_in(rows.drop_last()) + rows.last().member_count
    }
}

/// The number of members below `n` whose root stands below `m`.
spec fn rooted_below(m: int, n: int, parents: Seq<Option<usize>>, spawned: Seq<bool>) -> int
    decreases m,
{
    if m <= 0 {
        0
    } else {
        rooted_below(m - 1, n, parents, spawned) + rooted_at(m - 1, n, parents, spawned).len()
    }
}

proof fn lemma_rooted_below_step(
    m: int,
    n: int,
    parents: Seq<Option<usize>>,
    spawned: Seq<bool>,
)
    requires
        0 <= m,
        0 < n,
    ensures
        rooted_below(m, n, parents, spawned) == rooted_below(m, n - 1, parents, spawned) + (if 0
            <= root_of(n - 1, parents, spawned).0 < m {
            1int
        } else {
            0int
        }),
    decreases m,
{
    if m > 0 {
        lemma_rooted_below_step(m - 1, n, parents, spawned);
    }
}

proof fn lemma_rooted_below_all(
    n: int,
    parents: Seq<Option<usize>>,
    spawned: Seq<bool>,
)
    requires
        parents_ok(parents, spawned),
        0 <= n <= parents.len(),
    ensures
        rooted_below(parents.len() as int, n, parents, spawned) == n,
    decreases n,
{
    if n > 0 {
        lemma_rooted_below_all(n - 1, parents, spawned);
        lemma_rooted_below_step(parents.len() as int, n, parents, spawned);
        spawned_sessions_stand_alone(n - 1, parents, spawned);
    } else {
        lemma_rooted_below_none(parents.len() as int, parents, spawned);
    }
}

proof fn lemma_rooted_below_none(m: int, parents: Seq<Option<usize>>, spawned: Seq<bool>)
    ensures
        rooted_below(m, 0, parents, spawned) == 0,
    decreases m,
{
    if m > 0 {
        lemma_rooted_below_none(m - 1, parents, spawned);
    }
}

proof fn lemma_grouped_sessions(
    m: int,
    members: Seq<ProjectSession>,
    parents: Seq<Option<usize>>,
    spawned: Seq<bool>,
    project_key: Seq<char>,
    project: Seq<char>,
)
    ensures
        sessions_in(grouped_rows(m, members, parents, spawned, project_key, project))
            == rooted_below(m, members.len() as int, parents, spawned),
    decreases m,
{
    if m > 0 {
        lemma_grouped_sessions(m - 1, members, parents, spawned, project_key, project);
        let before = grouped_rows(m - 1, members, parents, spawned, project_key, project);
        let found = rooted_at(m - 1, members.len() as int, parents, spawned);
        order::sorting_permutes(found, closer());
        let group = group_of(m - 1, members, parents, spawned);
        if group.len() > 0 {
            let row = row_of(group, project_key, project);
            assert(before.push(row).drop_last() =~= before);
        }
    }
}

/// Every parent that the edges give is a member.
pub proof fn lemma_parents_of(edges: Seq<LineageEdge>, members: Seq<ProjectSession>)
    requires
        members.len() <= usize::MAX,
    ensures
        parents_ok(parents_of(edges, members), spawned_of(edges, members)),
{
    let parents = parents_of(edges, members);
    assert forall|i: int| 0 <= i < parents.len() && (#[trigger] parents[i]) is Some implies
        parents[i]->0 < parents.len() by {
        lemma_parent_is_member(edges, members, i);
    }
}

proof fn lemma_parent_is_member(edges: Seq<LineageEdge>, members: Seq<ProjectSession>, i: int)
    ensures
        match parent_of(edges, members, i) {
            Some(p) => 0 <= p < members.len(),
            None => true,
        },
    decreases edges.len(),
{
    if edges.len() > 0 {
        lemma_parent_is_member(edges.drop_last(), members, i);
        lemma_place_of(members, edges.last().from@);
    }
}

proof fn lemma_flat_sessions(
    members: Seq<ProjectSession>,
    project_key: Seq<char>,
    project: Seq<char>,
    n: int,
)
    requires
        0 <= n <= members.len(),
    ensures
        sessions_in(flat_rows(members, project_key, project).take(n)) == n,
    decreases n,
{
    let rows = flat_rows(members, project_key, project);
    if n > 0 {
        lemma_flat_sessions(members, project_key, project, n - 1);
        assert(rows.take(n).drop_last() =~= rows.take(n - 1));
        assert(rows.take(n).last() == rows[n - 1]);
    } else {
        assert(rows.take(0) =~= Seq::empty());
    }
}

/// The ids of all sessions that a list of rows stands for, row by row.
pub open spec fn ids_in(rows: Seq<RowView>) -> Seq<Seq<char>>
    decreases rows.len(),
{
    if rows.len() == 0 {
        Seq::empty()
    } else {
        ids_in(rows.drop_last()) + rows.last().members
    }
}

/// The id of the session that a place with its distance from the root stands for.
spec fn id_at(members: Seq<ProjectSession>) -> spec_fn((int, int)) -> Seq<char> {
    |e: (int, int)| members[e.1].key.qualified@
}

/// The ids of the members below `n` whose root stands below `m`.
spec fn ids_below(
    m: int,
    n: int,
    members: Seq<ProjectSession>,
    parents: Seq<Option<usize>>,
    spawned: Seq<bool>,
) -> Multiset<Seq<char>>
    decreases m,
{
    if m <= 0 {
        Multiset::empty()
    } else {
        ids_below(m - 1, n, members, parents, spawned).add(
            rooted_at(m - 1, n, parents, spawned).map_values(id_at(members)).to_multiset(),
        )
    }
}

proof fn lemma_ids_below_step(
    m: int,
    n: int,
    members: Seq<ProjectSession>,
    parents: Seq<Option<usize>>,
    spawned: Seq<bool>,
)
    requires
        0 <= m,
        0 < n,
    ensures
        ids_below(m, n, members, parents, spawned) =~= (if 0 <= root_of(
            n - 1,
            parents,
            spawned,
        ).0 < m {
            ids_below(m, n - 1, members, parents, spawned).insert(
                members[n - 1].key.qualified@,
            )
        } else {
            ids_below(m, n - 1, members, parents, spawned)
        }),
    decreases m,
{
    broadcast use vstd::seq_lib::group_to_multiset_ensures;

    if m > 0 {
        lemma_ids_below_step(m - 1, n, members, parents, spawned);
        let (r, depth) = root_of(n - 1, parents, spawned);
        if r == m - 1 {
            let before = rooted_at(m - 1, n - 1, parents, spawned);
            let e = (depth, n - 1);
            assert(before.push(e).map_values(id_at(members)) =~= before.map_values(
                id_at(members),
            ).push(id_at(members)(e)));
        }
    }
}

proof fn lemma_ids_below_none(
    m: int,
    members: Seq<ProjectSession>,
    parents: Seq<Option<usize>>,
    spawned: Seq<bool>,
)
    ensures
        ids_below(m, 0, members, parents, spawned) =~= Multiset::empty(),
    decreases m,
{
    broadcast use vstd::seq_lib::group_to_multiset_ensures;

    if m > 0 {
        lemma_ids_below_none(m - 1, members, parents, spawned);
        let none = rooted_at(m - 1, 0, parents, spawned).map_values(id_at(members));
        assert(none =~= Seq::<Seq<char>>::empty());
        vstd::seq_lib::to_multiset_len(none);
        assert(none.to_multiset() =~= Multiset::empty());
    }
}

proof fn lemma_ids_below_all(
    n: int,
    members: Seq<ProjectSession>,
    parents: Seq<Option<usize>>,
    spawned: Seq<bool>,
)
    requires
        parents_ok(parents, spawned),
        parents.len() == members.len(),
        0 <= n <= parents.len(),
    ensures
        ids_below(parents.len() as int, n, members, parents, spawned) == qualified_ids(
            members.take(n),
        ).to_multiset(),
    decreases n,
{
    broadcast use vstd::seq_lib::group_to_multiset_ensures;

    if n > 0 {
        lemma_ids_below_all(n - 1, members, parents, spawned);
        lemma_ids_below_step(parents.len() as int, n, members, parents, spawned);
        spawned_sessions_stand_alone(n - 1, parents, spawned);
        assert(qualified_ids(members.take(n)) =~= qualified_ids(members.take(n - 1)).push(
            members[n - 1].key.qualified@,
        ));
    } else {
        lemma_ids_below_none(parents.len() as int, members, parents, spawned);
        let none = qualified_ids(members.take(0));
        vstd::seq_lib::to_multiset_len(none);
        assert(none.to_multiset() =~= Multiset::empty());
    }
}

proof fn lemma_grouped_ids(
    m: int,
    members: Seq<ProjectSession>,
    parents: Seq<Option<usize>>,
    spawned: Seq<bool>,
    project_key: Seq<char>,
    project: Seq<char>,
)
    ensures
        ids_in(grouped_rows(m, members, parents, spawned, project_key, project)).to_multiset()
            =~= ids_below(m, members.len() as int, members, parents, spawned),
    decreases m,
{
    let rows = grouped_rows(m, members, parents, spawned, project_key, project);
    if m > 0 {
        lemma_grouped_ids(m - 1, members, parents, spawned, project_key, project);
        let before = grouped_rows(m - 1, members, parents, spawned, project_key, project);
        let found = rooted_at(m - 1, members.len() as int, parents, spawned);
        let group = group_of(m - 1, members, parents, spawned);
        order::sorting_permutes(found, closer());
        order::sorting_keeps_images(found, id_at(members), closer());
        assert(qualified_ids(group) =~= sorted_by(found, closer()).map_values(id_at(members)));
        if group.len() > 0 {
            let row = row_of(group, project_key, project);
            assert(before.push(row).drop_last() =~= before);
            assert(rows.last() == row);
            vstd::seq_lib::lemma_multiset_commutative(ids_in(before), row.members);
        } else {
            let none = found.map_values(id_at(members));
            vstd::seq_lib::to_multiset_len(none);
            assert(none.to_multiset() =~= Multiset::empty());
        }
    } else {
        vstd::seq_lib::to_multiset_len(ids_in(rows));
        assert(ids_in(rows).to_multiset() =~= Multiset::empty());
    }
}

proof fn lemma_flat_ids(
    members: Seq<ProjectSession>,
    project_key: Seq<char>,
    project: Seq<char>,
    n: int,
)
    requires
        0 <= n <= members.len(),
    ensures
        ids_in(flat_rows(members, project_key, project).take(n)) == qualified_ids(members.take(n)),
    decreases n,
{
    let rows = flat_rows(members, project_key, project);
    if n > 0 {
        lemma_flat_ids(members, project_key, project, n - 1);
        assert(rows.take(n).drop_last() =~= rows.take(n - 1));
        assert(rows.take(n).last() == rows[n - 1]);
        assert(qualified_ids(members.take(n)) =~= qualified_ids(members.take(n - 1))
            + qualified_ids(seq![members[n - 1]]));
    } else {
        assert(rows.take(0) =~= Seq::empty());
        assert(qualified_ids(members.take(0)) =~= Seq::empty());
    }
}

/// The rows of a project stand for its sessions, each of them in one row and there once, whether
/// conversations are collapsed or not.
pub proof fn rows_cover_sessions_once(
    project: UnifiedProject,
    edges: Seq<LineageEdge>,
    no_chain: bool,
)
    requires
        project.sessions@.len() <= usize::MAX,
    ensures
        sessions_in(project_rows(project, edges, no_chain)) == members_of(
            project.sessions@,
        ).len(),
        ids_in(project_rows(project, edges, no_chain)).to_multiset() == qualified_ids(
            members_of(project.sessions@),
        ).to_multiset(),
{
    let members = members_of(project.sessions@);
    members_ascend(project.sessions@);
    if no_chain {
        let rows = flat_rows(members, project.identity@, project.shown());
        lemma_flat_sessions(members, project.identity@, project.shown(), members.len() as int);
        lemma_flat_ids(members, project.identity@, project.shown(), members.len() as int);
        assert(rows.take(members.len() as int) =~= rows);
    } else {
        let parents = parents_of(edges, members);
        let spawned = spawned_of(edges, members);
        lemma_parents_of(edges, members);
        lemma_grouped_sessions(
            members.len() as int,
            members,
            parents,
            spawned,
            project.identity@,
            project.shown(),
        );
        lemma_rooted_below_all(members.len() as int, parents, spawned);
        lemma_grouped_ids(
            members.len() as int,
            members,
            parents,
            spawned,
            project.identity@,
            project.shown(),
        );
        lemma_ids_below_all(members.len() as int, members, parents, spawned);
    }
    assert(members.take(members.len() as int) =~= members);
}

proof fn lemma_rooted_places(
    root: int,
    n: int,
    i: int,
    parents: Seq<Option<usize>>,
    spawned: Seq<bool>,
)
    requires
        0 <= i < n,
    ensures
        rooted_at(root, n, parents, spawned).contains((root_of(i, parents, spawned).1, i))
            <==> root_of(i, parents, spawned).0 == root,
    decreases n,
{
    let e = (root_of(i, parents, spawned).1, i);
    let all = rooted_at(root, n, parents, spawned);
    if i < n - 1 {
        lemma_rooted_places(root, n - 1, i, parents, spawned);
        let before = rooted_at(root, n - 1, parents, spawned);
        if before.contains(e) {
            let k = choose|k: int| 0 <= k < before.len() && before[k] == e;
            assert(all[k] == e);
        }
        if all.contains(e) {
            let k = choose|k: int| 0 <= k < all.len() && all[k] == e;
            assert(before[k] == e);
        }
    } else {
        lemma_rooted_bounds(root, n, parents, spawned);
        if root_of(i, parents, spawned).0 == root {
            assert(all[all.len() - 1] == e);
        }
    }
}

proof fn lemma_only_place(
    i: int,
    n: int,
    parents: Seq<Option<usize>>,
    spawned: Seq<bool>,
)
    requires
        0 <= i,
        root_of(i, parents, spawned) == (i, 0int),
        forall|j: int| 0 <= j < n && j != i ==> (#[trigger] root_of(j, parents, spawned)).0 != i,
    ensures
        rooted_at(i, n, parents, spawned) == (if i < n {
            seq![(0int, i)]
        } else {
            Seq::empty()
        }),
    decreases n,
{
    if n > 0 {
        lemma_only_place(i, n - 1, parents, spawned);
        assert(Seq::<(int, int)>::empty().push((0int, i)) =~= seq![(0int, i)]);
    }
}

/// A session is in the conversation of its root and in no other, and a spawned session is alone
/// in its own.
pub proof fn conversations_part_sessions(
    i: int,
    root: int,
    members: Seq<ProjectSession>,
    parents: Seq<Option<usize>>,
    spawned: Seq<bool>,
)
    requires
        parents_ok(parents, spawned),
        parents.len() == members.len(),
        0 <= i < members.len(),
    ensures
        rooted_at(root, members.len() as int, parents, spawned).contains(
            (root_of(i, parents, spawned).1, i),
        ) <==> root == root_of(i, parents, spawned).0,
        spawned[i] ==> group_of(i, members, parents, spawned) == seq![members[i]],
        spawned[i] && root != i ==> root != root_of(i, parents, spawned).0,
{
    lemma_rooted_places(root, members.len() as int, i, parents, spawned);
    spawned_sessions_stand_alone(i, parents, spawned);
    if spawned[i] {
        assert forall|j: int| 0 <= j < members.len() && j != i implies (#[trigger] root_of(
            j,
            parents,
            spawned,
        )).0 != i by {
            spawned_sessions_stand_alone(j, parents, spawned);
        }
        lemma_alone(i, members, parents, spawned);
    }
}

proof fn lemma_alone(
    i: int,
    members: Seq<ProjectSession>,
    parents: Seq<Option<usize>>,
    spawned: Seq<bool>,
)
    requires
        0 <= i < members.len(),
        root_of(i, parents, spawned) == (i, 0int),
        forall|j: int|
            0 <= j < members.len() && j != i ==> (#[trigger] root_of(j, parents, spawned)).0 != i,
    ensures
        group_of(i, members, parents, spawned) == seq![members[i]],
{
    lemma_only_place(i, members.len() as int, parents, spawned);
    let found = seq![(0int, i)];
    reveal_with_fuel(sorted_by, 2);
    assert(found.drop_last() =~= Seq::<(int, int)>::empty());
    assert(sorted_by(found, closer()) =~= found);
    assert(group_of(i, members, parents, spawned) =~= seq![members[i]]);
}

/// Some member continues member `p`.
spec fn is_continued(p: int, parents: Seq<Option<usize>>) -> bool {
    exists|x: int|
        0 <= x < parents.len() && (#[trigger] parents[x]) is Some && parents[x]->0 == p
}

proof fn lemma_root_is_continued(
    start: int,
    path: Seq<int>,
    parents: Seq<Option<usize>>,
    spawned: Seq<bool>,
)
    requires
        parents_ok(parents, spawned),
        walk_ok(path, parents, spawned),
        forall|k: int|
            0 <= k < path.len() ==> (#[trigger] path[k]) == start || is_continued(path[k], parents),
    ensures
        ({
            let root = walked_root(start, path, parents, spawned).0;
            root == start || is_continued(root, parents)
        }),
    decreases parents.len() - path.len(),
{
    lemma_walk_fits(path, parents, spawned);
    assert(path[path.len() - 1] == path.last());
    match parents[path.last()] {
        None => {},
        Some(parent) => {
            if !spawned[parent as int] {
                if path.contains(parent as int) {
                    let k = choose|k: int| 0 <= k < path.len() && path[k] == parent as int;
                    lemma_first_place(path, parent as int, k);
                    let circle = path.skip(k);
                    lemma_least_is_member(circle);
                    let m = choose|m: int| 0 <= m < circle.len() && circle[m] == least(circle);
                    assert(path[k + m] == circle[m]);
                } else {
                    let next = path.push(parent as int);
                    assert(walk_ok(next, parents, spawned));
                    lemma_walk_fits(next, parents, spawned);
                    assert(is_continued(parent as int, parents));
                    lemma_root_is_continued(start, next, parents, spawned);
                }
            }
        },
    }
}

proof fn lemma_root_is_nearest(
    start: int,
    path: Seq<int>,
    parents: Seq<Option<usize>>,
    spawned: Seq<bool>,
)
    requires
        parents_ok(parents, spawned),
        walk_ok(path, parents, spawned),
        0 <= start < parents.len(),
        path[0] == start,
        forall|k: int| 0 <= k < path.len() - 1 ==> parents[#[trigger] path[k]] is Some,
    ensures
        ({
            let r = walked_root(start, path, parents, spawned);
            parents[r.0] is None && r.0 != start ==> r.1 > 0
        }),
    decreases parents.len() - path.len(),
{
    lemma_walk_fits(path, parents, spawned);
    assert(path[path.len() - 1] == path.last());
    match parents[path.last()] {
        None => {},
        Some(parent) => {
            if !spawned[parent as int] {
                if path.contains(parent as int) {
                    let k = choose|k: int| 0 <= k < path.len() && path[k] == parent as int;
                    assert forall|j: int| 0 <= j < k implies path[j] != parent as int by {}
                    lemma_first_place(path, parent as int, k);
                    let circle = path.skip(k);
                    lemma_least_is_member(circle);
                    let m = choose|m: int| 0 <= m < circle.len() && circle[m] == least(circle);
                    assert(path[k + m] == circle[m]);
                } else {
                    let next = path.push(parent as int);
                    assert(next.no_duplicates());
                    assert(walk_ok(next, parents, spawned));
                    lemma_walk_fits(next, parents, spawned);
                    assert forall|k: int| 0 <= k < next.len() - 1 implies
                        parents[#[trigger] next[k]] is Some by {
                        assert(next[k] == path[k]);
                    }
                    lemma_root_is_nearest(start, next, parents, spawned);
                }
            }
        },
    }
}

/// A session that continues no other and was not spawned begins its conversation: its row is named
/// after it, and the sessions that come to it are listed by the number of steps, fewer first.
pub proof fn conversations_begin_at_their_root(
    root: int,
    members: Seq<ProjectSession>,
    parents: Seq<Option<usize>>,
    spawned: Seq<bool>,
    project_key: Seq<char>,
    project: Seq<char>,
)
    requires
        parents_ok(parents, spawned),
        parents.len() == members.len(),
        0 <= root < members.len(),
        parents[root] is None,
    ensures
        ({
            let group = group_of(root, members, parents, spawned);
            &&& group.len() > 0
            &&& group[0] == members[root]
            &&& row_of(group, project_key, project).qualified_id == members[root].key.qualified@
            &&& grouped_rows(
                members.len() as int,
                members,
                parents,
                spawned,
                project_key,
                project,
            ).contains(row_of(group, project_key, project))
            &&& forall|i: int, n: nat|
                0 <= i < members.len() && is_plain(i, parents, spawned) && #[trigger] ends_at(
                    i,
                    n,
                    root,
                    parents,
                ) ==> group.contains(members[i])
        }),
{
    let n = members.len() as int;
    let all = rooted_at(root, n, parents, spawned);
    let found = sorted_by(all, closer());
    let group = group_of(root, members, parents, spawned);
    assert(root_of(root, parents, spawned) == (root, 0int));
    lemma_rooted_places(root, n, root, parents, spawned);
    lemma_rooted_bounds(root, n, parents, spawned);
    order::sorting_permutes(all, closer());
    order::sorting_orders(all, closer());
    order::lemma_sorted_contains(all, closer(), (0int, root));
    let k = choose|k: int| 0 <= k < found.len() && found[k] == (0int, root);
    order::lemma_sorted_contains(all, closer(), found[0]);
    let m = choose|m: int| 0 <= m < all.len() && all[m] == found[0];
    let first = found[0];
    assert(root_of(first.1, parents, spawned) == (root, first.0));
    spawned_sessions_stand_alone(first.1, parents, spawned);
    if k > 0 {
        assert(!closer()(found[k], found[0]));
        assert(first.0 <= 0);
    }
    if first.1 != root {
        if !spawned[first.1] {
            assert(walk_ok(seq![first.1], parents, spawned));
            lemma_root_is_nearest(first.1, seq![first.1], parents, spawned);
        }
    }
    assert(group[0] == members[root]);
    lemma_row_of_root(n, root, members, parents, spawned, project_key, project);
    assert forall|i: int, steps: nat|
        0 <= i < members.len() && is_plain(i, parents, spawned) && #[trigger] ends_at(
            i,
            steps,
            root,
            parents,
        ) implies group.contains(members[i]) by {
        ways_that_meet_share_a_root(i, steps, root, parents, spawned);
        let e = (root_of(i, parents, spawned).1, i);
        lemma_rooted_places(root, n, i, parents, spawned);
        order::lemma_sorted_contains(all, closer(), e);
        let x = choose|x: int| 0 <= x < found.len() && found[x] == e;
        assert(group[x] == members[i]);
    }
}

/// An edge goes from one session of a project to another that continues it.
pub open spec fn continues(
    edge: LineageEdge,
    members: Seq<ProjectSession>,
    from: int,
    to: int,
) -> bool {
    edge.kind is Continuation && place_of(members, edge.from@) == Some(from) && place_of(
        members,
        edge.to@,
    ) == Some(to)
}

proof fn lemma_parent_has_edge(edges: Seq<LineageEdge>, members: Seq<ProjectSession>, i: int)
    ensures
        parent_of(edges, members, i) matches Some(p) ==> exists|e: int|
            0 <= e < edges.len() && continues(#[trigger] edges[e], members, p, i),
    decreases edges.len(),
{
    if edges.len() > 0 {
        let front = edges.drop_last();
        lemma_parent_has_edge(front, members, i);
        match parent_of(edges, members, i) {
            Some(p) => {
                if parent_of(front, members, i) == Some(p) {
                    let e = choose|e: int|
                        0 <= e < front.len() && continues(#[trigger] front[e], members, p, i);
                    assert(edges[e] == front[e]);
                } else {
                    assert(continues(edges[edges.len() - 1], members, p, i));
                }
            },
            None => {},
        }
    }
}

/// A session continues no other session of its project, and none continues it.
pub open spec fn is_unlinked(
    edges: Seq<LineageEdge>,
    members: Seq<ProjectSession>,
    i: int,
) -> bool {
    forall|e: int, other: int|
        #![trigger continues(edges[e], members, i, other)]
        #![trigger continues(edges[e], members, other, i)]
        0 <= e < edges.len() ==> !continues(edges[e], members, i, other) && !continues(
            edges[e],
            members,
            other,
            i,
        )
}

/// A session has a parent if and only if an edge says that it continues a session of the project;
/// the parent is one that it continues, and none that it continues has a key that comes before that
/// of the parent.
pub proof fn parents_are_continued(
    edges: Seq<LineageEdge>,
    members: Seq<ProjectSession>,
    i: int,
)
    requires
        keys_ascend(members),
        0 <= i < members.len(),
    ensures
        parent_of(edges, members, i) matches Some(p) ==> 0 <= p < members.len() && exists|e: int|
            0 <= e < edges.len() && (#[trigger] edges[e]).kind is Continuation && edges[e].from@
                == members[p].key@ && edges[e].to@ == members[i].key@,
        forall|e: int, q: int|
            #![trigger edges[e], members[q]]
            0 <= e < edges.len() && 0 <= q < members.len() && edges[e].kind is Continuation
                && edges[e].from@ == members[q].key@ && edges[e].to@ == members[i].key@ ==> (
            parent_of(edges, members, i) matches Some(p) && (p == q || key_precedes(
                members[p].key@,
                members[q].key@,
            ))),
    decreases edges.len(),
{
    if edges.len() > 0 {
        let front = edges.drop_last();
        let last = edges.last();
        parents_are_continued(front, members, i);
        lemma_place_of(members, last.from@);
        lemma_place_of(members, last.to@);
        lemma_places_differ(members);
        assert(edges[edges.len() - 1] == last);
        match parent_of(edges, members, i) {
            Some(p) => {
                if parent_of(front, members, i) == Some(p) {
                    let e = choose|e: int|
                        0 <= e < front.len() && (#[trigger] front[e]).kind is Continuation
                            && front[e].from@ == members[p].key@ && front[e].to@
                            == members[i].key@;
                    assert(edges[e] == front[e]);
                }
            },
            None => {},
        }
        assert forall|e: int, q: int|
            #![trigger edges[e], members[q]]
            0 <= e < edges.len() && 0 <= q < members.len() && edges[e].kind is Continuation
                && edges[e].from@ == members[q].key@ && edges[e].to@ == members[i].key@ implies (
        parent_of(edges, members, i) matches Some(p) && (p == q || key_precedes(
            members[p].key@,
            members[q].key@,
        ))) by {
            let p = parent_of(edges, members, i);
            if e < front.len() {
                assert(front[e] == edges[e]);
                let b = parent_of(front, members, i)->0;
                if p->0 != b {
                    key_order(members[p->0].key@, members[b].key@, members[q].key@);
                }
            } else {
                assert(place_of(members, last.from@) == Some(q));
                assert(place_of(members, last.to@) == Some(i));
            }
        }
    }
}

proof fn lemma_places_differ(members: Seq<ProjectSession>)
    requires
        keys_ascend(members),
    ensures
        forall|i: int, j: int|
            0 <= i < members.len() && 0 <= j < members.len() && (#[trigger] members[i]).key@ == (
            #[trigger] members[j]).key@ ==> i == j,
{
    assert forall|i: int, j: int|
        0 <= i < members.len() && 0 <= j < members.len() && (#[trigger] members[i]).key@ == (
        #[trigger] members[j]).key@ implies i == j by {
        key_order(members[i].key@, members[i].key@, members[i].key@);
    }
}

/// A session was spawned if and only if an edge says that another session spawned it.
pub proof fn spawned_sessions_have_edges(
    edges: Seq<LineageEdge>,
    members: Seq<ProjectSession>,
    i: int,
)
    requires
        keys_ascend(members),
        0 <= i < members.len(),
    ensures
        spawned_of(edges, members)[i] <==> exists|e: int|
            0 <= e < edges.len() && (#[trigger] edges[e]).kind is Spawn && edges[e].to@
                == members[i].key@,
{
    lemma_places_differ(members);
    if spawned_of(edges, members)[i] {
        let e = choose|e: int|
            0 <= e < edges.len() && (#[trigger] edges[e]).kind is Spawn && place_of(
                members,
                edges[e].to@,
            ) == Some(i);
        lemma_place_of(members, edges[e].to@);
    }
    if exists|e: int|
        0 <= e < edges.len() && (#[trigger] edges[e]).kind is Spawn && edges[e].to@
            == members[i].key@ {
        let e = choose|e: int|
            0 <= e < edges.len() && (#[trigger] edges[e]).kind is Spawn && edges[e].to@
                == members[i].key@;
        lemma_place_of(members, edges[e].to@);
    }
}

proof fn lemma_row_of_root(
    n: int,
    i: int,
    members: Seq<ProjectSession>,
    parents: Seq<Option<usize>>,
    spawned: Seq<bool>,
    project_key: Seq<char>,
    project: Seq<char>,
)
    requires
        0 <= i < n,
        group_of(i, members, parents, spawned).len() > 0,
    ensures
        grouped_rows(n, members, parents, spawned, project_key, project).contains(
            row_of(group_of(i, members, parents, spawned), project_key, project),
        ),
    decreases n,
{
    let rows = grouped_rows(n, members, parents, spawned, project_key, project);
    let row = row_of(group_of(i, members, parents, spawned), project_key, project);
    if i == n - 1 {
        assert(rows[rows.len() - 1] == row);
    } else {
        lemma_row_of_root(n - 1, i, members, parents, spawned, project_key, project);
        let before = grouped_rows(n - 1, members, parents, spawned, project_key, project);
        let k = choose|k: int| 0 <= k < before.len() && before[k] == row;
        assert(rows[k] == row);
    }
}

/// A session that was spawned, or that neither continues another of its project nor is continued
/// by one, is alone in its row.
pub proof fn unlinked_sessions_stand_alone(
    project: UnifiedProject,
    edges: Seq<LineageEdge>,
    no_chain: bool,
    i: int,
)
    requires
        project.sessions@.len() <= usize::MAX,
        0 <= i < members_of(project.sessions@).len(),
        is_spawned(edges, members_of(project.sessions@), i) || is_unlinked(
            edges,
            members_of(project.sessions@),
            i,
        ),
    ensures
        project_rows(project, edges, no_chain).contains(
            row_of(
                seq![members_of(project.sessions@)[i]],
                project.identity@,
                project.shown(),
            ),
        ),
{
    let members = members_of(project.sessions@);
    members_ascend(project.sessions@);
    if no_chain {
        let rows = flat_rows(members, project.identity@, project.shown());
        assert(rows[i] == row_of(seq![members[i]], project.identity@, project.shown()));
    } else {
        let parents = parents_of(edges, members);
        let spawned = spawned_of(edges, members);
        lemma_parents_of(edges, members);
        if spawned[i] {
            conversations_part_sessions(i, i, members, parents, spawned);
        } else {
            assert(is_unlinked(edges, members, i));
            lemma_parent_has_edge(edges, members, i);
            assert(parents[i] is None);
            assert(root_of(i, parents, spawned) == (i, 0int));
            assert forall|j: int| 0 <= j < members.len() && j != i implies (#[trigger] root_of(
                j,
                parents,
                spawned,
            )).0 != i by {
                if !spawned[j] {
                    assert(walk_ok(seq![j], parents, spawned));
                    lemma_root_is_continued(j, seq![j], parents, spawned);
                    if is_continued(i, parents) {
                        let x = choose|x: int|
                            0 <= x < parents.len() && (#[trigger] parents[x]) is Some
                                && parents[x]->0 == i;
                        lemma_parent_has_edge(edges, members, x);
                        lemma_parent_is_member(edges, members, x);
                        let e = choose|e: int|
                            0 <= e < edges.len() && continues(#[trigger] edges[e], members, i, x);
                        assert(continues(edges[e], members, i, x));
                    }
                }
            }
            lemma_alone(i, members, parents, spawned);
        }
        lemma_row_of_root(
            members.len() as int,
            i,
            members,
            parents,
            spawned,
            project.identity@,
            project.shown(),
        );
    }
}

/// The size of all sessions that a list of rows stands for.
pub open spec fn sizes_in(rows: Seq<RowView>) -> int
    decreases rows.len(),
{
    if rows.len() == 0 {
        0
    } else {
        sizes_in(rows.drop_last()) + rows.last().size_bytes
    }
}

/// The size of the members at some places.
spec fn size_at(places: Seq<(int, int)>, members: Seq<ProjectSession>) -> int
    decreases places.len(),
{
    if places.len() == 0 {
        0
    } else {
        size_at(places.drop_last(), members) + members[places.last().1].artifact_bytes
    }
}

proof fn lemma_size_not_negative(places: Seq<(int, int)>, members: Seq<ProjectSession>)
    ensures
        0 <= size_at(places, members),
    decreases places.len(),
{
    if places.len() > 0 {
        lemma_size_not_negative(places.drop_last(), members);
    }
}

proof fn lemma_size_placed(s: Seq<(int, int)>, x: (int, int), members: Seq<ProjectSession>)
    ensures
        size_at(order::placed(s, x, closer()), members) == size_at(s, members)
            + members[x.1].artifact_bytes,
    decreases s.len(),
{
    if s.len() == 0 {
        reveal_with_fuel(size_at, 2);
        assert(seq![x].drop_last() =~= Seq::<(int, int)>::empty());
    } else if closer()(x, s.last()) {
        lemma_size_placed(s.drop_last(), x, members);
        let front = order::placed(s.drop_last(), x, closer());
        assert(front.push(s.last()).drop_last() =~= front);
    } else {
        assert(s.push(x).drop_last() =~= s);
    }
}

proof fn lemma_size_sorted(s: Seq<(int, int)>, members: Seq<ProjectSession>)
    ensures
        size_at(sorted_by(s, closer()), members) == size_at(s, members),
    decreases s.len(),
{
    if s.len() > 0 {
        lemma_size_sorted(s.drop_last(), members);
        lemma_size_placed(sorted_by(s.drop_last(), closer()), s.last(), members);
    }
}

proof fn lemma_size_of_places(places: Seq<(int, int)>, members: Seq<ProjectSession>)
    ensures
        size_of(Seq::new(places.len(), |i: int| members[places[i].1])) == size_at(places, members),
    decreases places.len(),
{
    let group = Seq::new(places.len(), |i: int| members[places[i].1]);
    if places.len() > 0 {
        let front = places.drop_last();
        lemma_size_of_places(front, members);
        assert(group.drop_last() =~= Seq::new(front.len(), |i: int| members[front[i].1]));
    }
}

/// The size of the members below `n` whose root stands below `m`.
spec fn sizes_below(
    m: int,
    n: int,
    members: Seq<ProjectSession>,
    parents: Seq<Option<usize>>,
    spawned: Seq<bool>,
) -> int
    decreases m,
{
    if m <= 0 {
        0
    } else {
        sizes_below(m - 1, n, members, parents, spawned) + size_at(
            rooted_at(m - 1, n, parents, spawned),
            members,
        )
    }
}

proof fn lemma_sizes_below_step(
    m: int,
    n: int,
    members: Seq<ProjectSession>,
    parents: Seq<Option<usize>>,
    spawned: Seq<bool>,
)
    requires
        0 <= m,
        0 < n,
    ensures
        sizes_below(m, n, members, parents, spawned) == sizes_below(
            m,
            n - 1,
            members,
            parents,
            spawned,
        ) + (if 0 <= root_of(n - 1, parents, spawned).0 < m {
            members[n - 1].artifact_bytes as int
        } else {
            0int
        }),
    decreases m,
{
    if m > 0 {
        lemma_sizes_below_step(m - 1, n, members, parents, spawned);
        let (r, depth) = root_of(n - 1, parents, spawned);
        if r == m - 1 {
            let before = rooted_at(m - 1, n - 1, parents, spawned);
            assert(before.push((depth, n - 1)).drop_last() =~= before);
        }
    }
}

proof fn lemma_sizes_below_none(
    m: int,
    members: Seq<ProjectSession>,
    parents: Seq<Option<usize>>,
    spawned: Seq<bool>,
)
    ensures
        sizes_below(m, 0, members, parents, spawned) == 0,
    decreases m,
{
    if m > 0 {
        lemma_sizes_below_none(m - 1, members, parents, spawned);
    }
}

proof fn lemma_sizes_below_all(
    n: int,
    members: Seq<ProjectSession>,
    parents: Seq<Option<usize>>,
    spawned: Seq<bool>,
)
    requires
        parents_ok(parents, spawned),
        parents.len() == members.len(),
        0 <= n <= parents.len(),
    ensures
        sizes_below(parents.len() as int, n, members, parents, spawned) == size_of(
            members.take(n),
        ),
    decreases n,
{
    if n > 0 {
        lemma_sizes_below_all(n - 1, members, parents, spawned);
        lemma_sizes_below_step(parents.len() as int, n, members, parents, spawned);
        spawned_sessions_stand_alone(n - 1, parents, spawned);
        assert(members.take(n).drop_last() =~= members.take(n - 1));
    } else {
        lemma_sizes_below_none(parents.len() as int, members, parents, spawned);
    }
}

proof fn lemma_grouped_sizes(
    m: int,
    members: Seq<ProjectSession>,
    parents: Seq<Option<usize>>,
    spawned: Seq<bool>,
    project_key: Seq<char>,
    project: Seq<char>,
)
    requires
        sizes_below(m, members.len() as int, members, parents, spawned) <= u64::MAX,
    ensures
        sizes_in(grouped_rows(m, members, parents, spawned, project_key, project)) == sizes_below(
            m,
            members.len() as int,
            members,
            parents,
            spawned,
        ),
        0 <= sizes_below(m, members.len() as int, members, parents, spawned),
    decreases m,
{
    if m > 0 {
        let before = grouped_rows(m - 1, members, parents, spawned, project_key, project);
        let found = rooted_at(m - 1, members.len() as int, parents, spawned);
        lemma_size_not_negative(found, members);
        lemma_grouped_sizes(m - 1, members, parents, spawned, project_key, project);
        order::sorting_permutes(found, closer());
        lemma_size_sorted(found, members);
        lemma_size_of_places(sorted_by(found, closer()), members);
        let group = group_of(m - 1, members, parents, spawned);
        assert(size_of(group) == size_at(found, members));
        if group.len() > 0 {
            let row = row_of(group, project_key, project);
            assert(before.push(row).drop_last() =~= before);
        }
    }
}

proof fn lemma_flat_sizes(
    members: Seq<ProjectSession>,
    project_key: Seq<char>,
    project: Seq<char>,
    n: int,
)
    requires
        0 <= n <= members.len(),
    ensures
        sizes_in(flat_rows(members, project_key, project).take(n)) == size_of(members.take(n)),
    decreases n,
{
    let rows = flat_rows(members, project_key, project);
    if n > 0 {
        lemma_flat_sizes(members, project_key, project, n - 1);
        assert(rows.take(n).drop_last() =~= rows.take(n - 1));
        assert(rows.take(n).last() == rows[n - 1]);
        assert(members.take(n).drop_last() =~= members.take(n - 1));
        let one = seq![members[n - 1]];
        reveal_with_fuel(size_of, 2);
        assert(one.drop_last() =~= Seq::<ProjectSession>::empty());
        assert(size_of(one) == members[n - 1].artifact_bytes);
    }
}

/// The sizes of the rows of a project add up to the size of its sessions, whether conversations
/// are collapsed or not, where that is no more than the largest number there is.
pub proof fn row_sizes_add_up(
    project: UnifiedProject,
    edges: Seq<LineageEdge>,
    no_chain: bool,
)
    requires
        project.sessions@.len() <= usize::MAX,
        size_of(members_of(project.sessions@)) <= u64::MAX,
    ensures
        sizes_in(project_rows(project, edges, no_chain)) == size_of(
            members_of(project.sessions@),
        ),
        keys_differ(project.sessions@) ==> sizes_in(project_rows(project, edges, no_chain))
            == size_of(project.sessions@),
{
    let members = members_of(project.sessions@);
    members_ascend(project.sessions@);
    if keys_differ(project.sessions@) {
        members_keep_size(project.sessions@);
    }
    assert(members.take(members.len() as int) =~= members);
    if no_chain {
        let rows = flat_rows(members, project.identity@, project.shown());
        lemma_flat_sizes(members, project.identity@, project.shown(), members.len() as int);
        assert(rows.take(members.len() as int) =~= rows);
    } else {
        let parents = parents_of(edges, members);
        let spawned = spawned_of(edges, members);
        lemma_parents_of(edges, members);
        lemma_sizes_below_all(members.len() as int, members, parents, spawned);
        lemma_grouped_sizes(
            members.len() as int,
            members,
            parents,
            spawned,
            project.identity@,
            project.shown(),
        );
    }
}

proof fn lemma_size_with_session(sorted: Seq<ProjectSession>, s: ProjectSession)
    requires
        forall|i: int| 0 <= i < sorted.len() ==> (#[trigger] sorted[i]).key@ != s.key@,
    ensures
        size_of(with_session(sorted, s)) == size_of(sorted) + s.artifact_bytes,
    decreases sorted.len(),
{
    if sorted.len() == 0 {
        reveal_with_fuel(size_of, 2);
        assert(seq![s].drop_last() =~= Seq::<ProjectSession>::empty());
    } else {
        assert(sorted[sorted.len() - 1].key@ != s.key@);
        let front = sorted.drop_last();
        if key_precedes(s.key@, sorted.last().key@) {
            assert forall|i: int| 0 <= i < front.len() implies (#[trigger] front[i]).key@
                != s.key@ by {
                assert(front[i] == sorted[i]);
            }
            lemma_size_with_session(front, s);
            let put = with_session(front, s);
            assert(put.push(sorted.last()).drop_last() =~= put);
        } else {
            assert(sorted.push(s).drop_last() =~= sorted);
        }
    }
}

/// No two sessions have the same key.
pub open spec fn keys_differ(sessions: Seq<ProjectSession>) -> bool {
    forall|i: int, j: int|
        0 <= i < j < sessions.len() ==> (#[trigger] sessions[i]).key@ != (#[trigger] sessions[j]).key@
}

proof fn lemma_members_are_sessions(sessions: Seq<ProjectSession>)
    ensures
        forall|x: ProjectSession| #[trigger]
            members_of(sessions).contains(x) ==> sessions.contains(x),
    decreases sessions.len(),
{
    if sessions.len() > 0 {
        let front = sessions.drop_last();
        lemma_members_are_sessions(front);
        members_ascend(front);
        lemma_with_session(members_of(front), sessions.last());
        assert forall|x: ProjectSession| #[trigger] members_of(sessions).contains(x) implies
            sessions.contains(x) by {
            if x == sessions.last() {
                assert(sessions[sessions.len() - 1] == x);
            } else {
                assert(front.contains(x));
                let k = choose|k: int| 0 <= k < front.len() && front[k] == x;
                assert(sessions[k] == x);
            }
        }
    }
}

/// The members of a project are as large as its sessions where no two of these have the same key.
pub proof fn members_keep_size(sessions: Seq<ProjectSession>)
    requires
        keys_differ(sessions),
    ensures
        size_of(members_of(sessions)) == size_of(sessions),
    decreases sessions.len(),
{
    if sessions.len() > 0 {
        let front = sessions.drop_last();
        assert forall|i: int, j: int| 0 <= i < j < front.len() implies (#[trigger] front[i]).key@
            != (#[trigger] front[j]).key@ by {
            assert(front[i] == sessions[i] && front[j] == sessions[j]);
        }
        members_keep_size(front);
        lemma_members_are_sessions(front);
        let members = members_of(front);
        assert forall|i: int| 0 <= i < members.len() implies (#[trigger] members[i]).key@
            != sessions.last().key@ by {
            assert(members.contains(members[i]));
            let k = choose|k: int| 0 <= k < front.len() && front[k] == members[i];
            assert(sessions[k] == members[i]);
            assert(sessions[k].key@ != sessions[sessions.len() - 1].key@);
        }
        lemma_size_with_session(members, sessions.last());
    }
}

/// The size of the sessions of all projects.
pub open spec fn size_of_projects(projects: Seq<UnifiedProject>) -> int
    decreases projects.len(),
{
    if projects.len() == 0 {
        0
    } else {
        size_of_projects(projects.drop_last()) + size_of(members_of(projects.last().sessions@))
    }
}

proof fn lemma_sizes_in_both(a: Seq<RowView>, b: Seq<RowView>)
    ensures
        sizes_in(a + b) == sizes_in(a) + sizes_in(b),
    decreases b.len(),
{
    if b.len() == 0 {
        assert(a + b =~= a);
    } else {
        lemma_sizes_in_both(a, b.drop_last());
        assert((a + b).drop_last() =~= a + b.drop_last());
    }
}

/// The sizes of the rows of all projects add up to the size of their sessions, where no project
/// is larger than the largest number there is.
pub proof fn all_row_sizes_add_up(
    projects: Seq<UnifiedProject>,
    edges: Seq<LineageEdge>,
    no_chain: bool,
)
    requires
        forall|i: int|
            0 <= i < projects.len() ==> (#[trigger] projects[i]).sessions@.len() <= usize::MAX
                && size_of(members_of(projects[i].sessions@)) <= u64::MAX,
    ensures
        sizes_in(all_rows(projects, edges, no_chain)) == size_of_projects(projects),
    decreases projects.len(),
{
    if projects.len() > 0 {
        let front = projects.drop_last();
        assert forall|i: int| 0 <= i < front.len() implies (
        #[trigger] front[i]).sessions@.len() <= usize::MAX && size_of(
            members_of(front[i].sessions@),
        ) <= u64::MAX by {
            assert(front[i] == projects[i]);
        }
        all_row_sizes_add_up(front, edges, no_chain);
        assert(projects[projects.len() - 1] == projects.last());
        row_sizes_add_up(projects.last(), edges, no_chain);
        lemma_sizes_in_both(
            all_rows(front, edges, no_chain),
            project_rows(projects.last(), edges, no_chain),
        );
    }
}

// ---------------------------------------------------------------------------
// Which rows are shown
// ---------------------------------------------------------------------------

/// The later row first; of two equally late, the one whose id comes first.
pub open spec fn newer_row() -> spec_fn(RowView, RowView) -> bool {
    |a: RowView, b: RowView|
        time_before(b.modified, a.modified) || (a.modified == b.modified && precedes(
            a.qualified_id,
            b.qualified_id,
        ))
}

spec fn newer_row_exec() -> spec_fn(ProviderRecentRow, ProviderRecentRow) -> bool {
    |a: ProviderRecentRow, b: ProviderRecentRow| newer_row()(a@, b@)
}

fn row_is_newer(a: &ProviderRecentRow, b: &ProviderRecentRow) -> (o: bool)
    ensures
        o == newer_row_exec()(*a, *b),
{
    order::earlier(b.modified, a.modified) || (same_time(a.modified, b.modified) && text::before(
        a.qualified_id.as_str(),
        b.qualified_id.as_str(),
    ))
}

proof fn lemma_newer_is_order()
    ensures
        order::weak_order(newer_row()),
{
    let lt = newer_row();
    assert forall|a: RowView| !#[trigger] lt(a, a) by {
        text::precedes_irreflexive(a.qualified_id);
    }
    assert forall|a: RowView, b: RowView, c: RowView|
        #![trigger lt(a, b), lt(b, c)]
        (lt(a, b) && lt(b, c) ==> lt(a, c)) && (!lt(a, b) && !lt(b, c) ==> !lt(a, c)) by {
        let (x, y, z) = (a.qualified_id, b.qualified_id, c.qualified_id);
        if a.modified == b.modified && b.modified == c.modified {
            if precedes(x, y) && precedes(y, z) {
                text::precedes_transitive(x, y, z);
            }
            text::precedes_total(x, y);
            text::precedes_total(y, z);
            text::precedes_total(x, z);
            if precedes(z, y) && precedes(y, x) {
                text::precedes_transitive(z, y, x);
            }
            text::precedes_irreflexive(x);
            if precedes(x, z) && precedes(z, x) {
                text::precedes_transitive(x, z, x);
            }
        }
    }
}

/// The rows that are shown are the latest: the later one stands first, and of two equally late
/// the one whose id comes first; a row that is left out was modified no later than any that is
/// shown. An unknown time is no later than any.
pub proof fn latest_rows_are_shown(rows: Seq<RowView>, count: int)
    requires
        0 <= count,
    ensures
        ({
            let shown = order::first_of_list(sorted_by(rows, newer_row()), count);
            &&& shown.len() == (if count < rows.len() {
                count
            } else {
                rows.len() as int
            })
            &&& forall|i: int| 0 <= i < shown.len() ==> rows.contains(#[trigger] shown[i])
            &&& forall|i: int, j: int|
                0 <= i < j < shown.len() ==> order::no_later(
                    (#[trigger] shown[j]).modified,
                    (#[trigger] shown[i]).modified,
                ) && (shown[i].modified == shown[j].modified ==> !precedes(
                    shown[j].qualified_id,
                    shown[i].qualified_id,
                ))
            &&& forall|row: RowView, i: int|
                #![trigger rows.contains(row), shown[i]]
                rows.contains(row) && 0 <= i < shown.len() && !shown.contains(row)
                    ==> order::no_later(row.modified, shown[i].modified) && (row.modified
                    == shown[i].modified ==> !precedes(row.qualified_id, shown[i].qualified_id))
        }),
{
    let lt = newer_row();
    let shown = order::first_of_list(sorted_by(rows, lt), count);
    lemma_newer_is_order();
    order::first_are_foremost(rows, lt, count);
    assert forall|row: RowView, i: int|
        #![trigger rows.contains(row), shown[i]]
        rows.contains(row) && 0 <= i < shown.len() && !shown.contains(row) implies order::no_later(
        row.modified,
        shown[i].modified,
    ) && (row.modified == shown[i].modified ==> !precedes(
        row.qualified_id,
        shown[i].qualified_id,
    )) by {
        assert(!lt(row, shown[i]));
    }
    assert forall|i: int, j: int| 0 <= i < j < shown.len() implies order::no_later(
        (#[trigger] shown[j]).modified,
        (#[trigger] shown[i]).modified,
    ) && (shown[i].modified == shown[j].modified ==> !precedes(
        shown[j].qualified_id,
        shown[i].qualified_id,
    )) by {
        assert(!lt(shown[j], shown[i]));
    }
}

/// The rows that are shown, and how many there are in all.
#[derive(Debug, Clone, PartialEq, Eq)]
pub struct ProviderRecentOutput {
    /// The rows that are shown.
    pub sessions: Vec<ProviderRecentRow>,
    /// The number of rows before the list was cut.
    pub total: usize,
}

/// The latest `count` rows of the given projects.
pub fn run_provider(
    projects: &Vec<UnifiedProject>,
    lineage: &Vec<LineageEdge>,
    no_chain: bool,
    count: usize,
) -> (r: ProviderRecentOutput)
    ensures
        ({
            let rows = all_rows(projects@, lineage@, no_chain);
            &&& r.total == rows.len()
            &&& row_views(r.sessions@) == order::first_of_list(
                sorted_by(rows, newer_row()),
                count as int,
            )
        }),
{
    let rows = provider_recent_rows(projects, lineage, no_chain);
    let total: usize = rows.len();
    let ghost before = rows@;
    let mut sorted = order::sort(rows, row_is_newer, Ghost(newer_row_exec()));
    proof {
        let f = |row: ProviderRecentRow| row@;
        order::sorting_maps(before, f, newer_row_exec(), newer_row());
        assert(before.map_values(f) =~= row_views(before));
        assert(sorted@.map_values(f) =~= row_views(sorted@));
    }
    let ghost whole = sorted@;
    if count < sorted.len() {
        sorted.truncate(count);
    }
    proof {
        assert(row_views(sorted@) =~= order::first_of_list(row_views(whole), count as int));
    }
    ProviderRecentOutput { sessions: sorted, total }
}

/// A row of a provider with its time and its project as they are shown.
#[derive(Debug, Clone, PartialEq, Eq)]
pub struct ShownRow {
    /// The row.
    pub row: ProviderRecentRow,
    /// Its time on the clock of the place; nothing where it is not known.
    pub time: Option<String>,
    /// Its project, cut to the width of the column.
    pub project: String,
    /// Its project, cut for a short line.
    pub short_project: String,
}

/// The line of a row in a table of values.
pub open spec fn tsv_line(s: ShownRow) -> Seq<char> {
    s.row.qualified_id@ + "\t"@ + s.row.project@ + "\t"@ + (match stamped_if(
        s.row.modified,
        false,
    ) {
        Some(t) => t,
        None => Seq::empty(),
    }) + "\t"@ + decimal(s.row.size_bytes as nat) + "\t"@ + decimal(
        s.row.continuation_member_count as nat,
    ) + "\t"@ + s.row.latest_qualified_id@
}

/// The short line of a row.
pub open spec fn compact_line(s: ShownRow) -> Seq<char> {
    if s.row.continuation_member_count > 1 {
        s.row.qualified_id@ + " "@ + s.short_project@ + " (continuation: "@ + decimal(
            s.row.continuation_member_count as nat,
        ) + ", latest "@ + s.row.latest_qualified_id@ + ")"@
    } else {
        s.row.qualified_id@ + " "@ + s.short_project@
    }
}

/// The line of a row for people.
pub open spec fn text_line(s: ShownRow) -> Seq<char> {
    "  "@ + s.row.qualified_id@ + " │ "@ + padded(s.project@, 45) + " │ "@ + (match s.time {
        Some(t) => t@,
        None => "unknown"@,
    }) + " │ "@ + (if s.row.continuation_member_count > 1 {
        decimal(s.row.continuation_member_count as nat) + " continuation members"@
    } else {
        Seq::empty()
    })
}

/// What is printed of the rows; for JSON there is a value instead.
pub open spec fn provider_lines(rows: Seq<ShownRow>, format: OutputFormat, quiet: bool) -> Seq<
    Seq<char>,
> {
    match format {
        OutputFormat::Json => Seq::empty(),
        OutputFormat::Tsv => seq![
            "qualified_id\tproject\tmodified\tsize\tcontinuation_members\tlatest_qualified_id"@,
        ] + rows.map_values(|s: ShownRow| tsv_line(s)),
        OutputFormat::Compact => rows.map_values(|s: ShownRow| compact_line(s)),
        OutputFormat::Text => if rows.len() == 0 {
            if quiet {
                Seq::empty()
            } else {
                seq!["No recent sessions found."@]
            }
        } else {
            seq!["Recent Sessions"@, text::repeated('=', 80), ""@] + rows.map_values(
                |s: ShownRow| text_line(s),
            ) + seq![""@, "Tip: Use 'snatch info <qualified-id>' for details."@]
        },
    }
}

fn write_tsv(s: &ShownRow) -> (r: String)
    ensures
        r@ == tsv_line(*s),
{
    let time: String = match time::stamp_if(s.row.modified, false) {
        Some(t) => t,
        None => String::new(),
    };
    let size = text::number(s.row.size_bytes);
    let count = text::size(s.row.continuation_member_count);
    let head = text::cat4(s.row.qualified_id.as_str(), "\t", s.row.project.as_str(), "\t");
    let middle = text::cat5(head.as_str(), time.as_str(), "\t", size.as_str(), "\t");
    proof {
        assert((match stamped_if(s.row.modified, false) {
            Some(t) => t,
            None => Seq::empty(),
        }) =~= time@);
    }
    text::cat4(middle.as_str(), count.as_str(), "\t", s.row.latest_qualified_id.as_str())
}

fn write_compact(s: &ShownRow) -> (r: String)
    ensures
        r@ == compact_line(*s),
{
    let head = text::cat3(s.row.qualified_id.as_str(), " ", s.short_project.as_str());
    if s.row.continuation_member_count > 1 {
        let count = text::size(s.row.continuation_member_count);
        let middle = text::cat4(head.as_str(), " (continuation: ", count.as_str(), ", latest ");
        text::cat3(middle.as_str(), s.row.latest_qualified_id.as_str(), ")")
    } else {
        head
    }
}

fn write_text(s: &ShownRow) -> (r: String)
    ensures
        r@ == text_line(*s),
{
    let time: String = match &s.time {
        Some(t) => t.clone(),
        None => "unknown".to_owned(),
    };
    let project = text::pad(s.project.as_str(), 45);
    let detail: String = if s.row.continuation_member_count > 1 {
        let count = text::size(s.row.continuation_member_count);
        text::cat2(count.as_str(), " continuation members")
    } else {
        String::new()
    };
    let head = text::cat4("  ", s.row.qualified_id.as_str(), " │ ", project.as_str());
    text::cat5(head.as_str(), " │ ", time.as_str(), " │ ", detail.as_str())
}

/// What is printed of the rows; for JSON see [`provider_json`].
pub fn print_provider(rows: &Vec<ShownRow>, format: OutputFormat, quiet: bool) -> (r: Vec<String>)
    ensures
        views(r@) == provider_lines(rows@, format, quiet),
{
    let mut out: Vec<String> = Vec::new();
    proof {
        assert(views(out@) =~= Seq::empty());
    }
    match format {
        OutputFormat::Json => {},
        OutputFormat::Tsv => {
            text::say(
                &mut out,
                "qualified_id\tproject\tmodified\tsize\tcontinuation_members\tlatest_qualified_id",
            );
            text::say_each(&mut out, rows, write_tsv, Ghost(|s: ShownRow| tsv_line(s)));
        },
        OutputFormat::Compact => {
            text::say_each(&mut out, rows, write_compact, Ghost(|s: ShownRow| compact_line(s)));
        },
        OutputFormat::Text => {
            if rows.len() == 0 {
                if !quiet {
                    text::say(&mut out, "No recent sessions found.");
                }
            } else {
                text::say(&mut out, "Recent Sessions");
                let rule = text::repeat('=', 80);
                text::say(&mut out, rule.as_str());
                text::say(&mut out, "");
                text::say_each(&mut out, rows, write_text, Ghost(|s: ShownRow| text_line(s)));
                text::say(&mut out, "");
                text::say(&mut out, "Tip: Use 'snatch info <qualified-id>' for details.");
            }
        },
    }
    proof {
        assert(views(out@) =~= provider_lines(rows@, format, quiet));
    }
    out
}

// ---------------------------------------------------------------------------
// Sessions of the session directory
// ---------------------------------------------------------------------------

/// The path of the session's project holds one of these paths.
pub open spec fn under_any(paths: Seq<Seq<char>>) -> spec_fn(Session) -> bool {
    |s: Session| exists|i: int| 0 <= i < paths.len() && has(s.project_path@, #[trigger] paths[i])
}

fn is_under_any(s: &Session, paths: &Vec<String>) -> (r: bool)
    ensures
        r == under_any(views(paths@))(*s),
{
    let mut i: usize = 0;
    while i < paths.len()
        invariant
            i <= paths@.len(),
            forall|k: int| 0 <= k < i ==> !(has(s.project_path@, #[trigger] views(paths@)[k])),
        decreases paths@.len() - i,
    {
        if text::contains(s.project_path.as_str(), paths[i].as_str()) {
            proof {
                assert(has(s.project_path@, views(paths@)[i as int]));
            }
            return true;
        }
        i = i + 1;
    }
    false
}

/// The sessions of the projects that were found for a filter, or all where there is none.
pub fn keep_projects(sessions: Vec<Session>, paths: &Option<Vec<String>>) -> (r: Vec<Session>)
    ensures
        r@ == (match *paths {
            Some(p) => sessions@.filter(under_any(views(p@))),
            None => sessions@,
        }),
{
    match paths {
        Some(p) => {
            let under = |s: &Session| -> (o: bool)
                ensures
                    o == under_any(views(p@))(*s),
                { is_under_any(s, p) };
            order::keep(sessions, under, Ghost(under_any(views(p@))))
        },
        None => sessions,
    }
}

/// Where the rows are taken from.
#[derive(Debug, Clone, PartialEq, Eq)]
pub enum RecentRoute {
    /// The providers that were asked for.
    Provider,
    /// The sessions of the session directory, one row for each file.
    Flat(Vec<Session>),
    /// The sessions of the session directory, one row for each conversation.
    Collapsed(Vec<Session>),
}

/// Where the rows are taken from. `sessions` are those of the session directory, the latest
/// first; `paths` are those of the projects that were found for a filter.
pub fn run(
    provider: &Vec<String>,
    sessions: Vec<Session>,
    paths: &Option<Vec<String>>,
    no_chain: bool,
    count: usize,
) -> (r: RecentRoute)
    ensures
        ({
            let kept = match *paths {
                Some(p) => sessions@.filter(under_any(views(p@))),
                None => sessions@,
            };
            if provider@.len() > 0 {
                r is Provider
            } else if no_chain {
                r matches RecentRoute::Flat(s) && s@ == first_of_list(kept, count as int)
            } else {
                r matches RecentRoute::Collapsed(s) && s@ == kept
            }
        }),
{
    if provider.len() > 0 {
        return RecentRoute::Provider;
    }
    let mut kept = keep_projects(sessions, paths);
    if !no_chain {
        return RecentRoute::Collapsed(kept);
    }
    if count < kept.len() {
        kept.truncate(count);
    }
    RecentRoute::Flat(kept)
}

/// A conversation of the session directory, as it is shown.
#[derive(Debug, Clone, PartialEq, Eq)]
pub struct LogicalRow {
    /// The id of the session that it began with.
    pub root_id: String,
    /// The id of its latest session.
    pub latest_session_id: String,
    /// The ids of its sessions.
    pub members: Vec<String>,
    /// When its latest session was modified.
    pub latest_modified: i128,
    /// The size of all its files.
    pub total_size: u64,
    /// The path of its project.
    pub project: String,
    /// The name that it was given, else the path of its project, cut to the width of the column.
    pub display_name: String,
    /// The path of its project, cut for a short line.
    pub short_project: String,
    /// The name that it was given.
    pub name: Option<String>,
    /// Whether it is bookmarked; nothing where nothing was ever said of it.
    pub bookmarked: Option<bool>,
    /// Its time, as it is shown.
    pub time: String,
    /// The number of entries, where it is known.
    pub entry_count: Option<usize>,
}

/// The ids that are shown of the row can be shortened: that of its root, and that of its latest
/// session in the table of values and in the short line of several sessions.
pub open spec fn row_can_be_shown(row: LogicalRow, format: OutputFormat) -> bool {
    match format {
        OutputFormat::Json => true,
        OutputFormat::Tsv => has_short_id(row.root_id@) && has_short_id(row.latest_session_id@),
        OutputFormat::Compact => has_short_id(row.root_id@) && (row.members@.len() > 1
            ==> has_short_id(row.latest_session_id@)),
        OutputFormat::Text => has_short_id(row.root_id@),
    }
}

/// The later row first.
pub open spec fn later_row() -> spec_fn(LogicalRow, LogicalRow) -> bool {
    |a: LogicalRow, b: LogicalRow| b.latest_modified < a.latest_modified
}

fn is_later_row(a: &LogicalRow, b: &LogicalRow) -> (o: bool)
    ensures
        o == later_row()(*a, *b),
{
    let x: i128 = a.latest_modified;
    let y: i128 = b.latest_modified;
    y < x
}

/// The conversations that are shown are the latest: the later one stands first, and one that is
/// left out was modified no later than any that is shown.
pub proof fn latest_conversations_are_shown(rows: Seq<LogicalRow>, count: int)
    requires
        0 <= count,
    ensures
        ({
            let shown = first_of_list(sorted_by(rows, later_row()), count);
            &&& shown.len() == (if count < rows.len() {
                count
            } else {
                rows.len() as int
            })
            &&& forall|i: int| 0 <= i < shown.len() ==> rows.contains(#[trigger] shown[i])
            &&& forall|i: int, j: int|
                0 <= i < j < shown.len() ==> (#[trigger] shown[j]).latest_modified <= (
                #[trigger] shown[i]).latest_modified
            &&& forall|row: LogicalRow, i: int|
                #![trigger rows.contains(row), shown[i]]
                rows.contains(row) && 0 <= i < shown.len() && !shown.contains(row)
                    ==> row.latest_modified <= shown[i].latest_modified
        }),
{
    let lt = later_row();
    let shown = first_of_list(sorted_by(rows, lt), count);
    order::first_are_foremost(rows, lt, count);
    assert forall|row: LogicalRow, i: int|
        #![trigger rows.contains(row), shown[i]]
        rows.contains(row) && 0 <= i < shown.len() && !shown.contains(row) implies
        row.latest_modified <= shown[i].latest_modified by {
        assert(!lt(row, shown[i]));
    }
    assert forall|i: int, j: int| 0 <= i < j < shown.len() implies (
    #[trigger] shown[j]).latest_modified <= (#[trigger] shown[i]).latest_modified by {
        assert(!lt(shown[j], shown[i]));
    }
}

/// The latest `count` conversations, the latest first.
pub fn run_collapsed(rows: Vec<LogicalRow>, count: usize) -> (r: Vec<LogicalRow>)
    ensures
        r@ == first_of_list(sorted_by(rows@, later_row()), count as int),
{
    let mut sorted = order::sort(rows, is_later_row, Ghost(later_row()));
    if count < sorted.len() {
        sorted.truncate(count);
    }
    sorted
}

/// The line of a conversation in a table of values.
pub open spec fn logical_tsv(row: LogicalRow) -> Seq<char> {
    id_head(row.root_id@) + "\t"@ + row.project@ + "\t"@ + row.time@ + "\t"@ + decimal(
        row.total_size as nat,
    ) + "\t"@ + (match row.name {
        Some(n) => n@,
        None => Seq::empty(),
    }) + "\t"@ + decimal(row.members@.len()) + "\t"@ + id_head(row.latest_session_id@)
}

/// The short line of a conversation.
pub open spec fn logical_compact(row: LogicalRow) -> Seq<char> {
    if row.members@.len() > 1 {
        id_head(row.root_id@) + " "@ + row.short_project@ + " (chain: "@ + decimal(
            row.members@.len(),
        ) + ", latest "@ + id_head(row.latest_session_id@) + ")"@
    } else {
        id_head(row.root_id@) + " "@ + row.short_project@
    }
}

/// The line of a conversation for people.
pub open spec fn logical_line(row: LogicalRow) -> Seq<char> {
    "  "@ + (if row.bookmarked == Some(true) {
        "★ "@
    } else {
        Seq::empty()
    }) + id_head(row.root_id@) + " │ "@ + padded(row.display_name@, 45) + " │ "@ + row.time@
        + " │ "@ + (if row.members@.len() > 1 {
        "chain: "@ + decimal(row.members@.len()) + " files"@
    } else {
        match row.entry_count {
            Some(n) => decimal(n as nat) + " entries"@,
            None => Seq::empty(),
        }
    })
}

/// What is printed of the conversations; for JSON there is a value instead.
pub open spec fn logical_lines(rows: Seq<LogicalRow>, format: OutputFormat, quiet: bool) -> Seq<
    Seq<char>,
> {
    if rows.len() == 0 {
        if quiet {
            Seq::empty()
        } else {
            seq!["No recent sessions found."@]
        }
    } else {
        match format {
            OutputFormat::Json => Seq::empty(),
            OutputFormat::Tsv => seq![
                "id\tproject\tmodified\tsize\tname\tmember_count\tlatest_session_id"@,
            ] + rows.map_values(|s: LogicalRow| logical_tsv(s)),
            OutputFormat::Compact => rows.map_values(|s: LogicalRow| logical_compact(s)),
            OutputFormat::Text => seq!["Recent Sessions"@, text::repeated('=', 60), ""@]
                + rows.map_values(|s: LogicalRow| logical_line(s)) + seq![
                ""@,
                "Tip: Use 'snatch info <id>' for details or 'snatch pick' to browse."@,
            ],
        }
    }
}

fn write_logical_tsv(row: &LogicalRow) -> (r: String)
    requires
        row_can_be_shown(*row, OutputFormat::Tsv),
    ensures
        r@ == logical_tsv(*row),
{
    let id = helpers::short_id(row.root_id.as_str());
    let latest = helpers::short_id(row.latest_session_id.as_str());
    let size = text::number(row.total_size);
    let count = text::size(row.members.len());
    let name: String = match &row.name {
        Some(n) => n.clone(),
        None => String::new(),
    };
    proof {
        assert((match row.name {
            Some(n) => n@,
            None => Seq::empty(),
        }) =~= name@);
    }
    let head = text::cat5(id.as_str(), "\t", row.project.as_str(), "\t", row.time.as_str());
    let middle = text::cat5(head.as_str(), "\t", size.as_str(), "\t", name.as_str());
    text::cat5(middle.as_str(), "\t", count.as_str(), "\t", latest.as_str())
}

fn write_logical_compact(row: &LogicalRow) -> (r: String)
    requires
        row_can_be_shown(*row, OutputFormat::Compact),
    ensures
        r@ == logical_compact(*row),
{
    let id = helpers::short_id(row.root_id.as_str());
    let head = text::cat3(id.as_str(), " ", row.short_project.as_str());
    if row.members.len() > 1 {
        let count = text::size(row.members.len());
        let latest = helpers::short_id(row.latest_session_id.as_str());
        let middle = text::cat4(head.as_str(), " (chain: ", count.as_str(), ", latest ");
        text::cat3(middle.as_str(), latest.as_str(), ")")
    } else {
        head
    }
}

fn write_logical_line(row: &LogicalRow) -> (r: String)
    requires
        row_can_be_shown(*row, OutputFormat::Text),
    ensures
        r@ == logical_line(*row),
{
    let id = helpers::short_id(row.root_id.as_str());
    let star: String = if row.bookmarked.unwrap_or(false) {
        "★ ".to_owned()
    } else {
        String::new()
    };
    let info: String = if row.members.len() > 1 {
        let count = text::size(row.members.len());
        text::cat3("chain: ", count.as_str(), " files")
    } else {
        match row.entry_count {
            Some(n) => {
                let digits = text::size(n);
                text::cat2(digits.as_str(), " entries")
            },
            None => String::new(),
        }
    };
    let name = text::pad(row.display_name.as_str(), 45);
    let head = text::cat5("  ", star.as_str(), id.as_str(), " │ ", name.as_str());
    text::cat5(head.as_str(), " │ ", row.time.as_str(), " │ ", info.as_str())
}

/// What is printed of the conversations; for JSON see [`logical_json`].
pub fn print_logical(rows: &Vec<LogicalRow>, format: OutputFormat, quiet: bool) -> (r: Vec<String>)
    requires
        forall|i: int| 0 <= i < rows@.len() ==> row_can_be_shown(#[trigger] rows@[i], format),
    ensures
        views(r@) == logical_lines(rows@, format, quiet),
{
    let mut out: Vec<String> = Vec::new();
    proof {
        assert(views(out@) =~= Seq::empty());
    }
    if rows.len() == 0 {
        if !quiet {
            text::say(&mut out, "No recent sessions found.");
        }
    } else {
        match format {
            OutputFormat::Json => {},
            OutputFormat::Tsv => {
                text::say(
                    &mut out,
                    "id\tproject\tmodified\tsize\tname\tmember_count\tlatest_session_id",
                );
                text::say_each(
                    &mut out,
                    rows,
                    write_logical_tsv,
                    Ghost(|s: LogicalRow| logical_tsv(s)),
                );
            },
            OutputFormat::Compact => {
                text::say_each(
                    &mut out,
                    rows,
                    write_logical_compact,
                    Ghost(|s: LogicalRow| logical_compact(s)),
                );
            },
            OutputFormat::Text => {
                text::say(&mut out, "Recent Sessions");
                let rule = text::repeat('=', 60);
                text::say(&mut out, rule.as_str());
                text::say(&mut out, "");
                text::say_each(
                    &mut out,
                    rows,
                    write_logical_line,
                    Ghost(|s: LogicalRow| logical_line(s)),
                );
                text::say(&mut out, "");
                text::say(
                    &mut out,
                    "Tip: Use 'snatch info <id>' for details or 'snatch pick' to browse.",
                );
            },
        }
    }
    proof {
        assert(views(out@) =~= logical_lines(rows@, format, quiet));
    }
    out
}

/// The number of entries of all sessions whose number is known; nothing where none is.
pub open spec fn entries_in(counts: Seq<Option<usize>>) -> Option<int>
    decreases counts.len(),
{
    if counts.len() == 0 {
        None
    } else {
        match (entries_in(counts.drop_last()), counts.last()) {
            (None, None) => None,
            (Some(sum), None) => Some(sum),
            (None, Some(n)) => Some(n as int),
            (Some(sum), Some(n)) => Some(sum + n),
        }
    }
}

proof fn lemma_entries_grow(counts: Seq<Option<usize>>, k: int)
    requires
        0 <= k <= counts.len(),
    ensures
        (entries_in(counts.take(k)) matches Some(part) ==> part >= 0 && (entries_in(
            counts,
        ) matches Some(sum) && part <= sum)),
    decreases counts.len(),
{
    if counts.len() > 0 {
        if k < counts.len() {
            lemma_entries_grow(counts.drop_last(), k);
            assert(counts.take(k) =~= counts.drop_last().take(k));
        } else {
            assert(counts.take(k) =~= counts);
            let front = counts.drop_last();
            lemma_entries_grow(front, front.len() as int);
            assert(front.take(front.len() as int) =~= front);
        }
    } else {
        assert(counts.take(k) =~= counts);
    }
}

/// The number of entries of all sessions of a conversation whose number is known; nothing where
/// none is.
pub fn count_entries(counts: &Vec<Option<usize>>) -> (r: Option<usize>)
    requires
        entries_in(counts@) matches Some(sum) ==> sum <= usize::MAX,
    ensures
        match entries_in(counts@) {
            Some(sum) => r matches Some(n) && n == sum,
            None => r is None,
        },
{
    let mut sum: Option<usize> = None;
    let mut i: usize = 0;
    proof {
        assert(counts@.take(0) =~= Seq::empty());
    }
    while i < counts.len()
        invariant
            i <= counts@.len(),
            entries_in(counts@) matches Some(sum) ==> sum <= usize::MAX,
            match entries_in(counts@.take(i as int)) {
                Some(part) => sum matches Some(n) && n == part,
                None => sum is None,
            },
        decreases counts@.len() - i,
    {
        proof {
            let next = counts@.take(i + 1);
            assert(next.drop_last() =~= counts@.take(i as int));
            assert(next.last() == counts@[i as int]);
            lemma_entries_grow(counts@, i + 1);
        }
        sum = match (sum, counts[i]) {
            (None, None) => None,
            (Some(s), None) => Some(s),
            (None, Some(n)) => Some(n),
            (Some(s), Some(n)) => Some(s + n),
        };
        i = i + 1;
    }
    proof {
        assert(counts@.take(i as int) =~= counts@);
    }
    sum
}

/// The row stands for one file, whose id can be shortened where it is shown.
pub open spec fn is_single(row: LogicalRow, format: OutputFormat) -> bool {
    row.members@.len() <= 1 && (format is Json || has_short_id(row.root_id@))
}

/// The line of a file in a table of values.
pub open spec fn flat_tsv(row: LogicalRow) -> Seq<char> {
    id_head(row.root_id@) + "\t"@ + row.project@ + "\t"@ + row.time@ + "\t"@ + decimal(
        row.total_size as nat,
    ) + "\t"@ + (match row.name {
        Some(n) => n@,
        None => ""@,
    })
}

fn write_flat_tsv(row: &LogicalRow) -> (r: String)
    requires
        has_short_id(row.root_id@),
    ensures
        r@ == flat_tsv(*row),
{
    let id = helpers::short_id(row.root_id.as_str());
    let size = text::number(row.total_size);
    let name: &str = match &row.name {
        Some(n) => n.as_str(),
        None => "",
    };
    let head = text::cat5(id.as_str(), "\t", row.project.as_str(), "\t", row.time.as_str());
    text::cat5(head.as_str(), "\t", size.as_str(), "\t", name)
}

/// What is printed of the files; for JSON there is a value instead. But for the table of values it
/// is what is printed of conversations of one file.
pub open spec fn flat_lines(rows: Seq<LogicalRow>, format: OutputFormat, quiet: bool) -> Seq<
    Seq<char>,
> {
    if rows.len() > 0 && format == OutputFormat::Tsv {
        seq!["id\tproject\tmodified\tsize\tname"@] + rows.map_values(|s: LogicalRow| flat_tsv(s))
    } else {
        logical_lines(rows, format, quiet)
    }
}

/// What is printed of the files; for JSON see [`flat_json`].
pub fn print_flat(rows: &Vec<LogicalRow>, format: OutputFormat, quiet: bool) -> (r: Vec<String>)
    requires
        forall|i: int| 0 <= i < rows@.len() ==> is_single(#[trigger] rows@[i], format),
    ensures
        views(r@) == flat_lines(rows@, format, quiet),
{
    if rows.len() > 0 && format == OutputFormat::Tsv {
        let mut out: Vec<String> = Vec::new();
        text::say(&mut out, "id\tproject\tmodified\tsize\tname");
        proof {
            assert(views(out@) =~= seq!["id\tproject\tmodified\tsize\tname"@]);
        }
        let ghost g = |s: LogicalRow| flat_tsv(s);
        text::say_each(&mut out, rows, write_flat_tsv, Ghost(g));
        out
    } else {
        print_logical(rows, format, quiet)
    }
}

// ---------------------------------------------------------------------------
// As JSON
// ---------------------------------------------------------------------------

/// The whole seconds of a point in time as a value, `null` where the calendar cannot hold it.
pub open spec fn seconds_view(time: i128) -> JsonView {
    if i64::MIN <= seconds_of(time) <= i64::MAX {
        JsonView::Number(signed_decimal(seconds_of(time)))
    } else {
        JsonView::Null
    }
}

fn seconds_json(time: i128) -> (r: Json)
    ensures
        r@ == seconds_view(time),
{
    let (seconds, _) = time::split_time(time);
    if seconds < i64::MIN as i128 || seconds > i64::MAX as i128 {
        Json::Null
    } else {
        Json::Number(text::signed(seconds as i64))
    }
}

/// The fields of a file.
pub open spec fn flat_fields(row: LogicalRow) -> Seq<(Seq<char>, JsonView)> {
    seq![
        ("id"@, JsonView::Text(row.root_id@)),
        ("project"@, JsonView::Text(row.project@)),
        ("modified"@, seconds_view(row.latest_modified)),
        ("size_bytes"@, number_json(row.total_size as nat)),
        ("entry_count"@, optional_size(row.entry_count)),
    ] + given_text("name"@, row.name) + given_truth("bookmarked"@, row.bookmarked)
}

fn flat_row_json(row: &LogicalRow) -> (r: Json)
    ensures
        r@ == JsonView::Object(flat_fields(*row)),
{
    let mut fields: Vec<(String, Json)> = Vec::new();
    let ghost before0 = fields_view(fields@);
    json::put(&mut fields, "id", json::of_text(row.root_id.as_str()));
    json::put(&mut fields, "project", json::of_text(row.project.as_str()));
    json::put(&mut fields, "modified", seconds_json(row.latest_modified));
    json::put(&mut fields, "size_bytes", json::of_number(row.total_size));
    json::put(&mut fields, "entry_count", json::of_optional_size(row.entry_count));
    proof {
        assert(fields_view(fields@) =~= before0 + seq![
            ("id"@, JsonView::Text(row.root_id@)),
            ("project"@, JsonView::Text(row.project@)),
            ("modified"@, seconds_view(row.latest_modified)),
            ("size_bytes"@, number_json(row.total_size as nat)),
            ("entry_count"@, optional_size(row.entry_count)),
        ]);
    }
    json::put_given_text(&mut fields, "name", &row.name);
    json::put_given_truth(&mut fields, "bookmarked", row.bookmarked);
    proof {
        assert(fields_view(fields@) =~= flat_fields(*row));
    }
    Json::Object(fields)
}

/// The files as a JSON list.
pub fn flat_json(rows: &Vec<LogicalRow>) -> (r: Json)
    ensures
        r@ == JsonView::Array(
            rows@.map_values(|row: LogicalRow| JsonView::Object(flat_fields(row))),
        ),
{
    let ghost g = |row: LogicalRow| JsonView::Object(flat_fields(row));
    json::of_list(rows, flat_row_json, Ghost(g))
}

/// The fields of a conversation.
pub open spec fn logical_fields(row: LogicalRow) -> Seq<(Seq<char>, JsonView)> {
    seq![
        ("id"@, JsonView::Text(row.root_id@)),
        ("latest_session_id"@, JsonView::Text(row.latest_session_id@)),
        ("chain_member_count"@, number_json(row.members@.len())),
        ("chain_members"@, texts_json(views(row.members@))),
        ("project"@, JsonView::Text(row.project@)),
        ("modified"@, seconds_view(row.latest_modified)),
        ("size_bytes"@, number_json(row.total_size as nat)),
        ("entry_count"@, optional_size(row.entry_count)),
    ] + given_text("name"@, row.name) + given_truth("bookmarked"@, row.bookmarked)
}

fn logical_row_json(row: &LogicalRow) -> (r: Json)
    ensures
        r@ == JsonView::Object(logical_fields(*row)),
{
    let mut fields: Vec<(String, Json)> = Vec::new();
    let ghost before0 = fields_view(fields@);
    json::put(&mut fields, "id", json::of_text(row.root_id.as_str()));
    json::put(&mut fields, "latest_session_id", json::of_text(row.latest_session_id.as_str()));
    json::put(&mut fields, "chain_member_count", json::of_size(row.members.len()));
    json::put(&mut fields, "chain_members", json::of_texts(&row.members));
    json::put(&mut fields, "project", json::of_text(row.project.as_str()));
    json::put(&mut fields, "modified", seconds_json(row.latest_modified));
    json::put(&mut fields, "size_bytes", json::of_number(row.total_size));
    json::put(&mut fields, "entry_count", json::of_optional_size(row.entry_count));
    proof {
        assert(fields_view(fields@) =~= before0 + seq![
            ("id"@, JsonView::Text(row.root_id@)),
            ("latest_session_id"@, JsonView::Text(row.latest_session_id@)),
            ("chain_member_count"@, number_json(row.members@.len())),
            ("chain_members"@, texts_json(views(row.members@))),
            ("project"@, JsonView::Text(row.project@)),
            ("modified"@, seconds_view(row.latest_modified)),
            ("size_bytes"@, number_json(row.total_size as nat)),
            ("entry_count"@, optional_size(row.entry_count)),
        ]);
    }
    json::put_given_text(&mut fields, "name", &row.name);
    json::put_given_truth(&mut fields, "bookmarked", row.bookmarked);
    proof {
        assert(fields_view(fields@) =~= logical_fields(*row));
    }
    Json::Object(fields)
}

/// The conversations as a JSON list.
pub fn logical_json(rows: &Vec<LogicalRow>) -> (r: Json)
    ensures
        r@ == JsonView::Array(
            rows@.map_values(|row: LogicalRow| JsonView::Object(logical_fields(row))),
        ),
{
    let ghost g = |row: LogicalRow| JsonView::Object(logical_fields(row));
    json::of_list(rows, logical_row_json, Ghost(g))
}

/// The fields of a row.
pub open spec fn recent_fields(row: ProviderRecentRow) -> Seq<(Seq<char>, JsonView)> {
    seq![
        ("provider"@, JsonView::Text(row.provider@)),
        ("qualified_id"@, JsonView::Text(row.qualified_id@)),
        ("native_id"@, JsonView::Text(row.native_id@)),
        ("latest_qualified_id"@, JsonView::Text(row.latest_qualified_id@)),
        ("continuation_member_count"@, number_json(row.continuation_member_count as nat)),
        ("continuation_members"@, texts_json(views(row.continuation_members@))),
        ("project_key"@, JsonView::Text(row.project_key@)),
        ("project"@, JsonView::Text(row.project@)),
        ("modified"@, time_json(row.modified, true)),
        ("size_bytes"@, number_json(row.size_bytes as nat)),
    ]
}

fn recent_row_json(row: &ProviderRecentRow) -> (r: Json)
    ensures
        r@ == JsonView::Object(recent_fields(*row)),
{
    let mut fields: Vec<(String, Json)> = Vec::new();
    json::put(&mut fields, "provider", json::of_text(row.provider.as_str()));
    json::put(&mut fields, "qualified_id", json::of_text(row.qualified_id.as_str()));
    json::put(&mut fields, "native_id", json::of_text(row.native_id.as_str()));
    json::put(&mut fields, "latest_qualified_id", json::of_text(row.latest_qualified_id.as_str()));
    json::put(&mut fields, "continuation_member_count", json::of_size(row.continuation_member_count));
    json::put(&mut fields, "continuation_members", json::of_texts(&row.continuation_members));
    json::put(&mut fields, "project_key", json::of_text(row.project_key.as_str()));
    json::put(&mut fields, "project", json::of_text(row.project.as_str()));
    json::put(&mut fields, "modified", json::of_time(row.modified, true));
    json::put(&mut fields, "size_bytes", json::of_number(row.size_bytes));
    proof {
        assert(fields_view(fields@) =~= recent_fields(*row));
    }
    Json::Object(fields)
}

/// Why there is a warning for a session.
pub open spec fn alone_reason() -> Seq<char> {
    "project metadata unavailable; session retained in its own project"@
}

/// The fields of a warning for a session.
pub open spec fn warning_fields(id: String) -> Seq<(Seq<char>, JsonView)> {
    seq![
        ("qualified_id"@, JsonView::Text(id@)),
        ("reason"@, JsonView::Text(alone_reason())),
    ]
}

fn warning_json(id: &String) -> (r: Json)
    ensures
        r@ == JsonView::Object(warning_fields(*id)),
{
    let mut fields: Vec<(String, Json)> = Vec::new();
    json::put(&mut fields, "qualified_id", json::of_text(id.as_str()));
    json::put(&mut fields, "reason", json::of_text("project metadata unavailable; session retained in its own project"));
    proof {
        assert(fields_view(fields@) =~= warning_fields(*id));
    }
    Json::Object(fields)
}

/// The fields of the rows of providers.
pub open spec fn provider_fields(
    output: ProviderRecentOutput,
    skipped: Seq<SkippedProvider>,
    warned: Seq<String>,
) -> Seq<(Seq<char>, JsonView)> {
    seq![
        (
            "sessions"@,
            JsonView::Array(
                output.sessions@.map_values(
                    |row: ProviderRecentRow| JsonView::Object(recent_fields(row)),
                ),
            ),
        ),
        ("total"@, number_json(output.total as nat)),
        ("skipped_providers"@, skips_view(skipped)),
        (
            "warnings"@,
            JsonView::Array(
                warned.map_values(|id: String| JsonView::Object(warning_fields(id))),
            ),
        ),
    ]
}

/// The rows of providers as a JSON object. `warned` are the sessions whose project is not known.
pub fn provider_json(
    output: &ProviderRecentOutput,
    skipped: &Vec<SkippedProvider>,
    warned: &Vec<String>,
) -> (r: Json)
    ensures
        r@ == JsonView::Object(provider_fields(*output, skipped@, warned@)),
{
    let mut fields: Vec<(String, Json)> = Vec::new();
    let ghost g1 = |row: ProviderRecentRow| JsonView::Object(recent_fields(row));
    let ghost g2 = |id: String| JsonView::Object(warning_fields(id));
    json::put(&mut fields, "sessions", json::of_list(&output.sessions, recent_row_json, Ghost(g1)));
    json::put(&mut fields, "total", json::of_size(output.total));
    json::put(&mut fields, "skipped_providers", skips_json(skipped));
    json::put(&mut fields, "warnings", json::of_list(warned, warning_json, Ghost(g2)));
    proof {
        assert(fields_view(fields@) =~= provider_fields(*output, skipped@, warned@));
    }
    Json::Object(fields)
}

/// The warnings for a reader.
pub open spec fn provider_warnings(skipped: Seq<SkippedProvider>, warned: int) -> Seq<Seq<char>> {
    skipped.map_values(
        |skip: SkippedProvider| "warning: provider '"@ + skip.provider@ + "' skipped: "@
            + skip.reason@,
    ) + (if warned == 0 {
        Seq::empty()
    } else {
        seq![
            "warning: "@ + decimal(warned as nat)
                + " session(s) lacked project metadata and were retained separately"@,
        ]
    })
}

/// The warnings for a reader.
pub fn print_provider_warnings(skipped: &Vec<SkippedProvider>, warned: usize) -> (r: Vec<String>)
    ensures
        views(r@) == provider_warnings(skipped@, warned as int),
{
    let mut out: Vec<String> = Vec::new();
    proof {
        assert(views(out@) =~= Seq::empty());
    }
    let write = |skip: &SkippedProvider| -> (o: String)
        ensures
            o@ == "warning: provider '"@ + skip.provider@ + "' skipped: "@ + skip.reason@,
        {
            text::cat4(
                "warning: provider '",
                skip.provider.as_str(),
                "' skipped: ",
                skip.reason.as_str(),
            )
        };
    let ghost g = |skip: SkippedProvider| "warning: provider '"@ + skip.provider@ + "' skipped: "@
        + skip.reason@;
    text::say_each(&mut out, skipped, write, Ghost(g));
    if warned > 0 {
        let count = text::size(warned);
        text::say3(
            &mut out,
            "warning: ",
            count.as_str(),
            " session(s) lacked project metadata and were retained separately",
        );
    }
    proof {
        assert(views(out@) =~= provider_warnings(skipped@, warned as int));
    }
    out
}

// ---------------------------------------------------------------------------
// What calls hand back
// ---------------------------------------------------------------------------

/// Providers answer if and only if one was named. Else, sessions are shown one by one if and
/// only if conversations are not wanted: then the first of those under a path that was given,
/// no more than were asked for. Conversations are made of all sessions under such a path.
pub proof fn sessions_of_the_paths_are_shown(
    provider: Vec<String>,
    sessions: Vec<Session>,
    paths: Option<Vec<String>>,
    no_chain: bool,
    count: usize,
    r: RecentRoute,
)
    ensures
        call_ensures(run, (&provider, sessions, &paths, no_chain, count), r) ==> {
            &&& r is Provider <==> provider@.len() > 0
            &&& r is Flat <==> provider@.len() == 0 && no_chain
            &&& r is Collapsed <==> provider@.len() == 0 && !no_chain
            &&& r matches RecentRoute::Flat(s) ==> s@.len() <= count && forall|k: int|
                0 <= k < s@.len() ==> sessions@.contains(#[trigger] s@[k])
            &&& paths is None ==> (r matches RecentRoute::Flat(s) ==> s@ == sessions@.take(
                s@.len() as int,
            ))
            &&& paths is None ==> (r matches RecentRoute::Collapsed(s) ==> s@ == sessions@)
        },
{
    if let Some(p) = paths {
        let kept = sessions@.filter(under_any(views(p@)));
        order::filtering_is_exact(sessions@, under_any(views(p@)));
        assert forall|k: int| 0 <= k < kept.len() implies sessions@.contains(#[trigger] kept[k]) by {
            assert(kept.contains(kept[k]));
        }
    }
}

/// Where paths are given, a session is kept if and only if the path of its project holds one of
/// them; without paths, every session is.
pub proof fn sessions_under_a_path_are_kept(
    sessions: Vec<Session>,
    paths: Option<Vec<String>>,
    r: Vec<Session>,
    s: Session,
)
    ensures
        call_ensures(keep_projects, (sessions, &paths), r) ==> (r@.contains(s)
            <==> sessions@.contains(s) && (paths matches Some(p) ==> exists|i: int|
            0 <= i < p@.len() && has(s.project_path@, (#[trigger] p@[i])@))),
{
    if let Some(p) = paths {
        order::filtering_is_exact(sessions@, under_any(views(p@)));
        assert(sessions@.filter(under_any(views(p@))).contains(s) <==> sessions@.contains(s)
            && under_any(views(p@))(s));
        if under_any(views(p@))(s) {
            let i = choose|i: int|
                0 <= i < views(p@).len() && has(s.project_path@, #[trigger] views(p@)[i]);
            assert(has(s.project_path@, p@[i]@));
        }
        if exists|i: int| 0 <= i < p@.len() && has(s.project_path@, (#[trigger] p@[i])@) {
            let i = choose|i: int|
                0 <= i < p@.len() && has(s.project_path@, (#[trigger] p@[i])@);
            assert(has(s.project_path@, views(p@)[i]));
        }
    }
}

} // verus!
