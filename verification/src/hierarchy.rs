//! The directory forest as mathematics: who is whose parent, which
//! directories lie above or below another, and why re-parenting under the
//! cycle rule keeps the forest free of cycles.

use crate::models::DirectoryRecord;
use vstd::prelude::*;

verus! {

/// Some row of `dirs` has the identifier `id`.
pub open spec fn has_directory(dirs: Seq<DirectoryRecord>, id: Seq<char>) -> bool {
    exists|i: int| 0 <= i < dirs.len() && (#[trigger] dirs[i]).id == id
}

/// No two rows share an identifier.
pub open spec fn unique_directory_ids(dirs: Seq<DirectoryRecord>) -> bool {
    forall|i: int, j: int|
        0 <= i < j < dirs.len() ==> (#[trigger] dirs[i]).id != (#[trigger] dirs[j]).id
}

/// The position of a row with identifier `id`.
pub open spec fn directory_position(dirs: Seq<DirectoryRecord>, id: Seq<char>) -> int {
    choose|i: int| 0 <= i < dirs.len() && (#[trigger] dirs[i]).id == id
}

/// The parent that the row of `id` names; nothing where there is no such row
/// or it names none.
pub open spec fn parent_of(dirs: Seq<DirectoryRecord>, id: Seq<char>) -> Option<Seq<char>> {
    if has_directory(dirs, id) {
        dirs[directory_position(dirs, id)].parent_id
    } else {
        None
    }
}

/// One step up from `at`.
pub open spec fn step_up(dirs: Seq<DirectoryRecord>, at: Option<Seq<char>>) -> Option<Seq<char>> {
    match at {
        Some(x) => parent_of(dirs, x),
        None => None,
    }
}

/// Where `n` steps up from `start` lead.
pub open spec fn ancestor(dirs: Seq<DirectoryRecord>, start: Option<Seq<char>>, n: nat) -> Option<
    Seq<char>,
>
    decreases n,
{
    if n == 0 {
        start
    } else {
        ancestor(dirs, step_up(dirs, start), (n - 1) as nat)
    }
}

/// Walking up from `start` one meets `target`: `target` is `start` itself or
/// lies above it.
pub open spec fn reaches(dirs: Seq<DirectoryRecord>, start: Seq<char>, target: Seq<char>) -> bool {
    exists|n: nat| #[trigger] ancestor(dirs, Some(start), n) == Some(target)
}

/// Giving `id` the parent `new_parent` would close a cycle: the new parent is
/// `id` itself or lies below it.
pub open spec fn would_cycle(
    dirs: Seq<DirectoryRecord>,
    id: Seq<char>,
    new_parent: Option<Seq<char>>,
) -> bool {
    match new_parent {
        Some(p) => reaches(dirs, p, id),
        None => false,
    }
}

/// No directory is met again when walking up from it.
pub open spec fn acyclic(dirs: Seq<DirectoryRecord>) -> bool {
    forall|id: Seq<char>, n: nat|
        has_directory(dirs, id) && n >= 1 ==> #[trigger] ancestor(dirs, Some(id), n) != Some(id)
}

/// `rank` grows from every parent that is in the table to its child.
pub open spec fn ranked_by(dirs: Seq<DirectoryRecord>, rank: spec_fn(Seq<char>) -> nat) -> bool {
    forall|x: Seq<char>|
        has_directory(dirs, x) ==> match #[trigger] parent_of(dirs, x) {
            Some(p) => has_directory(dirs, p) ==> rank(p) < rank(x),
            None => true,
        }
}

/// The parent relation is well founded. A table is well founded exactly when
/// it has no cycle; the rank is what the proofs about moves work with.
pub open spec fn ranked(dirs: Seq<DirectoryRecord>) -> bool {
    exists|rank: spec_fn(Seq<char>) -> nat| ranked_by(dirs, rank)
}

/// What a walk has left to go from `at`, measured by `rank`.
pub open spec fn walk_measure(
    dirs: Seq<DirectoryRecord>,
    rank: spec_fn(Seq<char>) -> nat,
    at: Seq<char>,
) -> nat {
    if has_directory(dirs, at) {
        rank(at) + 1
    } else {
        0
    }
}

/// With unique identifiers a row is found at its own position.
pub proof fn lemma_row_is_found(dirs: Seq<DirectoryRecord>, i: int)
    requires
        unique_directory_ids(dirs),
        0 <= i < dirs.len(),
    ensures
        has_directory(dirs, dirs[i].id),
        directory_position(dirs, dirs[i].id) == i,
        parent_of(dirs, dirs[i].id) == dirs[i].parent_id,
{
    let id = dirs[i].id;
    assert(dirs[i].id == id);
    let k = directory_position(dirs, id);
    assert(0 <= k < dirs.len() && dirs[k].id == id);
    if k < i {
        assert(dirs[k].id != dirs[i].id);
    } else if i < k {
        assert(dirs[i].id != dirs[k].id);
    }
}

/// A walk can be taken apart at its last step as well as at its first.
pub proof fn lemma_ancestor_last_step(dirs: Seq<DirectoryRecord>, start: Option<Seq<char>>, n: nat)
    ensures
        ancestor(dirs, start, n + 1) == step_up(dirs, ancestor(dirs, start, n)),
    decreases n,
{
    if n == 0 {
        assert(ancestor(dirs, start, 1) == ancestor(dirs, step_up(dirs, start), 0));
    } else {
        lemma_ancestor_last_step(dirs, step_up(dirs, start), (n - 1) as nat);
    }
}

/// Above nothing there is nothing.
pub proof fn lemma_ancestor_of_none(dirs: Seq<DirectoryRecord>, n: nat)
    ensures
        ancestor(dirs, None, n) == None::<Seq<char>>,
    decreases n,
{
    if n > 0 {
        lemma_ancestor_of_none(dirs, (n - 1) as nat);
    }
}

/// Once a walk has ended it stays ended.
pub proof fn lemma_ancestor_stays_none(
    dirs: Seq<DirectoryRecord>,
    start: Option<Seq<char>>,
    n: nat,
    m: nat,
)
    requires
        ancestor(dirs, start, n) is None,
        n <= m,
    ensures
        ancestor(dirs, start, m) is None,
    decreases m - n,
{
    if n < m {
        lemma_ancestor_last_step(dirs, start, n);
        lemma_ancestor_stays_none(dirs, start, n + 1, m);
    }
}

/// A directory whose parent is `p` reaches exactly what `p` reaches, and
/// itself.
pub proof fn lemma_reaches_through_parent(
    dirs: Seq<DirectoryRecord>,
    x: Seq<char>,
    p: Seq<char>,
    target: Seq<char>,
)
    requires
        parent_of(dirs, x) == Some(p),
        x != target,
    ensures
        reaches(dirs, x, target) == reaches(dirs, p, target),
{
    if reaches(dirs, x, target) {
        let n = choose|n: nat| #[trigger] ancestor(dirs, Some(x), n) == Some(target);
        assert(n != 0);
        assert(ancestor(dirs, Some(x), n) == ancestor(dirs, Some(p), (n - 1) as nat));
        assert(ancestor(dirs, Some(p), (n - 1) as nat) == Some(target));
    }
    if reaches(dirs, p, target) {
        let m = choose|m: nat| #[trigger] ancestor(dirs, Some(p), m) == Some(target);
        assert(ancestor(dirs, Some(x), m + 1) == ancestor(dirs, Some(p), m));
        assert(ancestor(dirs, Some(x), m + 1) == Some(target));
    }
}

/// Every directory reaches itself.
pub proof fn lemma_reaches_itself(dirs: Seq<DirectoryRecord>, x: Seq<char>)
    ensures
        reaches(dirs, x, x),
{
    assert(ancestor(dirs, Some(x), 0) == Some(x));
}

/// Under a rank, whatever is met above a directory has a smaller rank.
pub proof fn lemma_rank_falls_upwards(
    dirs: Seq<DirectoryRecord>,
    rank: spec_fn(Seq<char>) -> nat,
    x: Seq<char>,
    y: Seq<char>,
    n: nat,
)
    requires
        ranked_by(dirs, rank),
        has_directory(dirs, x),
        has_directory(dirs, y),
        n >= 1,
        ancestor(dirs, Some(x), n) == Some(y),
    ensures
        rank(y) < rank(x),
    decreases n,
{
    let p = parent_of(dirs, x);
    assert(ancestor(dirs, Some(x), n) == ancestor(dirs, p, (n - 1) as nat));
    match p {
        None => {
            lemma_ancestor_of_none(dirs, (n - 1) as nat);
        },
        Some(q) => {
            if n == 1 {
                assert(q == y);
            } else {
                if !has_directory(dirs, q) {
                    assert(ancestor(dirs, Some(q), (n - 1) as nat) == ancestor(
                        dirs,
                        None,
                        (n - 2) as nat,
                    ));
                    lemma_ancestor_of_none(dirs, (n - 2) as nat);
                } else {
                    lemma_rank_falls_upwards(dirs, rank, q, y, (n - 1) as nat);
                }
            }
        },
    }
}

/// A well-founded parent relation has no cycle.
pub proof fn lemma_ranked_is_acyclic(dirs: Seq<DirectoryRecord>)
    requires
        ranked(dirs),
    ensures
        acyclic(dirs),
{
    let rank = choose|rank: spec_fn(Seq<char>) -> nat| ranked_by(dirs, rank);
    assert forall|id: Seq<char>, n: nat|
        has_directory(dirs, id) && n >= 1 implies #[trigger] ancestor(dirs, Some(id), n) != Some(
        id,
    ) by {
        if ancestor(dirs, Some(id), n) == Some(id) {
            lemma_rank_falls_upwards(dirs, rank, id, id, n);
        }
    }
}

/// A walk of `i + m` steps is a walk of `i` steps followed by one of `m`.
pub proof fn lemma_ancestor_composes(
    dirs: Seq<DirectoryRecord>,
    start: Option<Seq<char>>,
    i: nat,
    m: nat,
)
    ensures
        ancestor(dirs, start, i + m) == ancestor(dirs, ancestor(dirs, start, i), m),
    decreases i,
{
    if i > 0 {
        lemma_ancestor_composes(dirs, step_up(dirs, start), (i - 1) as nat, m);
    }
}

/// The walk up from `x` is at a directory of the table after `i` steps.
pub open spec fn on_the_way(dirs: Seq<DirectoryRecord>, x: Seq<char>, i: nat) -> bool {
    match ancestor(dirs, Some(x), i) {
        Some(y) => has_directory(dirs, y),
        None => false,
    }
}

/// The row at which the walk up from `x` is after `i` steps.
pub open spec fn row_on_the_way(
    dirs: Seq<DirectoryRecord>,
    x: Seq<char>,
    i: nat,
) -> DirectoryRecord {
    dirs[directory_position(dirs, ancestor(dirs, Some(x), i)->Some_0)]
}

/// The rows met on the first `k` steps up from `x`, `x` included.
pub open spec fn rows_on_the_way(dirs: Seq<DirectoryRecord>, x: Seq<char>, k: nat) -> Set<
    DirectoryRecord,
>
    decreases k,
{
    if k == 0 {
        Set::empty().insert(row_on_the_way(dirs, x, 0))
    } else {
        rows_on_the_way(dirs, x, (k - 1) as nat).insert(row_on_the_way(dirs, x, k))
    }
}

/// Without a cycle a walk that stays in the table meets a new row at every
/// step, so it is no longer than the table.
pub proof fn lemma_walk_is_no_longer_than_table(dirs: Seq<DirectoryRecord>, x: Seq<char>, k: nat)
    requires
        acyclic(dirs),
        forall|i: nat| i <= k ==> on_the_way(dirs, x, i),
    ensures
        rows_on_the_way(dirs, x, k).finite(),
        rows_on_the_way(dirs, x, k).len() == k + 1,
        rows_on_the_way(dirs, x, k).subset_of(dirs.to_set()),
        forall|r: DirectoryRecord| #[trigger]
            rows_on_the_way(dirs, x, k).contains(r) ==> exists|i: nat|
                i <= k && #[trigger] ancestor(dirs, Some(x), i) == Some(r.id),
        k + 1 <= dirs.len(),
    decreases k,
{
    broadcast use vstd::set::group_set_axioms;

    let here = row_on_the_way(dirs, x, k);
    assert(on_the_way(dirs, x, k));
    let y = ancestor(dirs, Some(x), k)->Some_0;
    let p = directory_position(dirs, y);
    assert(0 <= p < dirs.len() && dirs[p].id == y);
    assert(dirs.to_set().contains(here)) by {
        assert(dirs[p] == here);
    }
    if k == 0 {
        assert forall|r: DirectoryRecord| #[trigger]
            rows_on_the_way(dirs, x, k).contains(r) implies exists|i: nat|
            i <= k && #[trigger] ancestor(dirs, Some(x), i) == Some(r.id) by {
            assert(r == here);
            assert(ancestor(dirs, Some(x), 0) == Some(r.id));
        }
    } else {
        let earlier = rows_on_the_way(dirs, x, (k - 1) as nat);
        lemma_walk_is_no_longer_than_table(dirs, x, (k - 1) as nat);
        if earlier.contains(here) {
            let i = choose|i: nat|
                i <= k - 1 && #[trigger] ancestor(dirs, Some(x), i) == Some(here.id);
            lemma_ancestor_composes(dirs, Some(x), i, (k - i) as nat);
            assert(ancestor(dirs, Some(y), (k - i) as nat) == Some(y));
        }
        assert forall|r: DirectoryRecord| #[trigger]
            rows_on_the_way(dirs, x, k).contains(r) implies exists|i: nat|
            i <= k && #[trigger] ancestor(dirs, Some(x), i) == Some(r.id) by {
            if r == here {
                assert(ancestor(dirs, Some(x), k) == Some(r.id));
            } else {
                assert(earlier.contains(r));
                let i = choose|i: nat|
                    i <= k - 1 && #[trigger] ancestor(dirs, Some(x), i) == Some(r.id);
                assert(i <= k);
            }
        }
    }
    vstd::seq_lib::seq_to_set_is_finite(dirs);
    vstd::set_lib::lemma_len_subset(rows_on_the_way(dirs, x, k), dirs.to_set());
    dirs.lemma_cardinality_of_set();
}

/// How many directories of the table the walk up from `x` meets, `x`
/// included, counting no further than `fuel`.
pub open spec fn height(dirs: Seq<DirectoryRecord>, x: Seq<char>, fuel: nat) -> nat
    decreases fuel,
{
    if fuel == 0 || !has_directory(dirs, x) {
        0
    } else {
        match parent_of(dirs, x) {
            Some(p) => 1 + height(dirs, p, (fuel - 1) as nat),
            None => 1,
        }
    }
}

/// The count is never beyond the fuel, more fuel never counts less, and it
/// counts more only where the fuel was used up.
pub proof fn lemma_height_bounds(dirs: Seq<DirectoryRecord>, x: Seq<char>, fuel: nat)
    ensures
        height(dirs, x, fuel) <= fuel,
        height(dirs, x, fuel) <= height(dirs, x, fuel + 1),
        height(dirs, x, fuel) < height(dirs, x, fuel + 1) ==> height(dirs, x, fuel) == fuel,
    decreases fuel,
{
    if fuel > 0 && has_directory(dirs, x) {
        match parent_of(dirs, x) {
            Some(p) => {
                lemma_height_bounds(dirs, p, (fuel - 1) as nat);
            },
            None => {},
        }
    }
}

/// A count that uses up its fuel has met a directory of the table at every
/// step.
pub proof fn lemma_full_height_stays_in_table(
    dirs: Seq<DirectoryRecord>,
    x: Seq<char>,
    fuel: nat,
    i: nat,
)
    requires
        height(dirs, x, fuel) == fuel,
        i < fuel,
    ensures
        on_the_way(dirs, x, i),
    decreases fuel,
{
    if i > 0 {
        match parent_of(dirs, x) {
            Some(p) => {
                lemma_height_bounds(dirs, p, (fuel - 1) as nat);
                lemma_full_height_stays_in_table(dirs, p, (fuel - 1) as nat, (i - 1) as nat);
                assert(ancestor(dirs, Some(x), i) == ancestor(dirs, Some(p), (i - 1) as nat));
            },
            None => {},
        }
    }
}

/// A table without a cycle is well founded: the number of directories above
/// a directory is a rank.
pub proof fn lemma_acyclic_is_ranked(dirs: Seq<DirectoryRecord>)
    requires
        acyclic(dirs),
    ensures
        ranked(dirs),
{
    let n = dirs.len();
    let rank = |x: Seq<char>| -> nat { height(dirs, x, n) };
    assert forall|x: Seq<char>| has_directory(dirs, x) implies match #[trigger] parent_of(dirs, x) {
        Some(p) => has_directory(dirs, p) ==> rank(p) < rank(x),
        None => true,
    } by {
        match parent_of(dirs, x) {
            None => {},
            Some(p) => {
                if has_directory(dirs, p) {
                    assert(n > 0) by {
                        let k = directory_position(dirs, x);
                        assert(0 <= k < dirs.len());
                    }
                    assert(height(dirs, x, n) == 1 + height(dirs, p, (n - 1) as nat));
                    lemma_height_bounds(dirs, p, (n - 1) as nat);
                    lemma_height_bounds(dirs, p, n);
                    if height(dirs, p, n) > height(dirs, p, (n - 1) as nat) {
                        assert(height(dirs, p, n) == n);
                        assert forall|i: nat| i <= n implies on_the_way(dirs, x, i) by {
                            if i == 0 {
                                assert(ancestor(dirs, Some(x), 0) == Some(x));
                            } else {
                                lemma_full_height_stays_in_table(dirs, p, n, (i - 1) as nat);
                                assert(ancestor(dirs, Some(x), i) == ancestor(
                                    dirs,
                                    Some(p),
                                    (i - 1) as nat,
                                ));
                            }
                        }
                        lemma_walk_is_no_longer_than_table(dirs, x, n);
                    }
                }
            },
        }
    }
    assert(ranked_by(dirs, rank));
}

/// `after` is `before` with the row of `id` set, or added, with the parent
/// `new_parent`; every other row is as it was.
pub open spec fn reparented(
    before: Seq<DirectoryRecord>,
    after: Seq<DirectoryRecord>,
    id: Seq<char>,
    new_parent: Option<Seq<char>>,
) -> bool {
    &&& has_directory(after, id)
    &&& parent_of(after, id) == new_parent
    &&& forall|x: Seq<char>|
        x != id ==> #[trigger] has_directory(after, x) == has_directory(before, x)
    &&& forall|x: Seq<char>| x != id ==> #[trigger] parent_of(after, x) == parent_of(before, x)
}

/// Every row of `after` is a row of `before`, with the parent it had.
pub open spec fn restricted(before: Seq<DirectoryRecord>, after: Seq<DirectoryRecord>) -> bool {
    forall|x: Seq<char>| #[trigger]
        has_directory(after, x) ==> has_directory(before, x) && parent_of(after, x) == parent_of(
            before,
            x,
        )
}

/// Setting or adding a parent that would close no cycle keeps the relation
/// well founded.
pub proof fn lemma_reparent_keeps_rank(
    before: Seq<DirectoryRecord>,
    after: Seq<DirectoryRecord>,
    id: Seq<char>,
    new_parent: Option<Seq<char>>,
)
    requires
        ranked(before),
        reparented(before, after, id, new_parent),
        !would_cycle(before, id, new_parent),
    ensures
        ranked(after),
{
    let rank = choose|rank: spec_fn(Seq<char>) -> nat| ranked_by(before, rank);
    let base: nat = match new_parent {
        Some(b) => if has_directory(before, b) {
            rank(b) + 1
        } else {
            0
        },
        None => 0,
    };
    let shifted = |x: Seq<char>| -> nat
        {
            if x == id {
                base
            } else if reaches(before, x, id) {
                rank(x) + base + 1
            } else {
                rank(x)
            }
        };
    assert forall|x: Seq<char>| has_directory(after, x) implies match #[trigger] parent_of(
        after,
        x,
    ) {
        Some(p) => has_directory(after, p) ==> shifted(p) < shifted(x),
        None => true,
    } by {
        match parent_of(after, x) {
            None => {},
            Some(p) => {
                if has_directory(after, p) {
                    if x == id {
                        assert(new_parent == Some(p));
                        lemma_reaches_itself(before, id);
                        assert(p != id);
                        assert(has_directory(before, p));
                        assert(!reaches(before, p, id));
                    } else {
                        assert(has_directory(before, x));
                        assert(parent_of(before, x) == Some(p));
                        if p == id {
                            assert(ancestor(before, Some(x), 1) == ancestor(before, Some(p), 0));
                            assert(ancestor(before, Some(x), 1) == Some(id));
                            assert(reaches(before, x, id));
                        } else {
                            assert(has_directory(before, p));
                            lemma_reaches_through_parent(before, x, p, id);
                        }
                    }
                }
            },
        }
    }
    assert(ranked_by(after, shifted));
}

/// Setting or adding a parent that would close no cycle leaves the table
/// without a cycle.
pub proof fn lemma_reparent_keeps_acyclic(
    before: Seq<DirectoryRecord>,
    after: Seq<DirectoryRecord>,
    id: Seq<char>,
    new_parent: Option<Seq<char>>,
)
    requires
        acyclic(before),
        reparented(before, after, id, new_parent),
        !would_cycle(before, id, new_parent),
    ensures
        acyclic(after),
{
    lemma_acyclic_is_ranked(before);
    lemma_reparent_keeps_rank(before, after, id, new_parent);
    lemma_ranked_is_acyclic(after);
}

/// Taking rows away leaves the table without a cycle.
pub proof fn lemma_restriction_keeps_acyclic(
    before: Seq<DirectoryRecord>,
    after: Seq<DirectoryRecord>,
)
    requires
        acyclic(before),
        restricted(before, after),
    ensures
        acyclic(after),
{
    lemma_acyclic_is_ranked(before);
    lemma_restriction_keeps_rank(before, after);
    lemma_ranked_is_acyclic(after);
}

/// Taking rows away keeps the relation well founded.
pub proof fn lemma_restriction_keeps_rank(before: Seq<DirectoryRecord>, after: Seq<DirectoryRecord>)
    requires
        ranked(before),
        restricted(before, after),
    ensures
        ranked(after),
{
    let rank = choose|rank: spec_fn(Seq<char>) -> nat| ranked_by(before, rank);
    assert forall|x: Seq<char>| has_directory(after, x) implies match #[trigger] parent_of(
        after,
        x,
    ) {
        Some(p) => has_directory(after, p) ==> rank(p) < rank(x),
        None => true,
    } by {
        assert(parent_of(after, x) == parent_of(before, x));
    }
    assert(ranked_by(after, rank));
}

/// A table grown by a row whose identifier is new is the old table with
/// that identifier given its parent.
pub proof fn lemma_push_reparents(before: Seq<DirectoryRecord>, row: DirectoryRecord)
    requires
        unique_directory_ids(before),
        !has_directory(before, row.id),
    ensures
        unique_directory_ids(before.push(row)),
        reparented(before, before.push(row), row.id, row.parent_id),
{
    let after = before.push(row);
    let last = before.len() as int;
    assert forall|i: int, j: int| 0 <= i < j < after.len() implies (#[trigger] after[i]).id != (
    #[trigger] after[j]).id by {
        if j == last {
            assert(before[i].id != row.id);
        } else {
            assert(before[i].id != before[j].id);
        }
    }
    assert(after[last] == row);
    lemma_row_is_found(after, last);
    assert forall|x: Seq<char>| x != row.id implies #[trigger] has_directory(after, x)
        == has_directory(before, x) by {
        if has_directory(after, x) {
            let k = directory_position(after, x);
            assert(after[k].id == x);
            assert(before[k].id == x);
        }
        if has_directory(before, x) {
            let k = directory_position(before, x);
            assert(before[k].id == x);
            assert(after[k].id == x);
        }
    }
    assert forall|x: Seq<char>| x != row.id implies #[trigger] parent_of(after, x) == parent_of(
        before,
        x,
    ) by {
        if has_directory(before, x) {
            let k = directory_position(before, x);
            assert(before[k].id == x);
            assert(after[k] == before[k]);
            lemma_row_is_found(after, k);
        }
    }
}

/// A table in which the row at `i` got another parent, and nothing else that
/// bears on the hierarchy changed, is the old table with that identifier
/// given that parent.
pub proof fn lemma_update_reparents(
    before: Seq<DirectoryRecord>,
    after: Seq<DirectoryRecord>,
    i: int,
    new_parent: Option<Seq<char>>,
)
    requires
        unique_directory_ids(before),
        0 <= i < before.len(),
        after.len() == before.len(),
        after[i].id == before[i].id,
        after[i].parent_id == new_parent,
        forall|j: int| 0 <= j < before.len() && j != i ==> #[trigger] after[j] == before[j],
    ensures
        unique_directory_ids(after),
        reparented(before, after, before[i].id, new_parent),
{
    let id = before[i].id;
    assert forall|a: int, b: int| 0 <= a < b < after.len() implies (#[trigger] after[a]).id != (
    #[trigger] after[b]).id by {
        assert(before[a].id != before[b].id);
        assert(after[a].id == before[a].id);
        assert(after[b].id == before[b].id);
    }
    lemma_row_is_found(after, i);
    assert forall|x: Seq<char>| x != id implies #[trigger] has_directory(after, x)
        == has_directory(before, x) by {
        if has_directory(after, x) {
            let k = directory_position(after, x);
            assert(after[k].id == x);
            assert(before[k].id == x);
        }
        if has_directory(before, x) {
            let k = directory_position(before, x);
            assert(before[k].id == x);
            assert(after[k].id == x);
        }
    }
    assert forall|x: Seq<char>| x != id implies #[trigger] parent_of(after, x) == parent_of(
        before,
        x,
    ) by {
        if has_directory(before, x) {
            let k = directory_position(before, x);
            assert(before[k].id == x);
            assert(after[k] == before[k]);
            lemma_row_is_found(after, k);
        }
    }
}

/// The empty table has unique identifiers and no cycle.
pub proof fn lemma_empty_is_a_forest()
    ensures
        acyclic(Seq::<DirectoryRecord>::empty()),
        unique_directory_ids(Seq::<DirectoryRecord>::empty()),
{
    let rank = |x: Seq<char>| -> nat { 0 };
    assert(ranked_by(Seq::<DirectoryRecord>::empty(), rank));
    lemma_ranked_is_acyclic(Seq::<DirectoryRecord>::empty());
}

} // verus!
