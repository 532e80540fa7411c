//! The cascade that follows the opening of a square with no mine around it:
//! what it opens, and why the sweep over a worklist opens exactly that.

use vstd::prelude::*;
use crate::board::mines_among;
use crate::edge::{lemma_neighbourhood, neighbours};
use crate::numbering::placed;
use crate::square::{Mine, Square};

verus! {

/// A square carries the cascade on: it is closed and no mine touches it.
pub open spec fn carries(square: Square) -> bool {
    square.mine == Mine::Count(0) && !square.opened
}

/// The square at place `k + 1` of `path` touches the square at place `k`.
pub open spec fn touches_next(squares: Seq<Square>, width: int, path: Seq<int>, k: int) -> bool {
    neighbours(path[k], squares[path[k]].edge, width).contains(path[k + 1])
}

/// `path` is a trail from `start`: it begins there, each of its squares
/// touches the one before, and every square strictly between its ends
/// carries the cascade on.
pub open spec fn trail(squares: Seq<Square>, width: int, start: int, path: Seq<int>) -> bool {
    &&& path.len() >= 2
    &&& path[0] == start
    &&& forall|k: int| 0 <= k < path.len() ==> 0 <= #[trigger] path[k] < squares.len()
    &&& forall|k: int| 0 <= k < path.len() - 1 ==> #[trigger] touches_next(squares, width, path, k)
    &&& forall|k: int| 0 < k < path.len() - 1 ==> carries(squares[#[trigger] path[k]])
}

/// The cascade from `start` reaches the square `c`: a trail leads there.
pub open spec fn reached(squares: Seq<Square>, width: int, start: int, c: int) -> bool {
    exists|path: Seq<int>| #[trigger] trail(squares, width, start, path) && path.last() == c
}

/// The squares after the cascade from `start`: every square that it
/// reaches is opened, and nothing else is changed.
pub open spec fn flooded(squares: Seq<Square>, width: int, start: int) -> Seq<Square> {
    Seq::new(
        squares.len(),
        |c: int| Square { opened: squares[c].opened || reached(squares, width, start, c), ..squares[c] },
    )
}

/// `now` differs from `base` only in squares that have been opened.
pub open spec fn only_opens(base: Seq<Square>, now: Seq<Square>) -> bool {
    &&& now.len() == base.len()
    &&& forall|c: int|
        0 <= c < base.len() ==> (#[trigger] now[c]) == (Square { opened: now[c].opened, ..base[c] })
            && (base[c].opened ==> now[c].opened)
}

/// Every square that touches `z` is opened.
pub open spec fn surrounded(base: Seq<Square>, now: Seq<Square>, width: int, z: int) -> bool {
    forall|k: int|
        0 <= k < neighbours(z, base[z].edge, width).len() ==> now[#[trigger] neighbours(
            z,
            base[z].edge,
            width,
        )[k]].opened
}

/// The squares that wait in the worklist.
pub open spec fn waiting(queue: Seq<usize>) -> Set<int> {
    Set::new(|z: int| exists|i: int| 0 <= i < queue.len() && #[trigger] queue[i] == z)
}

/// The state of a sweep from `start` over the board `base`: `now` is the
/// board so far, `pending` the squares whose surroundings are still to be
/// opened, and `done` those whose surroundings are opened.
pub open spec fn sweep(
    base: Seq<Square>,
    now: Seq<Square>,
    width: int,
    start: int,
    pending: Set<int>,
    done: Set<int>,
) -> bool {
    &&& 0 <= start < base.len()
    &&& base[start].mine == Mine::Count(0)
    &&& base[start].opened
    &&& only_opens(base, now)
    &&& forall|c: int|
        0 <= c < base.len() && (#[trigger] now[c]).opened && !base[c].opened ==> reached(
            base,
            width,
            start,
            c,
        )
    &&& forall|z: int|
        #![trigger pending.contains(z)]
        #![trigger done.contains(z)]
        pending.contains(z) || done.contains(z) ==> 0 <= z < base.len() && (z == start || (carries(
            base[z],
        ) && now[z].opened))
    &&& forall|z: int| #[trigger] done.contains(z) ==> surrounded(base, now, width, z)
    &&& forall|c: int|
        0 <= c < base.len() && (#[trigger] now[c]).opened && carries(base[c]) ==> pending.contains(
            c,
        ) || done.contains(c)
    &&& pending.contains(start) || done.contains(start)
}

/// The first `k` squares that touch `z` are opened.
pub open spec fn partly_surrounded(
    base: Seq<Square>,
    now: Seq<Square>,
    width: int,
    z: int,
    k: int,
) -> bool {
    forall|n: int|
        0 <= n < k && n < neighbours(z, base[z].edge, width).len() ==> now[#[trigger] neighbours(
            z,
            base[z].edge,
            width,
        )[n]].opened
}

/// No mine is in a list among whose squares no mine is counted.
pub proof fn lemma_no_mine_among(squares: Seq<Square>, list: Seq<int>, k: int)
    requires
        mines_among(squares, list) == 0,
        0 <= k < list.len(),
    ensures
        !(squares[list[k]].mine is Explode),
    decreases list.len(),
{
    if k < list.len() - 1 {
        lemma_no_mine_among(squares, list.drop_last(), k);
    }
}

/// The sweep begins with the opened square alone in the worklist.
pub proof fn lemma_sweep_begins(base: Seq<Square>, width: int, start: int, queue: Seq<usize>)
    requires
        0 <= start < base.len(),
        base[start].mine == Mine::Count(0),
        base[start].opened,
        queue.len() == 1,
        queue[0] == start,
    ensures
        sweep(base, base, width, start, waiting(queue), Set::empty()),
{
    assert(waiting(queue).contains(start));
}

/// Taking the first square from the worklist leaves it pending.
pub proof fn lemma_sweep_pop(
    base: Seq<Square>,
    now: Seq<Square>,
    width: int,
    start: int,
    queue: Seq<usize>,
    done: Set<int>,
)
    requires
        sweep(base, now, width, start, waiting(queue), done),
        queue.len() > 0,
    ensures
        sweep(
            base,
            now,
            width,
            start,
            waiting(queue.subrange(1, queue.len() as int)).insert(queue[0] as int),
            done,
        ),
        0 <= queue[0] < base.len(),
        queue[0] == start || carries(base[queue[0] as int]),
        base[queue[0] as int].mine == Mine::Count(0),
{
    let rest = queue.subrange(1, queue.len() as int);
    let pending = waiting(rest).insert(queue[0] as int);
    assert(waiting(queue).contains(queue[0] as int));
    assert forall|z: int| waiting(queue).contains(z) <==> pending.contains(z) by {
        if waiting(queue).contains(z) {
            let i = choose|i: int| 0 <= i < queue.len() && #[trigger] queue[i] == z;
            if i > 0 {
                assert(rest[i - 1] == z);
            }
        }
        if waiting(rest).contains(z) {
            let i = choose|i: int| 0 <= i < rest.len() && #[trigger] rest[i] == z;
            assert(queue[i + 1] == z);
        }
    }
}

/// A trail that ends at a square which carries the cascade on, or the
/// start itself, goes on to any square that touches its end.
pub proof fn lemma_reach_on(
    base: Seq<Square>,
    width: int,
    height: int,
    start: int,
    z: int,
    k: int,
)
    requires
        placed(base, width, height),
        0 <= start < base.len(),
        0 <= z < base.len(),
        z == start || (carries(base[z]) && reached(base, width, start, z)),
        0 <= k < neighbours(z, base[z].edge, width).len(),
    ensures
        0 <= neighbours(z, base[z].edge, width)[k] < base.len(),
        reached(base, width, start, neighbours(z, base[z].edge, width)[k]),
{
    let near = neighbours(z, base[z].edge, width);
    let n = near[k];
    lemma_neighbourhood(z, width, height);
    assert(near.contains(n));
    if z == start {
        let path = seq![start, n];
        assert(touches_next(base, width, path, 0));
        assert(trail(base, width, start, path));
        assert(path.last() == n);
    } else {
        let to_z = choose|path: Seq<int>| #[trigger]
            trail(base, width, start, path) && path.last() == z;
        let path = to_z.push(n);
        assert forall|j: int| 0 <= j < path.len() - 1 implies #[trigger] touches_next(
            base,
            width,
            path,
            j,
        ) by {
            if j < to_z.len() - 1 {
                assert(touches_next(base, width, to_z, j));
            }
        }
        assert forall|j: int| 0 < j < path.len() - 1 implies carries(base[#[trigger] path[j]]) by {
            if j < to_z.len() - 1 {
                assert(carries(base[to_z[j]]));
            }
        }
        assert(trail(base, width, start, path));
        assert(path.last() == n);
    }
}

/// Passing over a square that is opened already keeps the sweep.
pub proof fn lemma_sweep_skip(base: Seq<Square>, now: Seq<Square>, width: int, z: int, k: int)
    requires
        partly_surrounded(base, now, width, z, k),
        0 <= k < neighbours(z, base[z].edge, width).len(),
        now[neighbours(z, base[z].edge, width)[k]].opened,
    ensures
        partly_surrounded(base, now, width, z, k + 1),
{
}

/// Opening the next square that touches the pending square, and putting it
/// in the worklist if no mine touches it, keeps the sweep.
pub proof fn lemma_sweep_open(
    base: Seq<Square>,
    now: Seq<Square>,
    width: int,
    height: int,
    start: int,
    queue: Seq<usize>,
    done: Set<int>,
    z: int,
    k: int,
)
    requires
        placed(base, width, height),
        sweep(base, now, width, start, waiting(queue).insert(z), done),
        partly_surrounded(base, now, width, z, k),
        0 <= k < neighbours(z, base[z].edge, width).len(),
        0 <= neighbours(z, base[z].edge, width)[k] <= usize::MAX,
        !now[neighbours(z, base[z].edge, width)[k]].opened,
    ensures
        ({
            let n = neighbours(z, base[z].edge, width)[k];
            let opened = now.update(n, Square { opened: true, ..now[n] });
            let more = if base[n].mine == Mine::Count(0) {
                queue.push(n as usize)
            } else {
                queue
            };
            &&& 0 <= n < base.len()
            &&& sweep(base, opened, width, start, waiting(more).insert(z), done)
            &&& partly_surrounded(base, opened, width, z, k + 1)
        }),
{
    let near = neighbours(z, base[z].edge, width);
    let n = near[k];
    let opened = now.update(n, Square { opened: true, ..now[n] });
    let more = if base[n].mine == Mine::Count(0) {
        queue.push(n as usize)
    } else {
        queue
    };
    assert(waiting(queue).insert(z).contains(z));
    if z != start {
        assert(now[z].opened && !base[z].opened);
    }
    lemma_reach_on(base, width, height, start, z, k);
    assert forall|c: int| waiting(queue).contains(c) implies waiting(more).contains(c) by {
        let i = choose|i: int| 0 <= i < queue.len() && #[trigger] queue[i] == c;
        assert(more[i] == c);
    }
    if base[n].mine == Mine::Count(0) {
        assert(more[queue.len() as int] == n);
        assert(waiting(more).contains(n));
    }
    assert forall|c: int| waiting(more).contains(c) implies waiting(queue).contains(c) || (c == n
        && base[n].mine == Mine::Count(0)) by {
        let i = choose|i: int| 0 <= i < more.len() && #[trigger] more[i] == c;
        if i < queue.len() {
            assert(queue[i] == c);
        }
    }
    let pending = waiting(more).insert(z);
    assert forall|c: int|
        #![trigger pending.contains(c)]
        #![trigger done.contains(c)]
        pending.contains(c) || done.contains(c) implies 0 <= c < base.len() && (c == start || (
        carries(base[c]) && opened[c].opened)) by {
        if c != n {
            assert(waiting(queue).insert(z).contains(c) || done.contains(c));
        } else if !(waiting(queue).insert(z).contains(c) || done.contains(c)) {
            assert(waiting(more).contains(n));
        }
    }
    assert forall|c: int| #[trigger] done.contains(c) implies surrounded(base, opened, width, c) by {
        assert(surrounded(base, now, width, c));
        lemma_neighbourhood(c, width, height);
        let around = neighbours(c, base[c].edge, width);
        assert forall|j: int| 0 <= j < around.len() implies opened[#[trigger] around[j]].opened by {
            assert(now[around[j]].opened);
        }
    }
    assert(0 <= z < base.len());
    lemma_neighbourhood(z, width, height);
    assert forall|j: int| 0 <= j < k + 1 && j < near.len() implies opened[#[trigger] near[j]].opened by {
        if j < k {
            assert(now[near[j]].opened);
        }
    }
    assert forall|c: int|
        0 <= c < base.len() && (#[trigger] opened[c]).opened && carries(
            base[c],
        ) implies pending.contains(c) || done.contains(c) by {
        if c != n {
            assert(now[c].opened);
            assert(waiting(queue).insert(z).contains(c) || done.contains(c));
        }
    }
    assert(pending.contains(start) || done.contains(start)) by {
        assert(waiting(queue).insert(z).contains(start) || done.contains(start));
    }
    assert forall|c: int|
        0 <= c < base.len() && (#[trigger] opened[c]).opened && !base[c].opened implies reached(
        base,
        width,
        start,
        c,
    ) by {
        if c != n {
            assert(now[c].opened);
        }
    }
}

/// Once every square that touches the pending square is opened, the sweep
/// is done with it.
pub proof fn lemma_sweep_done(
    base: Seq<Square>,
    now: Seq<Square>,
    width: int,
    start: int,
    queue: Seq<usize>,
    done: Set<int>,
    z: int,
)
    requires
        sweep(base, now, width, start, waiting(queue).insert(z), done),
        partly_surrounded(base, now, width, z, neighbours(z, base[z].edge, width).len() as int),
    ensures
        sweep(base, now, width, start, waiting(queue), done.insert(z)),
{
    let pending = waiting(queue).insert(z);
    let finished = done.insert(z);
    assert(pending.contains(z));
    assert forall|c: int|
        #![trigger waiting(queue).contains(c)]
        #![trigger finished.contains(c)]
        waiting(queue).contains(c) || finished.contains(c) implies 0 <= c < base.len() && (c
        == start || (carries(base[c]) && now[c].opened)) by {
        assert(pending.contains(c) || done.contains(c));
    }
    assert forall|c: int| #[trigger] finished.contains(c) implies surrounded(
        base,
        now,
        width,
        c,
    ) by {
        if c != z {
            assert(done.contains(c));
        }
    }
    assert forall|c: int|
        0 <= c < base.len() && (#[trigger] now[c]).opened && carries(base[c]) implies waiting(
        queue,
    ).contains(c) || finished.contains(c) by {
        assert(pending.contains(c) || done.contains(c));
    }
}

/// When the worklist is empty, every square of a trail but the last has had
/// its surroundings opened.
proof fn lemma_trail_is_swept(
    base: Seq<Square>,
    now: Seq<Square>,
    width: int,
    start: int,
    done: Set<int>,
    path: Seq<int>,
    k: int,
)
    requires
        sweep(base, now, width, start, Set::empty(), done),
        trail(base, width, start, path),
        0 <= k < path.len() - 1,
    ensures
        done.contains(path[k]),
        now[path[k + 1]].opened,
    decreases k,
{
    if k > 0 {
        lemma_trail_is_swept(base, now, width, start, done, path, k - 1);
        assert(carries(base[path[k]]));
        assert(now[path[k]].opened);
    }
    assert(done.contains(path[k]));
    assert(surrounded(base, now, width, path[k]));
    assert(touches_next(base, width, path, k));
    let near = neighbours(path[k], base[path[k]].edge, width);
    let i = choose|i: int| 0 <= i < near.len() && near[i] == path[k + 1];
    assert(now[near[i]].opened);
}

/// When the worklist is empty, the board is the board after the cascade.
pub proof fn lemma_sweep_ends(
    base: Seq<Square>,
    now: Seq<Square>,
    width: int,
    start: int,
    queue: Seq<usize>,
    done: Set<int>,
)
    requires
        sweep(base, now, width, start, waiting(queue), done),
        queue.len() == 0,
    ensures
        now == flooded(base, width, start),
{
    let goal = flooded(base, width, start);
    assert(waiting(queue) =~= Set::empty());
    assert forall|c: int| 0 <= c < base.len() implies now[c] == goal[c] by {
        if reached(base, width, start, c) {
            let path = choose|path: Seq<int>| #[trigger]
                trail(base, width, start, path) && path.last() == c;
            lemma_trail_is_swept(base, now, width, start, done, path, path.len() - 2);
        }
    }
    assert(now =~= goal);
}

/// On a numbered board the cascade from a square that no mine touches
/// reaches no mine.
pub proof fn lemma_reached_is_safe(
    squares: Seq<Square>,
    width: int,
    height: int,
    start: int,
    c: int,
)
    requires
        placed(squares, width, height),
        forall|i: int|
            0 <= i < squares.len() ==> match (#[trigger] squares[i]).mine {
                Mine::Explode => true,
                Mine::Count(count) => count == mines_among(
                    squares,
                    neighbours(i, squares[i].edge, width),
                ),
            },
        0 <= start < squares.len(),
        squares[start].mine == Mine::Count(0),
        reached(squares, width, start, c),
    ensures
        0 <= c < squares.len(),
        !(squares[c].mine is Explode),
{
    let path = choose|path: Seq<int>| #[trigger]
        trail(squares, width, start, path) && path.last() == c;
    let last = path.len() - 2;
    let z = path[last];
    assert(0 <= z < squares.len());
    assert(z == start || carries(squares[z]));
    assert(squares[z].mine == Mine::Count(0));
    assert(touches_next(squares, width, path, last));
    let near = neighbours(z, squares[z].edge, width);
    let i = choose|i: int| 0 <= i < near.len() && near[i] == c;
    lemma_no_mine_among(squares, near, i);
    assert(0 <= path[path.len() - 1] < squares.len());
}

} // verus!
