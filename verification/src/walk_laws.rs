//! What a walk yields is what its task yields: the walk ends with an outcome exactly if the task
//! has that outcome on the device.

use vstd::prelude::*;
use crate::walk::{
    visit, visit_pieces, Device, FrameModel, Need, Outcome, Piece, TaskModel, WalkModel,
};

verus! {

/// More fuel does not change an outcome that is there.
pub proof fn law_fuel_is_monotone<M: TaskModel>(task: M, device: Device, fuel: nat, more: nat)
    requires
        fuel <= more,
        visit(task, device, fuel) is Some,
    ensures
        visit(task, device, more) == visit(task, device, fuel),
    decreases fuel, 0nat,
{
    match task.wants() {
        None => {},
        Some(request) => {
            let reply = device(request);
            let (f, m) = ((fuel - 1) as nat, (more - 1) as nat);
            lemma_pieces_fuel_is_monotone(task.pieces(reply), device, f, m);
            law_fuel_is_monotone(task.next(reply), device, f, m);
        },
    }
}

/// More fuel does not change what pieces yield.
pub proof fn lemma_pieces_fuel_is_monotone<M: TaskModel>(
    pieces: Seq<Piece<M, M::Out>>,
    device: Device,
    fuel: nat,
    more: nat,
)
    requires
        fuel <= more,
        visit_pieces(pieces, device, fuel) is Some,
    ensures
        visit_pieces(pieces, device, more) == visit_pieces(pieces, device, fuel),
    decreases fuel, pieces.len() + 1,
{
    if pieces.len() > 0 {
        match pieces[0] {
            Piece::Emit(_) => {},
            Piece::Enter(task) => {
                law_fuel_is_monotone(task, device, fuel, more);
            },
        }
        lemma_pieces_fuel_is_monotone(pieces.drop_first(), device, fuel, more);
    }
}

/// A single result yields itself.
pub proof fn lemma_one_result<M: TaskModel>(out: M::Out, device: Device, fuel: nat)
    ensures
        visit_pieces::<M>(seq![Piece::Emit(out)], device, fuel) == Some(seq![out]),
{
    let pieces = seq![Piece::<M, M::Out>::Emit(out)];
    assert(pieces.drop_first() =~= seq![]);
    assert(visit_pieces::<M>(pieces.drop_first(), device, fuel) == Some(Seq::<M::Out>::empty()));
    assert(seq![out] + Seq::<M::Out>::empty() =~= seq![out]);
}

/// Pieces one after another yield one after another.
pub proof fn lemma_pieces_concat<M: TaskModel>(
    a: Seq<Piece<M, M::Out>>,
    b: Seq<Piece<M, M::Out>>,
    device: Device,
    fuel: nat,
)
    ensures
        visit_pieces(a + b, device, fuel) == (match (
            visit_pieces(a, device, fuel),
            visit_pieces(b, device, fuel),
        ) {
            (Some(first), Some(rest)) => Some(first + rest),
            _ => None,
        }),
    decreases a.len(),
{
    if a.len() == 0 {
        assert(a + b =~= b);
        match visit_pieces(b, device, fuel) {
            Some(rest) => {
                assert(Seq::<M::Out>::empty() + rest =~= rest);
            },
            None => {},
        }
    } else {
        let left = a.drop_first();
        assert((a + b).drop_first() =~= left + b);
        assert((a + b)[0] == a[0]);
        lemma_pieces_concat(left, b, device, fuel);
        let head = match a[0] {
            Piece::Emit(out) => Some(seq![out]),
            Piece::Enter(task) => match visit(task, device, fuel) {
                Some(outcome) => Some(outcome.yielded),
                None => None,
            },
        };
        match (head, visit_pieces(left, device, fuel), visit_pieces(b, device, fuel)) {
            (Some(x), Some(y), Some(z)) => {
                assert(x + (y + z) =~= x + y + z);
            },
            _ => {},
        }
    }
}

proof fn lemma_after_adds<M: TaskModel>(walk: WalkModel<M>, device: Device, a: nat, b: nat)
    ensures
        walk.after(device, a + b) == walk.after(device, a).after(device, b),
    decreases a,
{
    if a > 0 {
        lemma_after_adds(walk.moved(device), device, (a - 1) as nat, b);
    }
}

/// A walk whose innermost frame holds `queue` and `task`, above `base`.
spec fn walk_at<M: TaskModel>(
    base: Seq<FrameModel<M>>,
    queue: Seq<Piece<M, M::Out>>,
    task: M,
    found: Seq<M::Out>,
) -> WalkModel<M> {
    WalkModel { frames: base.push(FrameModel { queue, task }), found }
}

proof fn lemma_task_completes<M: TaskModel>(
    base: Seq<FrameModel<M>>,
    task: M,
    found: Seq<M::Out>,
    device: Device,
    fuel: nat,
) -> (end: (nat, M))
    requires
        visit(task, device, fuel) is Some,
    ensures
        walk_at(base, seq![], task, found).after(device, end.0) == walk_at(
            base,
            seq![],
            end.1,
            found + visit(task, device, fuel)->0.yielded,
        ),
        end.1.wants() is None,
        end.1.status() == visit(task, device, fuel)->0.status,
    decreases fuel, 0nat,
{
    let walk = walk_at(base, seq![], task, found);
    match task.wants() {
        None => {
            assert(found + visit(task, device, fuel)->0.yielded =~= found);
            (0, task)
        },
        Some(request) => {
            let reply = device(request);
            let f = (fuel - 1) as nat;
            let pieces = task.pieces(reply);
            let next = task.next(reply);
            assert(walk.frames.drop_last() =~= base);
            assert(walk.moved(device) == walk_at(base, pieces, next, found));
            let first = visit_pieces(pieces, device, f)->0;
            let n1 = lemma_pieces_complete(base, pieces, next, found, device, f);
            let (n2, last) = lemma_task_completes(base, next, found + first, device, f);
            lemma_after_adds(walk_at(base, pieces, next, found), device, n1, n2);
            assert(found + first + visit(next, device, f)->0.yielded =~= found + visit(
                task,
                device,
                fuel,
            )->0.yielded);
            assert(walk.after(device, 1 + n1 + n2) == walk.moved(device).after(device, n1 + n2));
            (1 + n1 + n2, last)
        },
    }
}

proof fn lemma_pieces_complete<M: TaskModel>(
    base: Seq<FrameModel<M>>,
    pieces: Seq<Piece<M, M::Out>>,
    task: M,
    found: Seq<M::Out>,
    device: Device,
    fuel: nat,
) -> (n: nat)
    requires
        visit_pieces(pieces, device, fuel) is Some,
    ensures
        walk_at(base, pieces, task, found).after(device, n) == walk_at(
            base,
            seq![],
            task,
            found + visit_pieces(pieces, device, fuel)->0,
        ),
    decreases fuel, pieces.len() + 1,
{
    let walk = walk_at(base, pieces, task, found);
    let all = visit_pieces(pieces, device, fuel)->0;
    if pieces.len() == 0 {
        assert(pieces =~= seq![]);
        assert(found + all =~= found);
        0
    } else {
        let left = pieces.drop_first();
        let rest = visit_pieces(left, device, fuel)->0;
        assert(walk.frames.drop_last() =~= base);
        match pieces[0] {
            Piece::Emit(out) => {
                let n = lemma_pieces_complete(base, left, task, found.push(out), device, fuel);
                assert(walk.moved(device) == walk_at(base, left, task, found.push(out)));
                assert(found.push(out) + rest =~= found + all);
                n + 1
            },
            Piece::Enter(child) => {
                let inner = base.push(FrameModel { queue: left, task });
                let outs = visit(child, device, fuel)->0.yielded;
                let entered = walk_at(inner, seq![], child, found);
                assert(walk.moved(device) == entered);
                let (n1, last) = lemma_task_completes(inner, child, found, device, fuel);
                let ended = walk_at(inner, seq![], last, found + outs);
                assert(ended.frames.drop_last() =~= inner);
                assert(ended.need() is Step);
                assert(ended.moved(device) == walk_at(base, left, task, found + outs));
                let n2 = lemma_pieces_complete(base, left, task, found + outs, device, fuel);
                lemma_after_adds(entered, device, n1, n2 + 1);
                assert(ended.after(device, n2 + 1) == ended.moved(device).after(device, n2));
                assert(found + outs + rest =~= found + all);
                assert(walk.after(device, 1 + (n1 + (n2 + 1))) == walk.moved(device).after(
                    device,
                    n1 + (n2 + 1),
                ));
                1 + (n1 + (n2 + 1))
            },
        }
    }
}

/// A task with an outcome on a device makes its walk end, after finitely many moves, with that
/// outcome: the same results in the same order and the same status.
pub proof fn law_walk_completes<M: TaskModel>(task: M, device: Device, fuel: nat)
    requires
        visit(task, device, fuel) is Some,
    ensures
        exists|moves: nat|
            {
                let end = #[trigger] WalkModel::start(task).after(device, moves);
                &&& end.need() is Nothing
                &&& end.found == visit(task, device, fuel)->0.yielded
                &&& end.status() == visit(task, device, fuel)->0.status
            },
{
    let (n, last) = lemma_task_completes(seq![], task, seq![], device, fuel);
    let outs = visit(task, device, fuel)->0.yielded;
    assert(WalkModel::start(task).frames =~= walk_at(seq![], seq![], task, seq![]).frames);
    assert(WalkModel::start(task) == walk_at(seq![], seq![], task, seq![]));
    assert(Seq::<M::Out>::empty() + outs =~= outs);
    let end = WalkModel::start(task).after(device, n);
    assert(end == walk_at(seq![], seq![], last, outs));
}

/// All that frames still yield, innermost first, and the status of the outermost task.
spec fn remaining<M: TaskModel>(frames: Seq<FrameModel<M>>, device: Device, fuel: nat) -> Option<
    Outcome<M::Out>,
>
    decreases frames.len(),
{
    if frames.len() == 0 {
        None
    } else {
        let top = frames.last();
        match (visit_pieces(top.queue, device, fuel), visit(top.task, device, fuel)) {
            (Some(first), Some(rest)) => if frames.len() == 1 {
                Some(Outcome { yielded: first + rest.yielded, status: rest.status })
            } else {
                match remaining(frames.drop_last(), device, fuel) {
                    Some(below) => Some(
                        Outcome {
                            yielded: first + rest.yielded + below.yielded,
                            status: below.status,
                        },
                    ),
                    None => None,
                }
            },
            _ => None,
        }
    }
}

proof fn lemma_remaining_is_monotone<M: TaskModel>(
    frames: Seq<FrameModel<M>>,
    device: Device,
    fuel: nat,
)
    requires
        remaining(frames, device, fuel) is Some,
    ensures
        remaining(frames, device, fuel + 1) == remaining(frames, device, fuel),
    decreases frames.len(),
{
    let top = frames.last();
    lemma_pieces_fuel_is_monotone(top.queue, device, fuel, fuel + 1);
    law_fuel_is_monotone(top.task, device, fuel, fuel + 1);
    if frames.len() > 1 {
        lemma_remaining_is_monotone(frames.drop_last(), device, fuel);
    }
}

/// The results so far followed by all that is still to come.
spec fn total<M: TaskModel>(walk: WalkModel<M>, device: Device, fuel: nat) -> Option<
    Outcome<M::Out>,
> {
    match remaining(walk.frames, device, fuel) {
        Some(rest) => Some(
            Outcome { yielded: walk.found + rest.yielded, status: rest.status },
        ),
        None => None,
    }
}

proof fn lemma_move_keeps_total<M: TaskModel>(walk: WalkModel<M>, device: Device, fuel: nat)
    requires
        walk.frames.len() > 0,
        total(walk.moved(device), device, fuel) is Some,
    ensures
        walk.moved(device).frames.len() > 0,
        total(walk, device, fuel + 1) == total(walk.moved(device), device, fuel),
{
    let top = walk.frames.last();
    let base = walk.frames.drop_last();
    let moved = walk.moved(device);
    lemma_remaining_is_monotone(moved.frames, device, fuel);
    if base.len() > 0 && moved.frames.len() >= walk.frames.len() {
        assert(moved.frames.take(base.len() as int) =~= base);
    }
    match walk.need() {
        Need::Read(request) => {
            assert(moved.frames.drop_last() =~= base);
            if base.len() > 0 {
                lemma_remaining_is_monotone(base, device, fuel);
            }
            let reply = device(request);
            let first = visit_pieces(top.task.pieces(reply), device, fuel)->0;
            assert(visit_pieces(top.queue, device, fuel + 1) =~= Some(Seq::<M::Out>::empty()));
            let whole = visit(top.task, device, fuel + 1)->0.yielded;
            assert(Seq::<M::Out>::empty() + whole =~= whole);
        },
        Need::Step => {
            if top.queue.len() > 0 {
                let left = FrameModel { queue: top.queue.drop_first(), task: top.task };
                let lower = base.push(left);
                assert(lower.drop_last() =~= base);
                match top.queue[0] {
                    Piece::Emit(out) => {
                        assert(moved.frames =~= lower);
                        if base.len() > 0 {
                            lemma_remaining_is_monotone(base, device, fuel);
                        }
                        lemma_pieces_fuel_is_monotone(left.queue, device, fuel, fuel + 1);
                        law_fuel_is_monotone(left.task, device, fuel, fuel + 1);
                        let rest = visit_pieces(left.queue, device, fuel)->0;
                        let tail = visit(left.task, device, fuel)->0.yielded;
                        assert(visit_pieces(top.queue, device, fuel + 1) == Some(
                            seq![out] + rest,
                        ));
                        assert(walk.found.push(out) + (rest + tail) =~= walk.found + (seq![out]
                            + rest + tail));
                        if base.len() > 0 {
                            let below = remaining(base, device, fuel)->0.yielded;
                            assert(walk.found.push(out) + (rest + tail + below) =~= walk.found + (
                            seq![out] + rest + tail + below));
                        }
                    },
                    Piece::Enter(child) => {
                        assert(moved.frames.drop_last() =~= lower);
                        lemma_remaining_is_monotone(lower, device, fuel);
                        if base.len() > 0 {
                            lemma_remaining_is_monotone(base, device, fuel);
                        }
                        lemma_pieces_fuel_is_monotone(left.queue, device, fuel, fuel + 1);
                        law_fuel_is_monotone(left.task, device, fuel, fuel + 1);
                        law_fuel_is_monotone(child, device, fuel, fuel + 1);
                        let outs = visit(child, device, fuel)->0.yielded;
                        let rest = visit_pieces(left.queue, device, fuel)->0;
                        let tail = visit(left.task, device, fuel)->0.yielded;
                        assert(visit_pieces(top.queue, device, fuel + 1) == Some(outs + rest));
                        assert(Seq::<M::Out>::empty() + outs =~= outs);
                        assert(outs + (rest + tail) =~= outs + rest + tail);
                        if base.len() > 0 {
                            let below = remaining(base, device, fuel)->0.yielded;
                            assert(outs + (rest + tail + below) =~= outs + rest + tail + below);
                        }
                    },
                }
            } else {
                assert(moved.frames == base);
                lemma_remaining_is_monotone(base, device, fuel);
                let below = remaining(base, device, fuel)->0.yielded;
                assert(Seq::<M::Out>::empty() + Seq::<M::Out>::empty() + below =~= below);
            }
        },
        Need::Nothing => {},
    }
}

proof fn lemma_after_keeps_total<M: TaskModel>(walk: WalkModel<M>, device: Device, moves: nat)
    requires
        walk.frames.len() > 0,
        walk.after(device, moves).need() is Nothing,
        walk.after(device, moves).frames.len() == 1,
    ensures
        total(walk, device, moves) == Some(
            (Outcome {
                yielded: walk.after(device, moves).found,
                status: walk.after(device, moves).status(),
            }),
        ),
    decreases moves,
{
    if moves == 0 {
        assert(walk.found + (Seq::<M::Out>::empty() + Seq::<M::Out>::empty()) =~= walk.found);
    } else {
        lemma_move_keeps_frames(walk, device);
        lemma_after_keeps_total(walk.moved(device), device, (moves - 1) as nat);
        lemma_move_keeps_total(walk, device, (moves - 1) as nat);
    }
}

proof fn lemma_move_keeps_frames<M: TaskModel>(walk: WalkModel<M>, device: Device)
    requires
        walk.frames.len() > 0,
    ensures
        walk.moved(device).frames.len() > 0,
{
}

proof fn lemma_after_keeps_frames<M: TaskModel>(walk: WalkModel<M>, device: Device, moves: nat)
    requires
        walk.frames.len() > 0,
    ensures
        walk.after(device, moves).frames.len() > 0,
    decreases moves,
{
    if moves > 0 {
        lemma_after_keeps_frames(walk.moved(device), device, (moves - 1) as nat);
    }
}

/// A walk that has ended has the outcome of its task: its results and its status are those that
/// the task has on the device.
pub proof fn law_walk_is_sound<M: TaskModel>(task: M, device: Device, moves: nat)
    requires
        WalkModel::start(task).after(device, moves).need() is Nothing,
    ensures
        visit(task, device, moves) == Some(
            (Outcome {
                yielded: WalkModel::start(task).after(device, moves).found,
                status: WalkModel::start(task).after(device, moves).status(),
            }),
        ),
{
    let walk = WalkModel::start(task);
    lemma_after_keeps_frames(walk, device, moves);
    lemma_after_keeps_total(walk, device, moves);
    let outs = visit(task, device, moves)->0.yielded;
    assert(Seq::<M::Out>::empty() + (Seq::<M::Out>::empty() + outs) =~= outs);
}

/// What a task yields comes in order: what it hands out on its next answer, and then what it yields
/// from there on. A task that waits for nothing yields nothing and has the status that it has.
pub proof fn law_outcome_of_a_step<M: TaskModel>(task: M, device: Device, fuel: nat)
    ensures
        task.wants() is None ==> visit(task, device, fuel) == Some(
            (Outcome::<M::Out> { yielded: seq![], status: task.status() }),
        ),
        task.wants() matches Some(request) ==> {
            let reply = device(request);
            let first = visit_pieces(task.pieces(reply), device, fuel);
            let rest = visit(task.next(reply), device, fuel);
            visit(task, device, fuel + 1) == if first is Some && rest is Some {
                Some(
                    (Outcome { yielded: first->0 + rest->0.yielded, status: rest->0.status }),
                )
            } else {
                None
            }
        },
{
}

/// What pieces yield comes in their order: a result itself, and for a task all that it yields, before
/// what follows it.
pub proof fn law_outcome_of_pieces<M: TaskModel>(
    piece: Piece<M, M::Out>,
    rest: Seq<Piece<M, M::Out>>,
    device: Device,
    fuel: nat,
)
    requires
        visit_pieces(rest, device, fuel) is Some,
    ensures
        piece matches Piece::Emit(out) ==> visit_pieces(seq![piece] + rest, device, fuel) == Some(
            seq![out] + visit_pieces(rest, device, fuel)->0,
        ),
        piece matches Piece::Enter(task) ==> visit_pieces(seq![piece] + rest, device, fuel) == (
        match visit(task, device, fuel) {
            Some(outcome) => Some(outcome.yielded + visit_pieces(rest, device, fuel)->0),
            None => None,
        }),
        visit_pieces::<M>(seq![], device, fuel) == Some(Seq::<M::Out>::empty()),
{
    assert((seq![piece] + rest).drop_first() =~= rest);
}

} // verus!
