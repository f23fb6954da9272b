//! What a task yields is what the tasks that it leads to hand out, no more and no less.

use vstd::prelude::*;
use crate::walk::{visit, visit_pieces, Device, Piece, TaskModel};

verus! {

/// Whether a task leads to another: it goes on as it, or starts it.
pub open spec fn leads_to<M: TaskModel>(task: M, device: Device, other: M) -> bool {
    task.wants() matches Some(request) && (other == task.next(device(request)) || task.pieces(
        device(request),
    ).contains(Piece::Enter(other)))
}

/// Whether a task leads to another in `n` steps.
pub open spec fn reaches<M: TaskModel>(task: M, device: Device, other: M, n: nat) -> bool
    decreases n,
{
    if n == 0 {
        task == other
    } else {
        exists|mid: M| #[trigger]
            leads_to(task, device, mid) && reaches(mid, device, other, (n - 1) as nat)
    }
}

/// Whether a task hands out a result on its next answer.
pub open spec fn hands_out<M: TaskModel>(task: M, device: Device, out: M::Out) -> bool {
    task.wants() matches Some(request) && task.pieces(device(request)).contains(Piece::Emit(out))
}

proof fn lemma_piece_is_yielded<M: TaskModel>(
    pieces: Seq<Piece<M, M::Out>>,
    piece: Piece<M, M::Out>,
    device: Device,
    fuel: nat,
)
    requires
        visit_pieces(pieces, device, fuel) is Some,
        pieces.contains(piece),
    ensures
        match piece {
            Piece::Emit(out) => visit_pieces(pieces, device, fuel)->0.contains(out),
            Piece::Enter(task) => visit(task, device, fuel) is Some && forall|out: M::Out|
                visit(task, device, fuel)->0.yielded.contains(out) ==> #[trigger] visit_pieces(
                    pieces,
                    device,
                    fuel,
                )->0.contains(out),
        },
    decreases pieces.len(),
{
    let all = visit_pieces(pieces, device, fuel)->0;
    let left = pieces.drop_first();
    let rest = visit_pieces(left, device, fuel)->0;
    let first = match pieces[0] {
        Piece::Emit(out) => seq![out],
        Piece::Enter(task) => visit(task, device, fuel)->0.yielded,
    };
    assert(all == first + rest);
    if pieces[0] == piece {
        assert forall|out: M::Out| first.contains(out) implies #[trigger] all.contains(out) by {
            let k = choose|k: int| 0 <= k < first.len() && first[k] == out;
            assert(all[k] == out);
        }
        match piece {
            Piece::Emit(out) => {
                assert(first[0] == out);
            },
            Piece::Enter(_) => {},
        }
    } else {
        let k = choose|k: int| 0 <= k < pieces.len() && pieces[k] == piece;
        assert(left[k - 1] == piece);
        lemma_piece_is_yielded(left, piece, device, fuel);
        assert forall|out: M::Out| rest.contains(out) implies #[trigger] all.contains(out) by {
            let j = choose|j: int| 0 <= j < rest.len() && rest[j] == out;
            assert(all[first.len() + j] == out);
        }
    }
}

/// Whatever a task that is reached hands out is yielded.
pub proof fn law_reached_results_are_yielded<M: TaskModel>(
    task: M,
    device: Device,
    fuel: nat,
    other: M,
    n: nat,
    out: M::Out,
)
    requires
        visit(task, device, fuel) is Some,
        reaches(task, device, other, n),
        hands_out(other, device, out),
    ensures
        visit(task, device, fuel)->0.yielded.contains(out),
    decreases n,
{
    if n == 0 {
        lemma_own_piece(task, device, fuel, Piece::Emit(out));
    } else {
        let mid = choose|mid: M| #[trigger]
            leads_to(task, device, mid) && reaches(mid, device, other, (n - 1) as nat);
        let reply = device(task.wants()->0);
        let f = (fuel - 1) as nat;
        let all = visit(task, device, fuel)->0.yielded;
        if mid == task.next(reply) {
            law_reached_results_are_yielded(mid, device, f, other, (n - 1) as nat, out);
            let first = visit_pieces(task.pieces(reply), device, f)->0;
            let rest = visit(mid, device, f)->0.yielded;
            let k = choose|k: int| 0 <= k < rest.len() && rest[k] == out;
            assert(all[first.len() + k] == out);
        } else {
            lemma_piece_is_yielded(task.pieces(reply), Piece::Enter(mid), device, f);
            law_reached_results_are_yielded(mid, device, f, other, (n - 1) as nat, out);
            lemma_own_piece(task, device, fuel, Piece::Enter(mid));
        }
    }
}

proof fn lemma_own_piece<M: TaskModel>(
    task: M,
    device: Device,
    fuel: nat,
    piece: Piece<M, M::Out>,
)
    requires
        visit(task, device, fuel) is Some,
        task.wants() is Some,
        task.pieces(device(task.wants()->0)).contains(piece),
    ensures
        match piece {
            Piece::Emit(out) => visit(task, device, fuel)->0.yielded.contains(out),
            Piece::Enter(t) => forall|out: M::Out|
                visit(t, device, (fuel - 1) as nat)->0.yielded.contains(out) ==> #[trigger] visit(
                    task,
                    device,
                    fuel,
                )->0.yielded.contains(out),
        },
{
    let reply = device(task.wants()->0);
    let f = (fuel - 1) as nat;
    let all = visit(task, device, fuel)->0.yielded;
    let first = visit_pieces(task.pieces(reply), device, f)->0;
    let rest = visit(task.next(reply), device, f)->0.yielded;
    assert(all == first + rest);
    lemma_piece_is_yielded(task.pieces(reply), piece, device, f);
    assert forall|out: M::Out| first.contains(out) implies #[trigger] all.contains(out) by {
        let k = choose|k: int| 0 <= k < first.len() && first[k] == out;
        assert(all[k] == out);
    }
    match piece {
        Piece::Emit(out) => {
            assert(all.contains(out));
        },
        Piece::Enter(_) => {},
    }
}

/// Whether a result is handed out by a task that is reached.
pub open spec fn reached<M: TaskModel>(task: M, device: Device, out: M::Out) -> bool {
    exists|other: M, n: nat| #[trigger]
        reaches(task, device, other, n) && hands_out(other, device, out)
}

proof fn lemma_reached_through<M: TaskModel>(task: M, device: Device, mid: M, out: M::Out)
    requires
        leads_to(task, device, mid),
        reached(mid, device, out),
    ensures
        reached(task, device, out),
{
    let (other, n) = choose|other: M, n: nat| #[trigger]
        reaches(mid, device, other, n) && hands_out(other, device, out);
    assert(reaches(mid, device, other, ((n + 1) - 1) as nat));
    assert(reaches(task, device, other, n + 1));
}

/// Whatever a task yields is handed out by a task that it reaches.
pub proof fn law_yielded_results_are_reached<M: TaskModel>(
    task: M,
    device: Device,
    fuel: nat,
    out: M::Out,
)
    requires
        visit(task, device, fuel) is Some,
        visit(task, device, fuel)->0.yielded.contains(out),
    ensures
        reached(task, device, out),
    decreases fuel, 0nat,
{
    let all = visit(task, device, fuel)->0.yielded;
    let k = choose|k: int| 0 <= k < all.len() && all[k] == out;
    let reply = device(task.wants()->0);
    let f = (fuel - 1) as nat;
    let pieces = task.pieces(reply);
    let first = visit_pieces(pieces, device, f)->0;
    let rest = visit(task.next(reply), device, f)->0.yielded;
    assert(all == first + rest);
    if k < first.len() {
        assert(first[k] == out);
        lemma_yielded_piece(pieces, device, f, out);
        if pieces.contains(Piece::Emit(out)) {
            assert(reaches(task, device, task, 0));
            assert(hands_out(task, device, out));
        } else {
            let mid = choose|mid: M| #[trigger]
                pieces.contains(Piece::Enter(mid)) && reached(mid, device, out);
            assert(leads_to(task, device, mid));
            lemma_reached_through(task, device, mid, out);
        }
    } else {
        assert(rest[k - first.len()] == out);
        law_yielded_results_are_reached(task.next(reply), device, f, out);
        assert(leads_to(task, device, task.next(reply)));
        lemma_reached_through(task, device, task.next(reply), out);
    }
}

proof fn lemma_yielded_piece<M: TaskModel>(
    pieces: Seq<Piece<M, M::Out>>,
    device: Device,
    fuel: nat,
    out: M::Out,
)
    requires
        visit_pieces(pieces, device, fuel) is Some,
        visit_pieces(pieces, device, fuel)->0.contains(out),
    ensures
        pieces.contains(Piece::Emit(out)) || exists|mid: M| #[trigger]
            pieces.contains(Piece::Enter(mid)) && reached(mid, device, out),
    decreases fuel, pieces.len() + 1,
{
    let all = visit_pieces(pieces, device, fuel)->0;
    let k = choose|k: int| 0 <= k < all.len() && all[k] == out;
    let left = pieces.drop_first();
    let rest = visit_pieces(left, device, fuel)->0;
    let first = match pieces[0] {
        Piece::Emit(o) => seq![o],
        Piece::Enter(task) => visit(task, device, fuel)->0.yielded,
    };
    assert(all == first + rest);
    if k < first.len() {
        match pieces[0] {
            Piece::Emit(o) => {
                assert(pieces[0] == Piece::<M, M::Out>::Emit(out));
            },
            Piece::Enter(task) => {
                assert(first[k] == out);
                law_yielded_results_are_reached(task, device, fuel, out);
                assert(pieces.contains(Piece::Enter(task)));
            },
        }
    } else {
        assert(rest[k - first.len()] == out);
        lemma_yielded_piece(left, device, fuel, out);
        if left.contains(Piece::Emit(out)) {
            let j = choose|j: int| 0 <= j < left.len() && left[j] == Piece::<M, M::Out>::Emit(out);
            assert(pieces[j + 1] == Piece::<M, M::Out>::Emit(out));
        } else {
            let mid = choose|mid: M| #[trigger]
                left.contains(Piece::Enter(mid)) && reached(mid, device, out);
            let j = choose|j: int|
                0 <= j < left.len() && left[j] == Piece::<M, M::Out>::Enter(mid);
            assert(pieces[j + 1] == Piece::<M, M::Out>::Enter(mid));
            assert(pieces.contains(Piece::Enter(mid)));
        }
    }
}

} // verus!
