//! Tasks of one kind carried out as tasks of another kind.

use vstd::prelude::*;
use crate::walk::{
    piece_model, piece_models, visit, visit_pieces, Device, Modelled, Outcome, Piece, TaskModel,
};

verus! {

/// Pieces with their tasks and their results taken for those of another kind.
pub open spec fn taken_as<A, P, B, Q>(
    pieces: Seq<Piece<A, P>>,
    task: spec_fn(A) -> B,
    out: spec_fn(P) -> Q,
) -> Seq<Piece<B, Q>> {
    Seq::new(
        pieces.len(),
        |i: int|
            match pieces[i] {
                Piece::Emit(o) => Piece::Emit(out(o)),
                Piece::Enter(t) => Piece::Enter(task(t)),
            },
    )
}

/// A kind of task that the tasks of kind `A` can be taken for.
pub trait Embeds<A: Modelled>: Modelled {
    /// A task taken for one of this kind.
    spec fn task_as(task: A::Model) -> Self::Model;

    /// A result taken for one of this kind.
    spec fn out_as(out: <A::Model as TaskModel>::Out) -> <Self::Model as TaskModel>::Out;

    /// Takes a task for one of this kind.
    fn take_task(task: A) -> (taken: Self)
        ensures
            taken.model() == Self::task_as(task.model()),
    ;

    /// Takes a result for one of this kind.
    fn take_out(out: A::Output) -> (taken: Self::Output)
        ensures
            Self::output(taken) == Self::out_as(A::output(out)),
    ;
}

/// Takes pieces for those of another kind.
pub fn take_pieces<A: Modelled, B: Embeds<A>>(pieces: Vec<Piece<A, A::Output>>) -> (taken: Vec<
    Piece<B, B::Output>,
>)
    ensures
        piece_models::<B>(taken@) == taken_as(
            piece_models::<A>(pieces@),
            |t: A::Model| B::task_as(t),
            |o: <A::Model as TaskModel>::Out| B::out_as(o),
        ),
{
    let ghost all = pieces@;
    let mut taken: Vec<Piece<B, B::Output>> = Vec::new();
    for piece in it: pieces
        invariant
            it.seq() == all,
            taken@.len() == it.index(),
            forall|j: int|
                0 <= j < it.index() ==> piece_model::<B>(#[trigger] taken@[j]) == (match all[j] {
                    Piece::Emit(o) => Piece::Emit(B::out_as(A::output(o))),
                    Piece::Enter(t) => Piece::Enter(B::task_as(t.model())),
                }),
    {
        match piece {
            Piece::Emit(out) => {
                taken.push(Piece::Emit(B::take_out(out)));
            },
            Piece::Enter(task) => {
                taken.push(Piece::Enter(B::take_task(task)));
            },
        }
    }
    assert(piece_models::<B>(taken@) =~= taken_as(
        piece_models::<A>(all),
        |t: A::Model| B::task_as(t),
        |o: <A::Model as TaskModel>::Out| B::out_as(o),
    ));
    taken
}

/// Whether tasks of one kind behave as those that they are taken for.
pub open spec fn faithful<A: TaskModel, B: TaskModel>(
    task: spec_fn(A) -> B,
    out: spec_fn(A::Out) -> B::Out,
) -> bool {
    &&& forall|a: A|
        (#[trigger] task(a)).wants() == a.wants() && task(a).status() == a.status()
    &&& forall|a: A, reply: Option<Seq<u8>>|
        a.wants() is Some ==> #[trigger] task(a).pieces(reply) == taken_as(
            a.pieces(reply),
            task,
            out,
        )
    &&& forall|a: A, reply: Option<Seq<u8>>|
        a.wants() is Some ==> #[trigger] task(a).next(reply) == task(a.next(reply))
}

/// An outcome with its results taken for those of another kind.
pub open spec fn outcome_as<A, B>(outcome: Option<Outcome<A>>, out: spec_fn(A) -> B) -> Option<
    Outcome<B>,
> {
    match outcome {
        Some(o) => Some(Outcome { yielded: o.yielded.map_values(out), status: o.status }),
        None => None,
    }
}

/// A task yields the same whichever kind it is taken for.
pub proof fn law_same_outcome<A: TaskModel, B: TaskModel>(
    task: spec_fn(A) -> B,
    out: spec_fn(A::Out) -> B::Out,
    a: A,
    device: Device,
    fuel: nat,
)
    requires
        faithful(task, out),
    ensures
        visit(task(a), device, fuel) == outcome_as(visit(a, device, fuel), out),
    decreases fuel, 0nat,
{
    match a.wants() {
        None => {
            assert(task(a).wants() is None);
            assert(Seq::<A::Out>::empty().map_values(out) =~= seq![]);
        },
        Some(request) => {
            assert(task(a).wants() == a.wants());
            if fuel > 0 {
                let reply = device(request);
                let f = (fuel - 1) as nat;
                let pieces = a.pieces(reply);
                assert(task(a).pieces(reply) == taken_as(pieces, task, out));
                assert(task(a).next(reply) == task(a.next(reply)));
                lemma_same_pieces(task, out, pieces, device, f);
                law_same_outcome(task, out, a.next(reply), device, f);
                match (visit_pieces(pieces, device, f), visit(a.next(reply), device, f)) {
                    (Some(first), Some(rest)) => {
                        assert((first + rest.yielded).map_values(out) =~= first.map_values(out)
                            + rest.yielded.map_values(out));
                    },
                    _ => {},
                }
            }
        },
    }
}

proof fn lemma_same_pieces<A: TaskModel, B: TaskModel>(
    task: spec_fn(A) -> B,
    out: spec_fn(A::Out) -> B::Out,
    pieces: Seq<Piece<A, A::Out>>,
    device: Device,
    fuel: nat,
)
    requires
        faithful(task, out),
    ensures
        visit_pieces(taken_as(pieces, task, out), device, fuel) == (match visit_pieces(
            pieces,
            device,
            fuel,
        ) {
            Some(outs) => Some(outs.map_values(out)),
            None => None,
        }),
    decreases fuel, pieces.len() + 1,
{
    let taken = taken_as(pieces, task, out);
    if pieces.len() == 0 {
        assert(Seq::<A::Out>::empty().map_values(out) =~= seq![]);
    } else {
        let left = pieces.drop_first();
        assert(taken.drop_first() =~= taken_as(left, task, out));
        lemma_same_pieces(task, out, left, device, fuel);
        match pieces[0] {
            Piece::Emit(o) => {
                assert(seq![o].map_values(out) =~= seq![out(o)]);
                match visit_pieces(left, device, fuel) {
                    Some(rest) => {
                        assert((seq![o] + rest).map_values(out) =~= seq![out(o)]
                            + rest.map_values(out));
                    },
                    None => {},
                }
            },
            Piece::Enter(t) => {
                law_same_outcome(task, out, t, device, fuel);
                match (visit(t, device, fuel), visit_pieces(left, device, fuel)) {
                    (Some(first), Some(rest)) => {
                        assert((first.yielded + rest).map_values(out)
                            =~= first.yielded.map_values(out) + rest.map_values(out));
                    },
                    _ => {},
                }
            },
        }
    }
}

} // verus!
