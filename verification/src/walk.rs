//! Work that is suspended whenever it needs a read from the device, and the walk that carries it
//! out: a stack of suspended tasks, each of which may hand out results and start further tasks.

use vstd::prelude::*;

verus! {

/// A read from the device: `len` bytes from byte `offset` on.
#[derive(Debug, Clone, Copy, PartialEq, Eq, Structural)]
pub struct Request {
    pub offset: u64,
    pub len: usize,
}

/// Why a scan or a restore gave up.
#[derive(Debug, Clone, Copy, PartialEq, Eq, Structural)]
pub enum Failure {
    /// The device did not deliver the bytes at this offset.
    Unreadable { offset: u64 },
    /// The inode of the root directory could not be read.
    RootInode,
}

/// How a task ended.
pub type Status = Result<(), Failure>;

/// What a device answers to each read: its bytes, or nothing where the read fails.
pub type Device = spec_fn(Request) -> Option<Seq<u8>>;

/// Whether an answer has the length that was asked for.
pub open spec fn fits(request: Request, reply: Option<Seq<u8>>) -> bool {
    reply matches Some(data) ==> data.len() == request.len
}

/// A device that answers every read with as many bytes as were asked for, or not at all.
pub open spec fn honest(device: Device) -> bool {
    forall|request: Request| fits(request, #[trigger] device(request))
}

/// One thing that a task hands out: a result, or a task to be finished before it goes on.
pub enum Piece<T, O> {
    Emit(O),
    Enter(T),
}

/// A suspended task, as contracts speak of it.
pub trait TaskModel: Sized {
    /// What the task produces.
    type Out;

    /// The read that the task waits for; none when it has ended.
    spec fn wants(self) -> Option<Request>;

    /// What the task hands out once it has its answer.
    spec fn pieces(self, reply: Option<Seq<u8>>) -> Seq<Piece<Self, Self::Out>>;

    /// The task after it has its answer.
    spec fn next(self, reply: Option<Seq<u8>>) -> Self;

    /// How the task ended.
    spec fn status(self) -> Status;

    /// What holds of every task that is carried out.
    spec fn valid(self) -> bool;

    /// The answers that the task can take.
    spec fn accepts(self, reply: Option<Seq<u8>>) -> bool;
}

/// How an executable task stands for its model.
pub trait Modelled: Sized {
    type Model: TaskModel;

    type Output;

    /// The task as contracts speak of it.
    spec fn model(self) -> Self::Model;

    /// A result as contracts speak of it.
    spec fn output(out: Self::Output) -> <Self::Model as TaskModel>::Out;
}

/// A suspended task.
pub trait Task: Modelled {
    /// The read that the task waits for.
    fn wants(&self) -> (request: Option<Request>)
        requires
            self.model().valid(),
        ensures
            request == self.model().wants(),
    ;

    /// How the task ended.
    fn status(&self) -> (status: Status)
        ensures
            status == self.model().status(),
    ;

    /// Tells whether the task can take this answer to the read.
    fn can_take(&self, reply: Option<&[u8]>) -> (takes: bool)
        requires
            self.model().valid(),
            self.model().wants() is Some,
            fits(self.model().wants()->0, answer(reply)),
        ensures
            takes == self.model().accepts(answer(reply)),
    ;

    /// Goes on with the answer to the read.
    fn resume(self, reply: Option<&[u8]>) -> (turn: (Vec<Piece<Self, Self::Output>>, Self))
        requires
            self.model().valid(),
            self.model().wants() is Some,
            fits(self.model().wants()->0, answer(reply)),
            self.model().accepts(answer(reply)),
        ensures
            piece_models(turn.0@) == self.model().pieces(answer(reply)),
            turn.1.model() == self.model().next(answer(reply)),
            turn.1.model().valid(),
            all_valid(self.model().pieces(answer(reply))),
    ;
}

/// An answer as contracts speak of it.
pub open spec fn answer(reply: Option<&[u8]>) -> Option<Seq<u8>> {
    match reply {
        Some(data) => Some(data@),
        None => None,
    }
}

/// A piece as contracts speak of it.
pub open spec fn piece_model<T: Modelled>(piece: Piece<T, T::Output>) -> Piece<
    T::Model,
    <T::Model as TaskModel>::Out,
> {
    match piece {
        Piece::Emit(out) => Piece::Emit(T::output(out)),
        Piece::Enter(task) => Piece::Enter(task.model()),
    }
}

/// Pieces as contracts speak of them.
pub open spec fn piece_models<T: Modelled>(pieces: Seq<Piece<T, T::Output>>) -> Seq<
    Piece<T::Model, <T::Model as TaskModel>::Out>,
> {
    Seq::new(pieces.len(), |i: int| piece_model::<T>(pieces[i]))
}

/// Whether every task among the pieces is valid.
pub open spec fn all_valid<M: TaskModel>(pieces: Seq<Piece<M, M::Out>>) -> bool {
    forall|i: int|
        0 <= i < pieces.len() ==> (#[trigger] pieces[i] matches Piece::Enter(task) ==> task.valid())
}

// ---------------------------------------------------------------------------------------------
// What a task yields as a whole
// ---------------------------------------------------------------------------------------------

/// What a task yields and how it ends.
pub struct Outcome<O> {
    pub yielded: Seq<O>,
    pub status: Status,
}

/// Everything that a task yields on a device, in order and with the tasks that it enters in their
/// places, and how it ends. The failure of an entered task is not passed on. `fuel` bounds the
/// number of answers taken one after another; a task that needs more has no outcome yet.
pub open spec fn visit<M: TaskModel>(task: M, device: Device, fuel: nat) -> Option<
    Outcome<M::Out>,
>
    decreases fuel, 0nat,
{
    match task.wants() {
        None => Some(Outcome { yielded: seq![], status: task.status() }),
        Some(request) => if fuel == 0 {
            None
        } else {
            let reply = device(request);
            match (
                visit_pieces(task.pieces(reply), device, (fuel - 1) as nat),
                visit(task.next(reply), device, (fuel - 1) as nat),
            ) {
                (Some(first), Some(rest)) => Some(
                    Outcome { yielded: first + rest.yielded, status: rest.status },
                ),
                _ => None,
            }
        },
    }
}

/// Everything that pieces yield, in order.
pub open spec fn visit_pieces<M: TaskModel>(
    pieces: Seq<Piece<M, M::Out>>,
    device: Device,
    fuel: nat,
) -> Option<Seq<M::Out>>
    decreases fuel, pieces.len() + 1,
{
    if pieces.len() == 0 {
        Some(seq![])
    } else {
        let head = match pieces[0] {
            Piece::Emit(out) => Some(seq![out]),
            Piece::Enter(task) => match visit(task, device, fuel) {
                Some(outcome) => Some(outcome.yielded),
                None => None,
            },
        };
        match (head, visit_pieces(pieces.drop_first(), device, fuel)) {
            (Some(first), Some(rest)) => Some(first + rest),
            _ => None,
        }
    }
}

// ---------------------------------------------------------------------------------------------
// The walk
// ---------------------------------------------------------------------------------------------

/// A task and what it has handed out and is still to be dealt with.
pub struct FrameModel<M: TaskModel> {
    pub queue: Seq<Piece<M, M::Out>>,
    pub task: M,
}

/// A walk as contracts speak of it: the frames, innermost last, and the results so far.
pub struct WalkModel<M: TaskModel> {
    pub frames: Seq<FrameModel<M>>,
    pub found: Seq<M::Out>,
}

/// What a walk needs next.
#[derive(Debug, Clone, Copy, PartialEq, Eq, Structural)]
pub enum Need {
    /// A step that reads nothing.
    Step,
    /// The answer to a read.
    Read(Request),
    /// Nothing: the walk has ended.
    Nothing,
}

impl<M: TaskModel> WalkModel<M> {
    /// The walk that is about to carry out `task`.
    pub open spec fn start(task: M) -> Self {
        WalkModel { frames: seq![FrameModel { queue: seq![], task }], found: seq![] }
    }

    /// What the walk needs next.
    pub open spec fn need(self) -> Need {
        let top = self.frames.last();
        if top.queue.len() > 0 {
            Need::Step
        } else {
            match top.task.wants() {
                Some(request) => Need::Read(request),
                None => if self.frames.len() > 1 {
                    Need::Step
                } else {
                    Need::Nothing
                },
            }
        }
    }

    /// The walk after a step that reads nothing: the next piece is dealt with, or the innermost
    /// task, which has ended, is left.
    pub open spec fn stepped(self) -> Self {
        let top = self.frames.last();
        if top.queue.len() > 0 {
            let left = FrameModel { queue: top.queue.drop_first(), task: top.task };
            match top.queue[0] {
                Piece::Emit(out) => WalkModel {
                    frames: self.frames.drop_last().push(left),
                    found: self.found.push(out),
                },
                Piece::Enter(task) => WalkModel {
                    frames: self.frames.drop_last().push(left).push(
                        FrameModel { queue: seq![], task },
                    ),
                    found: self.found,
                },
            }
        } else {
            WalkModel { frames: self.frames.drop_last(), found: self.found }
        }
    }

    /// The walk after the innermost task has taken its answer.
    pub open spec fn supplied(self, reply: Option<Seq<u8>>) -> Self {
        let top = self.frames.last();
        let frame = FrameModel { queue: top.task.pieces(reply), task: top.task.next(reply) };
        WalkModel { frames: self.frames.drop_last().push(frame), found: self.found }
    }

    /// How the walk ended: as its outermost task did.
    pub open spec fn status(self) -> Status {
        self.frames[0].task.status()
    }

    /// One move of the walk on a device.
    pub open spec fn moved(self, device: Device) -> Self {
        match self.need() {
            Need::Step => self.stepped(),
            Need::Read(request) => self.supplied(device(request)),
            Need::Nothing => self,
        }
    }

    /// The walk after `moves` moves on a device.
    pub open spec fn after(self, device: Device, moves: nat) -> Self
        decreases moves,
    {
        if moves == 0 {
            self
        } else {
            self.moved(device).after(device, (moves - 1) as nat)
        }
    }

    /// What holds of every walk.
    pub open spec fn valid(self) -> bool {
        &&& self.frames.len() > 0
        &&& forall|i: int|
            0 <= i < self.frames.len() ==> (#[trigger] self.frames[i]).task.valid() && all_valid(
                self.frames[i].queue,
            )
    }
}

struct Frame<T: Task> {
    /// What the task has handed out, in reverse order.
    queue: Vec<Piece<T, T::Output>>,
    task: T,
}

/// A task being carried out, with all that it has yielded so far.
pub struct Walk<T: Task> {
    frames: Vec<Frame<T>>,
    found: Vec<T::Output>,
}

impl<T: Task> Walk<T> {
    /// The walk as contracts speak of it.
    pub closed spec fn model(self) -> WalkModel<T::Model> {
        WalkModel {
            frames: Seq::new(
                self.frames@.len(),
                |i: int|
                    FrameModel {
                        queue: piece_models::<T>(self.frames@[i].queue@).reverse(),
                        task: self.frames@[i].task.model(),
                    },
            ),
            found: Seq::new(self.found@.len(), |i: int| T::output(self.found@[i])),
        }
    }

    /// Begins to carry out `task`.
    pub fn start(task: T) -> (walk: Self)
        requires
            task.model().valid(),
        ensures
            walk.model() == WalkModel::start(task.model()),
            walk.model().valid(),
    {
        let walk = Walk { frames: vec![Frame { queue: Vec::new(), task }], found: Vec::new() };
        assert(walk.model().frames =~= WalkModel::start(task.model()).frames) by {
            assert(piece_models::<T>(walk.frames@[0].queue@).reverse() =~= seq![]);
        }
        assert(walk.model().found =~= seq![]);
        walk
    }

    /// What the walk needs next.
    pub fn need(&self) -> (need: Need)
        requires
            self.model().valid(),
        ensures
            need == self.model().need(),
    {
        let n: usize = self.frames.len();
        let top = &self.frames[n - 1];
        assert(self.model().frames.last().queue.len() == top.queue@.len());
        if top.queue.len() > 0 {
            Need::Step
        } else {
            match top.task.wants() {
                Some(request) => Need::Read(request),
                None => if n > 1 {
                    Need::Step
                } else {
                    Need::Nothing
                },
            }
        }
    }

    /// How the walk ended.
    pub fn status(&self) -> (status: Status)
        requires
            self.model().valid(),
        ensures
            status == self.model().status(),
    {
        self.frames[0].task.status()
    }

    /// Takes the step that reads nothing.
    pub fn step(&mut self)
        requires
            old(self).model().valid(),
            old(self).model().need() is Step,
        ensures
            final(self).model() == old(self).model().stepped(),
            final(self).model().valid(),
    {
        let ghost before = self.model();
        let ghost top_queue = self.frames@.last().queue@;
        assert(before.frames.last().queue == piece_models::<T>(top_queue).reverse());
        match self.frames.pop() {
            Some(mut frame) => {
                match frame.queue.pop() {
                    Some(piece) => {
                        assert(before.frames.last().queue[0] == piece_model::<T>(piece));
                        assert(piece_models::<T>(frame.queue@).reverse()
                            =~= before.frames.last().queue.drop_first());
                        assert(before.valid());
                        assert(all_valid(before.frames.last().queue));
                        self.frames.push(frame);
                        match piece {
                            Piece::Emit(out) => {
                                self.found.push(out);
                            },
                            Piece::Enter(task) => {
                                assert(piece_models::<T>(Seq::empty()).reverse() =~= seq![]);
                                self.frames.push(Frame { queue: Vec::new(), task });
                            },
                        }
                    },
                    None => {},
                }
            },
            None => {},
        }
        assert(self.model().frames =~= before.stepped().frames);
        assert(self.model().found =~= before.stepped().found);
        assert(self.model().valid()) by {
            let after = self.model();
            assert forall|i: int| 0 <= i < after.frames.len() implies (
            #[trigger] after.frames[i]).task.valid() && all_valid(after.frames[i].queue) by {
                if i < before.frames.len() {
                    assert(before.frames[i].task.valid() && all_valid(before.frames[i].queue));
                }
            }
        }
    }

    /// Tells whether the innermost task can take this answer to the read.
    pub fn can_take(&self, reply: Option<&[u8]>) -> (takes: bool)
        requires
            self.model().valid(),
            self.model().need() is Read,
            fits(self.model().need()->Read_0, answer(reply)),
        ensures
            takes == self.model().frames.last().task.accepts(answer(reply)),
    {
        let n: usize = self.frames.len();
        self.frames[n - 1].task.can_take(reply)
    }

    /// Hands the answer to the read to the innermost task.
    pub fn supply(&mut self, reply: Option<&[u8]>)
        requires
            old(self).model().valid(),
            old(self).model().need() is Read,
            fits(old(self).model().need()->Read_0, answer(reply)),
            old(self).model().frames.last().task.accepts(answer(reply)),
        ensures
            final(self).model() == old(self).model().supplied(answer(reply)),
            final(self).model().valid(),
    {
        let ghost before = self.model();
        match self.frames.pop() {
            Some(frame) => {
                let (pieces, task) = frame.task.resume(reply);
                let queue = reversed(pieces);
                assert(piece_models::<T>(queue@).reverse() =~= piece_models::<T>(pieces@));
                self.frames.push(Frame { queue, task });
            },
            None => {},
        }
        assert(self.model().frames =~= before.supplied(answer(reply)).frames);
        assert(self.model().found =~= before.found);
        assert(self.model().valid()) by {
            let after = self.model();
            assert forall|i: int| 0 <= i < after.frames.len() implies (
            #[trigger] after.frames[i]).task.valid() && all_valid(after.frames[i].queue) by {
                assert(before.frames[i].task.valid() && all_valid(before.frames[i].queue));
            }
        }
    }

    /// The results so far.
    pub fn found(&self) -> (found: &Vec<T::Output>)
        ensures
            Seq::new(found@.len(), |i: int| T::output(found@[i])) == self.model().found,
    {
        &self.found
    }

    /// The results so far, taken out of the walk.
    pub fn into_found(self) -> (found: Vec<T::Output>)
        ensures
            Seq::new(found@.len(), |i: int| T::output(found@[i])) == self.model().found,
    {
        self.found
    }
}

/// A vector with its elements in reverse order.
pub fn reversed<A>(items: Vec<A>) -> (out: Vec<A>)
    ensures
        out@ == items@.reverse(),
{
    let mut left = items;
    let mut out: Vec<A> = Vec::new();
    while left.len() > 0
        invariant
            left@ + out@.reverse() =~= items@,
        decreases left@.len(),
    {
        match left.pop() {
            Some(item) => {
                out.push(item);
            },
            None => {},
        }
    }
    assert(out@ =~= items@.reverse());
    out
}

} // verus!
