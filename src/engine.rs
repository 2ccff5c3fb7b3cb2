use vstd::prelude::*;
use crate::compositor::is_frame;
use crate::entity::Updatable;
use crate::input::InputSnapshot;
use crate::schedule::{next_state, SchedulerState};

verus! {

/// The frames that the engine produces and the state it keeps between ticks.
pub trait GameEngine: Sized {
    /// The engine's fields agree with one another.
    spec fn wf(&self) -> bool;

    /// Takes in the decoded input packets that arrived since the last tick,
    /// oldest first, then moves every entity.
    fn update(&mut self, packets: &Vec<Vec<u16>>)
        requires
            old(self).wf(),
        ensures
            final(self).wf(),
    ;

    /// Composites a fresh frame from every entity.
    fn render(&self) -> Vec<u8>
        requires
            self.wf(),
    ;

    /// Stops the engine for good: no further tick yields a frame.
    fn stop(&mut self)
        requires
            old(self).wf(),
        ensures
            final(self).wf(),
    ;
}

/// The buffer after each of `sprites` in turn, first to last, is drawn over
/// `base`: later entities draw over earlier ones.
pub open spec fn composite<E: Updatable>(sprites: Seq<E>, base: Seq<u8>, dims: (usize, usize)) -> Seq<u8>
    decreases sprites.len(),
{
    if sprites.len() == 0 {
        base
    } else {
        sprites.last().rendered(composite(sprites.drop_last(), base, dims), dims)
    }
}

/// A frame of `len` bytes, all zero: transparent black.
pub open spec fn blank(len: nat) -> Seq<u8> {
    Seq::new(len, |i: int| 0u8)
}

/// A server-side rendered engine: entities moved by remote input and drawn
/// into one RGBA frame per tick.
pub struct SsrGameEngine<E> {
    pub dimensions: (usize, usize),
    pub buffer_size: usize,
    pub input: InputSnapshot,
    pub sprites: Vec<E>,
    pub state: SchedulerState,
}

impl<E: Updatable> SsrGameEngine<E> {
    /// The frame that `render` composites from the current entities.
    pub open spec fn frame(&self) -> Seq<u8> {
        composite(self.sprites@, blank(self.buffer_size as nat), self.dimensions)
    }

    /// An engine for frames of `dimensions` pixels holding `sprites`, drawn in
    /// that order, with no input yet.
    pub fn new(dimensions: (usize, usize), sprites: Vec<E>) -> (r: Self)
        requires
            dimensions.0 * dimensions.1 * 4 <= usize::MAX,
        ensures
            r.wf(),
            r.dimensions == dimensions,
            r.sprites@ == sprites@,
            r.input == InputSnapshot::idle(),
            r.state == SchedulerState::Running,
    {
        proof {
            assert(dimensions.0 * dimensions.1 <= dimensions.0 * dimensions.1 * 4) by (nonlinear_arith);
        }
        SsrGameEngine {
            dimensions,
            buffer_size: dimensions.0 * dimensions.1 * 4,
            input: InputSnapshot::new(),
            sprites,
            state: SchedulerState::Running,
        }
    }

    /// The size of a frame, in pixels.
    pub fn dimensions(&self) -> (r: (usize, usize))
        ensures
            r == self.dimensions,
    {
        self.dimensions
    }

    /// The length of a frame, in bytes.
    pub fn buffer_size(&self) -> (r: usize)
        ensures
            r == self.buffer_size,
    {
        self.buffer_size
    }

    /// Whether the engine still produces frames.
    pub fn is_running(&self) -> (r: bool)
        ensures
            r == (self.state == SchedulerState::Running),
    {
        self.state == SchedulerState::Running
    }

    /// Whether a tick with `output_closed` as the state of the frame
    /// consumer yields a frame.
    pub open spec fn emits(&self, output_closed: bool) -> bool {
        self.state == SchedulerState::Running && !output_closed
    }

    /// One tick: if the consumer of frames is gone, or the engine was
    /// stopped, stop and yield nothing; else take in `packets`, move every
    /// entity, and yield the composited frame.
    pub fn tick(&mut self, packets: &Vec<Vec<u16>>, output_closed: bool) -> (r: Option<Vec<u8>>)
        requires
            old(self).wf(),
        ensures
            final(self).wf(),
            r is Some <==> old(self).emits(output_closed),
            !old(self).emits(output_closed) ==> final(self).state == SchedulerState::Stopped
                && final(self).input == old(self).input && final(self).sprites@ == old(self).sprites@,
            old(self).emits(output_closed) ==> final(self).state == SchedulerState::Running && moved(
                old(self),
                final(self),
                packets@.map_values(|p: Vec<u16>| p@),
            ),
            r matches Some(frame) ==> frame@ == final(self).frame() && is_frame(frame@, final(self).dimensions),
            final(self).dimensions == old(self).dimensions,
            final(self).buffer_size == old(self).buffer_size,
    {
        self.state = next_state(self.state, output_closed);
        if self.state == SchedulerState::Stopped {
            return None;
        }
        self.update(packets);
        Some(self.render())
    }
}

/// Stopping is for good: a tick that finds the consumer of frames gone
/// leaves the engine stopped, and no tick of a stopped engine yields a
/// frame, whether or not the consumer is there.
pub proof fn lemma_shutdown_is_final<E: Updatable>(e: SsrGameEngine<E>, output_closed: bool)
    ensures
        e.state == SchedulerState::Stopped ==> !e.emits(output_closed),
        !e.emits(true),
{
}

/// `after` is `before` once `packets` have been taken in and every entity
/// has moved by the resulting magnitudes.
pub open spec fn moved<E: Updatable>(before: &SsrGameEngine<E>, after: &SsrGameEngine<E>, packets: Seq<Seq<u16>>) -> bool {
    &&& after.input == before.input.with_all(packets, before.dimensions)
    &&& after.sprites@ == before.sprites@.map_values(|s: E| s.updated(after.input.keys))
    &&& after.dimensions == before.dimensions
    &&& after.buffer_size == before.buffer_size
    &&& after.state == before.state
}

impl<E: Updatable> GameEngine for SsrGameEngine<E> {
    open spec fn wf(&self) -> bool {
        self.buffer_size == self.dimensions.0 * self.dimensions.1 * 4
    }

    fn update(&mut self, packets: &Vec<Vec<u16>>)
        ensures
            moved(old(self), final(self), packets@.map_values(|p: Vec<u16>| p@)),
    {
        let dims = self.dimensions;
        self.input.apply_all(packets, dims);
        let keys = self.input.keys;
        let ghost before = self.sprites@;
        let ghost input = self.input;
        let mut i: usize = 0;
        while i < self.sprites.len()
            invariant
                i <= self.sprites@.len(),
                self.sprites@.len() == before.len(),
                self.input == input,
                input.keys == keys,
                self.dimensions == old(self).dimensions,
                self.buffer_size == old(self).buffer_size,
                self.state == old(self).state,
                forall|j: int| 0 <= j < before.len() ==> #[trigger] self.sprites@[j] == if j < i {
                    before[j].updated(keys)
                } else {
                    before[j]
                },
            decreases before.len() - i,
        {
            self.sprites[i].update(keys);
            i += 1;
        }
        assert(self.sprites@ =~= before.map_values(|s: E| s.updated(keys)));
    }

    fn render(&self) -> (r: Vec<u8>)
        ensures
            r@ == self.frame(),
            is_frame(r@, self.dimensions),
    {
        let mut buffer: Vec<u8> = vec![0u8; self.buffer_size];
        assert(buffer@ =~= blank(self.buffer_size as nat));
        let mut i: usize = 0;
        while i < self.sprites.len()
            invariant
                self.wf(),
                i <= self.sprites@.len(),
                is_frame(buffer@, self.dimensions),
                buffer@ == composite(self.sprites@.take(i as int), blank(self.buffer_size as nat), self.dimensions),
            decreases self.sprites@.len() - i,
        {
            assert(self.sprites@.take(i + 1).drop_last() =~= self.sprites@.take(i as int));
            self.sprites[i].render(&mut buffer, self.dimensions);
            i += 1;
        }
        assert(self.sprites@.take(i as int) =~= self.sprites@);
        buffer
    }

    fn stop(&mut self)
        ensures
            final(self).state == SchedulerState::Stopped,
            final(self).input == old(self).input,
            final(self).sprites@ == old(self).sprites@,
            final(self).dimensions == old(self).dimensions,
            final(self).buffer_size == old(self).buffer_size,
    {
        self.state = SchedulerState::Stopped;
    }
}

} // verus!
