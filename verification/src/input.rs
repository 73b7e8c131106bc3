use vstd::prelude::*;

use crate::utils::Direction;

verus! {

/// What a push leaves in the queue: a full queue drops the input, a push
/// equal to the most recently queued direction is ignored, anything else
/// is appended.
pub open spec fn spec_push(q: Seq<Direction>, dir: Direction) -> Seq<Direction> {
    if q.len() >= 3 {
        q
    } else if q.len() > 0 && q.last() == dir {
        q
    } else {
        q.push(dir)
    }
}

/// A bounded FIFO of at most three pending directional inputs, consumed
/// by the simulation each tick.  Its view is the sequence of queued
/// directions, front first.
pub struct DirectionQueue {
    next: Option<Direction>,
    queued_1: Option<Direction>,
    queued_2: Option<Direction>,
}

/// The singleton or empty sequence an optional slot stands for.
pub open spec fn opt_seq(o: Option<Direction>) -> Seq<Direction> {
    match o {
        Some(d) => seq![d],
        None => Seq::empty(),
    }
}

impl View for DirectionQueue {
    type V = Seq<Direction>;

    closed spec fn view(&self) -> Seq<Direction> {
        opt_seq(self.next) + opt_seq(self.queued_1) + opt_seq(self.queued_2)
    }
}

impl DirectionQueue {
    /// The slots fill front to back: a later slot is occupied only if the
    /// ones before it are.
    pub closed spec fn wf(&self) -> bool {
        &&& self.next is None ==> self.queued_1 is None
        &&& self.queued_1 is None ==> self.queued_2 is None
    }

    /// Appends `dir` to the first free slot, unless `dir` equals the most
    /// recently queued direction; a full queue silently drops the push.
    pub fn push(&mut self, dir: Direction)
        requires
            old(self).wf(),
        ensures
            final(self).wf(),
            final(self)@ == spec_push(old(self)@, dir),
    {
        if self.next.is_none() {
            self.next = Some(dir);
        } else if self.queued_1.is_none() {
            if let Some(prev_dir) = self.next {
                if prev_dir != dir {
                    self.queued_1 = Some(dir);
                }
            }
        } else if self.queued_2.is_none() {
            if let Some(prev_dir) = self.queued_1 {
                if prev_dir != dir {
                    self.queued_2 = Some(dir);
                }
            }
        }
        proof {
            assert(self@ =~= spec_push(old(self)@, dir));
        }
    }

    /// Removes and returns the front element, shifting the rest forward;
    /// `None` means the queue was empty.
    pub fn pop(&mut self) -> (r: Option<Direction>)
        requires
            old(self).wf(),
        ensures
            final(self).wf(),
            old(self)@.len() == 0 ==> r is None && final(self)@ == old(self)@,
            old(self)@.len() > 0 ==> r == Some(old(self)@[0]) && final(self)@ == old(
                self,
            )@.drop_first(),
    {
        if let Some(dir) = self.next {
            self.next = self.queued_1;
            self.queued_1 = self.queued_2;
            self.queued_2 = None;
            proof {
                assert(self@ =~= old(self)@.drop_first());
            }
            Some(dir)
        } else {
            None
        }
    }

    /// Empties all three slots.
    pub fn clear(&mut self)
        ensures
            final(self).wf(),
            final(self)@ == Seq::<Direction>::empty(),
    {
        self.next = None;
        self.queued_1 = None;
        self.queued_2 = None;
        proof {
            assert(self@ =~= Seq::<Direction>::empty());
        }
    }
}

impl Default for DirectionQueue {
    /// An empty queue.
    fn default() -> (q: Self)
        ensures
            q.wf(),
            q@ == Seq::<Direction>::empty(),
    {
        let q = DirectionQueue { next: None, queued_1: None, queued_2: None };
        proof {
            assert(q@ =~= Seq::<Direction>::empty());
        }
        q
    }
}

/// The per-frame inputs the input-handling collaborator hands over: the
/// pending direction queue and whether the speed boost is held down.
pub struct PlayerInput {
    pub input_direction: DirectionQueue,
    pub is_boost_active: bool,
}

impl Default for PlayerInput {
    /// No queued direction and no boost.
    fn default() -> (p: Self)
        ensures
            p.input_direction.wf(),
            p.input_direction@ == Seq::<Direction>::empty(),
            !p.is_boost_active,
    {
        PlayerInput { input_direction: Default::default(), is_boost_active: false }
    }
}

} // verus!
