//! The frame render cache: for each frame the surface that it was rasterized
//! to, and the queue of the frames that wait to be rasterized in the
//! background.
//!
//! A surface is what it is only at one font size. The cache holds surfaces of
//! one size, which it knows by an epoch: a whole number made from the size,
//! such as the size in hundredths. When the epoch changes, every surface goes
//! at once. The work in the background has a token; a change of epoch and a
//! new set of frames each make a new one, and what is handed in under an old
//! token is dropped.

use crate::loader::{next_generation, Loader, LoaderView};
use std::collections::VecDeque;
use vstd::prelude::*;

verus! {

/// What the warmer is to do next.
#[derive(Clone, Copy, Debug, PartialEq, Eq, Structural)]
pub enum WarmStep {
    /// Its token is not the cache's any more: it ends without a word.
    Abandon,
    /// Nothing is to be rasterized now: it stays away for a while and asks
    /// again.
    Wait,
    /// It rasterizes this frame and hands in the surface.
    Rasterize { index: usize },
    /// Every frame that waited is done, and no more will come: it ends.
    Finished,
}

/// The cache's state as plain values.
pub struct CacheView<S> {
    /// For each frame, the surface that it was rasterized to.
    pub slots: Seq<Option<S>>,
    /// The epoch of the surfaces.
    pub epoch: u32,
    /// The warmer's token.
    pub generation: u64,
    /// The frames that wait to be rasterized, in the order in which they came.
    pub queue: Seq<usize>,
}

/// `n` empty slots.
pub open spec fn empty_slots<S>(n: nat) -> Seq<Option<S>> {
    Seq::new(n, |i: int| None::<S>)
}

/// The indices below `n` of the frames among `frames` that have colours, in
/// rising order.
pub open spec fn colored_indices(frames: Seq<crate::frame::FrameView>, n: nat) -> Seq<usize>
    decreases n,
{
    if n == 0 {
        Seq::empty()
    } else {
        let before = colored_indices(frames, (n - 1) as nat);
        if n <= frames.len() && frames[n - 1].cells is Some {
            before.push((n - 1) as usize)
        } else {
            before
        }
    }
}

impl<S> CacheView<S> {
    /// The surface of the frame `index`, if the cache holds one.
    pub open spec fn lookup(self, index: int) -> Option<S> {
        if 0 <= index < self.slots.len() {
            self.slots[index]
        } else {
            None
        }
    }

    /// Whether the frame `index` has nothing to be rasterized for: it has a
    /// surface, or it is no frame of the cache.
    pub open spec fn settled(self, index: int) -> bool {
        !(0 <= index < self.slots.len()) || self.slots[index] is Some
    }

    /// The state without any surface, for a new set of frames.
    pub open spec fn clear(self) -> CacheView<S> {
        CacheView {
            slots: Seq::empty(),
            epoch: 0,
            generation: next_generation(self.generation),
            queue: Seq::empty(),
        }
    }

    /// The state with room for `total` frames: surfaces of frames that stay are
    /// kept.
    pub open spec fn resize(self, total: nat) -> CacheView<S> {
        CacheView {
            slots: if total <= self.slots.len() {
                self.slots.take(total as int)
            } else {
                self.slots + empty_slots((total - self.slots.len()) as nat)
            },
            ..self
        }
    }

    /// The state at the epoch `epoch`: as it is where that is the epoch already,
    /// and else without any surface and with a new token for the warmer.
    pub open spec fn set_epoch(self, epoch: u32) -> CacheView<S> {
        if epoch == self.epoch {
            self
        } else {
            CacheView {
                slots: empty_slots(self.slots.len()),
                epoch,
                generation: next_generation(self.generation),
                ..self
            }
        }
    }

    /// The state with `surface` for the frame `index`; it is unchanged where
    /// the cache has no room for that frame.
    pub open spec fn store(self, index: nat, surface: S) -> CacheView<S> {
        if index < self.slots.len() {
            CacheView { slots: self.slots.update(index as int, Some(surface)), ..self }
        } else {
            self
        }
    }

    /// The state with `surface` for the frame `index`, handed in under the token
    /// `token`; it is unchanged where the token is not the cache's.
    pub open spec fn store_warmed(self, token: u64, index: nat, surface: S) -> CacheView<S> {
        if token == self.generation {
            self.store(index, surface)
        } else {
            self
        }
    }

    /// The state with the frame `index` waiting to be rasterized.
    pub open spec fn enqueue(self, index: usize) -> CacheView<S> {
        CacheView { queue: self.queue.push(index), ..self }
    }

    /// The state when the warmer starts over for the frames of `loader` at the
    /// epoch `epoch`: room for every frame, no surface of another epoch, a new
    /// token, and every frame that has colours waiting. Without a frame that
    /// has colours there is nothing to start, and the state is unchanged.
    pub open spec fn restart(self, loader: LoaderView, epoch: u32) -> CacheView<S> {
        if loader.frames.len() == 0 || !loader.has_any_color() {
            self
        } else {
            let sized = self.resize(loader.frames.len()).set_epoch(epoch);
            CacheView {
                generation: next_generation(self.generation),
                queue: colored_indices(loader.frames, loader.frames.len()),
                ..sized
            }
        }
    }

    /// The number of frames at the head of the queue that have nothing to be
    /// rasterized for.
    pub open spec fn settled_ahead(self) -> nat
        decreases self.queue.len(),
    {
        if self.queue.len() == 0 || !self.settled(self.queue[0] as int) {
            0
        } else {
            1 + (CacheView { queue: self.queue.skip(1), ..self }).settled_ahead()
        }
    }

    /// Whether the warmer with the token `token` is to go on with the queue.
    pub open spec fn warms(self, token: u64, playing: bool, color_enabled: bool) -> bool {
        token == self.generation && !(playing && !color_enabled)
    }

    /// What the warmer with the token `token` is to do next. With an old token
    /// it gives up. While playback runs without colour it waits. Else it takes
    /// the first frame of the queue that has something to be rasterized for; if
    /// there is none, it waits while frames are still being loaded, and is
    /// finished when they are not.
    pub open spec fn warm_step(
        self,
        token: u64,
        playing: bool,
        color_enabled: bool,
        loading_complete: bool,
    ) -> WarmStep {
        if token != self.generation {
            WarmStep::Abandon
        } else if playing && !color_enabled {
            WarmStep::Wait
        } else if self.settled_ahead() < self.queue.len() {
            WarmStep::Rasterize { index: self.queue[self.settled_ahead() as int] }
        } else if loading_complete {
            WarmStep::Finished
        } else {
            WarmStep::Wait
        }
    }

    /// The state behind the warmer's asking what to do next: where it goes on
    /// with the queue, the frames that it passed over and the frame that it
    /// took have left the queue.
    pub open spec fn after_warm_step(
        self,
        token: u64,
        playing: bool,
        color_enabled: bool,
    ) -> CacheView<S> {
        if !self.warms(token, playing, color_enabled) {
            self
        } else if self.settled_ahead() < self.queue.len() {
            CacheView { queue: self.queue.skip(self.settled_ahead() as int + 1), ..self }
        } else {
            CacheView { queue: Seq::empty(), ..self }
        }
    }
}

/// The frame render cache, with surfaces of the type `S`.
#[derive(Debug)]
pub struct FrameRenderCache<S> {
    slots: Vec<Option<S>>,
    epoch: u32,
    generation: u64,
    queue: VecDeque<usize>,
}

impl<S> View for FrameRenderCache<S> {
    type V = CacheView<S>;

    closed spec fn view(&self) -> CacheView<S> {
        CacheView {
            slots: self.slots@,
            epoch: self.epoch,
            generation: self.generation,
            queue: self.queue@,
        }
    }
}

/// The token behind `generation`.
fn bump(generation: u64) -> (next: u64)
    ensures
        next == next_generation(generation),
        next != generation,
{
    if generation == u64::MAX {
        0
    } else {
        generation + 1
    }
}

impl<S> FrameRenderCache<S> {
    /// A cache without room for a frame, at the epoch 0.
    pub fn new() -> (cache: FrameRenderCache<S>)
        ensures
            cache@ == (CacheView::<S> {
                slots: Seq::empty(),
                epoch: 0,
                generation: 0,
                queue: Seq::empty(),
            }),
    {
        FrameRenderCache { slots: Vec::new(), epoch: 0, generation: 0, queue: VecDeque::new() }
    }

    /// The number of frames that the cache has room for.
    pub fn len(&self) -> (n: usize)
        ensures
            n == self@.slots.len(),
    {
        self.slots.len()
    }

    /// The epoch of the surfaces.
    pub fn epoch(&self) -> (epoch: u32)
        ensures
            epoch == self@.epoch,
    {
        self.epoch
    }

    /// The warmer's token.
    pub fn generation(&self) -> (token: u64)
        ensures
            token == self@.generation,
    {
        self.generation
    }

    /// The number of frames that wait to be rasterized.
    pub fn waiting(&self) -> (n: usize)
        ensures
            n == self@.queue.len(),
    {
        self.queue.len()
    }

    /// The surface of the frame `index`, if the cache holds one.
    pub fn lookup(&self, index: usize) -> (surface: Option<&S>)
        ensures
            match surface {
                Some(s) => self@.lookup(index as int) == Some(*s),
                None => self@.lookup(index as int) is None,
            },
    {
        if index < self.slots.len() {
            self.slots[index].as_ref()
        } else {
            None
        }
    }

    /// Whether the cache holds a surface of the frame `index`.
    pub fn has(&self, index: usize) -> (b: bool)
        ensures
            b == self@.lookup(index as int) is Some,
    {
        index < self.slots.len() && self.slots[index].is_some()
    }

    /// Drops every surface and every frame that waits, for a new set of frames.
    pub fn clear(&mut self)
        ensures
            final(self)@ == old(self)@.clear(),
            final(self)@.generation != old(self)@.generation,
    {
        self.slots.clear();
        self.queue.clear();
        self.epoch = 0;
        self.generation = bump(self.generation);
    }

    /// Makes room for `total` frames. Surfaces of frames that stay are kept.
    pub fn resize(&mut self, total: usize)
        ensures
            final(self)@ == old(self)@.resize(total as nat),
    {
        let ghost before = self.slots@;
        if total <= self.slots.len() {
            self.slots.truncate(total);
            assert(self.slots@ =~= before.take(total as int));
        } else {
            while self.slots.len() < total
                invariant
                    before.len() <= self.slots@.len() <= total,
                    self.slots@ == before + empty_slots::<S>((self.slots@.len() - before.len()) as nat),
                    self.epoch == old(self).epoch,
                    self.generation == old(self).generation,
                    self.queue == old(self).queue,
                decreases total - self.slots@.len(),
            {
                let ghost now = self.slots@;
                self.slots.push(None);
                assert(self.slots@ =~= before + empty_slots::<S>(
                    (self.slots@.len() - before.len()) as nat,
                ));
            }
        }
    }

    /// Brings the cache to the epoch `epoch`, and says whether that was a
    /// change. A change drops every surface and makes a new token for the
    /// warmer.
    pub fn set_epoch(&mut self, epoch: u32) -> (changed: bool)
        ensures
            final(self)@ == old(self)@.set_epoch(epoch),
            changed == (epoch != old(self)@.epoch),
            changed ==> final(self)@.generation != old(self)@.generation,
    {
        if epoch == self.epoch {
            return false;
        }
        let mut i: usize = 0;
        while i < self.slots.len()
            invariant
                i <= self.slots@.len() == old(self).slots@.len(),
                forall|k: int| 0 <= k < i ==> (#[trigger] self.slots@[k]) is None,
                self.epoch == old(self).epoch,
                self.generation == old(self).generation,
                self.queue == old(self).queue,
            decreases self.slots@.len() - i,
        {
            self.slots[i] = None;
            i = i + 1;
        }
        assert(self.slots@ =~= empty_slots::<S>(old(self).slots@.len()));
        self.epoch = epoch;
        self.generation = bump(self.generation);
        true
    }

    /// Makes the cache ready to show a frame of `total` at the epoch `epoch`:
    /// room for every frame, and no surface of another epoch. Says whether the
    /// epoch changed.
    pub fn prepare(&mut self, total: usize, epoch: u32) -> (changed: bool)
        ensures
            final(self)@ == old(self)@.resize(total as nat).set_epoch(epoch),
            changed == (epoch != old(self)@.epoch),
    {
        self.resize(total);
        self.set_epoch(epoch)
    }

    /// Keeps `surface` for the frame `index`, and says whether the cache has
    /// room for that frame.
    pub fn store(&mut self, index: usize, surface: S) -> (stored: bool)
        ensures
            final(self)@ == old(self)@.store(index as nat, surface),
            stored == (index < old(self)@.slots.len()),
    {
        if index < self.slots.len() {
            self.slots[index] = Some(surface);
            true
        } else {
            false
        }
    }

    /// Keeps `surface`, which the warmer with the token `token` made, for the
    /// frame `index`, and says whether it did: a surface under a token that is
    /// not the cache's any more is dropped.
    pub fn store_warmed(&mut self, token: u64, index: usize, surface: S) -> (stored: bool)
        ensures
            final(self)@ == old(self)@.store_warmed(token, index as nat, surface),
            stored == (token == old(self)@.generation && index < old(self)@.slots.len()),
    {
        if token == self.generation {
            self.store(index, surface)
        } else {
            false
        }
    }

    /// Lets the frame `index` wait to be rasterized.
    pub fn enqueue(&mut self, index: usize)
        ensures
            final(self)@ == old(self)@.enqueue(index),
    {
        self.queue.push_back(index);
    }

    /// Starts the warmer over for the frames of `loader` at the epoch `epoch`,
    /// and hands out its new token. Without a frame that has colours there is
    /// nothing to start.
    pub fn restart(&mut self, loader: &Loader, epoch: u32) -> (token: Option<u64>)
        ensures
            final(self)@ == old(self)@.restart(loader@, epoch),
            match token {
                Some(t) => loader@.frames.len() > 0 && loader@.has_any_color() && t
                    == final(self)@.generation && t != old(self)@.generation,
                None => loader@.frames.len() == 0 || !loader@.has_any_color(),
            },
    {
        let total = loader.frame_count();
        if total == 0 || !loader.has_any_color() {
            return None;
        }
        let token = bump(self.generation);
        self.resize(total);
        self.set_epoch(epoch);
        self.generation = token;
        self.queue.clear();
        let mut i: usize = 0;
        while i < total
            invariant
                i <= total == loader@.frames.len(),
                self.queue@ == colored_indices(loader@.frames, i as nat),
                self.slots@ == old(self)@.resize(total as nat).set_epoch(epoch).slots,
                self.epoch == epoch,
                self.generation == token,
            decreases total - i,
        {
            match loader.frame(i) {
                Some(frame) => {
                    if frame.has_color() {
                        self.queue.push_back(i);
                    }
                },
                None => {},
            }
            i = i + 1;
        }
        Some(token)
    }

    /// What the warmer with the token `token` is to do next. The frames of the
    /// queue that it passes over, and the frame that it is to rasterize, leave
    /// the queue.
    pub fn next_to_warm(
        &mut self,
        token: u64,
        playing: bool,
        color_enabled: bool,
        loading_complete: bool,
    ) -> (step: WarmStep)
        ensures
            step == old(self)@.warm_step(token, playing, color_enabled, loading_complete),
            final(self)@ == old(self)@.after_warm_step(token, playing, color_enabled),
    {
        if token != self.generation {
            return WarmStep::Abandon;
        }
        if playing && !color_enabled {
            return WarmStep::Wait;
        }
        let ghost start = self@;
        let ghost mut passed: nat = 0;
        proof {
            assert(start.queue.skip(0) =~= start.queue);
        }
        loop
            invariant
                start == old(self)@,
                token == start.generation,
                !(playing && !color_enabled),
                self@.slots == start.slots,
                self@.epoch == start.epoch,
                self@.generation == start.generation,
                passed <= start.queue.len(),
                self@.queue == start.queue.skip(passed as int),
                start.settled_ahead() == passed + self@.settled_ahead(),
            decreases self@.queue.len(),
        {
            let ghost current = self@;
            match self.queue.pop_front() {
                Some(index) => {
                    proof {
                        assert(current.queue[0] == index);
                        assert(current.queue.skip(1) =~= self@.queue);
                        assert(self@ == (CacheView { queue: current.queue.skip(1), ..current }));
                        assert(start.queue.skip(passed as int).skip(1) =~= start.queue.skip(
                            passed as int + 1,
                        ));
                        assert(start.queue[passed as int] == index);
                    }
                    if index < self.slots.len() && self.slots[index].is_none() {
                        proof {
                            assert(!current.settled(index as int));
                            assert(current.settled_ahead() == 0);
                        }
                        return WarmStep::Rasterize { index };
                    }
                    proof {
                        assert(current.settled(index as int));
                        assert(current.settled_ahead() == 1 + self@.settled_ahead());
                        passed = passed + 1;
                    }
                },
                None => {
                    proof {
                        assert(current.settled_ahead() == 0);
                        assert(self@.queue =~= Seq::<usize>::empty());
                    }
                    return if loading_complete {
                        WarmStep::Finished
                    } else {
                        WarmStep::Wait
                    };
                },
            }
        }
    }
}

/// A surface that a warmer hands in under an old token is dropped: once the
/// cache was cleared, or its epoch changed, or the warmer was started over,
/// nothing that was begun before can be stored.
pub proof fn lemma_old_warmer_is_dropped<S>(
    cache: CacheView<S>,
    loader: LoaderView,
    epoch: u32,
    index: nat,
    surface: S,
)
    ensures
        cache.clear().store_warmed(cache.generation, index, surface) == cache.clear(),
        epoch != cache.epoch ==> cache.set_epoch(epoch).store_warmed(
            cache.generation,
            index,
            surface,
        ) == cache.set_epoch(epoch),
        loader.frames.len() > 0 && loader.has_any_color() ==> cache.restart(
            loader,
            epoch,
        ).store_warmed(cache.generation, index, surface) == cache.restart(loader, epoch),
{
}

/// What is stored for a frame is found for that frame, and for no other.
pub proof fn lemma_store_then_lookup<S>(cache: CacheView<S>, index: nat, surface: S, other: int)
    requires
        index < cache.slots.len(),
    ensures
        cache.store(index, surface).lookup(index as int) == Some(surface),
        other != index ==> cache.store(index, surface).lookup(other) == cache.lookup(other),
{
}

} // verus!
