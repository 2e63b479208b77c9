//! The playback scheduler: which frame is shown, whether the timer runs, and
//! what a tick, a seek or a step does to the two.

use crate::text::{chars_of, parse_u32, read_u32};
use vstd::prelude::*;

verus! {

/// The two states of playback.
#[derive(Clone, Copy, Debug, PartialEq, Eq, Structural)]
pub enum PlayState {
    Stopped,
    Playing,
}

/// What a tick of the timer did.
#[derive(Clone, Copy, Debug, PartialEq, Eq, Structural)]
pub enum Tick {
    /// Playback is stopped, or there is no frame: nothing changed.
    Idle,
    /// The next frame is shown.
    Advanced,
    /// The last frame was shown and playback loops: the first frame is shown.
    Wrapped,
    /// The last frame was shown and playback does not loop: it stopped there.
    Ended,
}

/// The scheduler's state as plain values.
pub struct PlaybackView {
    /// The index of the frame that is shown.
    pub index: nat,
    /// The number of frames.
    pub total: nat,
    /// Whether playback runs.
    pub state: PlayState,
    /// Frames per second.
    pub fps: u32,
    /// Whether playback starts over behind the last frame.
    pub looping: bool,
}

impl PlaybackView {
    /// Whether the index is that of a frame, or 0 where there is none.
    pub open spec fn wf(self) -> bool {
        self.index < self.total || self.index == 0
    }

    /// The index of the last frame, and 0 where there is none.
    pub open spec fn last(self) -> nat {
        if self.total == 0 {
            0
        } else {
            (self.total - 1) as nat
        }
    }

    /// The state behind one tick of the timer.
    pub open spec fn tick(self) -> PlaybackView {
        if self.state == PlayState::Stopped || self.total == 0 {
            self
        } else if self.index + 1 >= self.total {
            if self.looping {
                PlaybackView { index: 0, ..self }
            } else {
                PlaybackView { state: PlayState::Stopped, ..self }
            }
        } else {
            PlaybackView { index: self.index + 1, ..self }
        }
    }

    /// What one tick of the timer reports.
    pub open spec fn tick_report(self) -> Tick {
        if self.state == PlayState::Stopped || self.total == 0 {
            Tick::Idle
        } else if self.index + 1 >= self.total {
            if self.looping {
                Tick::Wrapped
            } else {
                Tick::Ended
            }
        } else {
            Tick::Advanced
        }
    }

    /// The state behind `n` ticks of the timer.
    pub open spec fn ticks(self, n: nat) -> PlaybackView
        decreases n,
    {
        if n == 0 {
            self
        } else {
            self.ticks((n - 1) as nat).tick()
        }
    }

    /// The state behind a seek to the frame `target`: playback is stopped and
    /// the frame shown is `target`, or the last one where `target` is behind it.
    /// Without frames nothing changes.
    pub open spec fn seek(self, target: nat) -> PlaybackView {
        if self.total == 0 {
            self
        } else {
            PlaybackView {
                index: if target < self.total {
                    target
                } else {
                    self.last()
                },
                state: PlayState::Stopped,
                ..self
            }
        }
    }

    /// The state behind a step forward: playback is stopped and the next frame is
    /// shown, the first one behind the last.
    pub open spec fn step_forward(self) -> PlaybackView {
        PlaybackView {
            index: if self.index + 1 >= self.total {
                0
            } else {
                self.index + 1
            },
            state: PlayState::Stopped,
            ..self
        }
    }

    /// The state behind a step backward: playback is stopped and the frame before
    /// is shown, the last one before the first.
    pub open spec fn step_backward(self) -> PlaybackView {
        PlaybackView {
            index: if self.index == 0 {
                self.last()
            } else {
                (self.index - 1) as nat
            },
            state: PlayState::Stopped,
            ..self
        }
    }

    /// The state with `total` frames: the frame shown stays, unless it is none
    /// of them, and then it is the last.
    pub open spec fn with_total(self, total: nat) -> PlaybackView {
        PlaybackView {
            total,
            index: if self.index < total {
                self.index
            } else if total == 0 {
                0
            } else {
                (total - 1) as nat
            },
            ..self
        }
    }
}

/// The time between two ticks at `fps` frames per second, in milliseconds:
/// 1000 / fps rounded to the nearest whole number, halves upwards, and at least
/// 1. At no frames per second it is the longest time there is.
pub open spec fn interval_ms(fps: u32) -> u32 {
    if fps == 0 {
        u32::MAX
    } else if (2000 + fps) / (2 * fps) < 1 {
        1
    } else {
        ((2000 + fps) / (2 * fps)) as u32
    }
}

/// The frame that a seek to the fraction `permille / 1000` of the way from the
/// first frame to the last shows: that fraction of `total - 1`, rounded to the
/// nearest whole number, halves upwards. A fraction above one counts as one.
pub open spec fn seek_target(permille: nat, total: nat) -> nat {
    let p = if permille > 1000 {
        1000
    } else {
        permille
    };
    if total == 0 {
        0
    } else {
        ((2 * p * (total - 1) + 1000) / 2000) as nat
    }
}

/// Whether an audio track at `position_ms` milliseconds is more than a tenth
/// of a second away from the time of the frame `index` at `fps` frames per
/// second, which is `index / fps` seconds.
pub open spec fn audio_out_of_sync(position_ms: nat, index: nat, fps: nat) -> bool {
    let audio = position_ms * fps;
    let frame = 1000 * index;
    if audio >= frame {
        audio - frame > 100 * fps
    } else {
        frame - audio > 100 * fps
    }
}

/// The frame rate that a text entered by the user asks for: a whole number
/// above zero. Any other text asks for none.
pub open spec fn fps_of_input(text: Seq<char>) -> Option<u32> {
    match parse_u32(text) {
        Some(fps) => if fps > 0 {
            Some(fps)
        } else {
            None
        },
        None => None,
    }
}

/// The playback scheduler.
#[derive(Clone, Copy, Debug)]
pub struct Playback {
    index: usize,
    total: usize,
    playing: bool,
    fps: u32,
    looping: bool,
}

impl View for Playback {
    type V = PlaybackView;

    closed spec fn view(&self) -> PlaybackView {
        PlaybackView {
            index: self.index as nat,
            total: self.total as nat,
            state: if self.playing {
                PlayState::Playing
            } else {
                PlayState::Stopped
            },
            fps: self.fps,
            looping: self.looping,
        }
    }
}

impl Playback {
    #[verifier::type_invariant]
    spec fn inv(self) -> bool {
        self.index < self.total || self.index == 0
    }

    /// A stopped scheduler without frames.
    pub fn new(fps: u32, looping: bool) -> (p: Playback)
        ensures
            p@ == (PlaybackView { index: 0, total: 0, state: PlayState::Stopped, fps, looping }),
    {
        Playback { index: 0, total: 0, playing: false, fps, looping }
    }

    /// The index of the frame that is shown.
    pub fn current_index(&self) -> (i: usize)
        ensures
            i == self@.index,
            self@.wf(),
    {
        proof {
            use_type_invariant(self);
        }
        self.index
    }

    /// The number of frames.
    pub fn total(&self) -> (n: usize)
        ensures
            n == self@.total,
    {
        self.total
    }

    /// Whether playback runs.
    pub fn is_playing(&self) -> (b: bool)
        ensures
            b == (self@.state == PlayState::Playing),
    {
        self.playing
    }

    /// The state of playback.
    pub fn state(&self) -> (s: PlayState)
        ensures
            s == self@.state,
    {
        if self.playing {
            PlayState::Playing
        } else {
            PlayState::Stopped
        }
    }

    /// Frames per second.
    pub fn fps(&self) -> (fps: u32)
        ensures
            fps == self@.fps,
    {
        self.fps
    }

    /// Whether playback starts over behind the last frame.
    pub fn is_looping(&self) -> (b: bool)
        ensures
            b == self@.looping,
    {
        self.looping
    }

    /// Starts playback. The frame shown stays.
    pub fn start(&mut self)
        ensures
            final(self)@ == (PlaybackView { state: PlayState::Playing, ..old(self)@ }),
    {
        proof {
            use_type_invariant(&*self);
        }
        self.playing = true;
    }

    /// Stops playback. The frame shown stays.
    pub fn stop(&mut self)
        ensures
            final(self)@ == (PlaybackView { state: PlayState::Stopped, ..old(self)@ }),
    {
        proof {
            use_type_invariant(&*self);
        }
        self.playing = false;
    }

    /// Starts playback where it is stopped, and stops it where it runs.
    pub fn toggle(&mut self)
        ensures
            final(self)@ == (PlaybackView {
                state: if old(self)@.state == PlayState::Playing {
                    PlayState::Stopped
                } else {
                    PlayState::Playing
                },
                ..old(self)@
            }),
    {
        proof {
            use_type_invariant(&*self);
        }
        self.playing = !self.playing;
    }

    /// Sets whether playback starts over behind the last frame.
    pub fn set_looping(&mut self, looping: bool)
        ensures
            final(self)@ == (PlaybackView { looping, ..old(self)@ }),
    {
        proof {
            use_type_invariant(&*self);
        }
        self.looping = looping;
    }

    /// Sets the frame rate. The frame shown and the state of playback stay.
    pub fn set_fps(&mut self, fps: u32)
        ensures
            final(self)@ == (PlaybackView { fps, ..old(self)@ }),
    {
        proof {
            use_type_invariant(&*self);
        }
        self.fps = fps;
    }

    /// Sets the number of frames. The state of playback stays, and so does the
    /// frame shown where it is still one of the frames.
    pub fn set_total(&mut self, total: usize)
        ensures
            final(self)@ == old(self)@.with_total(total as nat),
            final(self)@.wf(),
    {
        proof {
            use_type_invariant(&*self);
        }
        let index = if self.index < total {
            self.index
        } else if total == 0 {
            0
        } else {
            total - 1
        };
        *self = Playback { index, total, ..*self };
    }

    /// One tick of the timer: while playback runs, the next frame is shown;
    /// behind the last frame playback starts over if it loops, and else stops
    /// on the last frame.
    pub fn tick(&mut self) -> (t: Tick)
        ensures
            final(self)@ == old(self)@.tick(),
            t == old(self)@.tick_report(),
            final(self)@.wf(),
    {
        proof {
            use_type_invariant(&*self);
        }
        if !self.playing || self.total == 0 {
            Tick::Idle
        } else if self.index >= self.total - 1 {
            if self.looping {
                self.index = 0;
                Tick::Wrapped
            } else {
                self.playing = false;
                Tick::Ended
            }
        } else {
            self.index = self.index + 1;
            Tick::Advanced
        }
    }

    /// Shows the frame `target`, or the last frame where `target` is behind it,
    /// and stops playback. Without frames nothing changes.
    pub fn seek(&mut self, target: usize)
        ensures
            final(self)@ == old(self)@.seek(target as nat),
            final(self)@.wf(),
    {
        proof {
            use_type_invariant(&*self);
        }
        if self.total > 0 {
            let index = if target < self.total {
                target
            } else {
                self.total - 1
            };
            *self = Playback { index, playing: false, ..*self };
        }
    }

    /// Shows the frame at the fraction `permille / 1000` of the way from the
    /// first frame to the last, and stops playback.
    pub fn seek_permille(&mut self, permille: u32)
        ensures
            final(self)@ == old(self)@.seek(seek_target(permille as nat, old(self)@.total)),
            final(self)@.wf(),
    {
        let target = frame_at_permille(permille, self.total);
        self.seek(target);
    }

    /// Stops playback and shows the next frame, the first one behind the last.
    pub fn step_forward(&mut self)
        ensures
            final(self)@ == old(self)@.step_forward(),
            final(self)@.wf(),
    {
        proof {
            use_type_invariant(&*self);
        }
        let index = if self.total == 0 || self.index >= self.total - 1 {
            0
        } else {
            self.index + 1
        };
        *self = Playback { index, playing: false, ..*self };
    }

    /// Stops playback and shows the frame before, the last one before the
    /// first.
    pub fn step_backward(&mut self)
        ensures
            final(self)@ == old(self)@.step_backward(),
            final(self)@.wf(),
    {
        proof {
            use_type_invariant(&*self);
        }
        let index = if self.index == 0 {
            if self.total == 0 {
                0
            } else {
                self.total - 1
            }
        } else {
            self.index - 1
        };
        *self = Playback { index, playing: false, ..*self };
    }

    /// The time between two ticks of the timer, in milliseconds, while the timer
    /// runs: that is while playback runs and there is a frame.
    pub fn timer(&self) -> (t: Option<u32>)
        ensures
            t == if self@.state == PlayState::Playing && self@.total > 0 {
                Some(interval_ms(self@.fps))
            } else {
                None
            },
    {
        if self.playing && self.total > 0 {
            Some(tick_interval_ms(self.fps))
        } else {
            None
        }
    }

    /// Whether an audio track at `position_ms` milliseconds has to be moved to
    /// the time of the frame shown before it plays on: it has where it is more
    /// than a tenth of a second away from it.
    pub fn audio_needs_seek(&self, position_ms: u64) -> (b: bool)
        ensures
            b == (self@.total > 0 && self@.fps > 0 && audio_out_of_sync(
                position_ms as nat,
                self@.index,
                self@.fps as nat,
            )),
    {
        if self.total == 0 || self.fps == 0 {
            return false;
        }
        assert(position_ms as nat * self.fps as nat <= 0xffff_ffff_ffff_ffff * 0xffff_ffff)
            by (nonlinear_arith)
            requires
                position_ms <= 0xffff_ffff_ffff_ffff,
                self.fps <= 0xffff_ffff,
        ;
        let audio: u128 = (position_ms as u128) * (self.fps as u128);
        let frame: u128 = 1000 * (self.index as u128);
        let limit: u128 = 100 * (self.fps as u128);
        if audio >= frame {
            audio - frame > limit
        } else {
            frame - audio > limit
        }
    }
}

/// The time between two ticks at `fps` frames per second, in milliseconds.
pub fn tick_interval_ms(fps: u32) -> (ms: u32)
    ensures
        ms == interval_ms(fps),
{
    if fps == 0 {
        return u32::MAX;
    }
    let rounded: u64 = (2000 + fps as u64) / (2 * fps as u64);
    if rounded < 1 {
        1
    } else {
        rounded as u32
    }
}

/// The frame at the fraction `permille / 1000` of the way from the first of
/// `total` frames to the last.
pub fn frame_at_permille(permille: u32, total: usize) -> (index: usize)
    ensures
        index == seek_target(permille as nat, total as nat),
        total > 0 ==> index < total,
{
    if total == 0 {
        return 0;
    }
    let p: u128 = if permille > 1000 {
        1000
    } else {
        permille as u128
    };
    let last: u128 = (total - 1) as u128;
    assert(2 * p * last <= 2000 * last) by (nonlinear_arith)
        requires
            p <= 1000,
            0 <= last,
    ;
    let scaled: u128 = (2 * p * last + 1000) / 2000;
    scaled as usize
}

/// The frame rate that the text `text` asks for, if it asks for one.
pub fn fps_from_input(text: &str) -> (r: Option<u32>)
    ensures
        r == fps_of_input(text@),
{
    let v = chars_of(text);
    assert(v@.subrange(0, v@.len() as int) == v@);
    match read_u32(v.as_slice(), 0, v.len()) {
        Some(fps) => if fps > 0 {
            Some(fps)
        } else {
            None
        },
        None => None,
    }
}

/// The frame shown is always one of the frames: no tick, seek, step or change
/// of the number of frames leads out of them.
pub proof fn lemma_index_stays_in_range(v: PlaybackView, target: nat, total: nat)
    requires
        v.wf(),
    ensures
        v.tick().wf(),
        v.seek(target).wf(),
        v.step_forward().wf(),
        v.step_backward().wf(),
        v.with_total(total).wf(),
{
}

/// A seek or a step takes precedence over playback: it leaves playback
/// stopped, on the frame that it asked for.
pub proof fn lemma_manual_control_stops(v: PlaybackView, target: nat)
    requires
        v.wf(),
        v.total > 0,
    ensures
        v.seek(target).state == PlayState::Stopped,
        target < v.total ==> v.seek(target).index == target,
        v.step_forward().state == PlayState::Stopped,
        v.step_backward().state == PlayState::Stopped,
        v.step_forward().step_backward().index == v.index,
        v.step_backward().step_forward().index == v.index,
{
}

/// Without looping, playback never goes back: a tick leaves the frame shown
/// where it is or moves it on by one, and when playback has stopped on the last
/// frame, ticks change nothing.
pub proof fn lemma_tick_without_loop(v: PlaybackView)
    requires
        v.wf(),
        !v.looping,
    ensures
        v.index <= v.tick().index <= v.index + 1,
        v.tick().state == PlayState::Stopped ==> v.tick().tick() == v.tick(),
{
}

/// Without looping, `n` ticks of running playback move the frame shown on by
/// `n`, but not past the last frame; the tick on the last frame stops playback
/// there.
pub proof fn lemma_ticks_without_loop(v: PlaybackView, n: nat)
    requires
        v.wf(),
        v.total > 0,
        v.state == PlayState::Playing,
        !v.looping,
    ensures
        v.ticks(n).index == if v.index + n < v.total {
            v.index + n
        } else {
            v.last()
        },
        v.ticks(n).state == if v.index + n < v.total {
            PlayState::Playing
        } else {
            PlayState::Stopped
        },
        v.ticks(n).total == v.total,
        v.ticks(n).looping == v.looping,
        v.ticks(n).fps == v.fps,
    decreases n,
{
    if n > 0 {
        lemma_ticks_without_loop(v, (n - 1) as nat);
    }
}

/// With looping, `n` ticks of running playback move the frame shown on by `n`
/// and start over behind the last frame; playback goes on.
pub proof fn lemma_ticks_with_loop(v: PlaybackView, n: nat)
    requires
        v.wf(),
        v.total > 0,
        v.state == PlayState::Playing,
        v.looping,
    ensures
        v.ticks(n).index == (v.index + n) % v.total,
        v.ticks(n).state == PlayState::Playing,
        v.ticks(n).total == v.total,
        v.ticks(n).looping == v.looping,
        v.ticks(n).fps == v.fps,
    decreases n,
{
    if n == 0 {
        vstd::arithmetic::div_mod::lemma_small_mod(v.index, v.total);
    } else {
        lemma_ticks_with_loop(v, (n - 1) as nat);
        let before = (v.index + n - 1) as int;
        let total = v.total as int;
        vstd::arithmetic::div_mod::lemma_fundamental_div_mod(before, total);
        vstd::arithmetic::div_mod::lemma_mod_pos_bound(before, total);
        let q = before / total;
        let r = before % total;
        assert(total * q == q * total) by (nonlinear_arith);
        if r + 1 >= total {
            assert(before + 1 == (q + 1) * total + 0) by (nonlinear_arith)
                requires
                    before == q * total + r,
                    r + 1 == total,
            ;
            vstd::arithmetic::div_mod::lemma_fundamental_div_mod_converse(
                before + 1,
                total,
                q + 1,
                0,
            );
        } else {
            vstd::arithmetic::div_mod::lemma_fundamental_div_mod_converse(
                before + 1,
                total,
                q,
                r + 1,
            );
        }
    }
}

/// The time between two ticks is 1000 / fps milliseconds to the nearest whole
/// number, as long as that is at least one: it is off by half a millisecond at
/// most.
pub proof fn lemma_interval_is_nearest(fps: u32)
    requires
        0 < fps <= 2000,
    ensures
        2 * interval_ms(fps) * fps - fps <= 2000 < 2 * interval_ms(fps) * fps + fps,
{
    let d = 2 * fps as int;
    let x = 2000 + fps as int;
    vstd::arithmetic::div_mod::lemma_fundamental_div_mod(x, d);
    vstd::arithmetic::div_mod::lemma_mod_pos_bound(x, d);
    let q = x / d;
    assert(q >= 1) by {
        if q < 1 {
            assert(d * q <= 0) by (nonlinear_arith)
                requires
                    q <= 0,
                    d > 0,
            ;
        }
    }
    assert(d * q == 2 * q * fps) by (nonlinear_arith)
        requires
            d == 2 * fps,
    ;
}

} // verus!
