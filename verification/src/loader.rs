//! The progressive loader: the frames of one load, the phase that the load is
//! in, and what each result of the work in the background does to them.
//!
//! A load has two phases. The first reads the text of every frame and publishes
//! all of them at once, or none. The second reads the colours of one frame
//! after the other and gives each frame its colours as they come; a frame
//! without colours, or with colours that are no grid of its own, stays text.
//! Every load has a token. Work that was begun for an earlier load still hands
//! in results under that load's token, and they are dropped.

use crate::codec::{
    cframe_colors, cframe_glyphs, decode_cframe, format_error, header_height, header_width,
    CFrameData, CFrameView, Container,
};
use crate::frame::{Frame, FrameView};
use crate::text::{decimal_string, decimal_text};
use vstd::prelude::*;

verus! {

/// The phases of a load.
#[derive(Clone, Copy, Debug, PartialEq, Eq, Structural)]
pub enum LoadingPhase {
    /// Nothing is being loaded.
    Idle,
    /// The texts of the frames are being read.
    LoadingText,
    /// The texts are published and the colours are being read.
    LoadingColors,
    /// The texts and the colours are read.
    Complete,
}

/// The place of a phase in the course of a load.
pub open spec fn phase_rank(phase: LoadingPhase) -> nat {
    match phase {
        LoadingPhase::Idle => 0,
        LoadingPhase::LoadingText => 1,
        LoadingPhase::LoadingColors => 2,
        LoadingPhase::Complete => 3,
    }
}

/// What became of the colours that were handed in for one frame.
#[derive(Clone, Copy, Debug, PartialEq, Eq, Structural)]
pub enum ColorOutcome {
    /// They belong to an earlier load, or no colours are being read: dropped.
    Stale,
    /// There is no frame with that index: dropped.
    OutOfRange,
    /// The frame has no colours: there were none, or the frame did not accept
    /// them.
    NoColor,
    /// The frame has them now.
    Attached,
}

/// How long work in the background stays away between two frames while
/// playback runs without colour, in milliseconds.
pub const BACKOFF_MS: u32 = 12;

/// How long work in the background stays away between two frames, in
/// milliseconds: longer while playback runs and colour is not shown, and else
/// no longer than it takes to let other work run.
pub open spec fn yield_ms(playing: bool, color_enabled: bool) -> u32 {
    if playing && !color_enabled {
        BACKOFF_MS
    } else {
        0
    }
}

/// How long work in the background stays away before its next frame.
pub fn yield_delay(playing: bool, color_enabled: bool) -> (ms: u32)
    ensures
        ms == yield_ms(playing, color_enabled),
{
    if playing && !color_enabled {
        BACKOFF_MS
    } else {
        0
    }
}

/// The words for a frame whose text could not be read: they name the frame and
/// give the cause.
pub open spec fn text_failure_text(frame: Seq<char>, cause: Seq<char>) -> Seq<char> {
    "Failed to read frame "@ + frame + ": "@ + cause
}

/// The words for the frame `frame` whose text could not be read for the cause
/// `cause`.
pub fn text_failure_message(frame: &str, cause: &str) -> (m: String)
    ensures
        m@ == text_failure_text(frame@, cause@),
{
    let mut m = "Failed to read frame ".to_owned();
    m.append(frame);
    m.append(": ");
    m.append(cause);
    m
}

/// The words for a load that found no frame.
pub open spec fn no_frames_text() -> Seq<char> {
    "No frames found in directory"@
}

/// The frames with the texts `texts` and no colours.
pub open spec fn text_frames(texts: Seq<Seq<char>>) -> Seq<FrameView> {
    Seq::new(texts.len(), |i: int| FrameView { content: texts[i], cells: None })
}

/// The token of the load behind the one with the token `generation`.
pub open spec fn next_generation(generation: u64) -> u64 {
    if generation == u64::MAX {
        0
    } else {
        (generation + 1) as u64
    }
}

/// The loader's state as plain values.
pub struct LoaderView {
    /// The token of the load.
    pub generation: u64,
    /// The phase that the load is in.
    pub phase: LoadingPhase,
    /// The frames that are published.
    pub frames: Seq<FrameView>,
    /// The number of frames whose colours were asked for.
    pub done: nat,
    /// Why the load failed, if it did.
    pub error: Option<Seq<char>>,
}

impl LoaderView {
    /// Whether every frame is well formed, no colours were asked for of more
    /// frames than there are, and no frame is published before the texts are
    /// read.
    pub open spec fn wf(self) -> bool {
        &&& forall|i: int| 0 <= i < self.frames.len() ==> (#[trigger] self.frames[i]).wf()
        &&& self.done <= self.frames.len()
        &&& phase_rank(self.phase) < 2 ==> self.frames.len() == 0
        &&& self.error is Some ==> self.phase == LoadingPhase::LoadingText
    }

    /// Whether one of the frames has colours.
    pub open spec fn has_any_color(self) -> bool {
        exists|i: int| 0 <= i < self.frames.len() && (#[trigger] self.frames[i]).cells is Some
    }

    /// Whether the texts of the load with the token `token` are waited for.
    pub open spec fn awaits_text(self, token: u64) -> bool {
        token == self.generation && self.phase == LoadingPhase::LoadingText && self.error is None
    }

    /// Whether the colours of the load with the token `token` are waited for.
    pub open spec fn awaits_colors(self, token: u64) -> bool {
        token == self.generation && self.phase == LoadingPhase::LoadingColors
    }

    /// The state when a new load begins, or, with `chosen` false, when there is
    /// nothing to load any more: a new token, no frames, no error.
    pub open spec fn begin(self, chosen: bool) -> LoaderView {
        LoaderView {
            generation: next_generation(self.generation),
            phase: if chosen {
                LoadingPhase::LoadingText
            } else {
                LoadingPhase::Idle
            },
            frames: Seq::empty(),
            done: 0,
            error: None,
        }
    }

    /// The state when the texts of all frames are handed in: they are published
    /// together and the colours are waited for. Without a single text the load
    /// has failed. Texts that are not waited for change nothing.
    pub open spec fn text_loaded(self, token: u64, texts: Seq<Seq<char>>) -> LoaderView {
        if !self.awaits_text(token) {
            self
        } else if texts.len() == 0 {
            LoaderView { error: Some(no_frames_text()), ..self }
        } else {
            LoaderView {
                phase: LoadingPhase::LoadingColors,
                frames: text_frames(texts),
                done: 0,
                ..self
            }
        }
    }

    /// The state when reading the texts has failed: no frame is published, and
    /// the error is kept. A failure that is not waited for changes nothing.
    pub open spec fn text_failed(self, token: u64, message: Seq<char>) -> LoaderView {
        if self.awaits_text(token) {
            LoaderView { error: Some(message), ..self }
        } else {
            self
        }
    }

    /// The state when the colours of the frame `index` are handed in, or the
    /// word that it has none: the frame has them if it accepts them, and the
    /// colours of `index + 1` frames were asked for. What is not waited for, or
    /// is meant for a frame that does not exist, changes nothing.
    pub open spec fn color_loaded(
        self,
        token: u64,
        index: nat,
        payload: Option<CFrameView>,
    ) -> LoaderView {
        if !self.awaits_colors(token) || index >= self.frames.len() {
            self
        } else {
            LoaderView {
                frames: match payload {
                    Some(cells) => self.frames.update(
                        index as int,
                        self.frames[index as int].attach(cells),
                    ),
                    None => self.frames,
                },
                done: index + 1,
                ..self
            }
        }
    }

    /// What handing in the colours of the frame `index` reports.
    pub open spec fn color_outcome(
        self,
        token: u64,
        index: nat,
        payload: Option<CFrameView>,
    ) -> ColorOutcome {
        if !self.awaits_colors(token) {
            ColorOutcome::Stale
        } else if index >= self.frames.len() {
            ColorOutcome::OutOfRange
        } else {
            match payload {
                Some(cells) => if self.frames[index as int].accepts(cells) {
                    ColorOutcome::Attached
                } else {
                    ColorOutcome::NoColor
                },
                None => ColorOutcome::NoColor,
            }
        }
    }

    /// The state when the colours of all frames were asked for: the load is
    /// complete. Where no colours are waited for nothing changes.
    pub open spec fn colors_finished(self, token: u64) -> LoaderView {
        if self.awaits_colors(token) {
            LoaderView { phase: LoadingPhase::Complete, ..self }
        } else {
            self
        }
    }

    /// The share of the frames whose colours were asked for, in percent,
    /// rounded down.
    pub open spec fn color_percent(self) -> nat {
        if self.frames.len() == 0 {
            0
        } else {
            self.done * 100 / self.frames.len()
        }
    }

    /// The words that tell how far the colours are loaded, while they are being
    /// loaded.
    pub open spec fn color_message(self) -> Option<Seq<char>> {
        if self.phase == LoadingPhase::LoadingColors && self.frames.len() > 0 {
            Some("Loading colors: "@ + decimal_text(self.color_percent()) + "%"@)
        } else {
            None
        }
    }
}

/// What a CFrame container that may be missing yields for a frame's colours:
/// the decoded cells, and nothing where it is missing or malformed.
pub open spec fn payload_result(bytes: Option<Seq<u8>>, r: Option<CFrameData>) -> bool {
    match bytes {
        Some(data) => if format_error(Container::CFrame, data) is None {
            &&& r matches Some(frame)
            &&& frame.width == header_width(data)
            &&& frame.height == header_height(data)
            &&& frame.chars@ == cframe_glyphs(data)
            &&& frame.rgb@ == cframe_colors(data)
        } else {
            r is None
        },
        None => r is None,
    }
}

/// The colours of a frame from its CFrame container, if it has one. A
/// container that is malformed counts as none.
pub fn color_payload(bytes: Option<&[u8]>) -> (r: Option<CFrameData>)
    ensures
        payload_result(
            match bytes {
                Some(data) => Some(data@),
                None => None,
            },
            r,
        ),
{
    match bytes {
        Some(data) => match decode_cframe(data) {
            Ok(frame) => Some(frame),
            Err(_) => None,
        },
        None => None,
    }
}

/// The frames `frames` as plain values.
pub open spec fn frame_views(frames: Seq<Frame>) -> Seq<FrameView> {
    frames.map_values(|f: Frame| f@)
}

/// The texts `texts` as plain values.
pub open spec fn text_views(texts: Seq<String>) -> Seq<Seq<char>> {
    texts.map_values(|t: String| t@)
}

/// The loader: the single owner of the frames of a load.
#[derive(Debug)]
pub struct Loader {
    generation: u64,
    phase: LoadingPhase,
    frames: Vec<Frame>,
    done: usize,
    any_color: bool,
    error: Option<String>,
}

impl View for Loader {
    type V = LoaderView;

    closed spec fn view(&self) -> LoaderView {
        LoaderView {
            generation: self.generation,
            phase: self.phase,
            frames: frame_views(self.frames@),
            done: self.done as nat,
            error: match self.error {
                Some(message) => Some(message@),
                None => None,
            },
        }
    }
}

impl Loader {
    #[verifier::type_invariant]
    spec fn inv(self) -> bool {
        self@.wf() && self.any_color == self@.has_any_color()
    }

    /// A loader that loads nothing.
    pub fn new() -> (loader: Loader)
        ensures
            loader@ == (LoaderView {
                generation: 0,
                phase: LoadingPhase::Idle,
                frames: Seq::empty(),
                done: 0,
                error: None,
            }),
            loader@.wf(),
    {
        let loader = Loader {
            generation: 0,
            phase: LoadingPhase::Idle,
            frames: Vec::new(),
            done: 0,
            any_color: false,
            error: None,
        };
        assert(frame_views(loader.frames@) =~= Seq::<FrameView>::empty());
        loader
    }

    /// The token of the load.
    pub fn generation(&self) -> (token: u64)
        ensures
            token == self@.generation,
    {
        self.generation
    }

    /// The phase that the load is in.
    pub fn phase(&self) -> (phase: LoadingPhase)
        ensures
            phase == self@.phase,
            self@.wf(),
    {
        proof {
            use_type_invariant(self);
        }
        self.phase
    }

    /// The number of frames that are published.
    pub fn frame_count(&self) -> (n: usize)
        ensures
            n == self@.frames.len(),
    {
        self.frames.len()
    }

    /// The frame `index`, if it is published.
    pub fn frame(&self, index: usize) -> (frame: Option<&Frame>)
        ensures
            match frame {
                Some(f) => index < self@.frames.len() && f@ == self@.frames[index as int]
                    && f@.wf(),
                None => index >= self@.frames.len(),
            },
    {
        proof {
            use_type_invariant(self);
        }
        if index < self.frames.len() {
            Some(&self.frames[index])
        } else {
            None
        }
    }

    /// Whether one of the frames has colours.
    pub fn has_any_color(&self) -> (b: bool)
        ensures
            b == self@.has_any_color(),
    {
        proof {
            use_type_invariant(self);
        }
        self.any_color
    }

    /// The number of frames whose colours were asked for, and the number of
    /// frames.
    pub fn color_progress(&self) -> (p: (usize, usize))
        ensures
            p.0 == self@.done,
            p.1 == self@.frames.len(),
            p.0 <= p.1,
    {
        proof {
            use_type_invariant(self);
        }
        (self.done, self.frames.len())
    }

    /// The share of the frames whose colours were asked for, in percent.
    pub fn color_percent(&self) -> (percent: u8)
        ensures
            percent == self@.color_percent(),
            percent <= 100,
    {
        proof {
            use_type_invariant(self);
        }
        let total = self.frames.len();
        if total == 0 {
            0
        } else {
            let share: u128 = (self.done as u128) * 100 / (total as u128);
            assert(share <= 100) by (nonlinear_arith)
                requires
                    share == (self.done as int) * 100 / (total as int),
                    self.done <= total,
                    total > 0,
            ;
            share as u8
        }
    }

    /// The words that tell how far the colours are loaded, while they are being
    /// loaded.
    pub fn color_message(&self) -> (m: Option<String>)
        ensures
            match m {
                Some(text) => self@.color_message() == Some(text@),
                None => self@.color_message() is None,
            },
    {
        if self.phase == LoadingPhase::LoadingColors && self.frames.len() > 0 {
            let mut text = "Loading colors: ".to_owned();
            text.append(decimal_string(self.color_percent() as u128).as_str());
            text.append("%");
            Some(text)
        } else {
            None
        }
    }

    /// Why the load failed, if it did.
    pub fn error(&self) -> (e: Option<&String>)
        ensures
            match e {
                Some(message) => self@.error == Some(message@),
                None => self@.error is None,
            },
    {
        self.error.as_ref()
    }

    /// Begins a new load, or, with `chosen` false, ends the load without a new
    /// one. Hands out the token of the new load.
    pub fn begin(&mut self, chosen: bool) -> (token: u64)
        ensures
            final(self)@ == old(self)@.begin(chosen),
            token == final(self)@.generation,
            token != old(self)@.generation,
            final(self)@.wf(),
    {
        proof {
            use_type_invariant(&*self);
        }
        let generation = if self.generation == u64::MAX {
            0
        } else {
            self.generation + 1
        };
        let phase = if chosen {
            LoadingPhase::LoadingText
        } else {
            LoadingPhase::Idle
        };
        let next = Loader {
            generation,
            phase,
            frames: Vec::new(),
            done: 0,
            any_color: false,
            error: None,
        };
        assert(frame_views(next.frames@) =~= Seq::<FrameView>::empty());
        *self = next;
        generation
    }

    /// Publishes the texts of all frames of the load with the token `token`,
    /// and says whether they were waited for.
    pub fn text_loaded(&mut self, token: u64, texts: Vec<String>) -> (accepted: bool)
        ensures
            final(self)@ == old(self)@.text_loaded(token, text_views(texts@)),
            accepted == old(self)@.awaits_text(token),
            final(self)@.wf(),
    {
        proof {
            use_type_invariant(&*self);
        }
        if token != self.generation || self.phase != LoadingPhase::LoadingText
            || self.error.is_some() {
            return false;
        }
        if texts.len() == 0 {
            self.error = Some("No frames found in directory".to_owned());
            return true;
        }
        let mut frames: Vec<Frame> = Vec::new();
        let mut i: usize = 0;
        while i < texts.len()
            invariant
                i <= texts@.len(),
                frames@.len() == i,
                forall|k: int|
                    0 <= k < i ==> (#[trigger] frames@[k])@ == (FrameView {
                        content: texts@[k]@,
                        cells: None,
                    }),
            decreases texts@.len() - i,
        {
            frames.push(Frame::text_only(texts[i].clone()));
            i = i + 1;
        }
        assert(frame_views(frames@) =~= text_frames(text_views(texts@)));
        let next = Loader {
            generation: self.generation,
            phase: LoadingPhase::LoadingColors,
            frames,
            done: 0,
            any_color: false,
            error: None,
        };
        *self = next;
        true
    }

    /// Records that reading the texts of the load with the token `token` has
    /// failed, and says whether the texts were waited for.
    pub fn text_failed(&mut self, token: u64, message: String) -> (accepted: bool)
        ensures
            final(self)@ == old(self)@.text_failed(token, message@),
            accepted == old(self)@.awaits_text(token),
            final(self)@.wf(),
    {
        proof {
            use_type_invariant(&*self);
        }
        if token != self.generation || self.phase != LoadingPhase::LoadingText
            || self.error.is_some() {
            return false;
        }
        self.error = Some(message);
        true
    }

    /// Hands in the colours of the frame `index` of the load with the token
    /// `token`, or the word that it has none.
    pub fn color_loaded(&mut self, token: u64, index: usize, payload: Option<CFrameData>) -> (outcome:
        ColorOutcome)
        ensures
            final(self)@ == old(self)@.color_loaded(
                token,
                index as nat,
                match payload {
                    Some(cells) => Some(cells@),
                    None => None,
                },
            ),
            outcome == old(self)@.color_outcome(
                token,
                index as nat,
                match payload {
                    Some(cells) => Some(cells@),
                    None => None,
                },
            ),
            final(self)@.wf(),
    {
        proof {
            use_type_invariant(&*self);
        }
        if token != self.generation || self.phase != LoadingPhase::LoadingColors {
            return ColorOutcome::Stale;
        }
        if index >= self.frames.len() {
            return ColorOutcome::OutOfRange;
        }
        let ghost before = frame_views(self.frames@);
        match payload {
            Some(cells) => {
                if self.frames[index].accepts(&cells) {
                    let ghost attached = before[index as int].attach(cells@);
                    let mut taken = Loader::new();
                    core::mem::swap(&mut taken, self);
                    let Loader { generation, phase, frames, done: _, any_color: _, error } = taken;
                    let mut frames = frames;
                    frames[index].cframe = Some(cells);
                    assert(frame_views(frames@) =~= before.update(index as int, attached));
                    assert(frame_views(frames@)[index as int].cells is Some);
                    *self = Loader {
                        generation,
                        phase,
                        frames,
                        done: index + 1,
                        any_color: true,
                        error,
                    };
                    ColorOutcome::Attached
                } else {
                    assert(before.update(index as int, before[index as int]) =~= before);
                    self.done = index + 1;
                    ColorOutcome::NoColor
                }
            },
            None => {
                self.done = index + 1;
                ColorOutcome::NoColor
            },
        }
    }

    /// Records that the colours of all frames of the load with the token
    /// `token` were asked for, and says whether colours were waited for.
    pub fn colors_finished(&mut self, token: u64) -> (accepted: bool)
        ensures
            final(self)@ == old(self)@.colors_finished(token),
            accepted == old(self)@.awaits_colors(token),
            final(self)@.wf(),
    {
        proof {
            use_type_invariant(&*self);
        }
        if token != self.generation || self.phase != LoadingPhase::LoadingColors {
            return false;
        }
        self.phase = LoadingPhase::Complete;
        true
    }
}

/// The loader's state stays well formed whatever is handed in.
pub proof fn lemma_loader_stays_well_formed(
    v: LoaderView,
    chosen: bool,
    token: u64,
    texts: Seq<Seq<char>>,
    message: Seq<char>,
    index: nat,
    payload: Option<CFrameView>,
)
    requires
        v.wf(),
    ensures
        v.begin(chosen).wf(),
        v.text_loaded(token, texts).wf(),
        v.text_failed(token, message).wf(),
        v.color_loaded(token, index, payload).wf(),
        v.colors_finished(token).wf(),
{
    let after = v.color_loaded(token, index, payload);
    assert forall|i: int| 0 <= i < after.frames.len() implies (#[trigger] after.frames[i]).wf() by {
        assert(v.frames[i].wf());
    }
}

/// A load goes through its phases in one direction: nothing that is handed in
/// takes it back to an earlier phase. Only a new load begins again.
pub proof fn lemma_phases_go_forward(
    v: LoaderView,
    token: u64,
    texts: Seq<Seq<char>>,
    message: Seq<char>,
    index: nat,
    payload: Option<CFrameView>,
)
    ensures
        phase_rank(v.text_loaded(token, texts).phase) >= phase_rank(v.phase),
        phase_rank(v.text_failed(token, message).phase) >= phase_rank(v.phase),
        phase_rank(v.color_loaded(token, index, payload).phase) >= phase_rank(v.phase),
        phase_rank(v.colors_finished(token).phase) >= phase_rank(v.phase),
{
}

/// What is handed in under the token of an earlier load is dropped: it changes
/// nothing. A new load makes every token that was handed out before it stale.
pub proof fn lemma_stale_results_are_dropped(
    v: LoaderView,
    chosen: bool,
    token: u64,
    texts: Seq<Seq<char>>,
    message: Seq<char>,
    index: nat,
    payload: Option<CFrameView>,
)
    requires
        token != v.generation,
    ensures
        v.text_loaded(token, texts) == v,
        v.text_failed(token, message) == v,
        v.color_loaded(token, index, payload) == v,
        v.colors_finished(token) == v,
        v.begin(chosen).generation != v.generation,
{
}

/// The texts of a load are published all at once or not at all: when the first
/// phase fails no frame is published, and when it succeeds there is a frame for
/// every text, in order.
pub proof fn lemma_texts_all_or_none(
    v: LoaderView,
    token: u64,
    texts: Seq<Seq<char>>,
    message: Seq<char>,
)
    requires
        v.wf(),
        v.awaits_text(token),
    ensures
        v.text_failed(token, message).frames.len() == 0,
        v.text_failed(token, message).error == Some(message),
        texts.len() > 0 ==> v.text_loaded(token, texts).frames == text_frames(texts),
        texts.len() == 0 ==> v.text_loaded(token, texts).frames.len() == 0 && v.text_loaded(
            token,
            texts,
        ).error is Some,
{
}

/// Colours change one frame only, and only by giving it colours that it did
/// not have: the number of frames and every text stay, every other frame stays
/// as it is, and colours that a frame has are never taken away or replaced.
pub proof fn lemma_colors_only_add(
    v: LoaderView,
    token: u64,
    index: nat,
    payload: Option<CFrameView>,
    i: int,
)
    requires
        0 <= i < v.frames.len(),
    ensures
        v.color_loaded(token, index, payload).frames.len() == v.frames.len(),
        v.color_loaded(token, index, payload).frames[i].content == v.frames[i].content,
        i != index ==> v.color_loaded(token, index, payload).frames[i] == v.frames[i],
        v.frames[i].cells is Some ==> v.color_loaded(token, index, payload).frames[i]
            == v.frames[i],
{
}

/// A failure to load the colours of one frame does not end the load: the next
/// frame's colours are still waited for.
pub proof fn lemma_color_failure_goes_on(v: LoaderView, token: u64, index: nat)
    requires
        v.awaits_colors(token),
    ensures
        v.color_loaded(token, index, None).awaits_colors(token),
        v.color_loaded(token, index, None).frames == v.frames,
        v.color_loaded(token, index, None).error == v.error,
{
}

} // verus!
