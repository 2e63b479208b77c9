//! Showing a frame: from the cache where the cache holds its raster, and else
//! by rasterizing it once and keeping the raster for the next time.

use crate::cache::{CacheView, FrameRenderCache};
use crate::frame::{Frame, FrameView};
use crate::raster::{can_render, render_frame, Raster};
use vstd::prelude::*;

verus! {

/// How a frame is shown.
#[derive(Clone, Copy, Debug, PartialEq, Eq, Structural)]
pub enum Shown {
    /// As text, without colour.
    Text,
    /// In colour, with the raster that the cache held.
    Cached,
    /// In colour, with a raster that was made for it on the spot and is in the
    /// cache from now on.
    Rasterized,
}

/// Whether the frame `index` of `total` is shown in colour: colour is asked
/// for, the frame is one of the frames, and it can be rasterized.
pub open spec fn shows_color(frame: FrameView, total: nat, index: nat, color_enabled: bool) -> bool {
    color_enabled && index < total && can_render(frame)
}

/// How the frame `index` of `total` is shown at the epoch `epoch`, with the
/// cache in the state `cache`.
pub open spec fn shown_as(
    cache: CacheView<Raster>,
    frame: FrameView,
    total: nat,
    index: nat,
    color_enabled: bool,
    epoch: u32,
) -> Shown {
    if !shows_color(frame, total, index, color_enabled) {
        Shown::Text
    } else if cache.resize(total).set_epoch(epoch).lookup(index as int) is Some {
        Shown::Cached
    } else {
        Shown::Rasterized
    }
}

/// What showing a frame leaves in the cache. A frame shown as text leaves the
/// cache alone. For a frame shown in colour the cache is made ready for `total`
/// frames at the epoch `epoch`, and a raster made on the spot is kept.
pub open spec fn cache_after_show(
    before: CacheView<Raster>,
    after: CacheView<Raster>,
    frame: FrameView,
    total: nat,
    index: nat,
    color_enabled: bool,
    epoch: u32,
) -> bool {
    let ready = before.resize(total).set_epoch(epoch);
    match shown_as(before, frame, total, index, color_enabled, epoch) {
        Shown::Text => after == before,
        Shown::Cached => after == ready,
        Shown::Rasterized => after.lookup(index as int) matches Some(raster) && raster.depicts(
            frame.cells->0,
            epoch,
        ) && after == ready.store(index, raster),
    }
}

/// Shows the frame `index` of `total`, which is `frame`, at the font size
/// `font_centi`, in hundredths of a pixel; that size is the cache's epoch.
///
/// A frame that is shown in colour has its raster in the cache afterwards:
/// `lookup` finds it there.
pub fn show_frame(
    cache: &mut FrameRenderCache<Raster>,
    frame: &Frame,
    total: usize,
    index: usize,
    color_enabled: bool,
    font_centi: u32,
) -> (shown: Shown)
    ensures
        shown == shown_as(old(cache)@, frame@, total as nat, index as nat, color_enabled, font_centi),
        cache_after_show(
            old(cache)@,
            final(cache)@,
            frame@,
            total as nat,
            index as nat,
            color_enabled,
            font_centi,
        ),
        shown != Shown::Text ==> final(cache)@.lookup(index as int) is Some,
{
    if !color_enabled || index >= total {
        return Shown::Text;
    }
    match render_if_missing(cache, frame, total, index, font_centi) {
        Some(made) => if made {
            Shown::Rasterized
        } else {
            Shown::Cached
        },
        None => Shown::Text,
    }
}

/// Makes the cache ready and rasterizes the frame if the cache does not hold
/// it. Says whether it rasterized, and nothing where the frame cannot be
/// rasterized.
fn render_if_missing(
    cache: &mut FrameRenderCache<Raster>,
    frame: &Frame,
    total: usize,
    index: usize,
    font_centi: u32,
) -> (made: Option<bool>)
    requires
        index < total,
    ensures
        made is Some == can_render(frame@),
        made is None ==> final(cache)@ == old(cache)@,
        made == Some(false) ==> final(cache)@ == old(cache)@.resize(total as nat).set_epoch(
            font_centi,
        ) && final(cache)@.lookup(index as int) is Some,
        made == Some(true) ==> ({
            let ready = old(cache)@.resize(total as nat).set_epoch(font_centi);
            &&& ready.lookup(index as int) is None
            &&& final(cache)@.lookup(index as int) matches Some(raster)
            &&& raster.depicts(frame@.cells->0, font_centi)
            &&& final(cache)@ == ready.store(index as nat, raster)
        }),
{
    let can = match &frame.cframe {
        Some(cells) => cells.is_well_formed(),
        None => false,
    };
    if !can {
        return None;
    }
    cache.prepare(total, font_centi);
    if cache.has(index) {
        return Some(false);
    }
    match render_frame(frame, font_centi) {
        Some(raster) => {
            cache.store(index, raster);
            Some(true)
        },
        None => None,
    }
}

/// When the font size changes, no raster of the old size can be found in the
/// cache any more.
pub proof fn lemma_epoch_change_drops_all<S>(cache: CacheView<S>, epoch: u32, index: int)
    requires
        epoch != cache.epoch,
    ensures
        cache.set_epoch(epoch).lookup(index) is None,
        cache.set_epoch(epoch).generation != cache.generation,
{
}

/// A frame that was rasterized on the spot is not rasterized again: the next
/// time it is shown at the same size, it comes from the cache.
pub proof fn lemma_rasterized_once(
    before: CacheView<Raster>,
    after: CacheView<Raster>,
    frame: FrameView,
    total: nat,
    index: nat,
    epoch: u32,
)
    requires
        shown_as(before, frame, total, index, true, epoch) == Shown::Rasterized,
        cache_after_show(before, after, frame, total, index, true, epoch),
    ensures
        shown_as(after, frame, total, index, true, epoch) == Shown::Cached,
{
    let ready = before.resize(total).set_epoch(epoch);
    assert(ready.slots.len() == total);
    assert(after.resize(total).slots =~= after.slots);
}

/// After a change of the font size the frame that is shown is rasterized on
/// the spot, whatever the cache held before.
pub proof fn lemma_epoch_change_rasterizes(
    cache: CacheView<Raster>,
    frame: FrameView,
    total: nat,
    index: nat,
    epoch: u32,
)
    requires
        epoch != cache.epoch,
        shows_color(frame, total, index, true),
    ensures
        shown_as(cache, frame, total, index, true, epoch) == Shown::Rasterized,
{
}

} // verus!
