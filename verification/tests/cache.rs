use ascii_frames::cache::{FrameRenderCache, WarmStep};
use ascii_frames::display::{show_frame, Shown};
use ascii_frames::frame::Frame;
use ascii_frames::loader::Loader;
use ascii_frames::raster::Raster;
use ascii_frames::CFrameData;

fn cells(glyph: u8) -> CFrameData {
    CFrameData { width: 1, height: 1, chars: vec![glyph], rgb: vec![200, 100, 50] }
}

fn loaded(colored: &[bool]) -> (Loader, u64) {
    let mut loader = Loader::new();
    let token = loader.begin(true);
    loader.text_loaded(token, colored.iter().map(|_| "x\n".to_string()).collect());
    for (i, has) in colored.iter().enumerate() {
        loader.color_loaded(token, i, if *has { Some(cells(b'x')) } else { None });
    }
    (loader, token)
}

#[test]
fn a_new_cache_is_empty() {
    let cache: FrameRenderCache<u32> = FrameRenderCache::new();
    assert_eq!(cache.len(), 0);
    assert_eq!(cache.epoch(), 0);
    assert_eq!(cache.generation(), 0);
    assert_eq!(cache.waiting(), 0);
    assert!(!cache.has(0));
    assert!(cache.lookup(0).is_none());
}

#[test]
fn what_is_stored_is_found() {
    let mut cache: FrameRenderCache<&str> = FrameRenderCache::new();
    cache.resize(3);
    assert_eq!(cache.len(), 3);
    assert!(cache.store(1, "one"));
    assert!(cache.has(1));
    assert_eq!(cache.lookup(1), Some(&"one"));
    assert!(!cache.has(0) && !cache.has(2));
    assert!(!cache.store(3, "three"));
    assert!(cache.lookup(3).is_none());
    assert!(cache.store(1, "uno"));
    assert_eq!(cache.lookup(1), Some(&"uno"));
}

#[test]
fn resizing_keeps_the_surfaces_of_the_frames_that_stay() {
    let mut cache: FrameRenderCache<u8> = FrameRenderCache::new();
    cache.resize(4);
    cache.store(0, 10);
    cache.store(3, 13);
    cache.resize(6);
    assert_eq!((cache.lookup(0), cache.lookup(3), cache.lookup(5)), (Some(&10), Some(&13), None));
    cache.resize(2);
    assert_eq!(cache.len(), 2);
    assert_eq!(cache.lookup(0), Some(&10));
    cache.resize(4);
    assert!(cache.lookup(3).is_none());
    cache.resize(4);
    assert_eq!(cache.lookup(0), Some(&10));
}

#[test]
fn a_change_of_epoch_drops_every_surface_at_once() {
    let mut cache: FrameRenderCache<u8> = FrameRenderCache::new();
    cache.resize(3);
    assert!(cache.set_epoch(1000));
    for i in 0..3 {
        cache.store(i, i as u8);
    }
    let token = cache.generation();
    assert!(!cache.set_epoch(1000));
    assert_eq!(cache.generation(), token);
    assert!((0..3).all(|i| cache.has(i)));
    assert!(cache.set_epoch(1200));
    assert_eq!(cache.epoch(), 1200);
    assert_eq!(cache.len(), 3);
    assert!((0..3).all(|i| !cache.has(i)));
    assert_ne!(cache.generation(), token);
    assert!(!cache.prepare(3, 1200));
    assert!(cache.prepare(5, 1000));
    assert_eq!(cache.len(), 5);
}

#[test]
fn a_surface_under_an_old_token_is_dropped() {
    let mut cache: FrameRenderCache<u8> = FrameRenderCache::new();
    cache.resize(2);
    let old = cache.generation();
    assert!(cache.store_warmed(old, 0, 1));
    cache.set_epoch(1100);
    assert!(!cache.store_warmed(old, 0, 2));
    assert!(!cache.has(0));
    let new = cache.generation();
    assert!(cache.store_warmed(new, 0, 3));
    assert!(!cache.store_warmed(new, 2, 4));
    assert_eq!(cache.lookup(0), Some(&3));
    cache.clear();
    assert_eq!((cache.len(), cache.epoch(), cache.waiting()), (0, 0, 0));
    assert_ne!(cache.generation(), new);
    assert!(!cache.store_warmed(new, 0, 5));
}

#[test]
fn the_warmer_starts_over_with_the_coloured_frames() {
    let (loader, _) = loaded(&[true, false, true, true]);
    let mut cache: FrameRenderCache<u8> = FrameRenderCache::new();
    cache.enqueue(9);
    let before = cache.generation();
    let token = cache.restart(&loader, 1000).unwrap();
    assert_ne!(token, before);
    assert_eq!(token, cache.generation());
    assert_eq!((cache.len(), cache.epoch(), cache.waiting()), (4, 1000, 3));
    let mut order = Vec::new();
    loop {
        match cache.next_to_warm(token, false, false, true) {
            WarmStep::Rasterize { index } => {
                order.push(index);
                assert!(cache.store_warmed(token, index, index as u8));
            }
            step => {
                assert_eq!(step, WarmStep::Finished);
                break;
            }
        }
    }
    assert_eq!(order, vec![0, 2, 3]);
    assert!(cache.has(0) && !cache.has(1) && cache.has(2) && cache.has(3));
}

#[test]
fn there_is_nothing_to_warm_without_coloured_frames() {
    let mut cache: FrameRenderCache<u8> = FrameRenderCache::new();
    let (loader, _) = loaded(&[false, false]);
    let before = cache.generation();
    assert!(cache.restart(&loader, 1000).is_none());
    assert_eq!((cache.len(), cache.epoch(), cache.generation()), (0, 0, before));
    assert!(cache.restart(&Loader::new(), 1000).is_none());
}

#[test]
fn the_warmer_waits_while_playback_runs_without_colour() {
    let (loader, _) = loaded(&[true, true]);
    let mut cache: FrameRenderCache<u8> = FrameRenderCache::new();
    let token = cache.restart(&loader, 1000).unwrap();
    assert_eq!(cache.next_to_warm(token, true, false, true), WarmStep::Wait);
    assert_eq!(cache.waiting(), 2);
    assert_eq!(cache.next_to_warm(token, true, true, true), WarmStep::Rasterize { index: 0 });
    assert_eq!(cache.next_to_warm(token, false, false, true), WarmStep::Rasterize { index: 1 });
    assert_eq!(cache.waiting(), 0);
}

#[test]
fn the_warmer_waits_for_frames_that_are_still_loading() {
    let mut cache: FrameRenderCache<u8> = FrameRenderCache::new();
    cache.resize(3);
    let token = cache.generation();
    assert_eq!(cache.next_to_warm(token, false, true, false), WarmStep::Wait);
    cache.enqueue(2);
    assert_eq!(cache.next_to_warm(token, false, true, false), WarmStep::Rasterize { index: 2 });
    assert_eq!(cache.next_to_warm(token, false, true, false), WarmStep::Wait);
    assert_eq!(cache.next_to_warm(token, false, true, true), WarmStep::Finished);
}

#[test]
fn the_warmer_passes_over_frames_that_have_a_surface_or_no_slot() {
    let mut cache: FrameRenderCache<u8> = FrameRenderCache::new();
    cache.resize(3);
    cache.store(0, 1);
    for index in [0, 7, 0, 1, 2] {
        cache.enqueue(index);
    }
    let token = cache.generation();
    assert_eq!(cache.next_to_warm(token, false, true, true), WarmStep::Rasterize { index: 1 });
    assert_eq!(cache.waiting(), 1);
    cache.store(2, 3);
    assert_eq!(cache.next_to_warm(token, false, true, true), WarmStep::Finished);
    assert_eq!(cache.waiting(), 0);
}

#[test]
fn a_warmer_with_an_old_token_gives_up() {
    let (loader, _) = loaded(&[true]);
    let mut cache: FrameRenderCache<u8> = FrameRenderCache::new();
    let old = cache.restart(&loader, 1000).unwrap();
    let new = cache.restart(&loader, 1200).unwrap();
    assert_ne!(old, new);
    assert_eq!(cache.next_to_warm(old, false, true, true), WarmStep::Abandon);
    assert_eq!(cache.waiting(), 1);
    assert_eq!(cache.next_to_warm(new, false, true, true), WarmStep::Rasterize { index: 0 });
}

fn coloured_frame() -> Frame {
    let mut frame = Frame::text_only("x\n".to_string());
    assert!(frame.attach(cells(b'x')));
    frame
}

#[test]
fn a_frame_is_rasterized_once_and_then_comes_from_the_cache() {
    let frame = coloured_frame();
    let mut cache: FrameRenderCache<Raster> = FrameRenderCache::new();
    assert_eq!(show_frame(&mut cache, &frame, 3, 1, true, 1000), Shown::Rasterized);
    assert_eq!(cache.len(), 3);
    assert_eq!(cache.lookup(1).unwrap().batches[0].text, "x");
    assert_eq!(cache.lookup(1).unwrap().font_centi, 1000);
    assert_eq!(show_frame(&mut cache, &frame, 3, 1, true, 1000), Shown::Cached);
    assert_eq!(show_frame(&mut cache, &frame, 3, 1, true, 1000), Shown::Cached);
}

#[test]
fn after_a_change_of_font_size_the_frame_is_rasterized_once_more() {
    let frame = coloured_frame();
    let mut cache: FrameRenderCache<Raster> = FrameRenderCache::new();
    for index in 0..3 {
        assert_eq!(show_frame(&mut cache, &frame, 3, index, true, 1000), Shown::Rasterized);
    }
    assert!((0..3).all(|i| cache.has(i)));
    let token = cache.generation();

    let mut made = 0;
    for _ in 0..4 {
        if show_frame(&mut cache, &frame, 3, 1, true, 1250) == Shown::Rasterized {
            made += 1;
        }
    }
    assert_eq!(made, 1);
    assert_ne!(cache.generation(), token);
    assert!(!cache.has(0) && cache.has(1) && !cache.has(2));
    assert_eq!(cache.lookup(1).unwrap().font_centi, 1250);
    assert_eq!(cache.lookup(1).unwrap().width_px, 8);
    let stale = Raster { font_centi: 1000, width_px: 6, height_px: 12, batches: Vec::new() };
    assert!(!cache.store_warmed(token, 0, stale));
    assert!(!cache.has(0));
}

#[test]
fn a_frame_is_shown_as_text_without_colour() {
    let frame = coloured_frame();
    let plain = Frame::text_only("x\n".to_string());
    let mut cache: FrameRenderCache<Raster> = FrameRenderCache::new();
    assert_eq!(show_frame(&mut cache, &frame, 3, 1, false, 1000), Shown::Text);
    assert_eq!(show_frame(&mut cache, &plain, 3, 1, true, 1000), Shown::Text);
    assert_eq!(show_frame(&mut cache, &frame, 3, 3, true, 1000), Shown::Text);
    assert_eq!(show_frame(&mut cache, &frame, 0, 0, true, 1000), Shown::Text);
    assert_eq!((cache.len(), cache.epoch(), cache.generation()), (0, 0, 0));
}

#[test]
fn the_warmer_and_the_display_share_the_cache() {
    let (loader, _) = loaded(&[true, true, true]);
    let mut cache: FrameRenderCache<Raster> = FrameRenderCache::new();
    let frame = loader.frame(1).unwrap();
    assert_eq!(show_frame(&mut cache, frame, 3, 1, true, 1000), Shown::Rasterized);
    let token = cache.restart(&loader, 1000).unwrap();
    assert_eq!(cache.next_to_warm(token, false, true, true), WarmStep::Rasterize { index: 0 });
    let raster = ascii_frames::raster::render_frame(loader.frame(0).unwrap(), 1000).unwrap();
    assert!(cache.store_warmed(token, 0, raster));
    assert_eq!(cache.next_to_warm(token, false, true, true), WarmStep::Rasterize { index: 2 });
    assert_eq!(cache.next_to_warm(token, false, true, true), WarmStep::Finished);
    assert_eq!(show_frame(&mut cache, loader.frame(0).unwrap(), 3, 0, true, 1000), Shown::Cached);
}
