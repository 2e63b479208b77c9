use ascii_frames::playback::{
    fps_from_input, frame_at_permille, tick_interval_ms, PlayState, Playback, Tick,
};

fn playing(fps: u32, total: usize, looping: bool) -> Playback {
    let mut playback = Playback::new(fps, looping);
    playback.set_total(total);
    playback.start();
    playback
}

#[test]
fn a_new_scheduler_is_stopped_on_the_first_frame() {
    let playback = Playback::new(24, true);
    assert_eq!(playback.state(), PlayState::Stopped);
    assert!(!playback.is_playing());
    assert_eq!(playback.current_index(), 0);
    assert_eq!(playback.total(), 0);
    assert_eq!(playback.fps(), 24);
    assert!(playback.is_looping());
    assert_eq!(playback.timer(), None);
}

#[test]
fn without_loop_playback_stops_on_the_last_frame() {
    let mut playback = playing(10, 5, false);
    let mut seen = Vec::new();
    for _ in 0..5 {
        let tick = playback.tick();
        seen.push((tick, playback.current_index(), playback.state()));
    }
    assert_eq!(
        seen,
        vec![
            (Tick::Advanced, 1, PlayState::Playing),
            (Tick::Advanced, 2, PlayState::Playing),
            (Tick::Advanced, 3, PlayState::Playing),
            (Tick::Advanced, 4, PlayState::Playing),
            (Tick::Ended, 4, PlayState::Stopped),
        ]
    );
    assert_eq!(playback.current_index(), 4);
    assert_eq!(playback.state(), PlayState::Stopped);
    assert_eq!(playback.timer(), None);
    assert_eq!(playback.tick(), Tick::Idle);
    assert_eq!(playback.current_index(), 4);
}

#[test]
fn with_loop_playback_starts_over_behind_the_last_frame() {
    let mut playback = playing(10, 5, true);
    let mut indices = Vec::new();
    let mut ticks = Vec::new();
    for _ in 0..6 {
        ticks.push(playback.tick());
        indices.push(playback.current_index());
        assert_eq!(playback.state(), PlayState::Playing);
    }
    assert_eq!(indices, vec![1, 2, 3, 4, 0, 1]);
    assert_eq!(ticks[4], Tick::Wrapped);
    assert_eq!(ticks[5], Tick::Advanced);
    assert_eq!(playback.timer(), Some(100));
}

#[test]
fn ticks_do_nothing_while_stopped_or_without_frames() {
    let mut playback = Playback::new(10, true);
    playback.set_total(3);
    assert_eq!(playback.tick(), Tick::Idle);
    assert_eq!(playback.current_index(), 0);
    let mut empty = Playback::new(10, true);
    empty.start();
    assert_eq!(empty.tick(), Tick::Idle);
    assert_eq!(empty.current_index(), 0);
    assert!(empty.is_playing());
    assert_eq!(empty.timer(), None);
}

#[test]
fn a_single_frame_loops_onto_itself() {
    let mut playback = playing(10, 1, true);
    assert_eq!(playback.tick(), Tick::Wrapped);
    assert_eq!(playback.current_index(), 0);
    let mut once = playing(10, 1, false);
    assert_eq!(once.tick(), Tick::Ended);
    assert_eq!(once.state(), PlayState::Stopped);
}

#[test]
fn the_interval_is_a_thousand_by_the_rate_rounded() {
    assert_eq!(tick_interval_ms(10), 100);
    assert_eq!(tick_interval_ms(24), 42);
    assert_eq!(tick_interval_ms(60), 17);
    assert_eq!(tick_interval_ms(30), 33);
    assert_eq!(tick_interval_ms(16), 63);
    assert_eq!(tick_interval_ms(1), 1000);
    assert_eq!(tick_interval_ms(3), 333);
    assert_eq!(tick_interval_ms(1000), 1);
    assert_eq!(tick_interval_ms(2000), 1);
    assert_eq!(tick_interval_ms(2001), 1);
    assert_eq!(tick_interval_ms(u32::MAX), 1);
    assert_eq!(tick_interval_ms(0), u32::MAX);
    for fps in 1..=3000u32 {
        let expected = (1000.0 / fps as f64).round().max(1.0) as u32;
        assert_eq!(tick_interval_ms(fps), expected, "{fps}");
    }
}

#[test]
fn a_change_of_rate_or_of_frames_keeps_the_frame_shown() {
    let mut playback = playing(10, 5, true);
    playback.tick();
    playback.tick();
    playback.set_fps(50);
    assert_eq!(playback.current_index(), 2);
    assert!(playback.is_playing());
    assert_eq!(playback.timer(), Some(20));
    playback.set_total(9);
    assert_eq!(playback.current_index(), 2);
    assert!(playback.is_playing());
    assert_eq!(playback.total(), 9);
    playback.set_total(2);
    assert_eq!(playback.current_index(), 1);
    playback.set_total(0);
    assert_eq!(playback.current_index(), 0);
    assert_eq!(playback.timer(), None);
    playback.set_looping(false);
    assert!(!playback.is_looping());
}

#[test]
fn a_seek_stops_playback_and_shows_the_frame() {
    let mut playback = playing(10, 5, true);
    playback.seek(3);
    assert_eq!(playback.current_index(), 3);
    assert_eq!(playback.state(), PlayState::Stopped);
    playback.seek(99);
    assert_eq!(playback.current_index(), 4);
    let mut empty = Playback::new(10, true);
    empty.start();
    empty.seek(3);
    assert_eq!(empty.current_index(), 0);
    assert!(empty.is_playing());
}

#[test]
fn a_seek_by_fraction_rounds_to_the_nearest_frame() {
    assert_eq!(frame_at_permille(0, 100), 0);
    assert_eq!(frame_at_permille(500, 100), 50);
    assert_eq!(frame_at_permille(1000, 100), 99);
    assert_eq!(frame_at_permille(5000, 100), 99);
    assert_eq!(frame_at_permille(500, 2), 1);
    assert_eq!(frame_at_permille(499, 2), 0);
    assert_eq!(frame_at_permille(250, 5), 1);
    assert_eq!(frame_at_permille(700, 1), 0);
    assert_eq!(frame_at_permille(700, 0), 0);
    assert_eq!(frame_at_permille(1000, usize::MAX), usize::MAX - 1);
    let mut playback = playing(10, 11, true);
    playback.seek_permille(300);
    assert_eq!(playback.current_index(), 3);
    assert_eq!(playback.state(), PlayState::Stopped);
}

#[test]
fn steps_stop_playback_and_go_round() {
    let mut playback = playing(10, 3, false);
    playback.step_forward();
    assert_eq!((playback.current_index(), playback.state()), (1, PlayState::Stopped));
    playback.step_forward();
    playback.step_forward();
    assert_eq!(playback.current_index(), 0);
    playback.step_backward();
    assert_eq!(playback.current_index(), 2);
    playback.step_backward();
    assert_eq!(playback.current_index(), 1);
    let mut empty = Playback::new(10, true);
    empty.start();
    empty.step_forward();
    assert_eq!((empty.current_index(), empty.state()), (0, PlayState::Stopped));
    empty.start();
    empty.step_backward();
    assert_eq!((empty.current_index(), empty.state()), (0, PlayState::Stopped));
}

#[test]
fn start_stop_and_toggle() {
    let mut playback = Playback::new(10, true);
    playback.set_total(2);
    playback.toggle();
    assert!(playback.is_playing());
    playback.toggle();
    assert!(!playback.is_playing());
    playback.start();
    playback.start();
    assert_eq!(playback.state(), PlayState::Playing);
    playback.stop();
    assert_eq!(playback.state(), PlayState::Stopped);
}

#[test]
fn audio_is_moved_only_when_it_is_off_by_more_than_a_tenth_of_a_second() {
    let mut playback = Playback::new(10, true);
    playback.set_total(100);
    playback.seek(30);
    assert!(!playback.audio_needs_seek(3000));
    assert!(!playback.audio_needs_seek(3100));
    assert!(!playback.audio_needs_seek(2900));
    assert!(playback.audio_needs_seek(3101));
    assert!(playback.audio_needs_seek(2899));
    assert!(playback.audio_needs_seek(0));
    assert!(playback.audio_needs_seek(u64::MAX));
    playback.set_fps(24);
    playback.seek(7);
    assert!(!playback.audio_needs_seek(292));
    assert!(!playback.audio_needs_seek(391));
    assert!(playback.audio_needs_seek(392));
    playback.set_fps(0);
    assert!(!playback.audio_needs_seek(0));
    let empty = Playback::new(10, true);
    assert!(!empty.audio_needs_seek(5000));
}

#[test]
fn a_frame_rate_is_entered_as_a_number_above_zero() {
    assert_eq!(fps_from_input("24"), Some(24));
    assert_eq!(fps_from_input("+24"), Some(24));
    assert_eq!(fps_from_input("024"), Some(24));
    assert_eq!(fps_from_input("0"), None);
    assert_eq!(fps_from_input(""), None);
    assert_eq!(fps_from_input("24 "), None);
    assert_eq!(fps_from_input("2.5"), None);
    assert_eq!(fps_from_input("-3"), None);
    assert_eq!(fps_from_input("4294967296"), None);
}
