use ascii_frames::details::{parse_fps, read_project_details};
use ascii_frames::ProjectDetails;

#[test]
fn the_frame_rate_is_read_from_its_line() {
    assert_eq!(parse_fps("FPS: 30"), Some(30));
    assert_eq!(parse_fps("FPS:30"), Some(30));
    assert_eq!(parse_fps("FPS:   24  \n"), Some(24));
    assert_eq!(parse_fps("# Clip\nFPS: 12\nFrames: 100\n"), Some(12));
    assert_eq!(parse_fps("Frames: 100\r\nFPS: 60\r\nAudio: yes\r\n"), Some(60));
    assert_eq!(parse_fps("FPS: +15"), Some(15));
    assert_eq!(parse_fps("FPS: 0"), Some(0));
    assert_eq!(parse_fps("FPS: 4294967295"), Some(u32::MAX));
    assert_eq!(parse_fps("FPS:\u{a0}25\u{3000}"), Some(25));
}

#[test]
fn the_last_line_that_states_a_frame_rate_counts() {
    assert_eq!(parse_fps("FPS: 10\nFPS: 20\n"), Some(20));
    assert_eq!(parse_fps("FPS: 10\nnotes\nFPS: 20\nmore"), Some(20));
}

#[test]
fn other_lines_are_passed_over() {
    assert_eq!(parse_fps(""), None);
    assert_eq!(parse_fps("Frames: 100\n"), None);
    assert_eq!(parse_fps("fps: 30"), None);
    assert_eq!(parse_fps(" FPS: 30"), None);
    assert_eq!(parse_fps("FPS 30"), None);
    assert_eq!(parse_fps("FPS: thirty"), None);
    assert_eq!(parse_fps("FPS: 30 fps"), None);
    assert_eq!(parse_fps("FPS: 4294967296"), None);
    assert_eq!(parse_fps("FPS: -1"), None);
    assert_eq!(parse_fps("FPS: 29.97"), None);
    assert_eq!(parse_fps("FPS:"), None);
    assert_eq!(parse_fps("FPS"), None);
}

#[test]
fn a_malformed_line_does_not_undo_an_earlier_one() {
    assert_eq!(parse_fps("FPS: 24\nFPS: fast\n"), Some(24));
    assert_eq!(parse_fps("FPS: 24\nFPS:\n"), Some(24));
    assert_eq!(parse_fps("FPS: x\nFPS: 8\nFPS: y"), Some(8));
}

#[test]
fn details_without_notes_are_defaults() {
    let details: ProjectDetails = read_project_details(None, None);
    assert_eq!(details.fps, None);
    assert!(!details.has_audio);
    assert_eq!(details.audio_path, None);
}

#[test]
fn details_hold_the_frame_rate_and_the_audio_track() {
    let details = read_project_details(Some("FPS: 12\n"), Some("clip/audio.mp3".to_string()));
    assert_eq!(details.fps, Some(12));
    assert!(details.has_audio);
    assert_eq!(details.audio_path.as_deref(), Some("clip/audio.mp3"));
    let details = read_project_details(Some("nothing here"), None);
    assert_eq!(details.fps, None);
    assert!(!details.has_audio);
}
