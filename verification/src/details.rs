//! Project details: the frame rate that a project's notes ask for, and the
//! audio track that belongs to it.
//!
//! The notes are text, read line by line. A line that begins with `FPS:` and
//! goes on with a whole number states the frame rate; every other line is
//! passed over.

use crate::text::{
    chars_of, has_prefix, line_at, lines, parse_u32, read_u32, starts_with, trim, trim_bounds,
};
use vstd::slice::slice_subrange;
use vstd::prelude::*;

verus! {

/// What is known of a project besides its frames.
#[derive(Clone, Debug)]
pub struct ProjectDetails {
    /// The frame rate that the notes ask for, if they ask for one.
    pub fps: Option<u32>,
    /// Whether the project has an audio track.
    pub has_audio: bool,
    /// Where the audio track is, if there is one.
    pub audio_path: Option<String>,
}

/// The key that a line stating the frame rate begins with.
pub open spec fn fps_key() -> Seq<char> {
    seq!['F', 'P', 'S', ':']
}

/// The frame rate that the line `line` states, if it states one: the line
/// begins with `FPS:`, and what follows is a whole number of at most 32 bits,
/// with or without white space around it.
pub open spec fn fps_of_line(line: Seq<char>) -> Option<u32> {
    if has_prefix(line, fps_key()) {
        parse_u32(trim(line.skip(4)))
    } else {
        None
    }
}

/// The frame rate that the lines `lines` state: that of the last line that
/// states one.
pub open spec fn fps_of_lines(lines: Seq<Seq<char>>) -> Option<u32>
    decreases lines.len(),
{
    if lines.len() == 0 {
        None
    } else {
        match fps_of_line(lines.last()) {
            Some(fps) => Some(fps),
            None => fps_of_lines(lines.drop_last()),
        }
    }
}

/// The frame rate that the notes `content` state.
pub open spec fn fps_of_notes(content: Seq<char>) -> Option<u32> {
    fps_of_lines(lines(content))
}

/// The frame rate that the line `v[from..to]` states.
fn read_fps_line(v: &[char], from: usize, to: usize) -> (r: Option<u32>)
    requires
        from <= to <= v@.len(),
    ensures
        r == fps_of_line(v@.subrange(from as int, to as int)),
{
    let ghost line = v@.subrange(from as int, to as int);
    let key = vec!['F', 'P', 'S', ':'];
    assert(key@ =~= fps_key());
    let keyed = starts_with(slice_subrange(v, from, to), key.as_slice());
    if !keyed {
        return None;
    }
    assert(line.skip(4) =~= v@.subrange(from + 4, to as int));
    let (a, b) = trim_bounds(v, from + 4, to);
    read_u32(v, a, b)
}

/// The frame rate that the notes `content` state, if they state one.
pub fn parse_fps(content: &str) -> (fps: Option<u32>)
    ensures
        fps == fps_of_notes(content@),
{
    let v = chars_of(content);
    let mut fps: Option<u32> = None;
    let mut at: usize = 0;
    let ghost mut done: Seq<Seq<char>> = Seq::empty();
    proof {
        assert(v@.skip(0) =~= v@);
        assert(done + lines(v@) =~= lines(v@));
    }
    while at < v.len()
        invariant
            at <= v@.len(),
            lines(v@) == done + lines(v@.skip(at as int)),
            fps == fps_of_lines(done),
        decreases v@.len() - at,
    {
        let (end, next) = line_at(v.as_slice(), at);
        let stated = read_fps_line(v.as_slice(), at, end);
        proof {
            let line = v@.subrange(at as int, end as int);
            assert(done.push(line).drop_last() =~= done);
            assert(done + (seq![line] + lines(v@.skip(next as int))) =~= done.push(line) + lines(
                v@.skip(next as int),
            ));
            done = done.push(line);
        }
        match stated {
            Some(n) => {
                fps = Some(n);
            },
            None => {},
        }
        at = next;
    }
    proof {
        assert(v@.skip(at as int) =~= Seq::<char>::empty());
        assert(done + Seq::<Seq<char>>::empty() =~= done);
    }
    fps
}

/// The details of a project from what was found beside its frames: the
/// content of its notes, and the path of its audio track.
pub fn read_project_details(notes: Option<&str>, audio_path: Option<String>) -> (d: ProjectDetails)
    ensures
        d.fps == match notes {
            Some(content) => fps_of_notes(content@),
            None => None,
        },
        d.has_audio == audio_path is Some,
        d.audio_path == audio_path,
{
    let fps = match notes {
        Some(content) => parse_fps(content),
        None => None,
    };
    let has_audio = audio_path.is_some();
    ProjectDetails { fps, has_audio, audio_path }
}

} // verus!
