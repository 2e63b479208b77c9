//! Frame enumeration: which entries of a directory are frames, the index that
//! orders each of them, and the order in which they are played.

use crate::text::{
    all_digits, chars_of, has_prefix, is_digit, parse_u32, read_u32, starts_with, string_of,
};
use vstd::prelude::*;

verus! {

/// The prefix of the stems that carry their index behind it: `frame_`.
pub open spec fn frame_prefix() -> Seq<char> {
    seq!['f', 'r', 'a', 'm', 'e', '_']
}

/// The ASCII digits of `s`, in the order in which they stand in it.
pub open spec fn digits_of(s: Seq<char>) -> Seq<char> {
    s.filter(|c: char| is_digit(c))
}

/// The index that orders the frame with this stem.
///
/// A stem that begins with `frame_` has the number written behind that prefix.
/// Any other stem has the number that its digits write when they are read
/// together. Where a stem of either kind names no number, because nothing that
/// reads as one stands there or because the number does not fit in 32 bits, it
/// has `fallback`.
pub open spec fn stem_index(stem: Seq<char>, fallback: u32) -> u32 {
    if has_prefix(stem, frame_prefix()) {
        match parse_u32(stem.skip(6)) {
            Some(n) => n,
            None => fallback,
        }
    } else {
        match parse_u32(digits_of(stem)) {
            Some(n) => n,
            None => fallback,
        }
    }
}

/// Tests whether `v` begins with `frame_`.
fn has_frame_prefix(v: &[char]) -> (b: bool)
    ensures
        b == has_prefix(v@, frame_prefix()),
{
    let prefix = vec!['f', 'r', 'a', 'm', 'e', '_'];
    assert(prefix@ =~= frame_prefix());
    starts_with(v, prefix.as_slice())
}

/// The digits of `v`, in order.
fn collect_digits(v: &[char]) -> (d: Vec<char>)
    ensures
        d@ == digits_of(v@),
        all_digits(d@),
{
    let mut d: Vec<char> = Vec::new();
    let mut i: usize = 0;
    proof {
        reveal(Seq::filter);
        assert(v@.take(0) =~= Seq::<char>::empty());
    }
    while i < v.len()
        invariant
            i <= v@.len(),
            d@ == digits_of(v@.take(i as int)),
            all_digits(d@),
        decreases v@.len() - i,
    {
        let c = v[i];
        proof {
            reveal(Seq::filter);
            let t = v@.take(i + 1);
            assert(t.drop_last() == v@.take(i as int));
            assert(t.last() == c);
        }
        if '0' <= c && c <= '9' {
            d.push(c);
        }
        i = i + 1;
    }
    assert(v@.take(v@.len() as int) == v@);
    d
}

/// The index that orders the frame whose file name, without its extension, is
/// `stem`; `fallback` is used where the stem names none.
pub fn extract_frame_index(stem: &str, fallback: u32) -> (index: u32)
    ensures
        index == stem_index(stem@, fallback),
{
    let v = chars_of(stem);
    if has_frame_prefix(v.as_slice()) {
        assert(v@.subrange(6, v@.len() as int) == v@.skip(6));
        match read_u32(v.as_slice(), 6, v.len()) {
            Some(n) => n,
            None => fallback,
        }
    } else {
        let d = collect_digits(v.as_slice());
        assert(d@.subrange(0, d@.len() as int) == d@);
        match read_u32(d.as_slice(), 0, d.len()) {
            Some(n) => n,
            None => fallback,
        }
    }
}

/// One frame of a directory, before its content is read.
#[derive(Clone, Debug)]
pub struct FrameFile {
    /// Where the frame's text is read from: always a name that ends in `.txt`.
    pub path: String,
    /// The file name.
    pub name: String,
    /// What the frame is ordered by; two frames may share it.
    pub index: u32,
}

/// A `FrameFile` as plain values.
pub struct FrameFileView {
    pub path: Seq<char>,
    pub name: Seq<char>,
    pub index: u32,
}

impl View for FrameFile {
    type V = FrameFileView;

    open spec fn view(&self) -> FrameFileView {
        FrameFileView { path: self.path@, name: self.name@, index: self.index }
    }
}

/// The frames `frames` as plain values.
pub open spec fn views(frames: Seq<FrameFile>) -> Seq<FrameFileView> {
    frames.map_values(|f: FrameFile| f@)
}

/// The names `names` as plain values.
pub open spec fn texts(names: Seq<String>) -> Seq<Seq<char>> {
    names.map_values(|n: String| n@)
}

/// The end of a text frame's file name.
pub open spec fn text_suffix() -> Seq<char> {
    seq!['.', 't', 'x', 't']
}

/// The end of a binary frame's file name.
pub open spec fn cframe_suffix() -> Seq<char> {
    seq!['.', 'c', 'f', 'r', 'a', 'm', 'e']
}

/// Whether `s` ends with `suffix`.
pub open spec fn has_suffix(s: Seq<char>, suffix: Seq<char>) -> bool {
    suffix.len() <= s.len() && s.skip(s.len() - suffix.len()) == suffix
}

/// The stem of a file name that is a frame's: what stands before `.txt` or
/// `.cframe`, which is at least one character. A name of another kind has none.
pub open spec fn recognized_stem(name: Seq<char>) -> Option<Seq<char>> {
    if name.len() > 4 && has_suffix(name, text_suffix()) {
        Some(name.take(name.len() - 4))
    } else if name.len() > 7 && has_suffix(name, cframe_suffix()) {
        Some(name.take(name.len() - 7))
    } else {
        None
    }
}

/// The frame with the stem `stem` in the directory whose text form, separator
/// included, is `prefix`, when `count` frames were found before it.
pub open spec fn frame_of(prefix: Seq<char>, stem: Seq<char>, count: nat) -> FrameFileView {
    FrameFileView {
        path: prefix + stem + text_suffix(),
        name: stem + text_suffix(),
        index: stem_index(stem, count as u32),
    }
}

/// Whether one of `frames` has the name `name`.
pub open spec fn has_name(frames: Seq<FrameFileView>, name: Seq<char>) -> bool {
    exists|i: int| 0 <= i < frames.len() && (#[trigger] frames[i]).name == name
}

/// The frames of a directory with the entries `names`, in the order in which
/// their stems first occur: one frame for each stem, whatever the number of
/// entries that share it.
pub open spec fn collect_frames(prefix: Seq<char>, names: Seq<Seq<char>>) -> Seq<FrameFileView>
    decreases names.len(),
{
    if names.len() == 0 {
        Seq::empty()
    } else {
        let before = collect_frames(prefix, names.drop_last());
        match recognized_stem(names.last()) {
            Some(stem) => if has_name(before, stem + text_suffix()) {
                before
            } else {
                before.push(frame_of(prefix, stem, before.len()))
            },
            None => before,
        }
    }
}

/// The length of the stem of the file name `v`, if it is a frame's.
fn stem_length(v: &[char]) -> (r: Option<usize>)
    ensures
        match r {
            Some(n) => n <= v@.len() && recognized_stem(v@) == Some(v@.take(n as int)),
            None => recognized_stem(v@) is None,
        },
{
    let n = v.len();
    if n > 4 {
        let b = v[n - 4] == '.' && v[n - 3] == 't' && v[n - 2] == 'x' && v[n - 1] == 't';
        proof {
            let t = v@.skip(n - 4);
            if b {
                assert(t =~= text_suffix());
            } else {
                assert(t[0] == v@[n - 4] && t[1] == v@[n - 3] && t[2] == v@[n - 2] && t[3]
                    == v@[n - 1]);
            }
        }
        if b {
            return Some(n - 4);
        }
    }
    if n > 7 {
        let b = v[n - 7] == '.' && v[n - 6] == 'c' && v[n - 5] == 'f' && v[n - 4] == 'r' && v[n
            - 3] == 'a' && v[n - 2] == 'm' && v[n - 1] == 'e';
        proof {
            let t = v@.skip(n - 7);
            if b {
                assert(t =~= cframe_suffix());
            } else {
                assert(t[0] == v@[n - 7] && t[1] == v@[n - 6] && t[2] == v@[n - 5] && t[3]
                    == v@[n - 4] && t[4] == v@[n - 3] && t[5] == v@[n - 2] && t[6] == v@[n - 1]);
            }
        }
        if b {
            return Some(n - 7);
        }
    }
    None
}

/// The name of the text file of the frame with the stem `v[..n]`.
fn text_name(v: &[char], n: usize) -> (name: String)
    requires
        n <= v@.len(),
    ensures
        name@ == v@.take(n as int) + text_suffix(),
{
    let mut name = string_of(v, 0, n);
    name.push('.');
    name.push('t');
    name.push('x');
    name.push('t');
    assert(name@ =~= v@.take(n as int) + text_suffix());
    name
}

/// Tests whether one of `frames` has the name `name`.
fn contains_name(frames: &Vec<FrameFile>, name: &String) -> (b: bool)
    ensures
        b == has_name(views(frames@), name@),
{
    let mut i: usize = 0;
    while i < frames.len()
        invariant
            i <= frames@.len(),
            forall|k: int| 0 <= k < i ==> (#[trigger] views(frames@)[k]).name != name@,
        decreases frames@.len() - i,
    {
        if frames[i].name == *name {
            assert(views(frames@)[i as int].name == name@);
            return true;
        }
        i = i + 1;
    }
    false
}

/// The frames of a directory, in the order in which their stems first occur.
///
/// `dir_prefix` is the directory in text form, with the separator that parts it
/// from a file name at its end; `names` are the names of the files in it.
pub fn collect_frame_files(dir_prefix: &str, names: &Vec<String>) -> (frames: Vec<FrameFile>)
    ensures
        views(frames@) == collect_frames(dir_prefix@, texts(names@)),
{
    let mut frames: Vec<FrameFile> = Vec::new();
    let mut i: usize = 0;
    assert(texts(names@).take(0) =~= Seq::<Seq<char>>::empty());
    assert(views(frames@) =~= Seq::<FrameFileView>::empty());
    while i < names.len()
        invariant
            i <= names@.len(),
            views(frames@) == collect_frames(dir_prefix@, texts(names@).take(i as int)),
        decreases names@.len() - i,
    {
        let v = chars_of(names[i].as_str());
        proof {
            let t = texts(names@).take(i + 1);
            assert(t.drop_last() == texts(names@).take(i as int));
            assert(t.last() == v@);
        }
        match stem_length(v.as_slice()) {
            Some(n) => {
                let name = text_name(v.as_slice(), n);
                if !contains_name(&frames, &name) {
                    let stem = string_of(v.as_slice(), 0, n);
                    assert(stem@ == v@.take(n as int));
                    let index = extract_frame_index(stem.as_str(), frames.len() as u32);
                    let mut path = dir_prefix.to_owned();
                    path.append(name.as_str());
                    assert(path@ =~= dir_prefix@ + stem@ + text_suffix());
                    let ghost before = views(frames@);
                    frames.push(FrameFile { path, name, index });
                    assert(views(frames@) =~= before.push(
                        frame_of(dir_prefix@, stem@, before.len()),
                    ));
                }
            },
            None => {},
        }
        i = i + 1;
    }
    assert(texts(names@).take(names@.len() as int) == texts(names@));
    frames
}

/// Whether the text `a` stands before `b`: `a` is a proper start of `b`, or at the
/// first place where the two differ `a` has the smaller character.
pub open spec fn text_before(a: Seq<char>, b: Seq<char>) -> bool {
    exists|k: int|
        0 <= k <= a.len() && k <= b.len() && #[trigger] a.take(k) == b.take(k) && k < b.len() && (k
            == a.len() || a[k] < b[k])
}

/// Whether a frame with the index `index` and the name `name` is played before
/// one with the index `other_index` and the name `other_name`: it has the
/// smaller index, or the same index and the name that stands before the other.
pub open spec fn key_before(
    index: u32,
    name: Seq<char>,
    other_index: u32,
    other_name: Seq<char>,
) -> bool {
    index < other_index || (index == other_index && text_before(name, other_name))
}

/// Whether the frame `a` is played before `b`.
pub open spec fn frame_before(a: FrameFileView, b: FrameFileView) -> bool {
    key_before(a.index, a.name, b.index, b.name)
}

/// Whether the frame `a` is played no later than `b`.
pub open spec fn frame_not_after(a: FrameFileView, b: FrameFileView) -> bool {
    frame_before(a, b) || (a.index == b.index && a.name == b.name)
}

/// Whether `frames` are in playing order.
pub open spec fn in_order(frames: Seq<FrameFileView>) -> bool {
    forall|i: int, j: int|
        0 <= i < j < frames.len() ==> frame_not_after(#[trigger] frames[i], #[trigger] frames[j])
}

/// How one of two things stands to the other in an order.
#[derive(Clone, Copy, Debug, PartialEq, Eq, Structural)]
pub enum Place {
    Before,
    Same,
    After,
}

/// No text stands before itself, and of two texts at most one stands before
/// the other.
pub proof fn lemma_text_before_asymmetric(a: Seq<char>, b: Seq<char>)
    requires
        text_before(a, b),
    ensures
        a != b,
        !text_before(b, a),
{
    let k1 = choose|k: int|
        0 <= k <= a.len() && k <= b.len() && #[trigger] a.take(k) == b.take(k) && k < b.len() && (k
            == a.len() || a[k] < b[k]);
    if text_before(b, a) {
        let k2 = choose|k: int|
            0 <= k <= b.len() && k <= a.len() && #[trigger] b.take(k) == a.take(k) && k < a.len()
                && (k == b.len() || b[k] < a[k]);
        if k1 < k2 {
            assert(b.take(k2)[k1] == a.take(k2)[k1]);
        } else if k2 < k1 {
            assert(a.take(k1)[k2] == b.take(k1)[k2]);
        }
    }
}

/// Where the text `a` stands to `b`.
pub fn place_of_text(a: &[char], b: &[char]) -> (p: Place)
    ensures
        p == Place::Before <==> text_before(a@, b@),
        p == Place::Same <==> a@ == b@,
        p == Place::After <==> text_before(b@, a@),
{
    let mut i: usize = 0;
    while i < a.len() && i < b.len()
        invariant
            i <= a@.len(),
            i <= b@.len(),
            a@.take(i as int) == b@.take(i as int),
        decreases a@.len() - i,
    {
        if a[i] < b[i] {
            proof {
                lemma_text_before_asymmetric(a@, b@);
            }
            return Place::Before;
        }
        if b[i] < a[i] {
            proof {
                assert(b@.take(i as int) == a@.take(i as int));
                lemma_text_before_asymmetric(b@, a@);
            }
            return Place::After;
        }
        assert(a@.take(i + 1) == a@.take(i as int).push(a@[i as int]));
        assert(b@.take(i + 1) == b@.take(i as int).push(b@[i as int]));
        i = i + 1;
    }
    if i < b.len() {
        proof {
            lemma_text_before_asymmetric(a@, b@);
        }
        Place::Before
    } else if i < a.len() {
        proof {
            assert(b@.take(i as int) == a@.take(i as int));
            lemma_text_before_asymmetric(b@, a@);
        }
        Place::After
    } else {
        proof {
            assert(a@.take(i as int) == a@);
            assert(b@.take(i as int) == b@);
            if text_before(a@, b@) {
                lemma_text_before_asymmetric(a@, b@);
            }
        }
        Place::Same
    }
}

/// Where a frame with the index `index` and the name `name` stands to one with
/// the index `other_index` and the name `other_name` in playing order.
pub fn place_of_key(index: u32, name: &[char], other_index: u32, other_name: &[char]) -> (p: Place)
    ensures
        p == Place::Before <==> key_before(index, name@, other_index, other_name@),
        p == Place::Same <==> index == other_index && name@ == other_name@,
        p == Place::After <==> key_before(other_index, other_name@, index, name@),
{
    if index < other_index {
        Place::Before
    } else if other_index < index {
        Place::After
    } else {
        place_of_text(name, other_name)
    }
}

/// Where the frame `a` stands to `b` in playing order.
pub fn place_of_frame(a: &FrameFile, b: &FrameFile) -> (p: Place)
    ensures
        p == Place::Before <==> frame_before(a@, b@),
        p == Place::Same <==> a.index == b.index && a.name@ == b.name@,
        p == Place::After <==> frame_before(b@, a@),
{
    let x = chars_of(a.name.as_str());
    let y = chars_of(b.name.as_str());
    place_of_key(a.index, x.as_slice(), b.index, y.as_slice())
}

/// The order of texts passes on: what is before a text is before all that come
/// after it.
pub proof fn lemma_text_before_transitive(a: Seq<char>, b: Seq<char>, c: Seq<char>)
    requires
        text_before(a, b),
        text_before(b, c),
    ensures
        text_before(a, c),
{
    let k1 = choose|k: int|
        0 <= k <= a.len() && k <= b.len() && #[trigger] a.take(k) == b.take(k) && k < b.len() && (k
            == a.len() || a[k] < b[k]);
    let k2 = choose|k: int|
        0 <= k <= b.len() && k <= c.len() && #[trigger] b.take(k) == c.take(k) && k < c.len() && (k
            == b.len() || b[k] < c[k]);
    let k = if k1 <= k2 {
        k1
    } else {
        k2
    };
    assert(a.take(k) =~= c.take(k)) by {
        assert forall|i: int| 0 <= i < k implies a[i] == c[i] by {
            assert(a.take(k1)[i] == b.take(k1)[i]);
            assert(b.take(k2)[i] == c.take(k2)[i]);
        }
    }
    if k1 < k2 {
        assert(b.take(k2)[k1] == c.take(k2)[k1]);
    } else if k2 < k1 {
        assert(a.take(k1)[k2] == b.take(k1)[k2]);
    }
}

/// The playing order passes on.
pub proof fn lemma_frame_order_transitive(a: FrameFileView, b: FrameFileView, c: FrameFileView)
    requires
        frame_not_after(a, b),
        frame_not_after(b, c),
    ensures
        frame_not_after(a, c),
{
    if a.index == b.index && b.index == c.index && text_before(a.name, b.name) && text_before(
        b.name,
        c.name,
    ) {
        lemma_text_before_transitive(a.name, b.name, c.name);
    }
}

/// What is played no later than a frame is played before all that the frame is
/// played before.
pub proof fn lemma_frame_before_passes_on(a: FrameFileView, b: FrameFileView, c: FrameFileView)
    requires
        frame_not_after(a, b),
        frame_before(b, c),
    ensures
        frame_before(a, c),
{
    if a.index == b.index && b.index == c.index && text_before(a.name, b.name) {
        lemma_text_before_transitive(a.name, b.name, c.name);
    }
}

/// The frames `frames` in playing order. Frames with the same index and name
/// keep the order in which they came.
fn sort_frame_files(frames: Vec<FrameFile>) -> (sorted: Vec<FrameFile>)
    ensures
        in_order(views(sorted@)),
        views(sorted@).to_multiset() == views(frames@).to_multiset(),
{
    let mut rest = frames;
    let mut sorted: Vec<FrameFile> = Vec::new();
    let mut names: Vec<Vec<char>> = Vec::new();
    proof {
        assert(views(sorted@) =~= Seq::<FrameFileView>::empty());
        broadcast use vstd::multiset::group_multiset_axioms;
        broadcast use vstd::seq_lib::group_to_multiset_ensures;
        assert(views(sorted@).to_multiset().add(views(rest@).to_multiset()) =~= views(
            frames@,
        ).to_multiset());
    }
    while rest.len() > 0
        invariant
            in_order(views(sorted@)),
            views(sorted@).to_multiset().add(views(rest@).to_multiset()) == views(
                frames@,
            ).to_multiset(),
            names@.len() == sorted@.len(),
            forall|k: int| 0 <= k < names@.len() ==> (#[trigger] names@[k])@ == sorted@[k].name@,
        decreases rest@.len(),
    {
        let ghost rest_before = views(rest@);
        let ghost sorted_before = views(sorted@);
        let ghost names_before = names@;
        let frame = rest.pop().unwrap();
        let name = chars_of(frame.name.as_str());
        let mut low: usize = 0;
        let mut high: usize = sorted.len();
        while low < high
            invariant
                low <= high <= sorted@.len(),
                sorted_before == views(sorted@),
                in_order(sorted_before),
                names@ == names_before,
                names@.len() == sorted@.len(),
                forall|k: int| 0 <= k < names@.len() ==> (#[trigger] names@[k])@ == sorted@[k].name@,
                name@ == frame.name@,
                forall|k: int| 0 <= k < low ==> frame_before(#[trigger] sorted_before[k], frame@),
                forall|k: int|
                    high <= k < sorted_before.len() ==> frame_not_after(
                        frame@,
                        #[trigger] sorted_before[k],
                    ),
            decreases high - low,
        {
            let middle = low + (high - low) / 2;
            let place = place_of_key(
                sorted[middle].index,
                names[middle].as_slice(),
                frame.index,
                name.as_slice(),
            );
            proof {
                assert(sorted_before[middle as int] == sorted@[middle as int]@);
            }
            if place == Place::Before {
                proof {
                    assert forall|k: int| 0 <= k < middle + 1 implies frame_before(
                        #[trigger] sorted_before[k],
                        frame@,
                    ) by {
                        if k < middle {
                            assert(frame_not_after(sorted_before[k], sorted_before[middle as int]));
                            lemma_frame_before_passes_on(
                                sorted_before[k],
                                sorted_before[middle as int],
                                frame@,
                            );
                        }
                    }
                }
                low = middle + 1;
            } else {
                proof {
                    assert(frame_not_after(frame@, sorted_before[middle as int]));
                    assert forall|k: int| middle <= k < sorted_before.len() implies frame_not_after(
                        frame@,
                        #[trigger] sorted_before[k],
                    ) by {
                        if middle < k {
                            assert(frame_not_after(sorted_before[middle as int], sorted_before[k]));
                            lemma_frame_order_transitive(
                                frame@,
                                sorted_before[middle as int],
                                sorted_before[k],
                            );
                        }
                    }
                }
                high = middle;
            }
        }
        let p = low;
        let ghost frame_view = frame@;
        sorted.insert(p, frame);
        names.insert(p, name);
        proof {
            let after = views(sorted@);
            assert(after =~= sorted_before.insert(p as int, frame_view));
            assert(views(rest@) =~= rest_before.drop_last());
            assert(rest_before =~= views(rest@).push(frame_view));
            broadcast use vstd::multiset::group_multiset_axioms;
            broadcast use vstd::seq_lib::group_to_multiset_ensures;
            assert(after.to_multiset() =~= sorted_before.to_multiset().insert(frame_view));
            assert(rest_before.to_multiset() =~= views(rest@).to_multiset().insert(frame_view));
            assert(after.to_multiset().add(views(rest@).to_multiset()) =~= sorted_before.to_multiset().add(
                rest_before.to_multiset(),
            ));
            assert forall|i: int, j: int| 0 <= i < j < after.len() implies frame_not_after(
                #[trigger] after[i],
                #[trigger] after[j],
            ) by {
                if j < p {
                    assert(after[i] == sorted_before[i] && after[j] == sorted_before[j]);
                } else if j == p {
                    assert(after[i] == sorted_before[i]);
                } else if i < p {
                    assert(after[i] == sorted_before[i] && after[j] == sorted_before[j - 1]);
                } else if i == p {
                    assert(after[j] == sorted_before[j - 1]);
                } else {
                    assert(after[i] == sorted_before[i - 1] && after[j] == sorted_before[j - 1]);
                }
            }
            assert forall|k: int| 0 <= k < names@.len() implies (#[trigger] names@[k])@
                == sorted@[k].name@ by {
                if k < p {
                    assert(names@[k] == names_before[k]);
                } else if k > p {
                    assert(names@[k] == names_before[k - 1]);
                }
            }
        }
    }
    proof {
        broadcast use vstd::multiset::group_multiset_axioms;
        broadcast use vstd::seq_lib::group_to_multiset_ensures;
        assert(views(rest@) =~= Seq::<FrameFileView>::empty());
        assert(views(sorted@).to_multiset().add(views(rest@).to_multiset()) =~= views(
            sorted@,
        ).to_multiset());
    }
    sorted
}

/// What stands at the place that was chosen for loading.
#[derive(Clone, Debug)]
pub enum Found {
    /// Nothing.
    Nothing,
    /// A single file, with this name.
    File { name: String },
    /// A directory, with the names of the files in it, in the order in which the
    /// directory listed them.
    Directory { names: Vec<String> },
    /// A directory that could not be listed, with the cause.
    Unreadable { cause: String },
}

/// Why a place holds no frames to load.
#[derive(Clone, Debug)]
pub enum EnumerateError {
    /// Nothing stands at the place.
    NotFound,
    /// The single file is no frame: its name ends neither in `.txt` nor in
    /// `.cframe`.
    InvalidInput,
    /// The directory could not be listed.
    IoFailure { cause: String },
}

/// The words in which an `EnumerateError` is reported.
pub open spec fn enumerate_error_text(e: EnumerateError) -> Seq<char> {
    match e {
        EnumerateError::NotFound => "Directory does not exist"@,
        EnumerateError::InvalidInput => "Dropped file is not a .txt or .cframe file"@,
        EnumerateError::IoFailure { cause } => "Failed to read directory: "@ + cause@,
    }
}

impl EnumerateError {
    /// The error in words.
    pub fn message(&self) -> (m: String)
        ensures
            m@ == enumerate_error_text(*self),
    {
        match self {
            EnumerateError::NotFound => "Directory does not exist".to_owned(),
            EnumerateError::InvalidInput => "Dropped file is not a .txt or .cframe file".to_owned(),
            EnumerateError::IoFailure { cause } => {
                let mut m = "Failed to read directory: ".to_owned();
                m.append(cause.as_str());
                m
            },
        }
    }
}

/// What `scan_frames_in_dir` owes for the place `found` under `prefix`.
pub open spec fn scan_result(
    prefix: Seq<char>,
    found: Found,
    r: Result<Vec<FrameFile>, EnumerateError>,
) -> bool {
    match found {
        Found::Nothing => r matches Err(EnumerateError::NotFound),
        Found::File { name } => match recognized_stem(name@) {
            Some(stem) => r matches Ok(frames) && views(frames@) == seq![
                FrameFileView { path: prefix + stem + text_suffix(), name: name@, index: 0 },
            ],
            None => r matches Err(EnumerateError::InvalidInput),
        },
        Found::Directory { names } => r matches Ok(frames) && in_order(views(frames@)) && views(
            frames@,
        ).to_multiset() == collect_frames(prefix, texts(names@)).to_multiset(),
        Found::Unreadable { cause } => r matches Err(EnumerateError::IoFailure { cause: c })
            && c@ == cause@,
    }
}

/// The frames at a place, in playing order.
///
/// A single file is one frame with index 0 if its name ends in `.txt` or
/// `.cframe` behind a stem, and invalid input otherwise; its path is that of its
/// text file, whichever of the two it is. A directory has one frame for each
/// stem among its frame files, however many files share the stem, ordered by
/// index and then by name. `dir_prefix` is the text form of the directory (for a
/// single file, of the directory that holds it) with the separator at its end.
pub fn scan_frames_in_dir(dir_prefix: &str, found: &Found) -> (r: Result<
    Vec<FrameFile>,
    EnumerateError,
>)
    ensures
        scan_result(dir_prefix@, *found, r),
{
    match found {
        Found::Nothing => Err(EnumerateError::NotFound),
        Found::File { name } => {
            let v = chars_of(name.as_str());
            match stem_length(v.as_slice()) {
                Some(n) => {
                    let text = text_name(v.as_slice(), n);
                    let mut path = dir_prefix.to_owned();
                    path.append(text.as_str());
                    assert(path@ =~= dir_prefix@ + v@.take(n as int) + text_suffix());
                    let mut frames: Vec<FrameFile> = Vec::new();
                    frames.push(FrameFile { path, name: name.clone(), index: 0 });
                    assert(views(frames@) =~= seq![
                        FrameFileView {
                            path: dir_prefix@ + v@.take(n as int) + text_suffix(),
                            name: name@,
                            index: 0,
                        },
                    ]);
                    Ok(frames)
                },
                None => Err(EnumerateError::InvalidInput),
            }
        },
        Found::Directory { names } => Ok(sort_frame_files(collect_frame_files(dir_prefix, names))),
        Found::Unreadable { cause } => Err(EnumerateError::IoFailure { cause: cause.clone() }),
    }
}

/// The stems of the frame files among the entries `names`, each once.
pub open spec fn stems_of(names: Seq<Seq<char>>) -> Set<Seq<char>> {
    Set::new(
        |stem: Seq<char>|
            exists|i: int| 0 <= i < names.len() && recognized_stem(#[trigger] names[i]) == Some(stem),
    )
}

/// The stem of the text file with the name `name`.
pub open spec fn stem_of_text_name(name: Seq<char>) -> Seq<char> {
    name.take(name.len() - 4)
}

/// A text file's name is the name of one stem only.
pub proof fn lemma_text_name_of_one_stem(a: Seq<char>, b: Seq<char>)
    requires
        a + text_suffix() == b + text_suffix(),
    ensures
        a == b,
{
    let x = a + text_suffix();
    let y = b + text_suffix();
    assert(x.len() == y.len());
    assert(x.take(a.len() as int) =~= a);
    assert(y.take(b.len() as int) =~= b);
}

/// A directory has exactly one frame for each stem among its frame files,
/// however many files share a stem. The frame number `k` is the frame of its
/// stem with `k` frames found before it: its name is the stem with `.txt`, and
/// its path is that name in the directory. No two frames share a name.
pub proof fn lemma_one_frame_per_stem(prefix: Seq<char>, names: Seq<Seq<char>>)
    ensures
        stems_of(names).finite(),
        collect_frames(prefix, names).len() == stems_of(names).len(),
        forall|stem: Seq<char>|
            has_name(collect_frames(prefix, names), #[trigger] (stem + text_suffix()))
                <==> stems_of(names).contains(stem),
        forall|k: int|
            0 <= k < collect_frames(prefix, names).len() ==> {
                let frame = #[trigger] collect_frames(prefix, names)[k];
                &&& stems_of(names).contains(stem_of_text_name(frame.name))
                &&& frame == frame_of(prefix, stem_of_text_name(frame.name), k as nat)
            },
        forall|i: int, j: int|
            0 <= i < j < collect_frames(prefix, names).len() ==> (#[trigger] collect_frames(
                prefix,
                names,
            )[i]).name != (#[trigger] collect_frames(prefix, names)[j]).name,
    decreases names.len(),
{
    let frames = collect_frames(prefix, names);
    let all = stems_of(names);
    if names.len() == 0 {
        assert(all =~= Set::<Seq<char>>::empty());
    } else {
        let init = names.drop_last();
        let before = collect_frames(prefix, init);
        let known = stems_of(init);
        lemma_one_frame_per_stem(prefix, init);
        assert forall|t: Seq<char>| known.contains(t) implies all.contains(t) by {
            let i = choose|i: int|
                0 <= i < init.len() && recognized_stem(#[trigger] init[i]) == Some(t);
            assert(names[i] == init[i]);
        }
        match recognized_stem(names.last()) {
            Some(stem) => {
                assert(all.contains(stem)) by {
                    assert(recognized_stem(names[names.len() - 1]) == Some(stem));
                }
                assert forall|t: Seq<char>| all.contains(t) implies known.insert(stem).contains(
                    t,
                ) by {
                    let i = choose|i: int|
                        0 <= i < names.len() && recognized_stem(#[trigger] names[i]) == Some(t);
                    if i < init.len() {
                        assert(init[i] == names[i]);
                    }
                }
                assert(all =~= known.insert(stem));
                if has_name(before, stem + text_suffix()) {
                    assert(known.contains(stem));
                    assert(all =~= known);
                } else {
                    assert(!known.contains(stem));
                    let added = frame_of(prefix, stem, before.len());
                    assert(frames == before.push(added));
                    assert forall|t: Seq<char>|
                        has_name(frames, #[trigger] (t + text_suffix())) <==> all.contains(t) by {
                        if has_name(frames, t + text_suffix()) {
                            let k = choose|k: int|
                                0 <= k < frames.len() && (#[trigger] frames[k]).name == t
                                    + text_suffix();
                            if k < before.len() {
                                assert(before[k].name == t + text_suffix());
                                assert(has_name(before, t + text_suffix()));
                            } else {
                                lemma_text_name_of_one_stem(stem, t);
                            }
                        }
                        if all.contains(t) {
                            if t == stem {
                                assert(frames[before.len() as int].name == t + text_suffix());
                            } else {
                                assert(has_name(before, t + text_suffix()));
                                let k = choose|k: int|
                                    0 <= k < before.len() && (#[trigger] before[k]).name == t
                                        + text_suffix();
                                assert(frames[k].name == t + text_suffix());
                            }
                        }
                    }
                    assert forall|k: int| 0 <= k < frames.len() implies {
                        let frame = #[trigger] frames[k];
                        &&& all.contains(stem_of_text_name(frame.name))
                        &&& frame == frame_of(prefix, stem_of_text_name(frame.name), k as nat)
                    } by {
                        if k < before.len() {
                            assert(frames[k] == before[k]);
                        } else {
                            assert(stem_of_text_name(stem + text_suffix()) =~= stem);
                        }
                    }
                    assert forall|i: int, j: int| 0 <= i < j < frames.len() implies (
                    #[trigger] frames[i]).name != (#[trigger] frames[j]).name by {
                        if j < before.len() {
                            assert(frames[i] == before[i] && frames[j] == before[j]);
                        } else {
                            assert(frames[i] == before[i]);
                            if before[i].name == added.name {
                                assert(has_name(before, stem + text_suffix()));
                            }
                        }
                    }
                }
            },
            None => {
                assert forall|t: Seq<char>| all.contains(t) implies known.contains(t) by {
                    let i = choose|i: int|
                        0 <= i < names.len() && recognized_stem(#[trigger] names[i]) == Some(t);
                    assert(init[i] == names[i]);
                }
                assert(all =~= known);
            },
        }
    }
}

/// Whether no two of `frames` share a name.
pub open spec fn names_differ(frames: Seq<FrameFileView>) -> bool {
    forall|i: int, j: int|
        0 <= i < j < frames.len() ==> (#[trigger] frames[i]).name != (#[trigger] frames[j]).name
}

/// What is listed for a directory holds one frame for each stem among the
/// directory's frame files, and so no more frames than there are stems. Each
/// frame's name is its stem with `.txt`, and its path is that name in the
/// directory, whichever kinds of file the stem has. No two frames share a name.
pub proof fn lemma_listed_once_per_stem(
    prefix: Seq<char>,
    names: Seq<Seq<char>>,
    frames: Seq<FrameFileView>,
)
    requires
        frames.to_multiset() == collect_frames(prefix, names).to_multiset(),
    ensures
        stems_of(names).finite(),
        frames.len() == stems_of(names).len(),
        forall|k: int|
            0 <= k < frames.len() ==> {
                let frame = #[trigger] frames[k];
                let stem = stem_of_text_name(frame.name);
                &&& stems_of(names).contains(stem)
                &&& frame.name == stem + text_suffix()
                &&& frame.path == prefix + stem + text_suffix()
                &&& has_suffix(frame.path, text_suffix())
            },
        names_differ(frames),
{
    broadcast use vstd::multiset::group_multiset_axioms;
    broadcast use vstd::seq_lib::group_to_multiset_ensures;

    let found = collect_frames(prefix, names);
    lemma_one_frame_per_stem(prefix, names);
    vstd::seq_lib::to_multiset_len(frames);
    vstd::seq_lib::to_multiset_len(found);
    assert(frames.len() == found.len());
    assert forall|k: int| 0 <= k < frames.len() implies {
        let frame = #[trigger] frames[k];
        let stem = stem_of_text_name(frame.name);
        &&& stems_of(names).contains(stem)
        &&& frame.name == stem + text_suffix()
        &&& frame.path == prefix + stem + text_suffix()
        &&& has_suffix(frame.path, text_suffix())
    } by {
        let frame = frames[k];
        assert(frames.to_multiset().contains(frame));
        assert(found.to_multiset().contains(frame));
        assert(found.contains(frame));
        let m = choose|m: int| 0 <= m < found.len() && found[m] == frame;
        assert(frame == found[m]);
        let stem = stem_of_text_name(frame.name);
        assert(frame.path.skip(frame.path.len() - 4) =~= text_suffix());
    }
    assert(found.no_duplicates()) by {
        assert forall|i: int, j: int| 0 <= i < found.len() && 0 <= j < found.len() && i
            != j implies found[i] != found[j] by {
            if i < j {
                assert(found[i].name != found[j].name);
            } else {
                assert(found[j].name != found[i].name);
            }
        }
    }
    found.lemma_multiset_has_no_duplicates();
    frames.lemma_multiset_has_no_duplicates_conv();
    assert forall|i: int, j: int| 0 <= i < j < frames.len() implies (#[trigger] frames[i]).name != (
    #[trigger] frames[j]).name by {
        assert(frames.to_multiset().contains(frames[i]));
        assert(frames.to_multiset().contains(frames[j]));
        assert(found.contains(frames[i]));
        assert(found.contains(frames[j]));
        let m = choose|m: int| 0 <= m < found.len() && found[m] == frames[i];
        let n = choose|n: int| 0 <= n < found.len() && found[n] == frames[j];
        assert(frames[i] != frames[j]);
        if m < n {
            assert(found[m].name != found[n].name);
        } else {
            assert(found[n].name != found[m].name);
        }
    }
}

/// The playing order is one: two listings of the same frames, both in playing
/// order, are the same listing, whatever order the frames were found in.
pub proof fn lemma_order_is_one(a: Seq<FrameFileView>, b: Seq<FrameFileView>)
    requires
        in_order(a),
        in_order(b),
        names_differ(a),
        a.to_multiset() == b.to_multiset(),
    ensures
        a == b,
    decreases a.len(),
{
    broadcast use vstd::multiset::group_multiset_axioms;
    broadcast use vstd::seq_lib::group_to_multiset_ensures;

    vstd::seq_lib::to_multiset_len(a);
    vstd::seq_lib::to_multiset_len(b);
    assert(a.len() == b.len());
    if a.len() > 0 {
        assert(a.to_multiset().contains(a[0]));
        assert(b.to_multiset().contains(b[0]));
        assert(b.contains(a[0]));
        assert(a.contains(b[0]));
        let j = choose|j: int| 0 <= j < b.len() && b[j] == a[0];
        let i = choose|i: int| 0 <= i < a.len() && a[i] == b[0];
        if i > 0 && j > 0 {
            assert(frame_not_after(a[0], a[i]));
            assert(frame_not_after(b[0], b[j]));
            if text_before(a[0].name, b[0].name) {
                lemma_text_before_asymmetric(a[0].name, b[0].name);
            }
            if text_before(b[0].name, a[0].name) {
                lemma_text_before_asymmetric(b[0].name, a[0].name);
            }
            assert(a[0].name == a[i].name);
        }
        assert(a[0] == b[0]);
        let x = a.drop_first();
        let y = b.drop_first();
        assert(x =~= a.remove(0));
        assert(y =~= b.remove(0));
        vstd::seq_lib::to_multiset_remove(a, 0);
        vstd::seq_lib::to_multiset_remove(b, 0);
        assert forall|p: int, q: int| 0 <= p < q < x.len() implies frame_not_after(
            #[trigger] x[p],
            #[trigger] x[q],
        ) by {
            assert(x[p] == a[p + 1] && x[q] == a[q + 1]);
        }
        assert forall|p: int, q: int| 0 <= p < q < y.len() implies frame_not_after(
            #[trigger] y[p],
            #[trigger] y[q],
        ) by {
            assert(y[p] == b[p + 1] && y[q] == b[q + 1]);
        }
        assert forall|p: int, q: int| 0 <= p < q < x.len() implies (#[trigger] x[p]).name != (
        #[trigger] x[q]).name by {
            assert(x[p] == a[p + 1] && x[q] == a[q + 1]);
        }
        lemma_order_is_one(x, y);
        assert(a =~= seq![a[0]] + x);
        assert(b =~= seq![b[0]] + y);
    }
}

/// What `scan_frames_in_dir` lists for a directory is decided by the entries of
/// the directory: the frames that `collect_frames` finds, in playing order.
pub proof fn lemma_listing_is_one(
    prefix: Seq<char>,
    names: Seq<Seq<char>>,
    a: Seq<FrameFileView>,
    b: Seq<FrameFileView>,
)
    requires
        in_order(a),
        a.to_multiset() == collect_frames(prefix, names).to_multiset(),
        in_order(b),
        b.to_multiset() == collect_frames(prefix, names).to_multiset(),
    ensures
        a == b,
{
    lemma_listed_once_per_stem(prefix, names, a);
    lemma_order_is_one(a, b);
}

/// Whether the stem `stem` names its index itself, so that the index does not
/// hang on the number of frames that were found before it.
pub open spec fn names_own_index(stem: Seq<char>) -> bool {
    forall|fallback: u32| #[trigger] stem_index(stem, fallback) == stem_index(stem, 0)
}

/// The frames that are found in a directory whose stems all name their own
/// index are, as a collection, the frames of its stems; the order of the
/// entries has no part in it.
proof fn lemma_found_by_stem(prefix: Seq<char>, names: Seq<Seq<char>>, frame: FrameFileView)
    requires
        forall|stem: Seq<char>| stems_of(names).contains(stem) ==> names_own_index(stem),
    ensures
        collect_frames(prefix, names).to_multiset().count(frame) == if stems_of(names).contains(
            stem_of_text_name(frame.name),
        ) && frame == frame_of(prefix, stem_of_text_name(frame.name), 0) {
            1nat
        } else {
            0nat
        },
{
    broadcast use vstd::multiset::group_multiset_axioms;
    broadcast use vstd::seq_lib::group_to_multiset_ensures;

    let found = collect_frames(prefix, names);
    let stem = stem_of_text_name(frame.name);
    lemma_one_frame_per_stem(prefix, names);
    assert(found.no_duplicates()) by {
        assert forall|i: int, j: int| 0 <= i < found.len() && 0 <= j < found.len() && i
            != j implies found[i] != found[j] by {
            if i < j {
                assert(found[i].name != found[j].name);
            } else {
                assert(found[j].name != found[i].name);
            }
        }
    }
    found.lemma_multiset_has_no_duplicates();
    vstd::seq_lib::to_multiset_contains(found, frame);
    if found.contains(frame) {
        let k = choose|k: int| 0 <= k < found.len() && found[k] == frame;
        assert(found[k] == frame_of(prefix, stem, k as nat));
        assert(names_own_index(stem));
        assert(stem_index(stem, k as nat as u32) == stem_index(stem, 0));
    } else if stems_of(names).contains(stem) && frame == frame_of(prefix, stem, 0) {
        assert(has_name(found, stem + text_suffix()));
        let k = choose|k: int|
            0 <= k < found.len() && (#[trigger] found[k]).name == stem + text_suffix();
        assert(stem_of_text_name(found[k].name) == stem);
        assert(found[k] == frame_of(prefix, stem, k as nat));
        assert(names_own_index(stem));
        assert(stem_index(stem, k as nat as u32) == stem_index(stem, 0));
        assert(found[k] == frame);
    }
}

/// The listing of a directory does not hang on the order in which the
/// directory hands out its entries, where every stem names its own index: two
/// orders of the same entries are listed alike.
pub proof fn lemma_listing_order_free(
    prefix: Seq<char>,
    names: Seq<Seq<char>>,
    other: Seq<Seq<char>>,
    a: Seq<FrameFileView>,
    b: Seq<FrameFileView>,
)
    requires
        names.to_multiset() == other.to_multiset(),
        forall|stem: Seq<char>| stems_of(names).contains(stem) ==> names_own_index(stem),
        in_order(a),
        a.to_multiset() == collect_frames(prefix, names).to_multiset(),
        in_order(b),
        b.to_multiset() == collect_frames(prefix, other).to_multiset(),
    ensures
        a == b,
{
    broadcast use vstd::multiset::group_multiset_axioms;
    broadcast use vstd::seq_lib::group_to_multiset_ensures;

    assert forall|stem: Seq<char>| stems_of(names).contains(stem) == stems_of(other).contains(
        stem,
    ) by {
        if stems_of(names).contains(stem) {
            let i = choose|i: int|
                0 <= i < names.len() && recognized_stem(#[trigger] names[i]) == Some(stem);
            assert(names.to_multiset().contains(names[i]));
            vstd::seq_lib::to_multiset_contains(other, names[i]);
            let j = choose|j: int| 0 <= j < other.len() && other[j] == names[i];
            assert(recognized_stem(other[j]) == Some(stem));
        }
        if stems_of(other).contains(stem) {
            let i = choose|i: int|
                0 <= i < other.len() && recognized_stem(#[trigger] other[i]) == Some(stem);
            assert(other.to_multiset().contains(other[i]));
            vstd::seq_lib::to_multiset_contains(names, other[i]);
            let j = choose|j: int| 0 <= j < names.len() && names[j] == other[i];
            assert(recognized_stem(names[j]) == Some(stem));
        }
    }
    assert(stems_of(names) =~= stems_of(other));
    let x = collect_frames(prefix, names).to_multiset();
    let y = collect_frames(prefix, other).to_multiset();
    assert forall|frame: FrameFileView| x.count(frame) == y.count(frame) by {
        lemma_found_by_stem(prefix, names, frame);
        lemma_found_by_stem(prefix, other, frame);
    }
    assert(x =~= y);
    lemma_listing_is_one(prefix, names, a, b);
}

} // verus!
