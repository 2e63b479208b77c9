//! The audio track of a project as a data URI that a player can load.

use vstd::prelude::*;

verus! {

/// What base64's `STANDARD` engine encodes `data` to: the standard alphabet,
/// with padding. The encoding is the crate's; nothing is said here of what it is
/// but that it is decided by the bytes.
pub uninterp spec fn base64_standard(data: Seq<u8>) -> Seq<char>;

/// Taken on trust from the crate base64: `Engine::encode` of the engine
/// `general_purpose::STANDARD` returns the encoding of the bytes it is given.
/// It takes four characters for every three bytes begun and panics where that
/// many cannot be counted in a `usize`, so it is called only where they can.
#[verifier::external_body]
fn encode_base64(data: &[u8]) -> (text: String)
    requires
        4 * ((data@.len() + 2) / 3) <= usize::MAX,
    ensures
        text@ == base64_standard(data@),
{
    base64::Engine::encode(&base64::engine::general_purpose::STANDARD, data)
}

/// What was found when the audio track was looked for.
#[derive(Clone, Debug)]
pub enum AudioSource {
    /// No file.
    Missing,
    /// A file that could not be read, with the cause.
    Unreadable { cause: String },
    /// The file, with its bytes.
    Data { bytes: Vec<u8> },
}

/// Why there is no data URI for the audio track.
#[derive(Clone, Debug)]
pub enum AudioError {
    /// There is no audio file.
    NotFound,
    /// The audio file could not be read.
    IoFailure { cause: String },
    /// The audio file is too long for its encoding to be held in memory.
    TooLong { length: usize },
}

/// The words in which an `AudioError` is reported.
pub open spec fn audio_error_text(e: AudioError) -> Seq<char> {
    match e {
        AudioError::NotFound => "Audio file does not exist"@,
        AudioError::IoFailure { cause } => "Failed to read audio file: "@ + cause@,
        AudioError::TooLong { length } => "Audio file too large"@,
    }
}

impl AudioError {
    /// The error in words.
    pub fn message(&self) -> (m: String)
        ensures
            m@ == audio_error_text(*self),
    {
        match self {
            AudioError::NotFound => "Audio file does not exist".to_owned(),
            AudioError::IoFailure { cause } => {
                let mut m = "Failed to read audio file: ".to_owned();
                m.append(cause.as_str());
                m
            },
            AudioError::TooLong { length } => "Audio file too large".to_owned(),
        }
    }
}

/// What every data URI of an audio track begins with.
pub open spec fn data_uri_head() -> Seq<char> {
    "data:audio/mpeg;base64,"@
}

/// Whether the encoding of `length` bytes can be held in memory: it takes four
/// characters for every three bytes begun.
pub open spec fn encodable(length: nat) -> bool {
    4 * ((length + 2) / 3) <= usize::MAX
}

/// The data URI of the audio track `data`.
pub open spec fn data_uri(data: Seq<u8>) -> Seq<char> {
    data_uri_head() + base64_standard(data)
}

/// The data URI of an audio track whose encoding is `encoded`: the head, and the
/// encoding behind it as it is.
pub fn data_uri_from(encoded: &str) -> (uri: String)
    ensures
        uri@ == data_uri_head() + encoded@,
{
    let mut uri = "data:audio/mpeg;base64,".to_owned();
    uri.append(encoded);
    uri
}

/// The data URI of the audio track in `bytes`, and `None` where the track is
/// too long to be encoded.
pub fn audio_data_uri(bytes: &[u8]) -> (uri: Option<String>)
    ensures
        match uri {
            Some(text) => encodable(bytes@.len()) && text@ == data_uri(bytes@),
            None => !encodable(bytes@.len()),
        },
{
    let groups: usize = bytes.len() / 3 + if bytes.len() % 3 == 0 {
        0
    } else {
        1
    };
    assert(groups == (bytes@.len() + 2) / 3);
    if groups > usize::MAX / 4 {
        return None;
    }
    let encoded = encode_base64(bytes);
    Some(data_uri_from(encoded.as_str()))
}

/// What `read_audio_file` owes for what was found.
pub open spec fn audio_result(source: AudioSource, r: Result<String, AudioError>) -> bool {
    match source {
        AudioSource::Missing => r matches Err(AudioError::NotFound),
        AudioSource::Unreadable { cause } => r matches Err(AudioError::IoFailure { cause: c })
            && c@ == cause@,
        AudioSource::Data { bytes } => if encodable(bytes@.len()) {
            r matches Ok(text) && text@ == data_uri(bytes@)
        } else {
            r matches Err(AudioError::TooLong { length }) && length == bytes@.len()
        },
    }
}

/// The audio track as a data URI.
pub fn read_audio_file(source: &AudioSource) -> (r: Result<String, AudioError>)
    ensures
        audio_result(*source, r),
{
    match source {
        AudioSource::Missing => Err(AudioError::NotFound),
        AudioSource::Unreadable { cause } => Err(AudioError::IoFailure { cause: cause.clone() }),
        AudioSource::Data { bytes } => match audio_data_uri(bytes.as_slice()) {
            Some(uri) => Ok(uri),
            None => Err(AudioError::TooLong { length: bytes.len() }),
        },
    }
}

} // verus!
