//! What the files of one frame yield: its text, from the text file or, where
//! there is none, from the CFrame container beside it; and its colours, which
//! it may be without.

use crate::codec::{
    cframe_colors, cframe_glyphs, cframe_text, colors_body, decode_cframe, decode_cframe_text,
    decode_colors, format_error, format_error_text, header_height, header_width, CFrameData,
    ColorData, Container, FormatError,
};
use vstd::prelude::*;

verus! {

/// What was found when the text of a frame was looked for.
#[derive(Clone, Debug)]
pub enum TextSource {
    /// The text file, with its content.
    Text { content: String },
    /// No text file that could be read, but the CFrame container beside it.
    CFrame { data: Vec<u8> },
    /// No text file that could be read, and a CFrame container that could not
    /// be read either, with the cause.
    Unreadable { cause: String },
    /// Neither of the two files.
    Neither,
}

/// What was found when the colours of a frame were looked for.
#[derive(Clone, Debug)]
pub enum BinarySource {
    /// No container: the frame has no colours.
    Absent,
    /// The container, with its bytes.
    Data { bytes: Vec<u8> },
    /// A container that could not be read, with the cause.
    Unreadable { cause: String },
}

/// Why the files of a frame did not yield what was asked of them.
#[derive(Clone, Debug)]
pub enum ReadError {
    /// The frame at this path has neither a text file nor a CFrame container.
    NotFound { path: String },
    /// The container of this kind could not be read.
    IoFailure { kind: Container, cause: String },
    /// The container is malformed.
    Format { error: FormatError },
}

/// The name of a kind of container in the report of a failed read.
pub open spec fn container_file_text(kind: Container) -> Seq<char> {
    match kind {
        Container::CFrame => "cframe"@,
        Container::Colors => "colors"@,
    }
}

/// The words in which a `ReadError` is reported.
pub open spec fn read_error_text(e: ReadError) -> Seq<char> {
    match e {
        ReadError::NotFound { path } => "Neither .txt nor .cframe file exists for: "@ + path@,
        ReadError::IoFailure { kind, cause } => "Failed to read "@ + container_file_text(kind)
            + " file: "@ + cause@,
        ReadError::Format { error } => format_error_text(error),
    }
}

impl ReadError {
    /// The error in words.
    pub fn message(&self) -> (m: String)
        ensures
            m@ == read_error_text(*self),
    {
        match self {
            ReadError::NotFound { path } => {
                let mut m = "Neither .txt nor .cframe file exists for: ".to_owned();
                m.append(path.as_str());
                m
            },
            ReadError::IoFailure { kind, cause } => {
                let mut m = "Failed to read ".to_owned();
                match kind {
                    Container::CFrame => m.append("cframe"),
                    Container::Colors => m.append("colors"),
                }
                m.append(" file: ");
                m.append(cause.as_str());
                m
            },
            ReadError::Format { error } => error.message(),
        }
    }
}

/// What `read_frame_file` owes for the frame at `path` and what was found.
pub open spec fn frame_text_result(
    path: Seq<char>,
    source: TextSource,
    r: Result<String, ReadError>,
) -> bool {
    match source {
        TextSource::Text { content } => r matches Ok(text) && text@ == content@,
        TextSource::CFrame { data } => match format_error(Container::CFrame, data@) {
            None => r matches Ok(text) && text@ == cframe_text(data@),
            Some(e) => r matches Err(ReadError::Format { error }) && error == e,
        },
        TextSource::Unreadable { cause } => r matches Err(
            ReadError::IoFailure { kind: Container::CFrame, cause: c },
        ) && c@ == cause@,
        TextSource::Neither => r matches Err(ReadError::NotFound { path: p }) && p@ == path,
    }
}

/// The text of the frame at `file_path`: the content of its text file where
/// there is one, and else the text that its CFrame container decodes to.
pub fn read_frame_file(file_path: &str, source: TextSource) -> (r: Result<String, ReadError>)
    ensures
        frame_text_result(file_path@, source, r),
{
    match source {
        TextSource::Text { content } => Ok(content),
        TextSource::CFrame { data } => match decode_cframe_text(data.as_slice()) {
            Ok(text) => Ok(text),
            Err(error) => Err(ReadError::Format { error }),
        },
        TextSource::Unreadable { cause } => Err(
            ReadError::IoFailure { kind: Container::CFrame, cause },
        ),
        TextSource::Neither => Err(ReadError::NotFound { path: file_path.to_owned() }),
    }
}

/// What `read_binary_file` owes for what was found.
pub open spec fn binary_result(
    kind: Container,
    source: BinarySource,
    r: Result<Option<Vec<u8>>, ReadError>,
) -> bool {
    match source {
        BinarySource::Absent => r matches Ok(None),
        BinarySource::Data { bytes } => r matches Ok(Some(data)) && data@ == bytes@,
        BinarySource::Unreadable { cause } => r matches Err(
            ReadError::IoFailure { kind: k, cause: c },
        ) && k == kind && c@ == cause@,
    }
}

/// The bytes of the container of the kind `kind` that stands beside a frame's
/// text, as they are, and `None` where the frame has no such container: that is
/// no error, the frame is without colours.
pub fn read_binary_file(kind: Container, source: BinarySource) -> (r: Result<
    Option<Vec<u8>>,
    ReadError,
>)
    ensures
        binary_result(kind, source, r),
{
    match source {
        BinarySource::Absent => Ok(None),
        BinarySource::Data { bytes } => Ok(Some(bytes)),
        BinarySource::Unreadable { cause } => Err(ReadError::IoFailure { kind, cause }),
    }
}

/// What `read_cframe_file` owes for what was found.
pub open spec fn cframe_result(
    source: BinarySource,
    r: Result<Option<CFrameData>, ReadError>,
) -> bool {
    match source {
        BinarySource::Absent => r matches Ok(None),
        BinarySource::Data { bytes } => match format_error(Container::CFrame, bytes@) {
            None => {
                &&& r matches Ok(Some(frame))
                &&& frame.width == header_width(bytes@)
                &&& frame.height == header_height(bytes@)
                &&& frame.chars@ == cframe_glyphs(bytes@)
                &&& frame.rgb@ == cframe_colors(bytes@)
                &&& frame.wf()
            },
            Some(e) => r matches Err(ReadError::Format { error }) && error == e,
        },
        BinarySource::Unreadable { cause } => r matches Err(
            ReadError::IoFailure { kind: Container::CFrame, cause: c },
        ) && c@ == cause@,
    }
}

/// The glyphs and colours of a frame from its CFrame container, and `None`
/// where the frame has no such container.
pub fn read_cframe_file(source: &BinarySource) -> (r: Result<Option<CFrameData>, ReadError>)
    ensures
        cframe_result(*source, r),
{
    match source {
        BinarySource::Absent => Ok(None),
        BinarySource::Data { bytes } => match decode_cframe(bytes.as_slice()) {
            Ok(frame) => Ok(Some(frame)),
            Err(error) => Err(ReadError::Format { error }),
        },
        BinarySource::Unreadable { cause } => Err(
            ReadError::IoFailure { kind: Container::CFrame, cause: cause.clone() },
        ),
    }
}

/// What `read_colors_file` owes for what was found.
pub open spec fn colors_result(
    source: BinarySource,
    r: Result<Option<ColorData>, ReadError>,
) -> bool {
    match source {
        BinarySource::Absent => r matches Ok(None),
        BinarySource::Data { bytes } => match format_error(Container::Colors, bytes@) {
            None => {
                &&& r matches Ok(Some(colors))
                &&& colors.width == header_width(bytes@)
                &&& colors.height == header_height(bytes@)
                &&& colors.rgb@ == colors_body(bytes@)
                &&& colors.wf()
            },
            Some(e) => r matches Err(ReadError::Format { error }) && error == e,
        },
        BinarySource::Unreadable { cause } => r matches Err(
            ReadError::IoFailure { kind: Container::Colors, cause: c },
        ) && c@ == cause@,
    }
}

/// The colours of a frame from its Colors container, and `None` where the frame
/// has no such container.
pub fn read_colors_file(source: &BinarySource) -> (r: Result<Option<ColorData>, ReadError>)
    ensures
        colors_result(*source, r),
{
    match source {
        BinarySource::Absent => Ok(None),
        BinarySource::Data { bytes } => match decode_colors(bytes.as_slice()) {
            Ok(colors) => Ok(Some(colors)),
            Err(error) => Err(ReadError::Format { error }),
        },
        BinarySource::Unreadable { cause } => Err(
            ReadError::IoFailure { kind: Container::Colors, cause: cause.clone() },
        ),
    }
}

} // verus!
