//! Kinds of uploaded files and of rendered posts.

use vstd::prelude::*;
use crate::text::{contains_chars, str_contains};

verus! {

/// File categories that users can send.
#[derive(Clone, Copy, Debug, PartialEq, Eq, Structural)]
pub enum FileType {
    Image,
    Video,
    Invalid,
}

/// Places where a post is shown.
#[derive(Clone, Copy, Debug, PartialEq, Eq, Structural)]
pub enum BoardMessageType {
    /// A thread on a board page.
    Message,
    /// The opening post on a thread page.
    ParentMessage,
    /// A reply on a thread page.
    Submessage,
    /// A thread block in a board catalog.
    CatalogMessage,
}

impl FileType {
    /// True for a file that cannot be shown.
    pub fn not(self) -> (r: bool)
        ensures
            r == (self == FileType::Invalid),
    {
        match self {
            FileType::Invalid => true,
            _ => false,
        }
    }
}

impl BoardMessageType {
    /// True where the post is shown on a thread's own page.
    pub fn on_topic_page(self) -> (r: bool)
        ensures
            r == (self == BoardMessageType::ParentMessage || self == BoardMessageType::Submessage),
    {
        match self {
            BoardMessageType::ParentMessage => true,
            BoardMessageType::Submessage => true,
            _ => false,
        }
    }
}

pub open spec fn image_marker() -> Seq<char> {
    seq!['i', 'm', 'a', 'g', 'e', ' ', 'd', 'a', 't', 'a']
}

pub open spec fn mp4_marker() -> Seq<char> {
    seq!['M', 'P', '4', ' ', 'B', 'a', 's', 'e', ' ', 'M', 'e', 'd', 'i', 'a']
}

pub open spec fn webm_marker() -> Seq<char> {
    seq!['W', 'e', 'b', 'M']
}

/// Category of a file from its content description (as a file-type detector
/// words it) and whether the file exists.
pub fn file_type_from_description(description: &str, exists: bool) -> (r: FileType)
    ensures
        r == (if !exists {
            FileType::Invalid
        } else if contains_chars(description@, image_marker()) {
            FileType::Image
        } else if contains_chars(description@, mp4_marker()) || contains_chars(
            description@,
            webm_marker(),
        ) {
            FileType::Video
        } else {
            FileType::Invalid
        }),
{
    proof {
        reveal_strlit("image data");
        reveal_strlit("MP4 Base Media");
        reveal_strlit("WebM");
        assert("image data"@ =~= image_marker());
        assert("MP4 Base Media"@ =~= mp4_marker());
        assert("WebM"@ =~= webm_marker());
    }
    if !exists {
        FileType::Invalid
    } else if str_contains(description, "image data") {
        FileType::Image
    } else if str_contains(description, "MP4 Base Media") || str_contains(description, "WebM") {
        FileType::Video
    } else {
        FileType::Invalid
    }
}

} // verus!
