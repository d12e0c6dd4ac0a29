//! The catalog's data model: media metadata, blob references, and the error
//! kinds surfaced by replay.

use vstd::prelude::*;

verus! {

/// What kind of media a catalog entry is.
#[derive(Clone, Copy, Debug, PartialEq, Eq, Structural)]
pub enum MediaType {
    Picture,
    Video,
}

/// The discriminant code a media type is stored under in the log.
pub open spec fn media_type_code(t: MediaType) -> u64 {
    match t {
        MediaType::Picture => 0,
        MediaType::Video => 1,
    }
}

/// Where an embedded payload lives inside the transaction log file:
/// an absolute byte offset and a length.
#[derive(Clone, Copy, Debug, PartialEq, Eq, Structural)]
pub struct SizedReference {
    pub offset: u64,
    pub size: u64,
}

/// One media entry as held by the in-memory cache: all metadata, plus a
/// reference to the payload bytes left behind in the log.
///
/// The moment the picture or video was taken travels through the catalog as
/// the raw bit pattern of an 8-byte floating-point value; the catalog never
/// computes with it, so it is held and stored as those 64 bits.
#[derive(Clone, Debug)]
pub struct CachedMedia {
    pub title: String,
    pub description: String,
    pub tags_vec: Vec<u64>,
    pub taken_datetime_bits: u64,
    pub media_type: MediaType,
    pub filename: String,
    pub file_reference: SizedReference,
}

/// The mathematical value of one cached media entry.
#[verifier::ext_equal]
pub struct MediaView {
    pub title: Seq<char>,
    pub description: Seq<char>,
    pub tags: Seq<u64>,
    pub taken_datetime_bits: u64,
    pub media_type: MediaType,
    pub filename: Seq<char>,
    pub file_offset: int,
    pub file_size: int,
}

impl View for CachedMedia {
    type V = MediaView;

    open spec fn view(&self) -> MediaView {
        MediaView {
            title: self.title@,
            description: self.description@,
            tags: self.tags_vec@,
            taken_datetime_bits: self.taken_datetime_bits,
            media_type: self.media_type,
            filename: self.filename@,
            file_offset: self.file_reference.offset as int,
            file_size: self.file_reference.size as int,
        }
    }
}

/// The mathematical value of the whole materialized cache.  A tag id or a
/// media id is an index into its sequence: ids are assigned densely from 0
/// in insertion order and never reused.
#[verifier::ext_equal]
pub struct CacheView {
    pub tags: Seq<Seq<char>>,
    pub media: Seq<MediaView>,
}

impl CacheView {
    /// The cache before any record has been applied.
    pub open spec fn empty() -> CacheView {
        CacheView { tags: Seq::empty(), media: Seq::empty() }
    }

    /// Every media entry's payload reference stays inside a log of `log_len` bytes.
    pub open spec fn refs_within(self, log_len: int) -> bool {
        forall|i: int|
            0 <= i < self.media.len() ==> {
                &&& 0 <= #[trigger] self.media[i].file_offset
                &&& self.media[i].file_size >= 0
                &&& self.media[i].file_offset + self.media[i].file_size <= log_len
            }
    }
}

/// Why replaying a transaction log failed.  Every variant is fatal: a cache
/// built from a log that does not replay cleanly must be discarded.
#[derive(Clone, Copy, Debug, PartialEq, Eq, Structural)]
pub enum ReplayError {
    /// The log ended in the middle of a record: a torn write from a crash.
    TruncatedRecord,
    /// A record began with a discriminant the catalog does not know.
    UnknownDiscriminant,
    /// A text field held bytes that are not valid UTF-8.
    InvalidText,
    /// A media record carried an unrecognized media-type code.
    UnknownMediaType,
}

/// An add-tag mutation carried as a decoded value.
pub enum Transaction {
    AddTag(String),
}

} // verus!
