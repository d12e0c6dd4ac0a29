//! The materialized cache: tag and media tables derived purely by folding
//! the transaction log, and kept in lock-step with every later append.
//!
//! A tag id or media id is the index of its entry: the tables are dense
//! sequences, so the next id in a namespace is that table's length.

use vstd::prelude::*;
use vstd::slice::slice_subrange;
use vstd::utf8::{valid_utf8, encode_utf8_decode_utf8};
use vstd::string::StringSliceAdditionalSpecFns;
use crate::types::{CachedMedia, CacheView, MediaView, MediaType, ReplayError, SizedReference};
use crate::codec::{parse_u64, parse_text, parse_ids, parse_record, RecordStep};
use crate::replay::{replay_from, apply_step};
use crate::wire::read_u64_be;

verus! {

impl DeepView for CachedMedia {
    type V = MediaView;

    open spec fn deep_view(&self) -> MediaView {
        self.view()
    }
}

/// The in-memory cache of the whole catalog.
pub struct IloveuCache {
    tags: Vec<String>,
    media: Vec<CachedMedia>,
}

impl View for IloveuCache {
    type V = CacheView;

    closed spec fn view(&self) -> CacheView {
        CacheView { tags: self.tags.deep_view(), media: self.media.deep_view() }
    }
}

impl IloveuCache {
    /// A cache with nothing in it, ready to replay a log into.
    pub fn new() -> (r: Self)
        ensures
            r@ == CacheView::empty(),
    {
        let r = IloveuCache { tags: Vec::new(), media: Vec::new() };
        proof {
            assert(r@ =~= CacheView::empty());
        }
        r
    }

    /// Records a new tag and returns its id: the number of tags before it,
    /// so ids run 0, 1, 2, … in call order.
    pub fn add_tag(&mut self, name: String) -> (r: u64)
        ensures
            r == old(self)@.tags.len(),
            final(self)@.tags == old(self)@.tags.push(name@),
            final(self)@.media == old(self)@.media,
    {
        let tag_id = self.tags.len() as u64;
        self.tags.push(name);
        proof {
            assert(self@.tags =~= old(self)@.tags.push(name@));
            assert(self@.media =~= old(self)@.media);
        }
        tag_id
    }

    /// The tag table: a tag's id is its index.
    pub fn get_tags(&self) -> (r: &Vec<String>)
        ensures
            r.deep_view() == self@.tags,
    {
        &self.tags
    }

    /// Records a new media entry and returns its id: the number of entries
    /// before it, so ids run 0, 1, 2, … in call order.
    pub fn add_media(&mut self, cached_media: CachedMedia) -> (r: u64)
        ensures
            r == old(self)@.media.len(),
            final(self)@.media == old(self)@.media.push(cached_media@),
            final(self)@.tags == old(self)@.tags,
    {
        let media_id = self.media.len() as u64;
        self.media.push(cached_media);
        proof {
            assert(self@.media =~= old(self)@.media.push(cached_media@));
            assert(self@.tags =~= old(self)@.tags);
        }
        media_id
    }

    /// The media table: an entry's id is its index.
    pub fn get_media(&self) -> (r: &Vec<CachedMedia>)
        ensures
            r.deep_view() == self@.media,
    {
        &self.media
    }

    /// Replays a whole log into this cache, folding each record in order.
    ///
    /// Returns `Ok` exactly when the log replays cleanly, and then the cache
    /// is the replayed fold.  On an error the caller must discard the cache:
    /// a partially reconstructed cache would silently break the fold
    /// invariant, so startup aborts instead.
    pub fn run_raw_transactions(&mut self, log: &Vec<u8>) -> (r: Result<(), ReplayError>)
        ensures
            match replay_from(log@, 0, old(self)@) {
                Ok(c) => r is Ok && final(self)@ == c,
                Err(e) => r is Err && r->Err_0 == e,
            },
            // On failure the cache holds the fold of the records before the
            // bad one: a state whose own replay from there agrees with the
            // whole walk, never something off the replay path.
            r is Err ==> exists|p: int|
                0 <= p <= log@.len() && replay_from(log@, p, final(self)@) == replay_from(
                    log@,
                    0,
                    old(self)@,
                ),
            r is Ok && old(self)@.refs_within(log@.len() as int) ==> final(self)@.refs_within(
                log@.len() as int,
            ),
    {
        let n = log.len();
        let mut pos: usize = 0;
        while pos < n
            invariant
                pos <= n,
                n == log@.len(),
                replay_from(log@, 0, old(self)@) == replay_from(log@, pos as int, self@),
                old(self)@.refs_within(n as int) ==> self@.refs_within(n as int),
            decreases n - pos,
        {
            let ghost entry_view = self@;
            let ghost entry_pos = pos as int;
            let (disc, p) = match read_u64_field(log, pos) {
                Ok(v) => v,
                Err(e) => {
                    return Err(e);
                },
            };
            if disc == 0 {
                let (name, p1) = match read_text_field(log, p) {
                    Ok(v) => v,
                    Err(e) => {
                        return Err(e);
                    },
                };
                proof {
                    assert(parse_record(log@, entry_pos) == Ok::<(RecordStep, int), ReplayError>(
                        (RecordStep::Tag { name: name@ }, p1 as int),
                    ));
                }
                self.add_tag(name);
                pos = p1;
                proof {
                    assert(self@ == apply_step(entry_view, RecordStep::Tag { name: name@ }));
                    assert(self@.refs_within(n as int) <==> entry_view.refs_within(n as int));
                }
            } else if disc == 1 {
                let (title, p1) = match read_text_field(log, p) {
                    Ok(v) => v,
                    Err(e) => {
                        return Err(e);
                    },
                };
                let (description, p2) = match read_text_field(log, p1) {
                    Ok(v) => v,
                    Err(e) => {
                        return Err(e);
                    },
                };
                let (tag_count, p3) = match read_u64_field(log, p2) {
                    Ok(v) => v,
                    Err(e) => {
                        return Err(e);
                    },
                };
                let (tags_vec, p4) = match read_ids_field(log, p3, tag_count) {
                    Ok(v) => v,
                    Err(e) => {
                        return Err(e);
                    },
                };
                let (taken_datetime_bits, p5) = match read_u64_field(log, p4) {
                    Ok(v) => v,
                    Err(e) => {
                        return Err(e);
                    },
                };
                let (code, p6) = match read_u64_field(log, p5) {
                    Ok(v) => v,
                    Err(e) => {
                        return Err(e);
                    },
                };
                if code != 0 && code != 1 {
                    return Err(ReplayError::UnknownMediaType);
                }
                let media_type = if code == 0 {
                    MediaType::Picture
                } else {
                    MediaType::Video
                };
                let (filename, p7) = match read_text_field(log, p6) {
                    Ok(v) => v,
                    Err(e) => {
                        return Err(e);
                    },
                };
                let (blob_len, p8) = match read_u64_field(log, p7) {
                    Ok(v) => v,
                    Err(e) => {
                        return Err(e);
                    },
                };
                // The payload is skipped, not loaded: only its place is kept.
                let rem = (n - p8) as u64;
                if blob_len > rem {
                    return Err(ReplayError::TruncatedRecord);
                }
                let next = p8 + (blob_len as usize);
                let cm = CachedMedia {
                    title,
                    description,
                    tags_vec,
                    taken_datetime_bits,
                    media_type,
                    filename,
                    file_reference: SizedReference { offset: p8 as u64, size: blob_len },
                };
                proof {
                    assert(parse_record(log@, entry_pos) == Ok::<(RecordStep, int), ReplayError>(
                        (RecordStep::Media { m: cm@ }, next as int),
                    ));
                }
                self.add_media(cm);
                pos = next;
                proof {
                    assert(self@ == apply_step(entry_view, RecordStep::Media { m: cm@ }));
                }
            } else {
                return Err(ReplayError::UnknownDiscriminant);
            }
        }
        Ok(())
    }
}

/// Reads the 64-bit big-endian integer at `pos`, or reports the log as
/// truncated when fewer than eight bytes remain.
fn read_u64_field(log: &Vec<u8>, pos: usize) -> (r: Result<(u64, usize), ReplayError>)
    requires
        pos <= log@.len(),
    ensures
        match r {
            Ok((x, p)) => parse_u64(log@, pos as int) == Ok::<(u64, int), ReplayError>(
                (x, p as int),
            ) && pos < p <= log@.len(),
            Err(e) => parse_u64(log@, pos as int) == Err::<(u64, int), ReplayError>(e),
        },
{
    let n = log.len();
    if n - pos < 8 {
        return Err(ReplayError::TruncatedRecord);
    }
    let x = read_u64_be(log, pos);
    Ok((x, pos + 8))
}

/// Relies on str::from_utf8: it accepts exactly the valid UTF-8 byte
/// strings, and the accepted slice views as the characters those bytes
/// encode.
#[verifier::external_body]
fn try_str_from_utf8(b: &[u8]) -> (r: Option<&str>)
    ensures
        r is Some <==> valid_utf8(b@),
        r is Some ==> r->0.spec_bytes() == b@,
{
    core::str::from_utf8(b).ok()
}

/// Reads a length-prefixed UTF-8 text field at `pos`.
fn read_text_field(log: &Vec<u8>, pos: usize) -> (r: Result<(String, usize), ReplayError>)
    requires
        pos <= log@.len(),
    ensures
        match r {
            Ok((s, p)) => parse_text(log@, pos as int) == Ok::<(Seq<char>, int), ReplayError>(
                (s@, p as int),
            ) && pos < p <= log@.len(),
            Err(e) => parse_text(log@, pos as int) == Err::<(Seq<char>, int), ReplayError>(e),
        },
{
    let (len_u, p) = match read_u64_field(log, pos) {
        Ok(v) => v,
        Err(e) => {
            return Err(e);
        },
    };
    let n = log.len();
    let rem = (n - p) as u64;
    if len_u > rem {
        return Err(ReplayError::TruncatedRecord);
    }
    let lu = len_u as usize;
    let bytes: &[u8] = slice_subrange(log.as_slice(), p, p + lu);
    match try_str_from_utf8(bytes) {
        Some(s) => {
            proof {
                encode_utf8_decode_utf8(s@);
            }
            Ok((s.to_owned(), p + lu))
        },
        None => Err(ReplayError::InvalidText),
    }
}

/// Reads `k` 64-bit ids laid out back-to-back at `pos`.
fn read_ids_field(log: &Vec<u8>, pos: usize, k: u64) -> (r: Result<(Vec<u64>, usize), ReplayError>)
    requires
        pos <= log@.len(),
    ensures
        match r {
            Ok((ids, p)) => parse_ids(log@, pos as int, k) == Ok::<(Seq<u64>, int), ReplayError>(
                (ids@, p as int),
            ) && pos <= p <= log@.len(),
            Err(e) => parse_ids(log@, pos as int, k) == Err::<(Seq<u64>, int), ReplayError>(e),
        },
{
    let n = log.len();
    let rem = (n - pos) as u64;
    if k > rem / 8 {
        return Err(ReplayError::TruncatedRecord);
    }
    let mut ids: Vec<u64> = Vec::new();
    let mut i: u64 = 0;
    let mut p = pos;
    while i < k
        invariant
            i <= k,
            n == log@.len(),
            pos + 8 * k <= n,
            p == pos + 8 * i,
            ids@ == Seq::new(
                i as nat,
                |j: int| crate::wire::u64_from_be_bytes(log@.subrange(pos + 8 * j, pos + 8 * j + 8)),
            ),
        decreases k - i,
    {
        let x = read_u64_be(log, p);
        ids.push(x);
        proof {
            assert(ids@ =~= Seq::new(
                (i + 1) as nat,
                |j: int| crate::wire::u64_from_be_bytes(log@.subrange(pos + 8 * j, pos + 8 * j + 8)),
            ));
        }
        p = p + 8;
        i = i + 1;
    }
    proof {
        assert(parse_ids(log@, pos as int, k)->Ok_0.0 =~= ids@);
    }
    Ok((ids, p))
}

} // verus!
