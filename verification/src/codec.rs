//! The binary record format of the transaction log.
//!
//! Records are written back-to-back with no separators: a `0` discriminant
//! followed by one length-prefixed name encodes an add-tag mutation; a `1`
//! discriminant followed by the media fields encodes an add-media mutation.
//! Every integer is a fixed-width 64-bit big-endian value; strings are raw
//! UTF-8 bytes with no terminator.

use vstd::prelude::*;
use vstd::utf8::{valid_utf8, decode_utf8, encode_utf8, encode_utf8_valid_utf8,
    encode_utf8_decode_utf8};
use crate::wire::{u64_be_bytes, u64_from_be_bytes, lemma_u64_be_bytes_len,
    lemma_u64_be_round_trip, append_u64_be};
use crate::types::{MediaType, media_type_code, MediaView, ReplayError};

verus! {

broadcast use lemma_u64_be_bytes_len;

/// A byte string stored as its 64-bit length followed by its bytes.
pub open spec fn len_prefixed(b: Seq<u8>) -> Seq<u8> {
    u64_be_bytes(b.len() as u64) + b
}

/// The encoding of an add-tag record.
pub open spec fn tag_record(name: Seq<char>) -> Seq<u8> {
    u64_be_bytes(0) + len_prefixed(encode_utf8(name))
}

/// True when the name's UTF-8 form fits the record's 64-bit length field.
pub open spec fn tag_record_wf(name: Seq<char>) -> bool {
    encode_utf8(name).len() <= u64::MAX
}

/// Ids laid out back-to-back, eight big-endian bytes each.
pub open spec fn ids_bytes(ids: Seq<u64>) -> Seq<u8>
    decreases ids.len(),
{
    if ids.len() == 0 {
        Seq::empty()
    } else {
        u64_be_bytes(ids.first()) + ids_bytes(ids.drop_first())
    }
}

/// The encoding of an add-media record.
pub open spec fn media_record(
    title: Seq<char>,
    description: Seq<char>,
    tag_ids: Seq<u64>,
    taken_datetime_bits: u64,
    media_type: MediaType,
    filename: Seq<char>,
    blob: Seq<u8>,
) -> Seq<u8> {
    u64_be_bytes(1) + len_prefixed(encode_utf8(title)) + len_prefixed(encode_utf8(description))
        + u64_be_bytes(tag_ids.len() as u64) + ids_bytes(tag_ids) + u64_be_bytes(
        taken_datetime_bits,
    ) + u64_be_bytes(media_type_code(media_type)) + len_prefixed(encode_utf8(filename))
        + len_prefixed(blob)
}

/// True when every variable-width field of a media record fits its 64-bit
/// length field.
pub open spec fn media_record_wf(
    title: Seq<char>,
    description: Seq<char>,
    tag_ids: Seq<u64>,
    filename: Seq<char>,
    blob: Seq<u8>,
) -> bool {
    &&& encode_utf8(title).len() <= u64::MAX
    &&& encode_utf8(description).len() <= u64::MAX
    &&& tag_ids.len() <= u64::MAX
    &&& encode_utf8(filename).len() <= u64::MAX
    &&& blob.len() <= u64::MAX
}

/// How many bytes of a media record precede its payload: the payload starts
/// this far after the record's first byte.
pub open spec fn media_blob_rel_offset(
    title: Seq<char>,
    description: Seq<char>,
    tag_ids: Seq<u64>,
    filename: Seq<char>,
) -> int {
    8 + (8 + encode_utf8(title).len() as int) + (8 + encode_utf8(description).len() as int) + 8 + 8
        * (tag_ids.len() as int) + 8 + 8 + (8 + encode_utf8(filename).len() as int) + 8
}

pub proof fn lemma_ids_bytes_len(ids: Seq<u64>)
    ensures
        ids_bytes(ids).len() == 8 * ids.len(),
    decreases ids.len(),
{
    if ids.len() > 0 {
        lemma_ids_bytes_len(ids.drop_first());
    }
}

pub proof fn lemma_ids_bytes_index(ids: Seq<u64>, i: int)
    requires
        0 <= i < ids.len(),
    ensures
        ids_bytes(ids).subrange(8 * i, 8 * i + 8) == u64_be_bytes(ids[i]),
    decreases ids.len(),
{
    lemma_ids_bytes_len(ids);
    if i == 0 {
        assert(ids_bytes(ids).subrange(0, 8) =~= u64_be_bytes(ids.first()));
    } else {
        lemma_ids_bytes_index(ids.drop_first(), i - 1);
        lemma_ids_bytes_len(ids.drop_first());
        assert(ids_bytes(ids).subrange(8 * i, 8 * i + 8) =~= ids_bytes(ids.drop_first()).subrange(
            8 * (i - 1),
            8 * (i - 1) + 8,
        ));
    }
}

pub proof fn lemma_ids_bytes_push(ids: Seq<u64>, x: u64)
    ensures
        ids_bytes(ids.push(x)) == ids_bytes(ids) + u64_be_bytes(x),
    decreases ids.len(),
{
    assert(ids.push(x).first() == if ids.len() == 0 {
        x
    } else {
        ids.first()
    });
    if ids.len() == 0 {
        assert(ids_bytes(Seq::<u64>::empty()) == Seq::<u8>::empty());
        assert(ids.push(x).drop_first() =~= Seq::<u64>::empty());
        assert(ids_bytes(ids.push(x)) == u64_be_bytes(x) + ids_bytes(ids.push(x).drop_first()));
        assert(ids_bytes(ids.push(x)) =~= ids_bytes(ids) + u64_be_bytes(x));
    } else {
        assert(ids.push(x).drop_first() =~= ids.drop_first().push(x));
        lemma_ids_bytes_push(ids.drop_first(), x);
        assert(ids_bytes(ids.push(x)) =~= ids_bytes(ids) + u64_be_bytes(x));
    }
}

/// A media record is its payload-preceding header followed by the payload.
pub proof fn lemma_media_record_len(
    title: Seq<char>,
    description: Seq<char>,
    tag_ids: Seq<u64>,
    taken_datetime_bits: u64,
    media_type: MediaType,
    filename: Seq<char>,
    blob: Seq<u8>,
)
    ensures
        media_record(title, description, tag_ids, taken_datetime_bits, media_type, filename, blob)
            .len() == media_blob_rel_offset(title, description, tag_ids, filename) + blob.len(),
{
    lemma_ids_bytes_len(tag_ids);
}

/// Appends the ids in order, each as eight big-endian bytes.
pub fn append_ids(out: &mut Vec<u8>, ids: &Vec<u64>)
    ensures
        final(out)@ == old(out)@ + ids_bytes(ids@),
{
    proof {
        assert(old(out)@ + ids_bytes(ids@.take(0)) =~= old(out)@);
    }
    let mut i: usize = 0;
    while i < ids.len()
        invariant
            i <= ids@.len(),
            out@ == old(out)@ + ids_bytes(ids@.take(i as int)),
        decreases ids@.len() - i,
    {
        append_u64_be(out, ids[i]);
        proof {
            assert(ids@.take(i as int).push(ids@[i as int]) =~= ids@.take(i + 1));
            lemma_ids_bytes_push(ids@.take(i as int), ids@[i as int]);
            assert(out@ =~= old(out)@ + ids_bytes(ids@.take(i + 1)));
        }
        i += 1;
    }
    proof {
        assert(ids@.take(ids@.len() as int) =~= ids@);
    }
}

/// Appends a 64-bit length followed by the bytes themselves.
pub fn append_len_prefixed(out: &mut Vec<u8>, b: &[u8])
    ensures
        final(out)@ == old(out)@ + len_prefixed(b@),
{
    append_u64_be(out, b.len() as u64);
    out.extend_from_slice(b);
    proof {
        assert(out@ =~= old(out)@ + len_prefixed(b@));
    }
}

/// Encodes one add-tag record.
pub fn encode_tag_record(name: &str) -> (r: Vec<u8>)
    ensures
        r@ == tag_record(name@),
        r@.len() == 16 + encode_utf8(name@).len(),
{
    let mut out: Vec<u8> = Vec::new();
    append_u64_be(&mut out, 0);
    append_len_prefixed(&mut out, name.as_bytes());
    proof {
        assert(out@ =~= tag_record(name@));
    }
    out
}

/// Encodes one add-media record; the payload bytes start
/// `media_blob_rel_offset` bytes past the record's first byte.
pub fn encode_media_record(
    title: &str,
    description: &str,
    tags_vec: &Vec<u64>,
    taken_datetime_bits: u64,
    media_type: MediaType,
    filename: &str,
    file_bytes: &Vec<u8>,
) -> (r: Vec<u8>)
    ensures
        r@ == media_record(
            title@,
            description@,
            tags_vec@,
            taken_datetime_bits,
            media_type,
            filename@,
            file_bytes@,
        ),
{
    let mut out: Vec<u8> = Vec::new();
    append_u64_be(&mut out, 1);
    append_len_prefixed(&mut out, title.as_bytes());
    append_len_prefixed(&mut out, description.as_bytes());
    append_u64_be(&mut out, tags_vec.len() as u64);
    append_ids(&mut out, tags_vec);
    append_u64_be(&mut out, taken_datetime_bits);
    let code: u64 = match media_type {
        MediaType::Picture => 0,
        MediaType::Video => 1,
    };
    append_u64_be(&mut out, code);
    append_len_prefixed(&mut out, filename.as_bytes());
    append_len_prefixed(&mut out, file_bytes.as_slice());
    proof {
        assert(out@ =~= media_record(
            title@,
            description@,
            tags_vec@,
            taken_datetime_bits,
            media_type,
            filename@,
            file_bytes@,
        ));
    }
    out
}

/// The effect one decoded record has on the cache.
pub enum RecordStep {
    Tag { name: Seq<char> },
    Media { m: MediaView },
}

/// Reads the 64-bit integer at `pos`, or fails if fewer than eight bytes remain.
pub open spec fn parse_u64(log: Seq<u8>, pos: int) -> Result<(u64, int), ReplayError> {
    if pos + 8 <= log.len() {
        Ok((u64_from_be_bytes(log.subrange(pos, pos + 8)), pos + 8))
    } else {
        Err(ReplayError::TruncatedRecord)
    }
}

/// Reads a length-prefixed UTF-8 text field at `pos`.
pub open spec fn parse_text(log: Seq<u8>, pos: int) -> Result<(Seq<char>, int), ReplayError> {
    match parse_u64(log, pos) {
        Err(e) => Err(e),
        Ok((n, p)) => {
            if p + n <= log.len() {
                let b = log.subrange(p, p + n);
                if valid_utf8(b) {
                    Ok((decode_utf8(b), p + n))
                } else {
                    Err(ReplayError::InvalidText)
                }
            } else {
                Err(ReplayError::TruncatedRecord)
            }
        },
    }
}

/// Reads `k` 64-bit ids laid out back-to-back at `pos`.
pub open spec fn parse_ids(log: Seq<u8>, pos: int, k: u64) -> Result<(Seq<u64>, int), ReplayError> {
    if pos + 8 * k <= log.len() {
        Ok(
            (
                Seq::new(k as nat, |i: int| u64_from_be_bytes(log.subrange(pos + 8 * i, pos + 8 * i + 8))),
                pos + 8 * k,
            ),
        )
    } else {
        Err(ReplayError::TruncatedRecord)
    }
}

/// Reads the body of an add-media record, `pos` standing just past the
/// discriminant.  The payload itself is skipped, not decoded: only its
/// position and length are kept.
pub open spec fn parse_media(log: Seq<u8>, pos: int) -> Result<(RecordStep, int), ReplayError> {
    match parse_text(log, pos) {
        Err(e) => Err(e),
        Ok((title, p1)) => match parse_text(log, p1) {
            Err(e) => Err(e),
            Ok((description, p2)) => match parse_u64(log, p2) {
                Err(e) => Err(e),
                Ok((k, p3)) => match parse_ids(log, p3, k) {
                    Err(e) => Err(e),
                    Ok((tag_ids, p4)) => match parse_u64(log, p4) {
                        Err(e) => Err(e),
                        Ok((taken_datetime_bits, p5)) => match parse_u64(log, p5) {
                            Err(e) => Err(e),
                            Ok((code, p6)) => {
                                if code == 0 || code == 1 {
                                    let media_type = if code == 0 {
                                        MediaType::Picture
                                    } else {
                                        MediaType::Video
                                    };
                                    match parse_text(log, p6) {
                                        Err(e) => Err(e),
                                        Ok((filename, p7)) => match parse_u64(log, p7) {
                                            Err(e) => Err(e),
                                            Ok((blob_len, p8)) => {
                                                if p8 + blob_len <= log.len() {
                                                    Ok(
                                                        (
                                                            RecordStep::Media {
                                                                m: MediaView {
                                                                    title,
                                                                    description,
                                                                    tags: tag_ids,
                                                                    taken_datetime_bits,
                                                                    media_type,
                                                                    filename,
                                                                    file_offset: p8,
                                                                    file_size: blob_len as int,
                                                                },
                                                            },
                                                            p8 + blob_len,
                                                        ),
                                                    )
                                                } else {
                                                    Err(ReplayError::TruncatedRecord)
                                                }
                                            },
                                        },
                                    }
                                } else {
                                    Err(ReplayError::UnknownMediaType)
                                }
                            },
                        },
                    },
                },
            },
        },
    }
}

/// Reads one whole record at `pos`.
pub open spec fn parse_record(log: Seq<u8>, pos: int) -> Result<(RecordStep, int), ReplayError> {
    match parse_u64(log, pos) {
        Err(e) => Err(e),
        Ok((disc, p)) => {
            if disc == 0 {
                match parse_text(log, p) {
                    Err(e) => Err(e),
                    Ok((name, p1)) => Ok((RecordStep::Tag { name }, p1)),
                }
            } else if disc == 1 {
                parse_media(log, p)
            } else {
                Err(ReplayError::UnknownDiscriminant)
            }
        },
    }
}

/// Bytes appended after a log leave its existing contents in place.
proof fn lemma_subrange_extend(log: Seq<u8>, ext: Seq<u8>, a: int, b: int)
    requires
        0 <= a <= b <= log.len(),
    ensures
        (log + ext).subrange(a, b) == log.subrange(a, b),
{
    assert((log + ext).subrange(a, b) =~= log.subrange(a, b));
}

/// A successful parse reads only bytes below its final position, so it is
/// unchanged by anything appended after the log.
pub proof fn lemma_parse_u64_extend(log: Seq<u8>, ext: Seq<u8>, pos: int)
    requires
        0 <= pos,
        parse_u64(log, pos) is Ok,
    ensures
        parse_u64(log + ext, pos) == parse_u64(log, pos),
{
    lemma_subrange_extend(log, ext, pos, pos + 8);
}

pub proof fn lemma_parse_text_extend(log: Seq<u8>, ext: Seq<u8>, pos: int)
    requires
        0 <= pos,
        parse_text(log, pos) is Ok,
    ensures
        parse_text(log + ext, pos) == parse_text(log, pos),
{
    lemma_parse_u64_extend(log, ext, pos);
    let (n, p) = parse_u64(log, pos)->Ok_0;
    lemma_subrange_extend(log, ext, p, p + n);
}

pub proof fn lemma_parse_ids_extend(log: Seq<u8>, ext: Seq<u8>, pos: int, k: u64)
    requires
        0 <= pos,
        parse_ids(log, pos, k) is Ok,
    ensures
        parse_ids(log + ext, pos, k) == parse_ids(log, pos, k),
{
    assert forall|i: int| 0 <= i < k implies #[trigger] (log + ext).subrange(
        pos + 8 * i,
        pos + 8 * i + 8,
    ) == log.subrange(pos + 8 * i, pos + 8 * i + 8) by {
        lemma_subrange_extend(log, ext, pos + 8 * i, pos + 8 * i + 8);
    }
    assert(parse_ids(log + ext, pos, k)->Ok_0.0 =~= parse_ids(log, pos, k)->Ok_0.0);
}

pub proof fn lemma_parse_media_extend(log: Seq<u8>, ext: Seq<u8>, pos: int)
    requires
        0 <= pos,
        parse_media(log, pos) is Ok,
    ensures
        parse_media(log + ext, pos) == parse_media(log, pos),
{
    let (title, p1) = parse_text(log, pos)->Ok_0;
    lemma_parse_text_extend(log, ext, pos);
    let (description, p2) = parse_text(log, p1)->Ok_0;
    lemma_parse_text_extend(log, ext, p1);
    let (k, p3) = parse_u64(log, p2)->Ok_0;
    lemma_parse_u64_extend(log, ext, p2);
    let (tag_ids, p4) = parse_ids(log, p3, k)->Ok_0;
    lemma_parse_ids_extend(log, ext, p3, k);
    let (dt, p5) = parse_u64(log, p4)->Ok_0;
    lemma_parse_u64_extend(log, ext, p4);
    let (code, p6) = parse_u64(log, p5)->Ok_0;
    lemma_parse_u64_extend(log, ext, p5);
    let (filename, p7) = parse_text(log, p6)->Ok_0;
    lemma_parse_text_extend(log, ext, p6);
    let (blob_len, p8) = parse_u64(log, p7)->Ok_0;
    lemma_parse_u64_extend(log, ext, p7);
}

pub proof fn lemma_parse_record_extend(log: Seq<u8>, ext: Seq<u8>, pos: int)
    requires
        0 <= pos,
        parse_record(log, pos) is Ok,
    ensures
        parse_record(log + ext, pos) == parse_record(log, pos),
{
    lemma_parse_u64_extend(log, ext, pos);
    let (disc, p) = parse_u64(log, pos)->Ok_0;
    if disc == 0 {
        lemma_parse_text_extend(log, ext, p);
    } else {
        lemma_parse_media_extend(log, ext, p);
    }
}

/// An encoded add-tag record, wherever it stands in a log, parses back to
/// exactly the tag it encodes.
pub proof fn lemma_parse_tag_record_at(pre: Seq<u8>, name: Seq<char>, suf: Seq<u8>)
    requires
        tag_record_wf(name),
    ensures
        parse_record(pre + tag_record(name) + suf, pre.len() as int) == Ok::<
            (RecordStep, int),
            ReplayError,
        >((RecordStep::Tag { name }, pre.len() + tag_record(name).len() as int)),
{
    let rec = tag_record(name);
    let full = pre + rec + suf;
    let pos = pre.len() as int;
    let nb = encode_utf8(name);
    lemma_u64_be_round_trip(0);
    lemma_u64_be_round_trip(nb.len() as u64);
    assert(rec.len() == 16 + nb.len());
    assert(full.subrange(pos, pos + 8) =~= u64_be_bytes(0));
    assert(full.subrange(pos + 8, pos + 16) =~= u64_be_bytes(nb.len() as u64));
    assert(full.subrange(pos + 16, pos + 16 + nb.len()) =~= nb);
    encode_utf8_valid_utf8(name);
    encode_utf8_decode_utf8(name);
}

/// An encoded add-media record, wherever it stands in a log, parses back to
/// exactly the entry it encodes, with the payload reference pointing at the
/// payload bytes inside the record.
#[verifier::spinoff_prover]
#[verifier::rlimit(100)]
pub proof fn lemma_parse_media_record_at(
    pre: Seq<u8>,
    title: Seq<char>,
    description: Seq<char>,
    tag_ids: Seq<u64>,
    taken_datetime_bits: u64,
    media_type: MediaType,
    filename: Seq<char>,
    blob: Seq<u8>,
    suf: Seq<u8>,
)
    requires
        media_record_wf(title, description, tag_ids, filename, blob),
    ensures
        parse_record(
            pre + media_record(
                title,
                description,
                tag_ids,
                taken_datetime_bits,
                media_type,
                filename,
                blob,
            ) + suf,
            pre.len() as int,
        ) == Ok::<(RecordStep, int), ReplayError>(
            (
                RecordStep::Media {
                    m: MediaView {
                        title,
                        description,
                        tags: tag_ids,
                        taken_datetime_bits,
                        media_type,
                        filename,
                        file_offset: pre.len() + media_blob_rel_offset(
                            title,
                            description,
                            tag_ids,
                            filename,
                        ) as int,
                        file_size: blob.len() as int,
                    },
                },
                pre.len() + media_record(
                    title,
                    description,
                    tag_ids,
                    taken_datetime_bits,
                    media_type,
                    filename,
                    blob,
                ).len() as int,
            ),
        ),
{
    let rec = media_record(
        title,
        description,
        tag_ids,
        taken_datetime_bits,
        media_type,
        filename,
        blob,
    );
    let full = pre + rec + suf;
    let pos = pre.len() as int;
    let tb = encode_utf8(title);
    let db = encode_utf8(description);
    let fb = encode_utf8(filename);
    let k = tag_ids.len() as int;
    lemma_ids_bytes_len(tag_ids);
    assert(rec.len() == 8 + (8 + tb.len()) + (8 + db.len()) + 8 + 8 * k + 8 + 8 + (8 + fb.len())
        + 8 + blob.len());
    let p = pos + 8;
    let p1 = p + 8 + tb.len() as int;
    let p2 = p1 + 8 + db.len() as int;
    let p3 = p2 + 8;
    let p4 = p3 + 8 * k;
    let p5 = p4 + 8;
    let p6 = p5 + 8;
    let p7 = p6 + 8 + fb.len() as int;
    let p8 = p7 + 8;
    lemma_u64_be_round_trip(1);
    lemma_u64_be_round_trip(tb.len() as u64);
    lemma_u64_be_round_trip(db.len() as u64);
    lemma_u64_be_round_trip(tag_ids.len() as u64);
    lemma_u64_be_round_trip(taken_datetime_bits);
    lemma_u64_be_round_trip(media_type_code(media_type));
    lemma_u64_be_round_trip(fb.len() as u64);
    lemma_u64_be_round_trip(blob.len() as u64);
    encode_utf8_valid_utf8(title);
    encode_utf8_decode_utf8(title);
    encode_utf8_valid_utf8(description);
    encode_utf8_decode_utf8(description);
    encode_utf8_valid_utf8(filename);
    encode_utf8_decode_utf8(filename);
    assert(full.subrange(pos, pos + 8) =~= u64_be_bytes(1));
    assert(full.subrange(p, p + 8) =~= u64_be_bytes(tb.len() as u64));
    assert(full.subrange(p + 8, p + 8 + tb.len()) =~= tb);
    assert(full.subrange(p1, p1 + 8) =~= u64_be_bytes(db.len() as u64));
    assert(full.subrange(p1 + 8, p1 + 8 + db.len()) =~= db);
    assert(full.subrange(p2, p2 + 8) =~= u64_be_bytes(tag_ids.len() as u64));
    assert forall|i: int| 0 <= i < k implies #[trigger] full.subrange(p3 + 8 * i, p3 + 8 * i + 8)
        == u64_be_bytes(tag_ids[i]) by {
        lemma_ids_bytes_index(tag_ids, i);
        assert(full.subrange(p3 + 8 * i, p3 + 8 * i + 8) =~= ids_bytes(tag_ids).subrange(
            8 * i,
            8 * i + 8,
        ));
    }
    assert(full.subrange(p4, p4 + 8) =~= u64_be_bytes(taken_datetime_bits));
    assert(full.subrange(p5, p5 + 8) =~= u64_be_bytes(media_type_code(media_type)));
    assert(full.subrange(p6, p6 + 8) =~= u64_be_bytes(fb.len() as u64));
    assert(full.subrange(p6 + 8, p6 + 8 + fb.len()) =~= fb);
    assert(full.subrange(p7, p7 + 8) =~= u64_be_bytes(blob.len() as u64));
    assert(parse_text(full, p) == Ok::<(Seq<char>, int), ReplayError>((title, p1)));
    assert(parse_text(full, p1) == Ok::<(Seq<char>, int), ReplayError>((description, p2)));
    assert(parse_u64(full, p2) == Ok::<(u64, int), ReplayError>((tag_ids.len() as u64, p3)));
    assert(parse_ids(full, p3, tag_ids.len() as u64) is Ok);
    assert(parse_ids(full, p3, tag_ids.len() as u64)->Ok_0.0 =~= tag_ids) by {
        assert forall|i: int| 0 <= i < k implies u64_from_be_bytes(
            #[trigger] full.subrange(p3 + 8 * i, p3 + 8 * i + 8),
        ) == tag_ids[i] by {
            lemma_u64_be_round_trip(tag_ids[i]);
        }
    }
    assert(parse_u64(full, p4) == Ok::<(u64, int), ReplayError>((taken_datetime_bits, p5)));
    assert(parse_u64(full, p5) == Ok::<(u64, int), ReplayError>(
        (media_type_code(media_type), p6),
    ));
    assert(parse_text(full, p6) == Ok::<(Seq<char>, int), ReplayError>((filename, p7)));
    assert(parse_u64(full, p7) == Ok::<(u64, int), ReplayError>((blob.len() as u64, p8)));
}

/// A successful parse moves forward and never past the end of the log.
pub proof fn lemma_parse_record_bounds(log: Seq<u8>, pos: int)
    requires
        0 <= pos,
        parse_record(log, pos) is Ok,
    ensures
        pos + 8 <= parse_record(log, pos)->Ok_0.1 <= log.len(),
{
}

} // verus!
