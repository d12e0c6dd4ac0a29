//! Replay: the materialized cache as a fold over the transaction log.
//!
//! `replay_from` walks the log record by record and threads a cache value
//! through; the cache is never anything but this fold.  The laws here state
//! the catalog's central invariants: a log written by a sequence of
//! mutations replays to exactly the cache those mutations built live, ids
//! are assigned densely in call order, and a log cut anywhere inside a
//! record fails to replay instead of yielding a silently shortened cache.

use vstd::prelude::*;
use crate::types::{MediaType, CacheView, MediaView, ReplayError};
use crate::codec::{tag_record, media_record, tag_record_wf, media_record_wf,
    media_blob_rel_offset, parse_record, RecordStep, lemma_parse_record_bounds,
    lemma_parse_record_extend, lemma_parse_tag_record_at, lemma_parse_media_record_at,
    lemma_media_record_len};

verus! {

broadcast use crate::wire::lemma_u64_be_bytes_len;

/// Applies one decoded record to the cache: the next id in the record's
/// namespace is the sequence's length, so pushing assigns it.
pub open spec fn apply_step(c: CacheView, s: RecordStep) -> CacheView {
    match s {
        RecordStep::Tag { name } => CacheView { tags: c.tags.push(name), media: c.media },
        RecordStep::Media { m } => CacheView { tags: c.tags, media: c.media.push(m) },
    }
}

/// Folds the records of `log` from `pos` onward into `acc`.  Running out of
/// bytes exactly at a record boundary is the clean end of the log; anything
/// that stops a record from parsing is fatal.
pub open spec fn replay_from(log: Seq<u8>, pos: int, acc: CacheView) -> Result<
    CacheView,
    ReplayError,
>
    decreases log.len() - pos,
    when 0 <= pos <= log.len()
{
    if pos == log.len() {
        Ok(acc)
    } else {
        match parse_record(log, pos) {
            Err(e) => Err(e),
            Ok((step, next)) => {
                if pos < next <= log.len() {
                    replay_from(log, next, apply_step(acc, step))
                } else {
                    Err(ReplayError::TruncatedRecord)
                }
            },
        }
    }
}

/// The cache a whole log replays to, starting from nothing.
pub open spec fn replay(log: Seq<u8>) -> Result<CacheView, ReplayError> {
    replay_from(log, 0, CacheView::empty())
}

/// Replay of an extended log first walks the original log's records exactly
/// as before, then continues into the appended bytes from the cache the
/// original log replayed to.
pub proof fn lemma_replay_extend(log: Seq<u8>, ext: Seq<u8>, pos: int, acc: CacheView)
    requires
        0 <= pos <= log.len(),
        replay_from(log, pos, acc) is Ok,
    ensures
        replay_from(log + ext, pos, acc) == replay_from(
            log + ext,
            log.len() as int,
            replay_from(log, pos, acc)->Ok_0,
        ),
    decreases log.len() - pos,
{
    if pos == log.len() {
    } else {
        let (step, next) = parse_record(log, pos)->Ok_0;
        lemma_parse_record_bounds(log, pos);
        lemma_parse_record_extend(log, ext, pos);
        lemma_replay_extend(log, ext, next, apply_step(acc, step));
    }
}

/// One catalog mutation, as the mathematical value it carries.
pub enum Action {
    AddTag { name: Seq<char> },
    AddMedia {
        title: Seq<char>,
        description: Seq<char>,
        tag_ids: Seq<u64>,
        taken_datetime_bits: u64,
        media_type: MediaType,
        filename: Seq<char>,
        blob: Seq<u8>,
    },
}

/// True when the action's variable-width fields fit the record format's
/// 64-bit length fields.
pub open spec fn action_wf(a: Action) -> bool {
    match a {
        Action::AddTag { name } => tag_record_wf(name),
        Action::AddMedia { title, description, tag_ids, filename, blob, .. } => media_record_wf(
            title,
            description,
            tag_ids,
            filename,
            blob,
        ),
    }
}

pub open spec fn actions_wf(acts: Seq<Action>) -> bool {
    forall|i: int| 0 <= i < acts.len() ==> action_wf(#[trigger] acts[i])
}

/// The record a mutation appends to the log.
pub open spec fn encode_action(a: Action) -> Seq<u8> {
    match a {
        Action::AddTag { name } => tag_record(name),
        Action::AddMedia {
            title,
            description,
            tag_ids,
            taken_datetime_bits,
            media_type,
            filename,
            blob,
        } => media_record(
            title,
            description,
            tag_ids,
            taken_datetime_bits,
            media_type,
            filename,
            blob,
        ),
    }
}

/// The log a whole sequence of mutations writes, in call order.
pub open spec fn encode_actions(acts: Seq<Action>) -> Seq<u8>
    decreases acts.len(),
{
    if acts.len() == 0 {
        Seq::empty()
    } else {
        encode_action(acts.first()) + encode_actions(acts.drop_first())
    }
}

/// The change one live mutation makes to the cache.  `log_len` is the log's
/// length just before the mutation's record is appended: a stored payload
/// reference points that far into the log plus the record's own header.
pub open spec fn apply_action(c: CacheView, log_len: int, a: Action) -> CacheView {
    match a {
        Action::AddTag { name } => CacheView { tags: c.tags.push(name), media: c.media },
        Action::AddMedia {
            title,
            description,
            tag_ids,
            taken_datetime_bits,
            media_type,
            filename,
            blob,
        } => CacheView {
            tags: c.tags,
            media: c.media.push(
                MediaView {
                    title,
                    description,
                    tags: tag_ids,
                    taken_datetime_bits,
                    media_type,
                    filename,
                    file_offset: log_len + media_blob_rel_offset(
                        title,
                        description,
                        tag_ids,
                        filename,
                    ),
                    file_size: blob.len() as int,
                },
            ),
        },
    }
}

/// The cache built live by running the mutations in call order, each one
/// appending its record to the log and mirroring itself into the cache.
pub open spec fn apply_actions(c: CacheView, log_len: int, acts: Seq<Action>) -> CacheView
    decreases acts.len(),
{
    if acts.len() == 0 {
        c
    } else {
        apply_actions(
            apply_action(c, log_len, acts.first()),
            log_len + encode_action(acts.first()).len(),
            acts.drop_first(),
        )
    }
}

/// Every record is at least its fixed-width fields long.
pub proof fn lemma_encode_action_len(a: Action)
    ensures
        encode_action(a).len() >= 16,
{
    match a {
        Action::AddTag { name } => {},
        Action::AddMedia {
            title,
            description,
            tag_ids,
            taken_datetime_bits,
            media_type,
            filename,
            blob,
        } => {
            lemma_media_record_len(
                title,
                description,
                tag_ids,
                taken_datetime_bits,
                media_type,
                filename,
                blob,
            );
        },
    }
}

/// Appending one more mutation appends its record to the encoded log.
pub proof fn lemma_encode_actions_snoc(acts: Seq<Action>, a: Action)
    ensures
        encode_actions(acts.push(a)) == encode_actions(acts) + encode_action(a),
    decreases acts.len(),
{
    assert(acts.push(a)[acts.len() as int] == a);
    if acts.len() == 0 {
        assert(acts.push(a).first() == a);
        assert(encode_actions(Seq::<Action>::empty()) == Seq::<u8>::empty());
        assert(acts.push(a).drop_first() =~= Seq::<Action>::empty());
        assert(encode_actions(acts.push(a)) == encode_action(a) + encode_actions(
            acts.push(a).drop_first(),
        ));
        assert(encode_actions(acts.push(a)) =~= encode_actions(acts) + encode_action(a));
    } else {
        assert(acts.push(a).first() == acts.first());
        assert(acts.push(a).drop_first() =~= acts.drop_first().push(a));
        lemma_encode_actions_snoc(acts.drop_first(), a);
        assert(encode_actions(acts.push(a)) =~= encode_actions(acts) + encode_action(a));
    }
}

/// Replaying a log that already replays cleanly, extended by the records of
/// further mutations, yields the cache those mutations build live.
#[verifier::spinoff_prover]
#[verifier::rlimit(100)]
pub proof fn lemma_replay_encode(log: Seq<u8>, c: CacheView, acts: Seq<Action>)
    requires
        actions_wf(acts),
        replay(log) == Ok::<CacheView, ReplayError>(c),
    ensures
        replay(log + encode_actions(acts)) == Ok::<CacheView, ReplayError>(
            apply_actions(c, log.len() as int, acts),
        ),
    decreases acts.len(),
{
    if acts.len() == 0 {
        assert(log + encode_actions(acts) =~= log);
    } else {
        let a = acts.first();
        let rec = encode_action(a);
        let c1 = apply_action(c, log.len() as int, a);
        lemma_encode_action_len(a);
        // One record appended: replay walks the old log, then the new record.
        lemma_replay_extend(log, rec, 0, CacheView::empty());
        assert(log + rec + Seq::<u8>::empty() =~= log + rec);
        match a {
            Action::AddTag { name } => {
                lemma_parse_tag_record_at(log, name, Seq::empty());
            },
            Action::AddMedia {
                title,
                description,
                tag_ids,
                taken_datetime_bits,
                media_type,
                filename,
                blob,
            } => {
                lemma_parse_media_record_at(
                    log,
                    title,
                    description,
                    tag_ids,
                    taken_datetime_bits,
                    media_type,
                    filename,
                    blob,
                    Seq::empty(),
                );
                lemma_media_record_len(
                    title,
                    description,
                    tag_ids,
                    taken_datetime_bits,
                    media_type,
                    filename,
                    blob,
                );
            },
        }
        assert(replay(log + rec) == Ok::<CacheView, ReplayError>(c1)) by {
            reveal_with_fuel(replay_from, 2);
        }
        // The remaining records continue from there.
        lemma_replay_encode(log + rec, c1, acts.drop_first());
        assert(log + rec + encode_actions(acts.drop_first()) =~= log + encode_actions(acts));
    }
}

/// One live mutation keeps the log and the cache in lock-step: appending
/// the mutation's record to a log that replays to the current cache yields
/// a log that replays to the mutated cache.
pub proof fn lemma_replay_one(log: Seq<u8>, c: CacheView, a: Action)
    requires
        action_wf(a),
        replay(log) == Ok::<CacheView, ReplayError>(c),
    ensures
        replay(log + encode_action(a)) == Ok::<CacheView, ReplayError>(
            apply_action(c, log.len() as int, a),
        ),
{
    assert forall|i: int| 0 <= i < 1 implies action_wf(#[trigger] seq![a][i]) by {
        assert(seq![a][i] == a);
    }
    lemma_replay_encode(log, c, seq![a]);
    assert(seq![a].drop_first() =~= Seq::<Action>::empty());
    assert(encode_actions(seq![a]) =~= encode_action(a)) by {
        reveal_with_fuel(encode_actions, 2);
    }
    assert(apply_actions(c, log.len() as int, seq![a]) == apply_action(c, log.len() as int, a))
        by {
        reveal_with_fuel(apply_actions, 2);
    }
}

/// Replay equivalence: for any sequence of mutations, the cache built by
/// replaying the log they wrote, from scratch, is exactly the cache they
/// built live.
pub proof fn lemma_replay_equivalence(acts: Seq<Action>)
    requires
        actions_wf(acts),
    ensures
        replay(encode_actions(acts)) == Ok::<CacheView, ReplayError>(
            apply_actions(CacheView::empty(), 0, acts),
        ),
{
    lemma_replay_encode(Seq::empty(), CacheView::empty(), acts);
    assert(Seq::<u8>::empty() + encode_actions(acts) =~= encode_actions(acts));
}

/// True when a log of exactly `cut` bytes ends at a record boundary of the
/// log the mutations write: after some whole number of records.
pub open spec fn record_boundary(acts: Seq<Action>, cut: int) -> bool {
    exists|i: int| 0 <= i <= acts.len() && encode_actions(#[trigger] acts.take(i)).len() == cut
}

/// The encoded log splits at any whole-record position.
proof fn lemma_encode_actions_split(acts: Seq<Action>, i: int)
    requires
        0 <= i <= acts.len(),
    ensures
        encode_actions(acts) == encode_actions(acts.take(i)) + encode_actions(acts.skip(i)),
    decreases i,
{
    if i == 0 {
        assert(acts.take(0) =~= Seq::<Action>::empty());
        assert(acts.skip(0) =~= acts);
        assert(encode_actions(acts.take(0)) + encode_actions(acts) =~= encode_actions(acts));
    } else {
        lemma_encode_actions_split(acts, i - 1);
        assert(acts.take(i - 1).push(acts[i - 1]) =~= acts.take(i));
        lemma_encode_actions_snoc(acts.take(i - 1), acts[i - 1]);
        assert(acts.skip(i - 1).first() == acts[i - 1]);
        assert(acts.skip(i - 1).drop_first() =~= acts.skip(i));
        assert(encode_actions(acts.skip(i - 1)) == encode_action(acts[i - 1]) + encode_actions(
            acts.skip(i),
        ));
        assert(encode_actions(acts) =~= encode_actions(acts.take(i)) + encode_actions(
            acts.skip(i),
        ));
    }
}

/// A cut that falls at no record boundary falls strictly inside some record.
proof fn lemma_locate_cut(acts: Seq<Action>, cut: int, i: int)
    requires
        0 <= i <= acts.len(),
        encode_actions(acts.take(i)).len() < cut < encode_actions(acts).len(),
        !record_boundary(acts, cut),
    ensures
        exists|j: int|
            0 <= j < acts.len() && encode_actions(#[trigger] acts.take(j)).len() < cut
                < encode_actions(acts.take(j + 1)).len(),
    decreases acts.len() - i,
{
    assert(acts.take(acts.len() as int) =~= acts);
    assert(i < acts.len());
    assert(acts.take(i).push(acts[i]) =~= acts.take(i + 1));
    lemma_encode_actions_snoc(acts.take(i), acts[i]);
    let next = encode_actions(acts.take(i + 1)).len() as int;
    if cut < next {
    } else if cut == next {
        assert(record_boundary(acts, cut));
    } else {
        lemma_locate_cut(acts, cut, i + 1);
    }
}

/// Corruption detection: a log truncated strictly inside one of its records
/// fails to replay — the torn record is surfaced as an error instead of a
/// silently shortened cache.
#[verifier::spinoff_prover]
#[verifier::rlimit(100)]
pub proof fn lemma_truncation_detected(acts: Seq<Action>, cut: int)
    requires
        actions_wf(acts),
        0 <= cut < encode_actions(acts).len(),
        !record_boundary(acts, cut),
    ensures
        replay(encode_actions(acts).take(cut)) is Err,
{
    assert(acts.take(0) =~= Seq::<Action>::empty());
    assert(encode_actions(acts.take(0)).len() == 0);
    assert(cut != 0);
    lemma_locate_cut(acts, cut, 0);
    let j = choose|j: int|
        0 <= j < acts.len() && encode_actions(#[trigger] acts.take(j)).len() < cut
            < encode_actions(acts.take(j + 1)).len();
    let pre = encode_actions(acts.take(j));
    let a = acts[j];
    let rec = encode_action(a);
    assert(acts.take(j).push(a) =~= acts.take(j + 1));
    lemma_encode_actions_snoc(acts.take(j), a);
    lemma_encode_actions_split(acts, j + 1);
    let full = encode_actions(acts);
    let suf = encode_actions(acts.skip(j + 1));
    assert(full =~= pre + rec + suf);
    let trunc = full.take(cut);
    assert(forall|i: int| 0 <= i < j ==> acts.take(j)[i] == #[trigger] acts[i]);
    lemma_replay_equivalence(acts.take(j));
    let cj = apply_actions(CacheView::empty(), 0, acts.take(j));
    let ext = trunc.subrange(pre.len() as int, cut);
    assert(trunc =~= pre + ext);
    lemma_replay_extend(pre, ext, 0, CacheView::empty());
    assert(replay(trunc) == replay_from(trunc, pre.len() as int, cj));
    let pr = parse_record(trunc, pre.len() as int);
    if pr is Ok {
        let n = pr->Ok_0.1;
        if pre.len() < n <= trunc.len() {
            lemma_parse_record_bounds(trunc, pre.len() as int);
            assert(full =~= trunc + full.skip(cut));
            lemma_parse_record_extend(trunc, full.skip(cut), pre.len() as int);
            match a {
                Action::AddTag { name } => {
                    lemma_parse_tag_record_at(pre, name, suf);
                },
                Action::AddMedia {
                    title,
                    description,
                    tag_ids,
                    taken_datetime_bits,
                    media_type,
                    filename,
                    blob,
                } => {
                    lemma_parse_media_record_at(
                        pre,
                        title,
                        description,
                        tag_ids,
                        taken_datetime_bits,
                        media_type,
                        filename,
                        blob,
                        suf,
                    );
                },
            }
            assert(parse_record(full, pre.len() as int)->Ok_0.1 == pre.len() + rec.len());
            assert(false);
        }
    }
}

/// How many of the mutations add a tag.
pub open spec fn count_tag_actions(acts: Seq<Action>) -> int
    decreases acts.len(),
{
    if acts.len() == 0 {
        0
    } else {
        (if acts.first() is AddTag {
            1int
        } else {
            0int
        }) + count_tag_actions(acts.drop_first())
    }
}

pub proof fn lemma_count_tag_actions_bounds(acts: Seq<Action>)
    ensures
        0 <= count_tag_actions(acts) <= acts.len(),
    decreases acts.len(),
{
    if acts.len() > 0 {
        lemma_count_tag_actions_bounds(acts.drop_first());
    }
}

/// Id monotonicity: each add-tag mutation is assigned the number of tags
/// before it, and each add-media mutation the number of media entries
/// before it, so ids run 0, 1, 2, … in call order, per namespace.  The
/// entries already assigned stay untouched: an id, once given out, is never
/// reused or overwritten.
pub proof fn lemma_ids_dense(c: CacheView, log_len: int, acts: Seq<Action>)
    ensures
        apply_actions(c, log_len, acts).tags.len() == c.tags.len() + count_tag_actions(acts),
        apply_actions(c, log_len, acts).media.len() == c.media.len() + (acts.len()
            - count_tag_actions(acts)),
        apply_actions(c, log_len, acts).tags.take(c.tags.len() as int) == c.tags,
        apply_actions(c, log_len, acts).media.take(c.media.len() as int) == c.media,
    decreases acts.len(),
{
    let done = apply_actions(c, log_len, acts);
    if acts.len() == 0 {
        assert(done.tags.take(c.tags.len() as int) =~= c.tags);
        assert(done.media.take(c.media.len() as int) =~= c.media);
    } else {
        let c1 = apply_action(c, log_len, acts.first());
        lemma_count_tag_actions_bounds(acts.drop_first());
        lemma_ids_dense(c1, log_len + encode_action(acts.first()).len(), acts.drop_first());
        assert(c1.tags.take(c.tags.len() as int) =~= c.tags);
        assert(c1.media.take(c.media.len() as int) =~= c.media);
        assert forall|i: int| 0 <= i < c.tags.len() implies done.tags[i] == c1.tags[i] by {
            assert(done.tags.take(c1.tags.len() as int)[i] == c1.tags[i]);
        }
        assert forall|i: int| 0 <= i < c.media.len() implies done.media[i] == c1.media[i] by {
            assert(done.media.take(c1.media.len() as int)[i] == c1.media[i]);
        }
        assert(done.tags.take(c.tags.len() as int) =~= c1.tags.take(c.tags.len() as int));
        assert(done.media.take(c.media.len() as int) =~= c1.media.take(c.media.len() as int));
    }
}

} // verus!
