//! The append-only transaction log and the one-time migration of the
//! on-disk layout.
//!
//! The store holds the log's byte string; its view is the contents of the
//! on-disk `transactions` file.  Appending is the only mutation: records are
//! immutable once written and never deleted.  Callers that keep a durable
//! copy write the same record bytes (see `codec`) to the file before
//! mirroring the mutation here.

use vstd::prelude::*;
use crate::codec::{tag_record, media_record, media_blob_rel_offset, lemma_media_record_len,
    append_len_prefixed, append_ids};
use crate::wire::append_u64_be;
use crate::types::SizedReference;

verus! {

/// The current version of the on-disk layout.
pub const LATEST_VERSION: u64 = 1;

/// What opening a store must do to bring the on-disk layout up to
/// `LATEST_VERSION`.
#[derive(Clone, Copy, Debug, PartialEq, Eq, Structural)]
pub enum MigrationPlan {
    /// A freshly created directory: create the empty transactions log, then
    /// mark the layout current.
    CreateEmptyLog,
    /// The layout is already at the current version; nothing to do.
    AlreadyCurrent,
}

/// The persisted version is one this build does not recognize: a fatal
/// inconsistency, reported so the caller can abort startup.
#[derive(Clone, Copy, Debug, PartialEq, Eq, Structural)]
pub struct UnknownVersion {
    pub found: u64,
}

/// Decides the one-time migration to run from the version marker read off
/// disk.
pub fn plan_migration(last_version: u64) -> (r: Result<MigrationPlan, UnknownVersion>)
    ensures
        last_version == 0 ==> r == Ok::<MigrationPlan, UnknownVersion>(
            MigrationPlan::CreateEmptyLog,
        ),
        last_version == LATEST_VERSION ==> r == Ok::<MigrationPlan, UnknownVersion>(
            MigrationPlan::AlreadyCurrent,
        ),
        last_version != 0 && last_version != LATEST_VERSION ==> r == Err::<
            MigrationPlan,
            UnknownVersion,
        >(UnknownVersion { found: last_version }),
{
    if last_version == 0 {
        Ok(MigrationPlan::CreateEmptyLog)
    } else if last_version == LATEST_VERSION {
        Ok(MigrationPlan::AlreadyCurrent)
    } else {
        Err(UnknownVersion { found: last_version })
    }
}

/// The transaction log: the complete ordered history of catalog mutations
/// as one byte string of back-to-back records.
pub struct IloveuTransactionsStore {
    log: Vec<u8>,
}

impl View for IloveuTransactionsStore {
    type V = Seq<u8>;

    closed spec fn view(&self) -> Seq<u8> {
        self.log@
    }
}

impl IloveuTransactionsStore {
    /// Opens the store over the log bytes read back from durable storage
    /// (empty for a newly created layout).
    pub fn open(log_bytes: Vec<u8>) -> (r: Self)
        ensures
            r@ == log_bytes@,
    {
        IloveuTransactionsStore { log: log_bytes }
    }

    /// The whole log from the start: for replay, export, or seeking to a
    /// stored payload reference.
    pub fn get_transactions_raw(&self) -> (r: &Vec<u8>)
        ensures
            r@ == self@,
    {
        &self.log
    }

    /// Appends one add-tag record.  The call returns only once every byte
    /// of the record is in the log.
    pub fn add_tag(&mut self, name: &str)
        ensures
            final(self)@ == old(self)@ + tag_record(name@),
    {
        append_u64_be(&mut self.log, 0);
        append_len_prefixed(&mut self.log, name.as_bytes());
        proof {
            assert(self@ =~= old(self)@ + tag_record(name@));
        }
    }

    /// Appends one add-media record, the payload embedded after its
    /// metadata, and returns the reference under which the payload can be
    /// read back: the byte position just past the payload-length field —
    /// taken from the log's actual length at that point, not a running
    /// tally — and the payload's size.
    pub fn add_media(
        &mut self,
        title: &str,
        description: &str,
        tags_vec: &Vec<u64>,
        taken_datetime_bits: u64,
        media_type: crate::types::MediaType,
        filename: &str,
        file_bytes: &Vec<u8>,
    ) -> (r: SizedReference)
        ensures
            final(self)@ == old(self)@ + media_record(
                title@,
                description@,
                tags_vec@,
                taken_datetime_bits,
                media_type,
                filename@,
                file_bytes@,
            ),
            r.size == file_bytes@.len(),
            r.offset == old(self)@.len() + media_blob_rel_offset(
                title@,
                description@,
                tags_vec@,
                filename@,
            ),
            final(self)@.subrange(r.offset as int, r.offset + r.size) == file_bytes@,
    {
        append_u64_be(&mut self.log, 1);
        append_len_prefixed(&mut self.log, title.as_bytes());
        append_len_prefixed(&mut self.log, description.as_bytes());
        append_u64_be(&mut self.log, tags_vec.len() as u64);
        append_ids(&mut self.log, tags_vec);
        append_u64_be(&mut self.log, taken_datetime_bits);
        let code: u64 = match media_type {
            crate::types::MediaType::Picture => 0,
            crate::types::MediaType::Video => 1,
        };
        append_u64_be(&mut self.log, code);
        append_len_prefixed(&mut self.log, filename.as_bytes());
        append_u64_be(&mut self.log, file_bytes.len() as u64);
        let file_offset = self.log.len() as u64;
        self.log.extend_from_slice(file_bytes.as_slice());
        let r = SizedReference { offset: file_offset, size: file_bytes.len() as u64 };
        proof {
            lemma_media_record_len(
                title@,
                description@,
                tags_vec@,
                taken_datetime_bits,
                media_type,
                filename@,
                file_bytes@,
            );
            assert(self@ =~= old(self)@ + media_record(
                title@,
                description@,
                tags_vec@,
                taken_datetime_bits,
                media_type,
                filename@,
                file_bytes@,
            ));
            assert(self@.subrange(r.offset as int, r.offset + r.size) =~= file_bytes@);
        }
        r
    }
}

} // verus!
