//! The catalog core behind the transport layer: one object owning the
//! transaction log, the materialized cache and the session manager, with
//! the operations a request handler calls.
//!
//! Its invariant is the fold discipline of the whole system: the log always
//! replays to exactly the current cache, and every stored payload reference
//! stays inside the log.  Every mutation appends to the log and mirrors
//! itself into the cache as one step; reads consult the cache alone.  All
//! operations but `login` demand a valid bearer token and fail with the
//! distinct authorization error when it is missing from the valid set.

use vstd::prelude::*;
use crate::store::IloveuTransactionsStore;
use crate::cache::IloveuCache;
use crate::session::{SessionManager, SessionView, HashedSessionID, sha256_of};
use crate::types::{CachedMedia, CacheView, MediaView, MediaType, ReplayError};
use crate::replay::{replay, Action, apply_action, lemma_replay_one};
use crate::codec::{tag_record, media_record, media_blob_rel_offset, lemma_media_record_len};
use crate::wire::u64_be_bytes;
use vstd::slice::{slice_subrange, slice_to_vec};

verus! {

/// Why a catalog operation was refused.  Authorization failures are their
/// own kind, so the transport layer can map them to an access-denied
/// response; an unknown media id is a not-found.
#[derive(Clone, Copy, Debug, PartialEq, Eq, Structural)]
pub enum CatalogError {
    Unauthorized,
    NotFound,
}

/// The storage and authentication engine, assembled.
pub struct Catalog {
    store: IloveuTransactionsStore,
    cache: IloveuCache,
    sessions: SessionManager,
    password: String,
}

impl Catalog {
    /// The transaction log's bytes.
    pub closed spec fn log(&self) -> Seq<u8> {
        self.store@
    }

    /// The materialized cache's value.
    pub closed spec fn cache_view(&self) -> CacheView {
        self.cache@
    }

    /// The session manager's value.
    pub closed spec fn sessions_view(&self) -> SessionView {
        self.sessions@
    }

    /// The configured login password.
    pub closed spec fn password_view(&self) -> Seq<char> {
        self.password@
    }

    /// The fold discipline: the log replays to exactly the current cache,
    /// payload references stay inside the log, and the valid-token set
    /// holds no duplicates.
    pub closed spec fn inv(&self) -> bool {
        &&& replay(self.log()) == Ok::<CacheView, ReplayError>(self.cache_view())
        &&& self.cache_view().refs_within(self.log().len() as int)
        &&& self.sessions.wf()
    }

    /// Starts the catalog over the log bytes read back from disk: replays
    /// them into a fresh cache, or reports why the log is corrupt — in
    /// which case startup must abort rather than serve a partial cache.
    pub fn new(password: String, log_bytes: Vec<u8>) -> (r: Result<Catalog, ReplayError>)
        ensures
            match r {
                Ok(c) => {
                    &&& c.inv()
                    &&& c.log() == log_bytes@
                    &&& replay(log_bytes@) == Ok::<CacheView, ReplayError>(c.cache_view())
                    &&& c.sessions_view().tokens == Seq::<Seq<u8>>::empty()
                    &&& c.password_view() == password@
                },
                Err(e) => replay(log_bytes@) == Err::<CacheView, ReplayError>(e),
            },
    {
        let mut cache = IloveuCache::new();
        match cache.run_raw_transactions(&log_bytes) {
            Ok(()) => {
                let catalog = Catalog {
                    store: IloveuTransactionsStore::open(log_bytes),
                    cache,
                    sessions: SessionManager::new(),
                    password,
                };
                Ok(catalog)
            },
            Err(e) => Err(e),
        }
    }

    /// Issues a fresh token when the password is right; otherwise the
    /// distinct authorization error, and nothing changes.  Each successful
    /// call hashes a counter value no call before it has hashed.
    pub fn login(&mut self, password: &String) -> (r: Result<HashedSessionID, CatalogError>)
        requires
            old(self).inv(),
            old(self).sessions_view().next_id < u64::MAX,
        ensures
            final(self).inv(),
            final(self).log() == old(self).log(),
            final(self).cache_view() == old(self).cache_view(),
            final(self).password_view() == old(self).password_view(),
            match r {
                Ok(t) => {
                    &&& password@ == old(self).password_view()
                    &&& t@ == sha256_of(
                        old(self).sessions_view().salt + u64_be_bytes(
                            old(self).sessions_view().next_id,
                        ),
                    )
                    &&& final(self).sessions_view().next_id == old(self).sessions_view().next_id
                        + 1
                    &&& final(self).sessions_view().salt == old(self).sessions_view().salt
                    &&& final(self).sessions_view().tokens.contains(t@)
                    &&& forall|t2: Seq<u8>|
                        #[trigger] final(self).sessions_view().tokens.contains(t2) <==> old(
                            self,
                        ).sessions_view().tokens.contains(t2) || t2 == t@
                },
                Err(e) => {
                    &&& e == CatalogError::Unauthorized
                    &&& password@ != old(self).password_view()
                    &&& final(self).sessions_view() == old(self).sessions_view()
                },
            },
    {
        if self.password == *password {
            Ok(self.sessions.new_session())
        } else {
            Err(CatalogError::Unauthorized)
        }
    }

    /// True exactly when the token is in the valid set.
    pub fn validate(&self, token: &HashedSessionID) -> (r: bool)
        ensures
            r == self.sessions_view().tokens.contains(token@),
    {
        self.sessions.validate_session(token)
    }

    /// Withdraws a token; a withdrawn token fails every later validation.
    pub fn logout(&mut self, token: HashedSessionID) -> (r: bool)
        requires
            old(self).inv(),
        ensures
            final(self).inv(),
            final(self).log() == old(self).log(),
            final(self).cache_view() == old(self).cache_view(),
            final(self).password_view() == old(self).password_view(),
            r == old(self).sessions_view().tokens.contains(token@),
            !final(self).sessions_view().tokens.contains(token@),
            forall|t: Seq<u8>|
                t != token@ ==> (#[trigger] final(self).sessions_view().tokens.contains(t) <==> old(
                    self,
                ).sessions_view().tokens.contains(t)),
    {
        self.sessions.invalidate_session(token)
    }

    /// Appends an add-tag record to the log, then mirrors it into the
    /// cache, returning the assigned id: tag ids run 0, 1, 2, … in call
    /// order.
    pub fn add_tag(&mut self, token: &HashedSessionID, name: String) -> (r: Result<
        u64,
        CatalogError,
    >)
        requires
            old(self).inv(),
        ensures
            final(self).inv(),
            final(self).sessions_view() == old(self).sessions_view(),
            final(self).password_view() == old(self).password_view(),
            match r {
                Ok(id) => {
                    &&& old(self).sessions_view().tokens.contains(token@)
                    &&& id == old(self).cache_view().tags.len()
                    &&& final(self).log() == old(self).log() + tag_record(name@)
                    &&& final(self).cache_view().tags == old(self).cache_view().tags.push(name@)
                    &&& final(self).cache_view().media == old(self).cache_view().media
                },
                Err(e) => {
                    &&& e == CatalogError::Unauthorized
                    &&& !old(self).sessions_view().tokens.contains(token@)
                    &&& final(self).log() == old(self).log()
                    &&& final(self).cache_view() == old(self).cache_view()
                },
            },
    {
        if !self.sessions.validate_session(token) {
            return Err(CatalogError::Unauthorized);
        }
        // Observing the byte length shows it fits the record's length field.
        let _name_byte_count: usize = name.as_str().as_bytes().len();
        self.store.add_tag(name.as_str());
        let id = self.cache.add_tag(name);
        proof {
            let a = Action::AddTag { name: name@ };
            lemma_replay_one(old(self).log(), old(self).cache_view(), a);
            assert(self.cache_view() =~= apply_action(
                old(self).cache_view(),
                old(self).log().len() as int,
                a,
            ));
        }
        Ok(id)
    }

    /// The tag table, for serialization to the caller: a tag's id is its
    /// index.
    pub fn list_tags(&self, token: &HashedSessionID) -> (r: Result<&Vec<String>, CatalogError>)
        ensures
            match r {
                Ok(tags) => self.sessions_view().tokens.contains(token@) && tags.deep_view()
                    == self.cache_view().tags,
                Err(e) => e == CatalogError::Unauthorized && !self.sessions_view().tokens.contains(
                    token@,
                ),
            },
    {
        if !self.sessions.validate_session(token) {
            return Err(CatalogError::Unauthorized);
        }
        Ok(self.cache.get_tags())
    }

    /// Appends an add-media record — the payload embedded in the log — then
    /// mirrors the entry into the cache, returning the assigned id: media
    /// ids run 0, 1, 2, … in call order.  The returned id's entry holds a
    /// reference to exactly the payload bytes just written.
    pub fn add_media(
        &mut self,
        token: &HashedSessionID,
        title: String,
        description: String,
        tags_vec: Vec<u64>,
        taken_datetime_bits: u64,
        media_type: MediaType,
        filename: String,
        file_bytes: Vec<u8>,
    ) -> (r: Result<u64, CatalogError>)
        requires
            old(self).inv(),
        ensures
            final(self).inv(),
            final(self).sessions_view() == old(self).sessions_view(),
            final(self).password_view() == old(self).password_view(),
            match r {
                Ok(id) => {
                    &&& old(self).sessions_view().tokens.contains(token@)
                    &&& id == old(self).cache_view().media.len()
                    &&& final(self).log() == old(self).log() + media_record(
                        title@,
                        description@,
                        tags_vec@,
                        taken_datetime_bits,
                        media_type,
                        filename@,
                        file_bytes@,
                    )
                    &&& final(self).cache_view().tags == old(self).cache_view().tags
                    &&& final(self).cache_view().media == old(self).cache_view().media.push(
                        MediaView {
                            title: title@,
                            description: description@,
                            tags: tags_vec@,
                            taken_datetime_bits,
                            media_type,
                            filename: filename@,
                            file_offset: old(self).log().len() + media_blob_rel_offset(
                                title@,
                                description@,
                                tags_vec@,
                                filename@,
                            ),
                            file_size: file_bytes@.len() as int,
                        },
                    )
                    &&& final(self).log().subrange(
                        old(self).log().len() + media_blob_rel_offset(
                            title@,
                            description@,
                            tags_vec@,
                            filename@,
                        ),
                        final(self).log().len() as int,
                    ) == file_bytes@
                },
                Err(e) => {
                    &&& e == CatalogError::Unauthorized
                    &&& !old(self).sessions_view().tokens.contains(token@)
                    &&& final(self).log() == old(self).log()
                    &&& final(self).cache_view() == old(self).cache_view()
                },
            },
    {
        if !self.sessions.validate_session(token) {
            return Err(CatalogError::Unauthorized);
        }
        // Observing each byte length shows it fits its record length field.
        let _title_byte_count: usize = title.as_str().as_bytes().len();
        let _description_byte_count: usize = description.as_str().as_bytes().len();
        let _filename_byte_count: usize = filename.as_str().as_bytes().len();
        let _tag_count: usize = tags_vec.len();
        let _payload_byte_count: usize = file_bytes.len();
        let file_reference = self.store.add_media(
            title.as_str(),
            description.as_str(),
            &tags_vec,
            taken_datetime_bits,
            media_type,
            filename.as_str(),
            &file_bytes,
        );
        let cm = CachedMedia {
            title,
            description,
            tags_vec,
            taken_datetime_bits,
            media_type,
            filename,
            file_reference,
        };
        let id = self.cache.add_media(cm);
        proof {
            let a = Action::AddMedia {
                title: cm.title@,
                description: cm.description@,
                tag_ids: cm.tags_vec@,
                taken_datetime_bits,
                media_type,
                filename: cm.filename@,
                blob: file_bytes@,
            };
            lemma_replay_one(old(self).log(), old(self).cache_view(), a);
            lemma_media_record_len(
                cm.title@,
                cm.description@,
                cm.tags_vec@,
                taken_datetime_bits,
                media_type,
                cm.filename@,
                file_bytes@,
            );
            assert(self.cache_view() =~= apply_action(
                old(self).cache_view(),
                old(self).log().len() as int,
                a,
            ));
            assert(self.log().subrange(
                old(self).log().len() + media_blob_rel_offset(
                    cm.title@,
                    cm.description@,
                    cm.tags_vec@,
                    cm.filename@,
                ),
                self.log().len() as int,
            ) =~= file_bytes@);
            assert(self.cache_view().refs_within(self.log().len() as int));
        }
        Ok(id)
    }

    /// The media table, payloads excluded, for serialization to the
    /// caller: an entry's id is its index, and its payload reference says
    /// where in the log the bytes live.
    pub fn list_media(&self, token: &HashedSessionID) -> (r: Result<&Vec<CachedMedia>, CatalogError>)
        ensures
            match r {
                Ok(media) => self.sessions_view().tokens.contains(token@) && media.deep_view()
                    == self.cache_view().media,
                Err(e) => e == CatalogError::Unauthorized && !self.sessions_view().tokens.contains(
                    token@,
                ),
            },
    {
        if !self.sessions.validate_session(token) {
            return Err(CatalogError::Unauthorized);
        }
        Ok(self.cache.get_media())
    }

    /// The payload of one media entry, byte-exact from the log, with the
    /// filename to suggest for it.  Unknown ids are a not-found — the one
    /// error kind here besides authorization.
    pub fn stream_media_blob(&self, token: &HashedSessionID, media_id: u64) -> (r: Result<
        (Vec<u8>, String),
        CatalogError,
    >)
        requires
            self.inv(),
        ensures
            match r {
                Ok((bytes, filename)) => {
                    &&& self.sessions_view().tokens.contains(token@)
                    &&& media_id < self.cache_view().media.len()
                    &&& bytes@ == self.log().subrange(
                        self.cache_view().media[media_id as int].file_offset,
                        self.cache_view().media[media_id as int].file_offset + self.cache_view()
                            .media[media_id as int].file_size,
                    )
                    &&& bytes@.len() == self.cache_view().media[media_id as int].file_size
                    &&& filename@ == self.cache_view().media[media_id as int].filename
                },
                Err(e) => {
                    &&& (e == CatalogError::Unauthorized && !self.sessions_view().tokens.contains(
                        token@,
                    )) || (e == CatalogError::NotFound && self.sessions_view().tokens.contains(
                        token@,
                    ) && media_id >= self.cache_view().media.len())
                },
            },
    {
        if !self.sessions.validate_session(token) {
            return Err(CatalogError::Unauthorized);
        }
        let media = self.cache.get_media();
        if media_id >= media.len() as u64 {
            return Err(CatalogError::NotFound);
        }
        let entry = &media[media_id as usize];
        proof {
            assert(media.deep_view()[media_id as int] == self.cache_view().media[media_id as int]);
            assert(entry@ == self.cache_view().media[media_id as int]);
        }
        let log = self.store.get_transactions_raw();
        // Observing the log's length bounds the reference's offsets.
        let _log_len = log.len();
        proof {
            assert(self.cache_view().media[media_id as int].file_offset + self.cache_view()
                .media[media_id as int].file_size <= self.log().len());
        }
        let start = entry.file_reference.offset as usize;
        let end = start + (entry.file_reference.size as usize);
        let bytes = slice_to_vec(slice_subrange(log.as_slice(), start, end));
        Ok((bytes, entry.filename.clone()))
    }

    /// The whole transaction log, byte-exact, for backup or offline
    /// inspection.
    pub fn export_raw_log(&self, token: &HashedSessionID) -> (r: Result<&Vec<u8>, CatalogError>)
        ensures
            match r {
                Ok(bytes) => self.sessions_view().tokens.contains(token@) && bytes@ == self.log(),
                Err(e) => e == CatalogError::Unauthorized && !self.sessions_view().tokens.contains(
                    token@,
                ),
            },
    {
        if !self.sessions.validate_session(token) {
            return Err(CatalogError::Unauthorized);
        }
        Ok(self.store.get_transactions_raw())
    }
}

} // verus!
