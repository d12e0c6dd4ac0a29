//! Session tokens: issuance and validation of opaque bearer credentials.
//!
//! A single random salt is drawn once per manager (so once per process);
//! each login hashes the salt together with a monotonic counter and hands
//! out the digest as the token.  Validity is set membership: a token is
//! good until it is explicitly invalidated or the process restarts.

use vstd::prelude::*;
use base64::Engine;
use rand::Rng;
use sha2::Digest;
use crate::wire::{u64_be_bytes, append_u64_be, lemma_u64_be_injective};

verus! {

broadcast use crate::wire::lemma_u64_be_bytes_len;

/// The counter a token is derived from.
pub type SessionID = u64;

/// An issued bearer token: a 32-byte one-way digest.
pub type HashedSessionID = [u8; 32];

/// A bearer token as it travels over the wire: the URL-safe, unpadded
/// base64 form of the digest bytes.
#[derive(Clone, Debug, PartialEq)]
pub struct HashedSessionIDBase64(pub String);

/// The 32-byte digest the hash produces for a message.  The digest is a
/// function of the message bytes alone; nothing else is assumed of it —
/// in particular, not that it never collides.
pub uninterp spec fn sha256_of(data: Seq<u8>) -> Seq<u8>;

/// Relies on sha2::Sha256: the digest is 32 bytes and depends on the input
/// bytes alone.
#[verifier::external_body]
fn sha256_digest(data: &Vec<u8>) -> (r: [u8; 32])
    ensures
        r@ == sha256_of(data@),
{
    let digest = sha2::Sha256::digest(data.as_slice());
    digest.into()
}

/// Relies on rand::thread_rng and Rng::fill to draw the per-process salt;
/// nothing is assumed of the bytes drawn.
#[verifier::external_body]
fn random_salt() -> [u8; 16] {
    let mut salt = [0u8; 16];
    rand::thread_rng().fill(&mut salt);
    salt
}

/// What a string decodes to under URL-safe, unpadded base64, if anything.
/// The outcome is a function of the characters alone.
pub uninterp spec fn b64_url_decode(text: Seq<char>) -> Option<Seq<u8>>;

/// Relies on base64's URL_SAFE_NO_PAD engine: whether and to what a string
/// decodes depends on its characters alone.
#[verifier::external_body]
fn base64_url_decode(text: &str) -> (r: Option<Vec<u8>>)
    ensures
        r is Some <==> b64_url_decode(text@) is Some,
        r is Some ==> r->0@ == b64_url_decode(text@)->0,
{
    base64::engine::general_purpose::URL_SAFE_NO_PAD.decode(text).ok()
}

/// Turns a transported credential back into a token: the base64 decode of
/// the header value, accepted only at the digest's exact length.  Anything
/// else is no token at all.
pub fn decode_token(header_value: &str) -> (r: Option<HashedSessionID>)
    ensures
        match r {
            Some(t) => b64_url_decode(header_value@) == Some(t@),
            None => b64_url_decode(header_value@) is None || b64_url_decode(header_value@)->0.len()
                != 32,
        },
{
    match base64_url_decode(header_value) {
        None => None,
        Some(v) => {
            if v.len() != 32 {
                None
            } else {
                let mut t: [u8; 32] = [0; 32];
                let mut i: usize = 0;
                while i < 32
                    invariant
                        i <= 32,
                        v@.len() == 32,
                        forall|j: int| 0 <= j < i ==> t@[j] == v@[j],
                    decreases 32 - i,
                {
                    t[i] = v[i];
                    i = i + 1;
                }
                proof {
                    assert(t@ =~= v@);
                }
                Some(t)
            }
        },
    }
}

/// The mathematical state of a session manager.
#[verifier::ext_equal]
pub struct SessionView {
    pub salt: Seq<u8>,
    pub next_id: u64,
    pub tokens: Seq<Seq<u8>>,
}

/// Issues and checks bearer tokens for one process lifetime.
pub struct SessionManager {
    sessions_salt: [u8; 16],
    next_session_id: SessionID,
    valid_hashed_session_ids: Vec<HashedSessionID>,
}

impl View for SessionManager {
    type V = SessionView;

    closed spec fn view(&self) -> SessionView {
        SessionView {
            salt: self.sessions_salt@,
            next_id: self.next_session_id,
            tokens: self.valid_hashed_session_ids.deep_view(),
        }
    }
}

impl SessionManager {
    /// No two entries of the valid set are the same token, so removing a
    /// token removes it for good.
    pub open spec fn wf(&self) -> bool {
        forall|i: int, j: int|
            0 <= i < j < self@.tokens.len() ==> #[trigger] self@.tokens[i] != #[trigger] self@.tokens[j]
    }

    /// A fresh manager: new salt, counter at zero, no valid tokens.  Every
    /// token issued by an earlier process is thereby invalid.
    pub fn new() -> (r: Self)
        ensures
            r.wf(),
            r@.next_id == 0,
            r@.tokens == Seq::<Seq<u8>>::empty(),
    {
        let r = SessionManager {
            sessions_salt: random_salt(),
            next_session_id: 0,
            valid_hashed_session_ids: Vec::new(),
        };
        proof {
            assert(r@.tokens =~= Seq::<Seq<u8>>::empty());
        }
        r
    }

    /// True exactly when the token is in the valid set.
    pub fn validate_session(&self, hashed_session_id: &HashedSessionID) -> (r: bool)
        ensures
            r == self@.tokens.contains(hashed_session_id@),
    {
        let n = self.valid_hashed_session_ids.len();
        let mut i: usize = 0;
        while i < n
            invariant
                i <= n,
                n == self@.tokens.len(),
                forall|j: int| 0 <= j < i ==> self@.tokens[j] != hashed_session_id@,
            decreases n - i,
        {
            proof {
                assert(self@.tokens[i as int] =~= self.valid_hashed_session_ids@[i as int]@);
            }
            if token_eq(&self.valid_hashed_session_ids[i], hashed_session_id) {
                return true;
            }
            i = i + 1;
        }
        proof {
            if self@.tokens.contains(hashed_session_id@) {
                let k = choose|k: int|
                    0 <= k < self@.tokens.len() && self@.tokens[k] == hashed_session_id@;
                assert(false);
            }
        }
        false
    }

    /// Issues one fresh token: the digest of the salt followed by the
    /// big-endian counter.  The token is added to the valid set and the
    /// counter advances, so no two calls ever hash the same message.
    pub fn new_session(&mut self) -> (r: HashedSessionID)
        requires
            old(self).wf(),
            old(self)@.next_id < u64::MAX,
        ensures
            final(self).wf(),
            r@ == sha256_of(old(self)@.salt + u64_be_bytes(old(self)@.next_id)),
            final(self)@.salt == old(self)@.salt,
            final(self)@.next_id == old(self)@.next_id + 1,
            final(self)@.tokens.contains(r@),
            forall|t: Seq<u8>|
                #[trigger] final(self)@.tokens.contains(t) <==> old(self)@.tokens.contains(t) || t
                    == r@,
    {
        let mut message: Vec<u8> = Vec::new();
        let mut i: usize = 0;
        while i < 16
            invariant
                i <= 16,
                self == old(self),
                message@ == self.sessions_salt@.take(i as int),
            decreases 16 - i,
        {
            message.push(self.sessions_salt[i]);
            proof {
                assert(message@ =~= self.sessions_salt@.take(i + 1));
            }
            i = i + 1;
        }
        proof {
            assert(self.sessions_salt@.take(16) =~= self@.salt);
        }
        append_u64_be(&mut message, self.next_session_id);
        let hashed_session_id = sha256_digest(&message);
        if !self.validate_session(&hashed_session_id) {
            self.valid_hashed_session_ids.push(hashed_session_id);
            proof {
                assert(self@.tokens =~~= old(self)@.tokens.push(hashed_session_id@));
                assert(self@.tokens[self@.tokens.len() - 1] == hashed_session_id@);
                assert(self@.tokens.contains(hashed_session_id@));
                assert forall|t: Seq<u8>| #[trigger] self@.tokens.contains(t) implies old(
                    self,
                )@.tokens.contains(t) || t == hashed_session_id@ by {
                    let k = choose|k: int| 0 <= k < self@.tokens.len() && self@.tokens[k] == t;
                    if k < old(self)@.tokens.len() {
                        assert(old(self)@.tokens[k] == t);
                    }
                }
                assert forall|t: Seq<u8>|
                    old(self)@.tokens.contains(t) implies #[trigger] self@.tokens.contains(t) by {
                    let k = choose|k: int|
                        0 <= k < old(self)@.tokens.len() && old(self)@.tokens[k] == t;
                    assert(self@.tokens[k] == t);
                }
                assert forall|a: int, b: int|
                    0 <= a < b < self@.tokens.len() implies #[trigger] self@.tokens[a]
                    != #[trigger] self@.tokens[b] by {
                    if b == self@.tokens.len() - 1 {
                        assert(self@.tokens[a] == old(self)@.tokens[a]);
                        if self@.tokens[a] == hashed_session_id@ {
                            assert(old(self)@.tokens.contains(hashed_session_id@));
                        }
                    } else {
                        assert(old(self)@.tokens[a] == self@.tokens[a]);
                        assert(old(self)@.tokens[b] == self@.tokens[b]);
                    }
                }
            }
        }
        self.next_session_id = self.next_session_id + 1;
        hashed_session_id
    }

    /// Removes the token from the valid set if it is there; reports whether
    /// a removal happened.  A removed token fails every later validation.
    pub fn invalidate_session(&mut self, hashed_session_id: HashedSessionID) -> (r: bool)
        requires
            old(self).wf(),
        ensures
            final(self).wf(),
            r == old(self)@.tokens.contains(hashed_session_id@),
            !final(self)@.tokens.contains(hashed_session_id@),
            forall|t: Seq<u8>|
                t != hashed_session_id@ ==> (#[trigger] final(self)@.tokens.contains(t) <==> old(
                    self,
                )@.tokens.contains(t)),
            final(self)@.salt == old(self)@.salt,
            final(self)@.next_id == old(self)@.next_id,
    {
        let n = self.valid_hashed_session_ids.len();
        let mut i: usize = 0;
        while i < n
            invariant
                i <= n,
                self == old(self),
                old(self).wf(),
                n == self@.tokens.len(),
                forall|j: int| 0 <= j < i ==> self@.tokens[j] != hashed_session_id@,
            decreases n - i,
        {
            proof {
                assert(self@.tokens[i as int] =~= self.valid_hashed_session_ids@[i as int]@);
            }
            if token_eq(&self.valid_hashed_session_ids[i], &hashed_session_id) {
                proof {
                    assert(old(self)@.tokens[i as int] == hashed_session_id@);
                }
                self.valid_hashed_session_ids.remove(i);
                proof {
                    let before = old(self)@.tokens;
                    let after = self@.tokens;
                    assert(after =~~= before.remove(i as int));
                    assert(before.contains(hashed_session_id@));
                    assert forall|j: int| 0 <= j < after.len() implies after[j]
                        != hashed_session_id@ by {
                        if j < i {
                            assert(before[j] == after[j]);
                        } else {
                            assert(before[j + 1] == after[j]);
                        }
                    }
                    assert forall|t: Seq<u8>|
                        t != hashed_session_id@ && before.contains(t) implies #[trigger] after.contains(
                        t,
                    ) by {
                        let k = choose|k: int| 0 <= k < before.len() && before[k] == t;
                        if k < i {
                            assert(after[k] == t);
                        } else {
                            assert(after[k - 1] == t);
                        }
                    }
                    assert forall|t: Seq<u8>|
                        t != hashed_session_id@ && after.contains(t) implies before.contains(t) by {
                        let k = choose|k: int| 0 <= k < after.len() && after[k] == t;
                        if k < i {
                            assert(before[k] == t);
                        } else {
                            assert(before[k + 1] == t);
                        }
                    }
                    assert forall|a: int, b: int|
                        0 <= a < b < after.len() implies #[trigger] after[a] != #[trigger] after[b] by {
                        if a < i {
                            assert(after[a] == before[a]);
                            if b < i {
                                assert(after[b] == before[b]);
                                assert(before[a] != before[b]);
                            } else {
                                assert(after[b] == before[b + 1]);
                                assert(before[a] != before[b + 1]);
                            }
                        } else {
                            assert(after[a] == before[a + 1]);
                            assert(after[b] == before[b + 1]);
                            assert(before[a + 1] != before[b + 1]);
                        }
                    }
                }
                return true;
            }
            i = i + 1;
        }
        proof {
            if self@.tokens.contains(hashed_session_id@) {
                let k = choose|k: int|
                    0 <= k < self@.tokens.len() && self@.tokens[k] == hashed_session_id@;
                assert(false);
            }
        }
        false
    }
}

/// Byte-for-byte equality of two tokens.
fn token_eq(a: &HashedSessionID, b: &HashedSessionID) -> (r: bool)
    ensures
        r == (a@ == b@),
{
    let mut i: usize = 0;
    while i < 32
        invariant
            i <= 32,
            forall|j: int| 0 <= j < i ==> a@[j] == b@[j],
        decreases 32 - i,
    {
        if a[i] != b[i] {
            return false;
        }
        i = i + 1;
    }
    proof {
        assert(a@ =~= b@);
    }
    true
}

/// Distinct counters feed distinct messages to the hash: two issued tokens
/// could only coincide if the hash itself collided on different inputs.
pub proof fn lemma_token_preimages_distinct(salt: Seq<u8>, i: u64, j: u64)
    requires
        i != j,
    ensures
        salt + u64_be_bytes(i) != salt + u64_be_bytes(j),
{
    let si = salt + u64_be_bytes(i);
    let sj = salt + u64_be_bytes(j);
    if si == sj {
        assert(si.subrange(salt.len() as int, salt.len() as int + 8) =~= u64_be_bytes(i));
        assert(sj.subrange(salt.len() as int, salt.len() as int + 8) =~= u64_be_bytes(j));
        lemma_u64_be_injective(i, j);
        assert(false);
    }
}

} // verus!
