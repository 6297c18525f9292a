//! Signed, authorization-checked mutations of a single subject.
//!
//! A commit carries set/remove/destroy operations, its signer, a
//! timestamp, and a signature over the canonical payload of those
//! fields. Application verifies the signature against the signer
//! Agent's key, refuses stale timestamps, resolves write permission
//! through the hierarchy, validates the resulting resource, and only
//! then touches the store; any refusal leaves the store unchanged.
//!
//! The signature scheme is a keyed character-stream checksum: the word
//! at each position is the payload character's code point plus a key
//! character's code point. It stands in for a real signature algorithm;
//! verification recomputes the expected checksum from the payload and
//! the signer's key, and a checksum valid for one payload is valid for
//! no other, which is proved below.

use vstd::prelude::*;

use crate::errors::AtomicError;
use crate::errors::AuthError;
use crate::resource::PropVal;
use crate::resource::Resource;
use crate::store::Store;
use crate::urls;

verus! {

/// A signed batch of property set/remove/destroy operations targeting one
/// subject. Immutable once signed; accepted in full or rejected in full.
#[derive(Debug)]
pub struct Commit {
    pub subject: String,
    pub set: Vec<PropVal>,
    pub remove: Vec<String>,
    pub destroy: bool,
    pub signer: String,
    /// Epoch milliseconds.
    pub created_at: u64,
    /// The keyed checksum over the canonical payload.
    pub signature: Vec<u64>,
}

/// What a successful commit application reports for downstream
/// notification.
#[derive(Debug)]
pub struct CommitResponse {
    pub subject: String,
    pub created_at: u64,
}

pub open spec fn bool_str(b: bool) -> Seq<char> {
    if b { "true"@ } else { "false"@ }
}

/// The canonical text of the set operations, one array line per pair.
pub open spec fn pairs_ser(set: Seq<PropVal>) -> Seq<char>
    decreases set.len(),
{
    if set.len() == 0 {
        Seq::empty()
    } else {
        pairs_ser(set.drop_last())
            + crate::codec::ser_line(seq![set.last().property@, set.last().value@])
    }
}

/// The canonical text of the remove operations, one array line each.
pub open spec fn removes_ser(removes: Seq<Seq<char>>) -> Seq<char>
    decreases removes.len(),
{
    if removes.len() == 0 {
        Seq::empty()
    } else {
        removes_ser(removes.drop_last()) + crate::codec::ser_line(seq![removes.last()])
    }
}

/// The canonical signable payload of a commit's fields. The signature
/// itself is not part of it.
pub open spec fn payload_of(
    subject: Seq<char>,
    set: Seq<PropVal>,
    removes: Seq<Seq<char>>,
    destroy: bool,
    signer: Seq<char>,
    created_at: int,
) -> Seq<char> {
    crate::codec::ser_line(seq![subject, signer, crate::text::u64_str(created_at), bool_str(destroy)])
        + pairs_ser(set) + removes_ser(removes)
}

pub open spec fn commit_payload(c: Commit) -> Seq<char> {
    payload_of(c.subject@, c.set@, c.remove@.map_values(|s: String| s@), c.destroy,
        c.signer@, c.created_at as int)
}

/// The key character's code point used at one payload position.
pub open spec fn keystream(key: Seq<char>, i: int) -> int {
    if key.len() == 0 {
        0
    } else {
        (key[i % (key.len() as int)] as u32) as int
    }
}

/// The checksum a key yields for a payload.
pub open spec fn expected_sig(payload: Seq<char>, key: Seq<char>) -> Seq<u64> {
    Seq::new(payload.len(), |i: int| (((payload[i] as u32) as int) + keystream(key, i)) as u64)
}

/// The key of an Agent: its public-key property, when the store holds
/// the agent with one.
pub open spec fn agent_key(
    m: Map<Seq<char>, Map<Seq<char>, Seq<char>>>,
    signer: Seq<char>,
) -> Option<Seq<char>> {
    if m.contains_key(signer) && m[signer].contains_key(urls::url_public_key()) {
        Some(m[signer][urls::url_public_key()])
    } else {
        None
    }
}

/// The commit's signature is the checksum its signer's nonempty key
/// yields for its payload.
pub open spec fn sig_ok(c: Commit, m: Map<Seq<char>, Map<Seq<char>, Seq<char>>>) -> bool {
    match agent_key(m, c.signer@) {
        None => false,
        Some(key) => key.len() > 0 && c.signature@ == expected_sig(commit_payload(c), key),
    }
}

/// The subject already has an applied commit younger than this one.
pub open spec fn commit_stale(c: Commit, log: Seq<Commit>) -> bool {
    exists|i: int| 0 <= i < log.len()
        && (#[trigger] log[i]).subject@ == c.subject@ && log[i].created_at > c.created_at
}

/// A property map after a sequence of removes.
pub open spec fn props_after_removes(
    props: Map<Seq<char>, Seq<char>>,
    removes: Seq<Seq<char>>,
) -> Map<Seq<char>, Seq<char>>
    decreases removes.len(),
{
    if removes.len() == 0 {
        props
    } else {
        props_after_removes(props, removes.drop_last()).remove(removes.last())
    }
}

/// A property map after a sequence of sets.
pub open spec fn props_after_set(
    props: Map<Seq<char>, Seq<char>>,
    set: Seq<PropVal>,
) -> Map<Seq<char>, Seq<char>>
    decreases set.len(),
{
    if set.len() == 0 {
        props
    } else {
        props_after_set(props, set.drop_last())
            .insert(set.last().property@, set.last().value@)
    }
}

/// The target's property map before the commit: what the store holds,
/// or nothing for a new subject.
pub open spec fn commit_base(
    c: Commit,
    m: Map<Seq<char>, Map<Seq<char>, Seq<char>>>,
) -> Map<Seq<char>, Seq<char>> {
    if m.contains_key(c.subject@) {
        m[c.subject@]
    } else {
        Map::empty()
    }
}

/// The property map the commit produces: removes applied first, then
/// sets, which therefore win on a property named in both.
pub open spec fn commit_new_props(
    c: Commit,
    m: Map<Seq<char>, Map<Seq<char>, Seq<char>>>,
) -> Map<Seq<char>, Seq<char>> {
    props_after_set(
        props_after_removes(commit_base(c, m), c.remove@.map_values(|s: String| s@)),
        c.set@,
    )
}

/// Write permission for the signer on the target: resolved on the
/// existing resource, or on the commit's own result for a new subject,
/// whose parent then decides.
pub open spec fn commit_authorized(
    c: Commit,
    m: Map<Seq<char>, Map<Seq<char>, Seq<char>>>,
    fuel: nat,
) -> bool {
    let props = if m.contains_key(c.subject@) {
        m[c.subject@]
    } else {
        commit_new_props(c, m)
    };
    crate::hierarchy::write_allowed(m, props, c.signer@, fuel)
}

/// A checksum binds its payload: one valid for two payloads under one
/// key proves the payloads equal, so any changed character is caught.
pub proof fn lemma_signature_binds(p1: Seq<char>, p2: Seq<char>, key: Seq<char>, sig: Seq<u64>)
    requires
        sig == expected_sig(p1, key),
        sig == expected_sig(p2, key),
    ensures
        p1 == p2,
{
    assert(p1.len() == sig.len());
    assert(p2.len() == sig.len());
    assert forall|i: int| 0 <= i < p1.len() implies p1[i] == p2[i] by {
        assert(expected_sig(p1, key)[i] == (((p1[i] as u32) as int) + keystream(key, i)) as u64);
        assert(expected_sig(p2, key)[i] == (((p2[i] as u32) as int) + keystream(key, i)) as u64);
        vstd::utf8::char_is_scalar(p1[i]);
        vstd::utf8::char_is_scalar(p2[i]);
        if key.len() > 0 {
            vstd::utf8::char_is_scalar(key[i % (key.len() as int)]);
        }
        assert((p1[i] as u32) as int <= 0x10FFFF);
        assert((p2[i] as u32) as int <= 0x10FFFF);
        assert(0 <= keystream(key, i) <= 0x10FFFF);
        assert(p1[i] as u32 == p2[i] as u32);
        vstd::utf8::char_u32_cast(p1[i], p1[i] as u32);
        vstd::utf8::char_u32_cast(p2[i], p2[i] as u32);
    }
    assert(p1 =~= p2);
}

/// Tampering is caught: a commit whose payload differs from the one a
/// signature was computed for never verifies, whatever else it holds.
pub proof fn lemma_signature_tamper(
    c1: Commit,
    c2: Commit,
    m: Map<Seq<char>, Map<Seq<char>, Seq<char>>>,
)
    requires
        sig_ok(c1, m),
        c2.signature@ == c1.signature@,
        agent_key(m, c2.signer@) == agent_key(m, c1.signer@),
        commit_payload(c2) != commit_payload(c1),
    ensures
        !sig_ok(c2, m),
{
    if sig_ok(c2, m) {
        let key = agent_key(m, c1.signer@)->Some_0;
        lemma_signature_binds(commit_payload(c1), commit_payload(c2), key, c1.signature@);
    }
}

/// Compares two checksum vectors.
fn sig_eq(a: &Vec<u64>, b: &Vec<u64>) -> (r: bool)
    ensures
        r == (a@ == b@),
{
    if a.len() != b.len() {
        proof {
            assert(a@.len() != b@.len());
        }
        return false;
    }
    let mut i: usize = 0;
    while i < a.len()
        invariant
            a@.len() == b@.len(),
            i <= a@.len(),
            forall|k: int| 0 <= k < i ==> a@[k] == b@[k],
        decreases a@.len() - i,
    {
        if a[i] != b[i] {
            return false;
        }
        i = i + 1;
    }
    proof {
        assert(a@ =~= b@);
    }
    true
}

/// Builds the canonical payload text of a commit's fields.
pub fn commit_payload_string(c: &Commit) -> (r: String)
    ensures
        r@ == commit_payload(*c),
{
    let mut head: Vec<String> = Vec::new();
    head.push(c.subject.clone());
    head.push(c.signer.clone());
    head.push(crate::text::u64_to_string(c.created_at));
    if c.destroy {
        head.push(String::from_str("true"));
    } else {
        head.push(String::from_str("false"));
    }
    let mut out = crate::codec::serialize_string_array(&head);
    let ghost headline = crate::codec::ser_line(seq![c.subject@, c.signer@,
        crate::text::u64_str(c.created_at as int), bool_str(c.destroy)]);
    proof {
        assert(head@.map_values(|e: String| e@) =~= seq![c.subject@, c.signer@,
            crate::text::u64_str(c.created_at as int), bool_str(c.destroy)]);
        assert(out@ == headline);
        assert(c.set@.take(0) =~= Seq::<PropVal>::empty());
        assert(out@ =~= headline + pairs_ser(c.set@.take(0)));
    }
    let mut i: usize = 0;
    while i < c.set.len()
        invariant
            i <= c.set@.len(),
            headline == crate::codec::ser_line(seq![c.subject@, c.signer@,
                crate::text::u64_str(c.created_at as int), bool_str(c.destroy)]),
            out@ == headline + pairs_ser(c.set@.take(i as int)),
        decreases c.set@.len() - i,
    {
        let mut pair: Vec<String> = Vec::new();
        pair.push(c.set[i].property.clone());
        pair.push(c.set[i].value.clone());
        let line = crate::codec::serialize_string_array(&pair);
        out.append(line.as_str());
        proof {
            assert(pair@.map_values(|e: String| e@)
                =~= seq![c.set@[i as int].property@, c.set@[i as int].value@]);
            assert(c.set@.take(i + 1).drop_last() =~= c.set@.take(i as int));
            assert(c.set@.take(i + 1).last() == c.set@[i as int]);
            assert(out@ =~= headline + pairs_ser(c.set@.take(i + 1)));
        }
        i = i + 1;
    }
    proof {
        assert(c.set@.take(c.set@.len() as int) =~= c.set@);
    }
    let ghost removesv = c.remove@.map_values(|s: String| s@);
    let ghost mid = out@;
    proof {
        assert(removesv.take(0) =~= Seq::<Seq<char>>::empty());
        assert(out@ =~= mid + removes_ser(removesv.take(0)));
    }
    let mut j: usize = 0;
    while j < c.remove.len()
        invariant
            j <= c.remove@.len(),
            removesv == c.remove@.map_values(|s: String| s@),
            mid == crate::codec::ser_line(seq![c.subject@, c.signer@,
                crate::text::u64_str(c.created_at as int), bool_str(c.destroy)])
                + pairs_ser(c.set@),
            out@ == mid + removes_ser(removesv.take(j as int)),
        decreases c.remove@.len() - j,
    {
        let mut one: Vec<String> = Vec::new();
        one.push(c.remove[j].clone());
        let line = crate::codec::serialize_string_array(&one);
        out.append(line.as_str());
        proof {
            assert(one@.map_values(|e: String| e@) =~= seq![removesv[j as int]]);
            assert(removesv.take(j + 1).drop_last() =~= removesv.take(j as int));
            assert(removesv.take(j + 1).last() == removesv[j as int]);
            assert(out@ =~= mid + removes_ser(removesv.take(j + 1)));
        }
        j = j + 1;
    }
    proof {
        assert(removesv.take(removesv.len() as int) =~= removesv);
        assert(out@ =~= commit_payload(*c));
    }
    out
}

/// Computes the checksum a key yields for a payload.
pub fn sign_payload(payload: &str, key: &str) -> (r: Vec<u64>)
    requires
        key@.len() > 0,
    ensures
        r@ == expected_sig(payload@, key@),
{
    let n = payload.unicode_len();
    let klen = key.unicode_len();
    let mut out: Vec<u64> = Vec::new();
    let mut i: usize = 0;
    while i < n
        invariant
            n == payload@.len(),
            klen == key@.len(),
            klen > 0,
            i <= n,
            out@.len() == i,
            forall|k: int| 0 <= k < i ==> out@[k] == expected_sig(payload@, key@)[k],
        decreases n - i,
    {
        let c = payload.get_char(i);
        let k = key.get_char(i % klen);
        proof {
            assert((i % klen) as int == (i as int) % (klen as int));
            vstd::utf8::char_is_scalar(c);
            vstd::utf8::char_is_scalar(k);
        }
        let cu: u32 = c as u32;
        let ku: u32 = k as u32;
        out.push((cu as u64) + (ku as u64));
        i = i + 1;
    }
    proof {
        assert(out@ =~= expected_sig(payload@, key@));
    }
    out
}

impl Commit {
    /// Builds a commit over the given operations and signs it with the
    /// key, which must not be empty.
    pub fn new_signed(
        subject: String,
        set: Vec<PropVal>,
        remove: Vec<String>,
        destroy: bool,
        signer: String,
        created_at: u64,
        key: &str,
    ) -> (r: Commit)
        requires
            key@.len() > 0,
        ensures
            r.subject@ == subject@,
            r.set@ == set@,
            r.remove@ == remove@,
            r.destroy == destroy,
            r.signer@ == signer@,
            r.created_at == created_at,
            r.signature@ == expected_sig(commit_payload(r), key@),
    {
        let mut c = Commit {
            subject,
            set,
            remove,
            destroy,
            signer,
            created_at,
            signature: Vec::new(),
        };
        let payload = commit_payload_string(&c);
        let signature = sign_payload(payload.as_str(), key);
        c.signature = signature;
        proof {
            assert(commit_payload(c) == payload@);
        }
        c
    }
}

impl Store {
    /// Verifies, authorizes and validates a commit, then applies it
    /// atomically: the resource index is updated and the commit appended
    /// to the log, or the store is left byte-for-byte unchanged.
    pub fn apply_commit(&mut self, commit: Commit) -> (r: Result<CommitResponse, AtomicError>)
        requires
            old(self).wf(),
        ensures
            final(self).wf(),
            match r {
                Ok(resp) => {
                    &&& sig_ok(commit, old(self)@)
                    &&& !commit_stale(commit, old(self).log@)
                    &&& commit_authorized(commit, old(self)@, old(self).resources@.len() as nat)
                    &&& commit.destroy || crate::schema::resource_valid(
                            old(self)@, commit_new_props(commit, old(self)@))
                    &&& final(self)@ == (if commit.destroy {
                            old(self)@.remove(commit.subject@)
                        } else {
                            old(self)@.insert(commit.subject@, commit_new_props(commit, old(self)@))
                        })
                    &&& final(self).log@ == old(self).log@.push(commit)
                    &&& resp.subject@ == commit.subject@
                    &&& resp.created_at == commit.created_at
                },
                Err(e) => {
                    &&& final(self)@ == old(self)@
                    &&& final(self).log@ == old(self).log@
                    &&& (if agent_key(old(self)@, commit.signer@) is None {
                            e == AtomicError::Authorization(AuthError::UnknownSigner)
                        } else if !sig_ok(commit, old(self)@) {
                            e == AtomicError::Authorization(AuthError::InvalidSignature)
                        } else if commit_stale(commit, old(self).log@) {
                            e == AtomicError::Authorization(AuthError::Stale)
                        } else if !commit_authorized(commit, old(self)@,
                                old(self).resources@.len() as nat) {
                            e == AtomicError::Authorization(AuthError::NoWritePermission)
                        } else {
                            !commit.destroy
                                && !crate::schema::resource_valid(
                                    old(self)@, commit_new_props(commit, old(self)@))
                                && ((e matches AtomicError::Validation(_))
                                    || (e matches AtomicError::NotFound { .. }))
                        })
                },
            },
    {
        // signature
        let key = match self.get_resource_string(commit.signer.as_str()) {
            None => {
                return Err(AtomicError::Authorization(AuthError::UnknownSigner));
            },
            Some(agent) => match agent.get(urls::public_key()) {
                None => {
                    return Err(AtomicError::Authorization(AuthError::UnknownSigner));
                },
                Some(k) => k.clone(),
            },
        };
        if key.as_str().unicode_len() == 0 {
            return Err(AtomicError::Authorization(AuthError::InvalidSignature));
        }
        let payload = commit_payload_string(&commit);
        let expected = sign_payload(payload.as_str(), key.as_str());
        if !sig_eq(&commit.signature, &expected) {
            return Err(AtomicError::Authorization(AuthError::InvalidSignature));
        }
        // staleness
        let mut li: usize = 0;
        while li < self.log.len()
            invariant
                self == old(self),
                old(self).wf(),
                agent_key(old(self)@, commit.signer@) is Some,
                sig_ok(commit, old(self)@),
                li <= self.log@.len(),
                forall|k: int| 0 <= k < li
                    ==> !((#[trigger] self.log@[k]).subject@ == commit.subject@
                        && self.log@[k].created_at > commit.created_at),
            decreases self.log@.len() - li,
        {
            if crate::text::str_eq(self.log[li].subject.as_str(), commit.subject.as_str())
                && self.log[li].created_at > commit.created_at {
                return Err(AtomicError::Authorization(AuthError::Stale));
            }
            li = li + 1;
        }
        // build the resulting resource on a scratch copy
        let existing = self.get_resource_string(commit.subject.as_str());
        let mut scratch = match &existing {
            Some(r) => r.duplicate(),
            None => Resource::new(commit.subject.clone()),
        };
        let ghost base = commit_base(commit, self@);
        let ghost removesv = commit.remove@.map_values(|s: String| s@);
        proof {
            assert(scratch@ == base);
            assert(removesv.take(0) =~= Seq::<Seq<char>>::empty());
        }
        let mut ri: usize = 0;
        while ri < commit.remove.len()
            invariant
                self == old(self),
                self.wf(),
                removesv == commit.remove@.map_values(|s: String| s@),
                ri <= commit.remove@.len(),
                scratch.wf(),
                scratch.subject@ == commit.subject@,
                scratch@ == props_after_removes(base, removesv.take(ri as int)),
            decreases commit.remove@.len() - ri,
        {
            scratch.remove_propval(commit.remove[ri].as_str());
            proof {
                assert(removesv.take(ri + 1).drop_last() =~= removesv.take(ri as int));
                assert(removesv.take(ri + 1).last() == removesv[ri as int]);
            }
            ri = ri + 1;
        }
        proof {
            assert(removesv.take(removesv.len() as int) =~= removesv);
        }
        let ghost after_removes = props_after_removes(base, removesv);
        proof {
            assert(commit.set@.take(0) =~= Seq::<PropVal>::empty());
        }
        let mut si: usize = 0;
        while si < commit.set.len()
            invariant
                self == old(self),
                self.wf(),
                si <= commit.set@.len(),
                scratch.wf(),
                scratch.subject@ == commit.subject@,
                scratch@ == props_after_set(after_removes, commit.set@.take(si as int)),
            decreases commit.set@.len() - si,
        {
            scratch.set_propval(commit.set[si].property.clone(), commit.set[si].value.clone());
            proof {
                assert(commit.set@.take(si + 1).drop_last() =~= commit.set@.take(si as int));
                assert(commit.set@.take(si + 1).last() == commit.set@[si as int]);
            }
            si = si + 1;
        }
        proof {
            assert(commit.set@.take(commit.set@.len() as int) =~= commit.set@);
            assert(scratch@ == commit_new_props(commit, self@));
        }
        // authorization through the hierarchy
        let authorized = match &existing {
            Some(r) => self.check_write(r, commit.signer.as_str()),
            None => self.check_write(&scratch, commit.signer.as_str()),
        };
        if !authorized {
            return Err(AtomicError::Authorization(AuthError::NoWritePermission));
        }
        // validation of the resulting resource
        if !commit.destroy {
            match self.validate_resource(&scratch) {
                Ok(()) => {},
                Err(e) => {
                    return Err(e);
                },
            }
        }
        // apply
        let resp = CommitResponse {
            subject: commit.subject.clone(),
            created_at: commit.created_at,
        };
        if commit.destroy {
            self.remove_resource(commit.subject.as_str());
        } else {
            self.add_resource(scratch);
        }
        self.log.push(commit);
        Ok(resp)
    }
}

} // verus!
