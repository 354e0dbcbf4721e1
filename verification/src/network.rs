//! Network trigger validation: the shared-key wire protocol.
//!
//! A remote peer triggers re-execution by presenting a payload whose leading
//! bytes equal the configured shared key. UDP delivers the payload as one
//! datagram; TCP delivers exactly the key's length worth of bytes within a
//! fixed timeout. The listeners hand the bytes they read to the decision
//! functions here; only these decide whether a trigger is emitted.

use vstd::prelude::*;
use vstd::string::StringSliceAdditionalSpecFns;

verus! {

/// Options describing which ports to listen on and the shared key that
/// incoming payloads must present.
pub struct NetworkOptions {
    /// UDP packets to these ports trigger execution.
    pub udp: Vec<u16>,
    /// TCP connections to these ports trigger execution.
    pub tcp: Vec<u16>,
    /// Only payloads whose leading bytes equal this key trigger execution.
    /// The empty string allows any payload.
    pub key: String,
    /// Send a trigger packet instead of listening for one.
    pub trigger: bool,
}

/// Whether a payload presents the shared key: it is at least as long as the
/// key and its leading bytes equal the key. An empty key matches every
/// payload, including the empty one.
pub open spec fn payload_matches(payload: Seq<u8>, key: Seq<u8>) -> bool {
    payload.len() >= key.len() && payload.subrange(0, key.len() as int) == key
}

/// Decides whether a payload presents the shared key.
pub fn payload_matches_key(payload: &[u8], key: &[u8]) -> (r: bool)
    ensures
        r == payload_matches(payload@, key@),
{
    if payload.len() < key.len() {
        return false;
    }
    let mut i: usize = 0;
    while i < key.len()
        invariant
            0 <= i <= key@.len() <= payload@.len(),
            forall|k: int| 0 <= k < i ==> payload@[k] == key@[k],
        decreases key@.len() - i,
    {
        if payload[i] != key[i] {
            assert(payload@.subrange(0, key@.len() as int)[i as int] != key@[i as int]);
            return false;
        }
        i = i + 1;
    }
    assert(payload@.subrange(0, key@.len() as int) =~= key@);
    true
}

/// The prefix-match protocol, spelled out byte by byte: a payload matches
/// exactly when it is long enough and agrees with the key at every one of the
/// key's positions; it fails to match exactly when it is too short or differs
/// from the key in at least one of those positions. The empty key matches
/// every payload.
pub proof fn lemma_payload_matches_bytes(payload: Seq<u8>, key: Seq<u8>)
    ensures
        payload_matches(payload, key) <==> (payload.len() >= key.len() && forall|i: int|
            0 <= i < key.len() ==> payload[i] == key[i]),
        key.len() == 0 ==> payload_matches(payload, key),
{
    if payload.len() >= key.len() {
        let prefix = payload.subrange(0, key.len() as int);
        if forall|i: int| 0 <= i < key.len() ==> payload[i] == key[i] {
            assert(prefix =~= key);
        }
        if prefix == key {
            assert(forall|i: int| 0 <= i < key.len() ==> payload[i] == prefix[i]);
        }
    }
}

/// A UDP listener reads each datagram into a buffer one byte longer than the
/// key, so it sees at most that many leading bytes of an oversized datagram.
/// The shorter view never changes the outcome: those leading bytes present
/// the key if and only if the whole datagram does.
pub proof fn lemma_truncation_preserves_match(datagram: Seq<u8>, key: Seq<u8>, read: int)
    requires
        read == if datagram.len() <= key.len() + 1 {
            datagram.len() as int
        } else {
            key.len() + 1int
        },
    ensures
        payload_matches(datagram.subrange(0, read), key) == payload_matches(datagram, key),
{
    let kept = datagram.subrange(0, read);
    if kept.len() >= key.len() && datagram.len() >= key.len() {
        assert(kept.subrange(0, key.len() as int) =~= datagram.subrange(0, key.len() as int));
    }
}

/// Decides whether one UDP datagram, as read off the socket, triggers
/// execution: exactly when its bytes present the shared key.
pub fn udp_datagram_triggers(datagram: &[u8], key: &[u8]) -> (r: bool)
    ensures
        r == payload_matches(datagram@, key@),
{
    payload_matches_key(datagram, key)
}

/// Decides whether one TCP connection triggers execution. `read` is the
/// outcome of reading exactly the key's length worth of bytes with the
/// protocol's timeout: `None` when the read timed out or failed, `Some` with
/// the bytes read otherwise. A trigger is owed exactly when the read
/// succeeded and the bytes present the shared key; a timed-out or failed
/// handshake never triggers.
pub fn tcp_read_triggers(read: &Option<Vec<u8>>, key: &[u8]) -> (r: bool)
    ensures
        r == match read {
            Some(bytes) => payload_matches(bytes@, key@),
            None => false,
        },
{
    match read {
        Some(bytes) => payload_matches_key(bytes.as_slice(), key),
        None => false,
    }
}

impl NetworkOptions {
    /// Decides whether a payload presents this configuration's shared key,
    /// compared against the key's UTF-8 bytes.
    pub fn key_matches(&self, payload: &[u8]) -> (r: bool)
        ensures
            r == payload_matches(payload@, vstd::utf8::encode_utf8(self.key@)),
    {
        let key: &str = self.key.as_str();
        payload_matches_key(payload, key.as_bytes())
    }
}

} // verus!
