//! SRTP (Secure RTP) per RFC 3711.
//!
//! AES-128-CM encryption with HMAC-SHA1-80 authentication for RTP and RTCP
//! media streams, with SDES key exchange (RFC 4568).

pub mod laws;

use vstd::prelude::*;

use crate::bytes;
use crate::crypto;
use crate::error::Error;
use crate::rtp::header;
use crate::text;

verus! {

/// Length of the authentication tag at the end of a packet.
pub const AUTH_TAG_LEN: usize = 10;

/// Length of a master key.
pub const MASTER_KEY_LEN: usize = 16;

/// Length of a master salt.
pub const MASTER_SALT_LEN: usize = 14;

/// Total keying material length (master key and master salt).
pub const KEYING_MATERIAL_LEN: usize = 30;

const LABEL_RTP_CIPHER: u8 = 0x00;

const LABEL_RTP_AUTH: u8 = 0x01;

const LABEL_RTP_SALT: u8 = 0x02;

const LABEL_RTCP_CIPHER: u8 = 0x03;

const LABEL_RTCP_AUTH: u8 = 0x04;

const LABEL_RTCP_SALT: u8 = 0x05;

/// `n` zero bytes.
pub open spec fn zeros(n: nat) -> Seq<u8> {
    Seq::new(n, |i: int| 0u8)
}

/// A counter block: `base` with the salt combined into its first 14 bytes. The
/// last two bytes count the blocks of the key stream.
pub open spec fn salted(base: Seq<u8>, salt: Seq<u8>) -> Seq<u8> {
    Seq::new(16, |i: int| if i < 14 { base[i] ^ salt[i] } else { base[i] })
}

/// The counter block from which the keys with `label` are derived.
pub open spec fn derivation_block(salt: Seq<u8>, label: u8) -> Seq<u8> {
    salted(zeros(7).push(label) + zeros(8), salt)
}

/// The first `n` bytes of key stream that a master key and salt give for `label`.
pub open spec fn derived(key: Seq<u8>, salt: Seq<u8>, label: u8, n: nat) -> Seq<u8> {
    Seq::new(n, |i: int| crypto::aes128_ctr_keystream(key, derivation_block(salt, label), i))
}

/// Combines `salt` into the first 14 bytes of `base`.
fn salt_block(base: &[u8], salt: &[u8]) -> (block: [u8; 16])
    requires
        base@.len() == 16,
        salt@.len() == 14,
    ensures
        block@ == salted(base@, salt@),
{
    let mut block: [u8; 16] = [0u8; 16];
    for i in 0..16usize
        invariant
            base@.len() == 16,
            salt@.len() == 14,
            block@.len() == 16,
            forall|j: int| 0 <= j < i ==> block@[j] == salted(base@, salt@)[j],
    {
        if i < 14 {
            block[i] = base[i] ^ salt[i];
        } else {
            block[i] = base[i];
        }
    }
    assert(block@ =~= salted(base@, salt@));
    block
}

/// The first `n` bytes of key stream for `label`.
fn derive(master_key: &[u8; 16], master_salt: &[u8], label: u8, n: usize) -> (out: Vec<u8>)
    requires
        master_salt@.len() == 14,
    ensures
        out@ == derived(master_key@, master_salt@, label, n as nat),
{
    let base: [u8; 16] = [0, 0, 0, 0, 0, 0, 0, label, 0, 0, 0, 0, 0, 0, 0, 0];
    assert(base@ =~= zeros(7).push(label) + zeros(8));
    let iv = salt_block(base.as_slice(), master_salt);
    let blank: Vec<u8> = vec![0u8; n];
    let out = crypto::ctr_transform(master_key, &iv, blank.as_slice());
    proof {
        assert forall|i: int| 0 <= i < n implies out@[i] == derived(
            master_key@,
            master_salt@,
            label,
            n as nat,
        )[i] by {
            let k = crypto::aes128_ctr_keystream(master_key@, iv@, i);
            assert(0u8 ^ k == k) by (bit_vector);
        }
        assert(out@ =~= derived(master_key@, master_salt@, label, n as nat));
    }
    out
}

/// The session key for `label`.
fn derive_session_key(master_key: &[u8; 16], master_salt: &[u8], label: u8) -> (out: [u8; 16])
    requires
        master_salt@.len() == 14,
    ensures
        out@ == derived(master_key@, master_salt@, label, 16),
{
    let stream = derive(master_key, master_salt, label, 16);
    let mut out: [u8; 16] = [0u8; 16];
    for i in 0..16usize
        invariant
            stream@.len() == 16,
            out@.len() == 16,
            forall|j: int| 0 <= j < i ==> out@[j] == stream@[j],
    {
        out[i] = stream[i];
    }
    assert(out@ =~= stream@);
    out
}

/// The session salt for `label`.
fn derive_session_salt(master_key: &[u8; 16], master_salt: &[u8], label: u8) -> (out: [u8; 14])
    requires
        master_salt@.len() == 14,
    ensures
        out@ == derived(master_key@, master_salt@, label, 14),
{
    let stream = derive(master_key, master_salt, label, 14);
    let mut out: [u8; 14] = [0u8; 14];
    for i in 0..14usize
        invariant
            stream@.len() == 14,
            out@.len() == 14,
            forall|j: int| 0 <= j < i ==> out@[j] == stream@[j],
    {
        out[i] = stream[i];
    }
    assert(out@ =~= stream@);
    out
}

/// The session authentication key for `label`.
fn derive_session_auth_key(master_key: &[u8; 16], master_salt: &[u8], label: u8) -> (out: [u8; 20])
    requires
        master_salt@.len() == 14,
    ensures
        out@ == derived(master_key@, master_salt@, label, 20),
{
    let stream = derive(master_key, master_salt, label, 20);
    let mut out: [u8; 20] = [0u8; 20];
    for i in 0..20usize
        invariant
            stream@.len() == 20,
            out@.len() == 20,
            forall|j: int| 0 <= j < i ==> out@[j] == stream@[j],
    {
        out[i] = stream[i];
    }
    assert(out@ =~= stream@);
    out
}

/// The session keys of one direction of protection: RTP's, or RTCP's.
pub struct SessionKeys {
    /// Key of the cipher.
    pub cipher: Seq<u8>,
    /// Salt of the counter blocks.
    pub salt: Seq<u8>,
    /// Key of the authentication tags.
    pub auth: Seq<u8>,
}

/// What a context is at one moment.
pub struct SrtpState {
    /// The keys of RTP.
    pub rtp: SessionKeys,
    /// The keys of RTCP.
    pub rtcp: SessionKeys,
    /// Rollover counter of what is received: how often the sequence number has
    /// wrapped.
    pub roc: u32,
    /// The highest sequence number received, which the rollover counter goes with.
    pub s_l: u16,
    /// Whether a packet has been received yet.
    pub initialized: bool,
    /// Rollover counter of what is sent.
    pub sent_roc: u32,
    /// The last sequence number sent.
    pub last_sent: Option<u16>,
    /// Index of the next RTCP packet to send.
    pub srtcp_index: u32,
}

/// The RTP keys of a master key and salt.
pub open spec fn rtp_keys(key: Seq<u8>, salt: Seq<u8>) -> SessionKeys {
    SessionKeys {
        cipher: derived(key, salt, 0, 16),
        salt: derived(key, salt, 2, 14),
        auth: derived(key, salt, 1, 20),
    }
}

/// The RTCP keys of a master key and salt.
pub open spec fn rtcp_keys(key: Seq<u8>, salt: Seq<u8>) -> SessionKeys {
    SessionKeys {
        cipher: derived(key, salt, 3, 16),
        salt: derived(key, salt, 5, 14),
        auth: derived(key, salt, 4, 20),
    }
}

/// A context before its first packet.
pub open spec fn fresh(key: Seq<u8>, salt: Seq<u8>) -> SrtpState {
    SrtpState {
        rtp: rtp_keys(key, salt),
        rtcp: rtcp_keys(key, salt),
        roc: 0,
        s_l: 0,
        initialized: false,
        sent_roc: 0,
        last_sent: None,
        srtcp_index: 0,
    }
}

/// SRTP cryptographic context for a single media session.
///
/// Maintains session keys, and for each direction the rollover counter for sequence
/// number tracking: what is sent and what is received have numbers of their own.
pub struct SrtpContext {
    session_key: [u8; 16],
    session_salt: [u8; 14],
    session_auth_key: [u8; 20],
    rtcp_session_key: [u8; 16],
    rtcp_session_salt: [u8; 14],
    rtcp_session_auth_key: [u8; 20],
    roc: u32,
    s_l: u16,
    initialized: bool,
    sent_roc: u32,
    last_sent: Option<u16>,
    srtcp_index: u32,
}

impl View for SrtpContext {
    type V = SrtpState;

    closed spec fn view(&self) -> SrtpState {
        SrtpState {
            rtp: SessionKeys {
                cipher: self.session_key@,
                salt: self.session_salt@,
                auth: self.session_auth_key@,
            },
            rtcp: SessionKeys {
                cipher: self.rtcp_session_key@,
                salt: self.rtcp_session_salt@,
                auth: self.rtcp_session_auth_key@,
            },
            roc: self.roc,
            s_l: self.s_l,
            initialized: self.initialized,
            sent_roc: self.sent_roc,
            last_sent: self.last_sent,
            srtcp_index: self.srtcp_index,
        }
    }
}

/// `head`, a number, then `tail`.
pub open spec fn counted(head: Seq<char>, n: nat, tail: Seq<char>) -> Seq<char> {
    head + text::decimal(n) + tail
}

/// `head`, a number, then `tail`.
fn count_message(head: &str, n: usize, tail: &str) -> (message: String)
    ensures
        message@ == counted(head@, n as nat, tail@),
{
    let mut message = head.to_string();
    text::push_decimal(&mut message, n as u64);
    message.append(tail);
    message
}

// ---- what protection does to a packet ----
/// Length of the RTP header of `packet`: the fixed part, the contributing sources
/// that it counts, and the header extension that it announces.
pub open spec fn rtp_header_len(packet: Seq<u8>) -> int {
    header::payload_start(packet)
}

/// Whether `packet` holds the RTP header that it announces, and `trailer` bytes
/// more.
pub open spec fn holds_rtp_header(packet: Seq<u8>, trailer: int) -> bool {
    &&& packet.len() >= 12 + trailer
    &&& header::has_extension(packet) ==> packet.len() >= header::csrc_end(packet) + 4 + trailer
    &&& packet.len() >= rtp_header_len(packet) + trailer
}

/// The length of the RTP header of `packet`, if it is there with `trailer` bytes
/// behind it.
fn find_payload(packet: &[u8], trailer: usize) -> (header_len: Option<usize>)
    requires
        12 + trailer <= packet@.len(),
    ensures
        match header_len {
            Some(n) => holds_rtp_header(packet@, trailer as int) && n == rtp_header_len(packet@),
            None => !holds_rtp_header(packet@, trailer as int),
        },
{
    let room: usize = packet.len() - trailer;
    let csrc_end: usize = 12 + (packet[0] % 16) as usize * 4;
    if packet[0] / 16 % 2 == 1 {
        if room < csrc_end + 4 {
            return None;
        }
        let ext_end: usize = csrc_end + 4 + bytes::read_be16(packet, csrc_end + 2) as usize * 4;
        if room < ext_end {
            None
        } else {
            Some(ext_end)
        }
    } else if room < csrc_end {
        None
    } else {
        Some(csrc_end)
    }
}

/// The counter block of an RTP packet: salt, source, and the packet's index.
pub open spec fn rtp_block(salt: Seq<u8>, ssrc: u32, roc: u32, seq: u16) -> Seq<u8> {
    salted(zeros(4) + bytes::be32(ssrc) + bytes::be32(roc) + bytes::be16(seq) + zeros(2), salt)
}

/// The counter block of an RTCP packet: salt, source, and the packet's index.
pub open spec fn rtcp_block(salt: Seq<u8>, ssrc: u32, index: u32) -> Seq<u8> {
    salted(zeros(4) + bytes::be32(ssrc) + zeros(2) + bytes::be32(index) + zeros(2), salt)
}

/// `packet` with what follows its header enciphered; the same again deciphers it.
pub open spec fn rtp_ciphered(keys: SessionKeys, roc: u32, packet: Seq<u8>) -> Seq<u8> {
    let header = rtp_header_len(packet);
    packet.take(header) + crypto::aes128_ctr(
        keys.cipher,
        rtp_block(keys.salt, bytes::be32_at(packet, 8), roc, bytes::be16_at(packet, 2)),
        packet.skip(header),
    )
}

/// The first ten bytes of the HMAC of `message`.
pub open spec fn auth_tag(key: Seq<u8>, message: Seq<u8>) -> Seq<u8> {
    Seq::new(10, |i: int| crypto::hmac_sha1(key, message)[i])
}

/// The tag of an RTP packet, which covers the rollover counter too.
pub open spec fn rtp_tag(keys: SessionKeys, roc: u32, body: Seq<u8>) -> Seq<u8> {
    auth_tag(keys.auth, body + bytes::be32(roc))
}

/// The SRTP packet for the RTP packet `packet`.
pub open spec fn rtp_protected(keys: SessionKeys, roc: u32, packet: Seq<u8>) -> Seq<u8> {
    let body = rtp_ciphered(keys, roc, packet);
    body + rtp_tag(keys, roc, body)
}

/// The part of a protected packet in front of its tag.
pub open spec fn untagged(packet: Seq<u8>) -> Seq<u8> {
    packet.take(packet.len() - 10)
}

/// The tag of a protected packet.
pub open spec fn tag_of(packet: Seq<u8>) -> Seq<u8> {
    packet.skip(packet.len() - 10)
}

/// Whether the tag of an SRTP packet is that of its contents.
pub open spec fn rtp_authentic(keys: SessionKeys, roc: u32, packet: Seq<u8>) -> bool {
    tag_of(packet) == rtp_tag(keys, roc, untagged(packet))
}

/// The rollover counter for the next packet to send: it counts the wraps of the
/// sequence number.
pub open spec fn sending_roc(state: SrtpState, seq: u16) -> u32 {
    if state.last_sent matches Some(last) && last - seq > 0x8000 {
        ((state.sent_roc + 1) % 0x1_0000_0000) as u32
    } else {
        state.sent_roc
    }
}

/// The state once the packet with sequence number `seq` has been sent.
pub open spec fn after_sending(state: SrtpState, seq: u16) -> SrtpState {
    SrtpState { sent_roc: sending_roc(state, seq), last_sent: Some(seq), ..state }
}

/// The rollover counter of a received packet: the one that puts its index
/// nearest to the highest index so far.
pub open spec fn receiving_roc(state: SrtpState, seq: u16) -> u32 {
    if !state.initialized {
        0
    } else if seq - state.s_l > 0x8000 {
        ((state.roc - 1) % 0x1_0000_0000) as u32
    } else if seq - state.s_l < -0x8000 {
        ((state.roc + 1) % 0x1_0000_0000) as u32
    } else {
        state.roc
    }
}

/// The state once the packet with sequence number `seq` has been accepted: a
/// packet with a higher index is the highest now, any other changes nothing.
pub open spec fn after_receiving(state: SrtpState, seq: u16) -> SrtpState {
    if !state.initialized {
        SrtpState { s_l: seq, initialized: true, ..state }
    } else if seq - state.s_l < -0x8000 || 0 < seq - state.s_l <= 0x8000 {
        SrtpState { roc: receiving_roc(state, seq), s_l: seq, ..state }
    } else {
        state
    }
}

/// An RTCP packet with what follows its first 8 bytes enciphered.
pub open spec fn rtcp_ciphered(keys: SessionKeys, index: u32, packet: Seq<u8>) -> Seq<u8> {
    packet.take(8) + crypto::aes128_ctr(
        keys.cipher,
        rtcp_block(keys.salt, bytes::be32_at(packet, 4), index),
        packet.skip(8),
    )
}

/// The word that goes with an enciphered packet: its index with the top bit set.
pub open spec fn marked_index(index: u32) -> u32 {
    if index < 0x8000_0000 {
        (index + 0x8000_0000) as u32
    } else {
        index
    }
}

/// The SRTCP packet for the RTCP packet `packet`: enciphered, its marked index,
/// and the tag.
pub open spec fn rtcp_protected(keys: SessionKeys, index: u32, packet: Seq<u8>) -> Seq<u8> {
    let body = rtcp_ciphered(keys, index, packet) + bytes::be32(marked_index(index));
    body + auth_tag(keys.auth, body)
}

/// The state once an RTCP packet has been sent: the index has 31 bits.
pub open spec fn after_sending_rtcp(state: SrtpState) -> SrtpState {
    SrtpState { srtcp_index: ((state.srtcp_index + 1) % 0x8000_0000) as u32, ..state }
}

/// Whether the tag of an SRTCP packet is that of its contents.
pub open spec fn rtcp_authentic(keys: SessionKeys, packet: Seq<u8>) -> bool {
    tag_of(packet) == auth_tag(keys.auth, untagged(packet))
}

/// The word behind the contents of an SRTCP packet: whether they are
/// enciphered (its top bit), and the index.
pub open spec fn rtcp_index_word(packet: Seq<u8>) -> u32 {
    bytes::be32_at(packet, packet.len() - 14)
}

/// The RTCP packet in an SRTCP packet.
pub open spec fn rtcp_unprotected(keys: SessionKeys, packet: Seq<u8>) -> Seq<u8> {
    let word = rtcp_index_word(packet);
    let contents = packet.take(packet.len() - 14);
    if word >= 0x8000_0000 {
        rtcp_ciphered(keys, (word - 0x8000_0000) as u32, contents)
    } else {
        contents
    }
}

/// Whether two byte strings are equal, looking at every byte whatever the
/// earlier ones were.
pub fn constant_time_eq(a: &[u8], b: &[u8]) -> (equal: bool)
    ensures
        equal == (a@ == b@),
{
    if a.len() != b.len() {
        return false;
    }
    let mut diff: u8 = 0;
    for i in 0..a.len()
        invariant
            a@.len() == b@.len(),
            diff == 0 <==> (forall|j: int| 0 <= j < i ==> a@[j] == b@[j]),
    {
        let x = a[i];
        let y = b[i];
        let ghost before = diff;
        diff = diff | (x ^ y);
        assert((before | (x ^ y)) == 0 <==> before == 0 && x == y) by (bit_vector);
    }
    assert(diff == 0 ==> a@ =~= b@);
    diff == 0
}

/// The counter block of an RTP packet.
fn build_iv(session_salt: &[u8; 14], ssrc: u32, roc: u32, seq: u16) -> (iv: [u8; 16])
    ensures
        iv@ == rtp_block(session_salt@, ssrc, roc, seq),
{
    let mut base: Vec<u8> = vec![0u8; 4];
    bytes::push_be32(&mut base, ssrc);
    bytes::push_be32(&mut base, roc);
    bytes::push_be16(&mut base, seq);
    base.push(0);
    base.push(0);
    assert(base@ =~= zeros(4) + bytes::be32(ssrc) + bytes::be32(roc) + bytes::be16(seq) + zeros(2));
    salt_block(base.as_slice(), session_salt.as_slice())
}

/// The counter block of an RTCP packet.
fn build_rtcp_iv(session_salt: &[u8; 14], ssrc: u32, index: u32) -> (iv: [u8; 16])
    ensures
        iv@ == rtcp_block(session_salt@, ssrc, index),
{
    let mut base: Vec<u8> = vec![0u8; 4];
    bytes::push_be32(&mut base, ssrc);
    base.push(0);
    base.push(0);
    bytes::push_be32(&mut base, index);
    base.push(0);
    base.push(0);
    assert(base@ =~= zeros(4) + bytes::be32(ssrc) + zeros(2) + bytes::be32(index) + zeros(2));
    salt_block(base.as_slice(), session_salt.as_slice())
}

/// The first ten bytes of the HMAC of `message`.
fn compute_tag(auth_key: &[u8; 20], message: &[u8]) -> (tag: [u8; 10])
    ensures
        tag@ == auth_tag(auth_key@, message@),
{
    let digest = crypto::compute_hmac_sha1(auth_key.as_slice(), message);
    let mut tag: [u8; 10] = [0u8; 10];
    for i in 0..10usize
        invariant
            tag@.len() == 10,
            digest@.len() == 20,
            forall|j: int| 0 <= j < i ==> tag@[j] == digest@[j],
    {
        tag[i] = digest[i];
    }
    assert(tag@ =~= auth_tag(auth_key@, message@));
    tag
}

/// The tag of an RTP packet.
fn compute_rtp_auth_tag(auth_key: &[u8; 20], body: &[u8], roc: u32) -> (tag: [u8; 10])
    ensures
        tag@ == auth_tag(auth_key@, body@ + bytes::be32(roc)),
{
    let mut message = bytes::copy_range(body, 0, body.len());
    assert(message@ =~= body@);
    bytes::push_be32(&mut message, roc);
    compute_tag(auth_key, message.as_slice())
}

impl SrtpContext {
    /// Creates a context from a master key and a master salt.
    ///
    /// The master key must have 16 bytes and the master salt 14
    /// (`AES_CM_128_HMAC_SHA1_80`).
    pub fn new(master_key: &[u8], master_salt: &[u8]) -> (result: Result<Self, Error>)
        ensures
            match result {
                Ok(context) => {
                    &&& master_key@.len() == MASTER_KEY_LEN
                    &&& master_salt@.len() == MASTER_SALT_LEN
                    &&& context@ == fresh(master_key@, master_salt@)
                },
                Err(e) => e matches Error::Srtp(m) && if master_key@.len() != MASTER_KEY_LEN {
                    m@ == counted("master key must be 16 bytes, got "@, master_key@.len(), ""@)
                } else {
                    &&& master_salt@.len() != MASTER_SALT_LEN
                    &&& m@ == counted(
                        "master salt must be 14 bytes, got "@,
                        master_salt@.len(),
                        ""@,
                    )
                },
            },
    {
        if master_key.len() != MASTER_KEY_LEN {
            return Err(
                Error::Srtp(count_message("master key must be 16 bytes, got ", master_key.len(), "")),
            );
        }
        if master_salt.len() != MASTER_SALT_LEN {
            return Err(
                Error::Srtp(
                    count_message("master salt must be 14 bytes, got ", master_salt.len(), ""),
                ),
            );
        }
        let mut key: [u8; 16] = [0u8; 16];
        for i in 0..16usize
            invariant
                master_key@.len() == 16,
                key@.len() == 16,
                forall|j: int| 0 <= j < i ==> key@[j] == master_key@[j],
        {
            key[i] = master_key[i];
        }
        assert(key@ =~= master_key@);
        let context = SrtpContext {
            session_key: derive_session_key(&key, master_salt, LABEL_RTP_CIPHER),
            session_salt: derive_session_salt(&key, master_salt, LABEL_RTP_SALT),
            session_auth_key: derive_session_auth_key(&key, master_salt, LABEL_RTP_AUTH),
            rtcp_session_key: derive_session_key(&key, master_salt, LABEL_RTCP_CIPHER),
            rtcp_session_salt: derive_session_salt(&key, master_salt, LABEL_RTCP_SALT),
            rtcp_session_auth_key: derive_session_auth_key(&key, master_salt, LABEL_RTCP_AUTH),
            roc: 0,
            s_l: 0,
            initialized: false,
            sent_roc: 0,
            last_sent: None,
            srtcp_index: 0,
        };
        Ok(context)
    }

    /// Encrypts and authenticates an RTP packet.
    pub fn protect_rtp(&mut self, rtp_packet: &[u8]) -> (result: Result<Vec<u8>, Error>)
        ensures
            match result {
                Ok(out) => {
                    let seq = bytes::be16_at(rtp_packet@, 2);
                    &&& holds_rtp_header(rtp_packet@, 0)
                    &&& final(self)@ == after_sending(old(self)@, seq)
                    &&& out@ == rtp_protected(old(self)@.rtp, final(self)@.sent_roc, rtp_packet@)
                    &&& out@.take(rtp_header_len(rtp_packet@)) == rtp_packet@.take(
                        rtp_header_len(rtp_packet@),
                    )
                },
                Err(e) => {
                    &&& !holds_rtp_header(rtp_packet@, 0)
                    &&& final(self)@ == old(self)@
                    &&& e matches Error::Rtp(m) && m@ == if rtp_packet@.len() < 12 {
                        "RTP packet too short"@
                    } else {
                        "RTP packet truncated"@
                    }
                },
            },
    {
        if rtp_packet.len() < 12 {
            return Err(Error::rtp("RTP packet too short"));
        }
        let header_len: usize = match find_payload(rtp_packet, 0) {
            Some(n) => n,
            None => {
                return Err(Error::rtp("RTP packet truncated"));
            },
        };
        let seq = bytes::read_be16(rtp_packet, 2);
        let ssrc = bytes::read_be32(rtp_packet, 8);
        match self.last_sent {
            Some(last) => {
                if last > seq && last - seq > 0x8000 {
                    self.sent_roc = self.sent_roc.wrapping_add(1);
                }
            },
            None => {},
        }
        self.last_sent = Some(seq);
        let iv = build_iv(&self.session_salt, ssrc, self.sent_roc, seq);
        let mut output = bytes::copy_range(rtp_packet, 0, header_len);
        let payload = bytes::copy_range(rtp_packet, header_len, rtp_packet.len());
        let ciphered = crypto::ctr_transform(&self.session_key, &iv, payload.as_slice());
        bytes::append_bytes(&mut output, ciphered.as_slice());
        assert(rtp_packet@.take(header_len as int) =~= rtp_packet@.subrange(0, header_len as int));
        assert(rtp_packet@.skip(header_len as int) =~= payload@);
        let tag = compute_rtp_auth_tag(&self.session_auth_key, output.as_slice(), self.sent_roc);
        bytes::append_bytes(&mut output, tag.as_slice());
        Ok(output)
    }

    /// The rollover counter of a received packet.
    fn estimate_roc(&self, seq: u16) -> (roc: u32)
        ensures
            roc == receiving_roc(self@, seq),
    {
        if !self.initialized {
            return 0;
        }
        let diff: i32 = seq as i32 - self.s_l as i32;
        if diff > 0x8000 {
            self.roc.wrapping_sub(1)
        } else if diff < -0x8000 {
            self.roc.wrapping_add(1)
        } else {
            self.roc
        }
    }

    /// Moves the rollover counter on once a packet has been authenticated.
    fn update_roc(&mut self, seq: u16)
        ensures
            final(self)@ == after_receiving(old(self)@, seq),
    {
        if !self.initialized {
            self.s_l = seq;
            self.initialized = true;
            return;
        }
        let diff: i32 = seq as i32 - self.s_l as i32;
        if diff < -0x8000 || (0 < diff && diff <= 0x8000) {
            self.roc = self.estimate_roc(seq);
            self.s_l = seq;
        }
    }

    /// Verifies and decrypts an SRTP packet.
    pub fn unprotect_rtp(&mut self, srtp_packet: &[u8]) -> (result: Result<Vec<u8>, Error>)
        ensures
            ({
                let seq = bytes::be16_at(srtp_packet@, 2);
                let roc = receiving_roc(old(self)@, seq);
                match result {
                    Ok(out) => {
                        &&& holds_rtp_header(srtp_packet@, 10)
                        &&& rtp_authentic(old(self)@.rtp, roc, srtp_packet@)
                        &&& out@ == rtp_ciphered(old(self)@.rtp, roc, untagged(srtp_packet@))
                        &&& out@.take(rtp_header_len(srtp_packet@)) == srtp_packet@.take(
                            rtp_header_len(srtp_packet@),
                        )
                        &&& final(self)@ == after_receiving(old(self)@, seq)
                    },
                    Err(e) => {
                        &&& final(self)@ == old(self)@
                        &&& e matches Error::Srtp(m) && if srtp_packet@.len() < 22 {
                            m@ == "SRTP packet too short"@
                        } else if !holds_rtp_header(srtp_packet@, 10) {
                            m@ == "SRTP packet truncated"@
                        } else {
                            &&& !rtp_authentic(old(self)@.rtp, roc, srtp_packet@)
                            &&& m@ == "SRTP authentication failed"@
                        }
                    },
                }
            }),
    {
        if srtp_packet.len() < 12 + AUTH_TAG_LEN {
            return Err(Error::srtp("SRTP packet too short"));
        }
        let header_len: usize = match find_payload(srtp_packet, AUTH_TAG_LEN) {
            Some(n) => n,
            None => {
                return Err(Error::srtp("SRTP packet truncated"));
            },
        };
        let seq = bytes::read_be16(srtp_packet, 2);
        let ssrc = bytes::read_be32(srtp_packet, 8);
        let estimated_roc = self.estimate_roc(seq);
        let boundary: usize = srtp_packet.len() - AUTH_TAG_LEN;
        let body = bytes::copy_range(srtp_packet, 0, boundary);
        let received_tag = bytes::copy_range(srtp_packet, boundary, srtp_packet.len());
        assert(body@ =~= untagged(srtp_packet@));
        assert(received_tag@ =~= tag_of(srtp_packet@));
        let computed_tag = compute_rtp_auth_tag(
            &self.session_auth_key,
            body.as_slice(),
            estimated_roc,
        );
        if !constant_time_eq(computed_tag.as_slice(), received_tag.as_slice()) {
            return Err(Error::srtp("SRTP authentication failed"));
        }
        self.update_roc(seq);
        let iv = build_iv(&self.session_salt, ssrc, estimated_roc, seq);
        let mut output = bytes::copy_range(body.as_slice(), 0, header_len);
        let payload = bytes::copy_range(body.as_slice(), header_len, boundary);
        let plain = crypto::ctr_transform(&self.session_key, &iv, payload.as_slice());
        bytes::append_bytes(&mut output, plain.as_slice());
        assert(body@.take(header_len as int) =~= body@.subrange(0, header_len as int));
        assert(body@.skip(header_len as int) =~= payload@);
        Ok(output)
    }

    /// Encrypts and authenticates an RTCP packet.
    pub fn protect_rtcp(&mut self, rtcp_packet: &[u8]) -> (result: Result<Vec<u8>, Error>)
        ensures
            match result {
                Ok(out) => {
                    &&& rtcp_packet@.len() >= 8
                    &&& final(self)@ == after_sending_rtcp(old(self)@)
                    &&& out@ == rtcp_protected(
                        old(self)@.rtcp,
                        old(self)@.srtcp_index,
                        rtcp_packet@,
                    )
                },
                Err(e) => {
                    &&& rtcp_packet@.len() < 8
                    &&& final(self)@ == old(self)@
                    &&& e matches Error::Rtcp(m) && m@ == "RTCP packet too short"@
                },
            },
    {
        if rtcp_packet.len() < 8 {
            return Err(Error::rtcp("RTCP packet too short"));
        }
        let ssrc = bytes::read_be32(rtcp_packet, 4);
        let index = self.srtcp_index;
        let next: u32 = index.wrapping_add(1);
        self.srtcp_index = next & 0x7FFF_FFFF;
        assert(next & 0x7FFF_FFFF == next % 0x8000_0000) by (bit_vector);
        let iv = build_rtcp_iv(&self.rtcp_session_salt, ssrc, index);
        let mut output = bytes::copy_range(rtcp_packet, 0, 8);
        let contents = bytes::copy_range(rtcp_packet, 8, rtcp_packet.len());
        let ciphered = crypto::ctr_transform(&self.rtcp_session_key, &iv, contents.as_slice());
        bytes::append_bytes(&mut output, ciphered.as_slice());
        assert(rtcp_packet@.take(8) =~= rtcp_packet@.subrange(0, 8));
        assert(rtcp_packet@.skip(8) =~= contents@);
        let e_index: u32 = index | 0x8000_0000;
        assert(index | 0x8000_0000 == if index < 0x8000_0000 {
            (index + 0x8000_0000) as u32
        } else {
            index
        }) by (bit_vector);
        bytes::push_be32(&mut output, e_index);
        let tag = compute_tag(&self.rtcp_session_auth_key, output.as_slice());
        bytes::append_bytes(&mut output, tag.as_slice());
        Ok(output)
    }

    /// Verifies and decrypts an SRTCP packet.
    pub fn unprotect_rtcp(&mut self, srtcp_packet: &[u8]) -> (result: Result<Vec<u8>, Error>)
        ensures
            final(self)@ == old(self)@,
            match result {
                Ok(out) => {
                    &&& srtcp_packet@.len() >= 22
                    &&& rtcp_authentic(old(self)@.rtcp, srtcp_packet@)
                    &&& out@ == rtcp_unprotected(old(self)@.rtcp, srtcp_packet@)
                },
                Err(e) => e matches Error::Srtp(m) && if srtcp_packet@.len() < 22 {
                    m@ == "SRTCP packet too short"@
                } else {
                    &&& !rtcp_authentic(old(self)@.rtcp, srtcp_packet@)
                    &&& m@ == "SRTCP authentication failed"@
                },
            },
    {
        if srtcp_packet.len() < 8 + 4 + AUTH_TAG_LEN {
            return Err(Error::srtp("SRTCP packet too short"));
        }
        let boundary: usize = srtcp_packet.len() - AUTH_TAG_LEN;
        let body = bytes::copy_range(srtcp_packet, 0, boundary);
        let received_tag = bytes::copy_range(srtcp_packet, boundary, srtcp_packet.len());
        assert(body@ =~= untagged(srtcp_packet@));
        assert(received_tag@ =~= tag_of(srtcp_packet@));
        let computed_tag = compute_tag(&self.rtcp_session_auth_key, body.as_slice());
        if !constant_time_eq(computed_tag.as_slice(), received_tag.as_slice()) {
            return Err(Error::srtp("SRTCP authentication failed"));
        }
        let index_offset: usize = boundary - 4;
        let e_index = bytes::read_be32(srtcp_packet, index_offset);
        let contents = bytes::copy_range(srtcp_packet, 0, index_offset);
        assert(contents@ =~= srtcp_packet@.take(srtcp_packet@.len() - 14));
        let encrypted: bool = (e_index & 0x8000_0000) != 0;
        let index: u32 = e_index & 0x7FFF_FFFF;
        assert((e_index & 0x8000_0000) != 0 <==> e_index >= 0x8000_0000) by (bit_vector);
        assert(e_index & 0x7FFF_FFFF == e_index % 0x8000_0000) by (bit_vector);
        if !encrypted {
            return Ok(contents);
        }
        let ssrc = bytes::read_be32(contents.as_slice(), 4);
        let iv = build_rtcp_iv(&self.rtcp_session_salt, ssrc, index);
        let mut output = bytes::copy_range(contents.as_slice(), 0, 8);
        let ciphered = bytes::copy_range(contents.as_slice(), 8, index_offset);
        let plain = crypto::ctr_transform(&self.rtcp_session_key, &iv, ciphered.as_slice());
        bytes::append_bytes(&mut output, plain.as_slice());
        assert(contents@.take(8) =~= contents@.subrange(0, 8));
        assert(contents@.skip(8) =~= ciphered@);
        Ok(output)
    }

    /// Creates a context from decoded keying material: the master key, then the
    /// master salt. What follows them is not used.
    pub fn from_keying_material(material: &[u8]) -> (result: Result<Self, Error>)
        ensures
            match result {
                Ok(context) => {
                    &&& material@.len() >= KEYING_MATERIAL_LEN
                    &&& context@ == fresh(material@.subrange(0, 16), material@.subrange(16, 30))
                },
                Err(e) => {
                    &&& material@.len() < KEYING_MATERIAL_LEN
                    &&& e matches Error::Srtp(m) && m@ == counted(
                        "keying material too short: "@,
                        material@.len(),
                        " bytes, need 30"@,
                    )
                },
            },
    {
        if material.len() < KEYING_MATERIAL_LEN {
            return Err(
                Error::Srtp(
                    count_message("keying material too short: ", material.len(), " bytes, need 30"),
                ),
            );
        }
        let key = bytes::copy_range(material, 0, MASTER_KEY_LEN);
        let salt = bytes::copy_range(material, MASTER_KEY_LEN, KEYING_MATERIAL_LEN);
        Self::new(key.as_slice(), salt.as_slice())
    }

    /// Creates a context from base64 keying material, as SDP's `a=crypto` holds it.
    pub fn from_base64(b64_key_material: &str) -> (result: Result<Self, Error>)
        ensures
            match crypto::base64_decoded(text::trimmed(b64_key_material@)) {
                Ok(material) => match result {
                    Ok(context) => {
                        &&& material.len() >= KEYING_MATERIAL_LEN
                        &&& context@ == fresh(material.subrange(0, 16), material.subrange(16, 30))
                    },
                    Err(e) => {
                        &&& material.len() < KEYING_MATERIAL_LEN
                        &&& e matches Error::Srtp(m) && m@ == counted(
                            "keying material too short: "@,
                            material.len(),
                            " bytes, need 30"@,
                        )
                    },
                },
                Err(description) => result matches Err(Error::Srtp(m)) && m@
                    == "base64 decode error: "@ + description,
            },
    {
        let chars = text::chars_of(b64_key_material);
        let trimmed = text::text_of(text::trim(chars.as_slice()).as_slice());
        match crypto::decode_base64(trimmed.as_str()) {
            Ok(decoded) => Self::from_keying_material(decoded.as_slice()),
            Err(description) => {
                let mut message = "base64 decode error: ".to_string();
                message.append(description.as_str());
                Err(Error::Srtp(message))
            },
        }
    }

    /// The context of `material`, and the base64 that hands it to the peer.
    pub fn from_random(material: &[u8; 30]) -> (result: Result<(Self, String), Error>)
        ensures
            result matches Ok((context, b64)) && generated(context@, b64@, material@),
    {
        let b64 = crypto::encode_base64(material.as_slice());
        match Self::from_keying_material(material.as_slice()) {
            Ok(context) => Ok((context, b64)),
            Err(e) => Err(e),
        }
    }

    /// Generates random keying material; returns the context and the base64 that
    /// hands the material to the peer.
    pub fn generate() -> (result: Result<(Self, String), Error>)
        ensures
            result matches Ok((context, b64)) && exists|material: Seq<u8>| #[trigger]
                generated(context@, b64@, material),
    {
        let material = crypto::random_bytes::<30>();
        Self::from_random(&material)
    }

    /// The rollover counter: that of what is received or, as long as nothing has
    /// been, that of what is sent.
    pub fn roc(&self) -> (roc: u32)
        ensures
            roc == position(self@).0,
    {
        if self.initialized {
            self.roc
        } else {
            self.sent_roc
        }
    }

    /// What a log may show of the context: everything but the keys.
    pub fn debug_text(&self) -> (shown: String)
        ensures
            shown@ == "SrtpContext { initialized: "@ + (if self@.initialized
                || self@.last_sent is Some {
                "true"@
            } else {
                "false"@
            }) + ", roc: "@ + text::decimal(position(self@).0 as nat) + ", s_l: "@ + text::decimal(
                position(self@).1 as nat,
            ) + " }"@,
    {
        let mut shown = "SrtpContext { initialized: ".to_string();
        if self.initialized || self.last_sent.is_some() {
            shown.append("true");
        } else {
            shown.append("false");
        }
        shown.append(", roc: ");
        text::push_decimal(&mut shown, self.roc() as u64);
        shown.append(", s_l: ");
        let s_l: u16 = if self.initialized {
            self.s_l
        } else {
            match self.last_sent {
                Some(last) => last,
                None => 0,
            }
        };
        text::push_decimal(&mut shown, s_l as u64);
        shown.append(" }");
        shown
    }
}

/// The rollover counter and sequence number that a context shows: of what is
/// received or, as long as nothing has been, of what is sent.
pub open spec fn position(state: SrtpState) -> (u32, u16) {
    if state.initialized {
        (state.roc, state.s_l)
    } else {
        match state.last_sent {
            Some(last) => (state.sent_roc, last),
            None => (state.sent_roc, 0),
        }
    }
}

/// A new context, the keying material behind it, and the material's base64.
pub open spec fn generated(state: SrtpState, b64: Seq<char>, material: Seq<u8>) -> bool {
    &&& material.len() == KEYING_MATERIAL_LEN
    &&& state == fresh(material.subrange(0, 16), material.subrange(16, 30))
    &&& b64 == crypto::base64_encoded(material)
    &&& crypto::decodes_to(b64, material)
    &&& forall|i: int| 0 <= i < b64.len() ==> crypto::base64_char(#[trigger] b64[i])
}

// ---- SDP ----
/// The key material in a line of SDP: that of an `a=crypto` attribute for the
/// supported suite, up to the lifetime or master key index behind it.
pub open spec fn crypto_key(line: Seq<char>) -> Option<Seq<char>> {
    let rest = line.skip("a=crypto:"@.len() as int);
    let first = text::index_from(rest, ' ', 0);
    let second = text::index_from(rest, ' ', first + 1);
    let key = second + 1 + "inline:"@.len();
    if text::has_at(line, 0, "a=crypto:"@) && first < rest.len() && second < rest.len()
        && rest.subrange(first + 1, second) == "AES_CM_128_HMAC_SHA1_80"@ && text::has_at(
        rest,
        second + 1,
        "inline:"@,
    ) {
        Some(rest.subrange(key, text::index_from(rest, '|', key)))
    } else {
        None
    }
}

/// The key material of the first line that has any.
pub open spec fn first_crypto_key(lines: Seq<Seq<char>>) -> Option<Seq<char>>
    decreases lines.len(),
{
    if lines.len() == 0 {
        None
    } else {
        match crypto_key(text::trimmed(lines[0])) {
            Some(key) => Some(key),
            None => first_crypto_key(lines.skip(1)),
        }
    }
}

/// The key material in one line of SDP.
fn parse_crypto_line(line: &[char]) -> (key: Option<Vec<char>>)
    ensures
        match key {
            Some(k) => crypto_key(line@) == Some(k@),
            None => crypto_key(line@) is None,
        },
{
    let prefix = text::chars_of("a=crypto:");
    if !text::continues_with(line, 0, prefix.as_slice()) {
        return None;
    }
    let rest = text::copy_chars(line, prefix.len(), line.len());
    assert(rest@ =~= line@.skip("a=crypto:"@.len() as int));
    let first = text::find_char(rest.as_slice(), ' ', 0);
    if first >= rest.len() {
        return None;
    }
    let second = text::find_char(rest.as_slice(), ' ', first + 1);
    if second >= rest.len() {
        return None;
    }
    let suite = text::copy_chars(rest.as_slice(), first + 1, second);
    if !text::same_chars(suite.as_slice(), text::chars_of("AES_CM_128_HMAC_SHA1_80").as_slice()) {
        return None;
    }
    let method = text::chars_of("inline:");
    if !text::continues_with(rest.as_slice(), second + 1, method.as_slice()) {
        return None;
    }
    let begin: usize = second + 1 + method.len();
    let end = text::find_char(rest.as_slice(), '|', begin);
    Some(text::copy_chars(rest.as_slice(), begin, end))
}

/// Parses an `a=crypto` attribute from SDP.
pub fn parse_sdp_crypto(sdp: &str) -> (key: Option<String>)
    ensures
        match key {
            Some(k) => first_crypto_key(text::lines(sdp@)) == Some(k@),
            None => first_crypto_key(text::lines(sdp@)) is None,
        },
{
    let chars = text::chars_of(sdp);
    let lines = text::split_lines(chars.as_slice());
    let ghost all = text::lines(sdp@);
    assert(all.skip(0) =~= all);
    for i in 0..lines.len()
        invariant
            text::views(lines@) == all,
            all == text::lines(sdp@),
            first_crypto_key(all) == first_crypto_key(all.skip(i as int)),
    {
        assert(all.skip(i as int)[0] == lines@[i as int]@);
        assert(all.skip(i as int).skip(1) =~= all.skip(i + 1));
        let line = text::trim(lines[i].as_slice());
        match parse_crypto_line(line.as_slice()) {
            Some(key) => {
                return Some(text::text_of(key.as_slice()));
            },
            None => {},
        }
    }
    None
}

/// Builds the `a=crypto` SDP attribute line.
pub fn build_sdp_crypto_line(b64_key: &str) -> (line: String)
    ensures
        line@ == "a=crypto:1 AES_CM_128_HMAC_SHA1_80 inline:"@ + b64_key@ + "\r\n"@,
{
    let mut line = "a=crypto:1 AES_CM_128_HMAC_SHA1_80 inline:".to_string();
    line.append(b64_key);
    line.append("\r\n");
    line
}

} // verus!
