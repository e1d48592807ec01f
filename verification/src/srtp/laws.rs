//! What holds of SRTP as a whole: a packet that one side protects, the other
//! side gets back, over the whole life of a stream; nothing else is accepted.

use vstd::prelude::*;

use super::{SessionKeys, SrtpState};
use crate::bytes;
use crate::crypto;
use crate::text;

verus! {

/// Enciphering keeps the header of a packet, and twice keeps the packet.
proof fn lemma_ciphered_twice(keys: SessionKeys, roc: u32, packet: Seq<u8>)
    requires
        super::holds_rtp_header(packet, 0),
    ensures
        ({
            let body = super::rtp_ciphered(keys, roc, packet);
            &&& body.len() == packet.len()
            &&& super::rtp_header_len(body) == super::rtp_header_len(packet)
            &&& forall|i: int|
                0 <= i < super::rtp_header_len(packet) ==> #[trigger] body[i] == packet[i]
            &&& super::rtp_ciphered(keys, roc, body) == packet
        }),
{
    let header = super::rtp_header_len(packet);
    let ssrc = bytes::be32_at(packet, 8);
    let seq = bytes::be16_at(packet, 2);
    let block = super::rtp_block(keys.salt, ssrc, roc, seq);
    let body = super::rtp_ciphered(keys, roc, packet);
    assert(forall|i: int| 0 <= i < header ==> body[i] == packet[i]);
    assert(body.take(header) =~= packet.take(header));
    assert(body.skip(header) =~= crypto::aes128_ctr(keys.cipher, block, packet.skip(header)));
    crypto::law_aes128_ctr_undoes_itself(keys.cipher, block, packet.skip(header));
    assert(super::rtp_header_len(body) == header);
    assert(bytes::be32_at(body, 8) == ssrc);
    assert(bytes::be16_at(body, 2) == seq);
    assert(super::rtp_ciphered(keys, roc, body) == body.take(header) + crypto::aes128_ctr(
        keys.cipher,
        block,
        body.skip(header),
    ));
    assert(packet.take(header) + packet.skip(header) =~= packet);
}

/// A body and its tag come apart again.
proof fn lemma_tagged(body: Seq<u8>, tag: Seq<u8>)
    requires
        tag.len() == 10,
    ensures
        super::untagged(body + tag) == body,
        super::tag_of(body + tag) == tag,
        forall|i: int| 0 <= i < body.len() ==> #[trigger] (body + tag)[i] == body[i],
{
    assert(super::untagged(body + tag) =~= body);
    assert(super::tag_of(body + tag) =~= tag);
}

/// Unprotecting what protection made gives the packet back: for every packet
/// that can be protected, under the same keys and rollover counter, the
/// protected packet is ten bytes longer, keeps the whole header in the clear, its
/// extension too, is accepted as authentic and deciphers to the packet.
pub proof fn law_rtp_round_trip(keys: SessionKeys, roc: u32, packet: Seq<u8>)
    requires
        super::holds_rtp_header(packet, 0),
    ensures
        super::rtp_protected(keys, roc, packet).len() == packet.len() + 10,
        super::holds_rtp_header(super::rtp_protected(keys, roc, packet), 10),
        super::rtp_protected(keys, roc, packet).take(super::rtp_header_len(packet)) == packet.take(
            super::rtp_header_len(packet),
        ),
        super::rtp_authentic(keys, roc, super::rtp_protected(keys, roc, packet)),
        super::rtp_ciphered(keys, roc, super::untagged(super::rtp_protected(keys, roc, packet)))
            == packet,
        bytes::be16_at(super::rtp_protected(keys, roc, packet), 2) == bytes::be16_at(packet, 2),
{
    lemma_ciphered_twice(keys, roc, packet);
    let body = super::rtp_ciphered(keys, roc, packet);
    lemma_tagged(body, super::rtp_tag(keys, roc, body));
    let out = super::rtp_protected(keys, roc, packet);
    assert(out[0] == packet[0] && out[2] == packet[2] && out[3] == packet[3]);
    assert(super::rtp_header_len(out) == super::rtp_header_len(packet));
    assert(out.take(super::rtp_header_len(packet)) =~= packet.take(super::rtp_header_len(packet)));
}

/// Unprotecting an RTCP packet gives back what was protected, whatever packets
/// came before, for every index that a context can have.
pub proof fn law_rtcp_round_trip(keys: SessionKeys, index: u32, packet: Seq<u8>)
    requires
        packet.len() >= 8,
        index < 0x8000_0000,
    ensures
        super::rtcp_protected(keys, index, packet).len() == packet.len() + 14,
        super::rtcp_authentic(keys, super::rtcp_protected(keys, index, packet)),
        super::rtcp_unprotected(keys, super::rtcp_protected(keys, index, packet)) == packet,
{
    let block = super::rtcp_block(keys.salt, bytes::be32_at(packet, 4), index);
    let ciphered = super::rtcp_ciphered(keys, index, packet);
    let word = super::marked_index(index);
    let body = ciphered + bytes::be32(word);
    let out = super::rtcp_protected(keys, index, packet);
    let n = out.len() - 14;
    assert(super::untagged(out) =~= body);
    assert(super::tag_of(out) =~= super::auth_tag(keys.auth, body));
    assert(out.subrange(n, n + 4) =~= bytes::be32(word));
    bytes::law_be32_round_trip(word, out, n);
    assert(out.take(n) =~= ciphered);
    assert(forall|i: int| 0 <= i < 8 ==> ciphered[i] == packet[i]);
    assert(ciphered.take(8) =~= packet.take(8));
    assert(ciphered.skip(8) =~= crypto::aes128_ctr(keys.cipher, block, packet.skip(8)));
    crypto::law_aes128_ctr_undoes_itself(keys.cipher, block, packet.skip(8));
    assert(super::rtcp_ciphered(keys, index, ciphered) =~= packet);
}

/// A packet whose contents are those of an authentic packet but whose tag is
/// another is not authentic.
pub proof fn law_changed_tag_is_refused(
    keys: SessionKeys,
    roc: u32,
    packet: Seq<u8>,
    changed: Seq<u8>,
)
    requires
        packet.len() >= 10,
        changed.len() == packet.len(),
        super::rtp_authentic(keys, roc, packet),
        super::untagged(changed) == super::untagged(packet),
        changed != packet,
    ensures
        !super::rtp_authentic(keys, roc, changed),
{
    if super::rtp_authentic(keys, roc, changed) {
        assert(packet =~= super::untagged(packet) + super::tag_of(packet));
        assert(changed =~= super::untagged(changed) + super::tag_of(changed));
    }
}

/// The index of a packet: rollover counter and sequence number as one number.
pub open spec fn packet_index(roc: u32, seq: u16) -> int {
    roc * 0x1_0000 + seq
}

/// A receiver gives a packet its own rollover counter wherever the packet's
/// index is less than half the sequence space away from the highest index
/// accepted, ahead (packets were lost) or behind (packets were overtaken).
pub proof fn law_nearby_packets_keep_their_roc(state: SrtpState, roc: u32, seq: u16)
    requires
        state.initialized,
        -0x8000 < packet_index(roc, seq) - packet_index(state.roc, state.s_l) < 0x8000,
    ensures
        super::receiving_roc(state, seq) == roc,
{
}

/// Accepting a packet that is less than half the sequence space away leaves the
/// receiver at the higher of the packet's index and its own: a packet that was
/// overtaken, from before the wrap too, never takes it back.
pub proof fn law_receiver_keeps_the_highest_index(state: SrtpState, roc: u32, seq: u16)
    requires
        state.initialized,
        -0x8000 < packet_index(roc, seq) - packet_index(state.roc, state.s_l) < 0x8000,
    ensures
        ({
            let own = packet_index(state.roc, state.s_l);
            let next = super::after_receiving(state, seq);
            &&& packet_index(roc, seq) > own ==> packet_index(next.roc, next.s_l) == packet_index(
                roc,
                seq,
            )
            &&& packet_index(roc, seq) <= own ==> next == state
        }),
{
}

/// The state once packets with the given rollover counters and sequence numbers
/// have been accepted.
pub open spec fn after_accepting(state: SrtpState, accepted: Seq<(u32, u16)>) -> SrtpState
    decreases accepted.len(),
{
    if accepted.len() == 0 {
        state
    } else {
        super::after_receiving(
            after_accepting(state, accepted.drop_last()),
            accepted.last().1,
        )
    }
}

/// The highest of `first` and the indices of `accepted`.
pub open spec fn highest_index(first: int, accepted: Seq<(u32, u16)>) -> int
    decreases accepted.len(),
{
    if accepted.len() == 0 {
        first
    } else {
        let before = highest_index(first, accepted.drop_last());
        let last = packet_index(accepted.last().0, accepted.last().1);
        if last > before {
            last
        } else {
            before
        }
    }
}

/// Whether each of `accepted` came less than half the sequence space away from the
/// highest index before it.
pub open spec fn each_nearby(first: int, accepted: Seq<(u32, u16)>) -> bool
    decreases accepted.len(),
{
    accepted.len() > 0 ==> {
        let last = packet_index(accepted.last().0, accepted.last().1);
        &&& each_nearby(first, accepted.drop_last())
        &&& -0x8000 < last - highest_index(first, accepted.drop_last()) < 0x8000
    }
}

/// In whatever order packets arrive, lost or overtaken by less than half the
/// sequence space, the receiver is at the highest index accepted, and gives the
/// next packet near that index its own rollover counter.
pub proof fn law_order_of_arrival_does_not_matter(
    state: SrtpState,
    accepted: Seq<(u32, u16)>,
    roc: u32,
    seq: u16,
)
    requires
        state.initialized,
        each_nearby(packet_index(state.roc, state.s_l), accepted),
        ({
            let highest = highest_index(packet_index(state.roc, state.s_l), accepted);
            -0x8000 < packet_index(roc, seq) - highest < 0x8000
        }),
    ensures
        ({
            let now = after_accepting(state, accepted);
            &&& now.initialized
            &&& packet_index(now.roc, now.s_l) == highest_index(
                packet_index(state.roc, state.s_l),
                accepted,
            )
            &&& super::receiving_roc(now, seq) == roc
        }),
    decreases accepted.len(),
{
    if accepted.len() > 0 {
        let last = accepted.last();
        let before = accepted.drop_last();
        law_order_of_arrival_does_not_matter(state, before, last.0, last.1);
        law_receiver_keeps_the_highest_index(after_accepting(state, before), last.0, last.1);
    }
    law_nearby_packets_keep_their_roc(after_accepting(state, accepted), roc, seq);
}

/// Whether the receiver has what it needs to follow the sender: the keys, and the
/// index of the last packet. What goes the other way has no part in it.
pub open spec fn in_step(sender: SrtpState, receiver: SrtpState) -> bool {
    &&& sender.rtp == receiver.rtp
    &&& receiver.initialized == sender.last_sent is Some
    &&& sender.last_sent matches Some(last) ==> last == receiver.s_l
    &&& sender.sent_roc == receiver.roc
    &&& sender.last_sent is None ==> sender.sent_roc == 0
}

/// Whether a sender that goes forward may send sequence number `seq` now: one less
/// than half the sequence space behind the last, or any for the first packet.
pub open spec fn is_next(state: SrtpState, seq: u16) -> bool {
    state.last_sent matches Some(last) ==> 0 < (seq - last) % 0x1_0000 < 0x8000
}

/// The receiver follows the sender from packet to packet, across the wrap of the
/// sequence number: it takes the sender's rollover counter for the next packet,
/// and is in step again once that has arrived.
pub proof fn law_receiver_stays_in_step(sender: SrtpState, receiver: SrtpState, seq: u16)
    requires
        in_step(sender, receiver),
        is_next(sender, seq),
    ensures
        super::receiving_roc(receiver, seq) == super::sending_roc(sender, seq),
        in_step(super::after_sending(sender, seq), super::after_receiving(receiver, seq)),
{
}

/// What a context sends does not touch what it receives, nor the other way round:
/// one context serves both directions.
pub proof fn law_directions_are_independent(
    context: SrtpState,
    peer: SrtpState,
    sent: u16,
    received: u16,
)
    ensures
        super::receiving_roc(super::after_sending(context, sent), received)
            == super::receiving_roc(context, received),
        super::sending_roc(super::after_receiving(context, received), sent) == super::sending_roc(
            context,
            sent,
        ),
        in_step(peer, context) ==> in_step(peer, super::after_sending(context, sent)),
        in_step(context, peer) ==> in_step(super::after_receiving(context, received), peer),
        is_next(context, sent) ==> is_next(super::after_receiving(context, received), sent),
{
}

/// The packets that a sender makes of `packets`.
pub open spec fn sent(sender: SrtpState, packets: Seq<Seq<u8>>) -> Seq<Seq<u8>>
    decreases packets.len(),
{
    if packets.len() == 0 {
        Seq::empty()
    } else {
        let seq = bytes::be16_at(packets[0], 2);
        let next = super::after_sending(sender, seq);
        seq![super::rtp_protected(sender.rtp, next.sent_roc, packets[0])] + sent(next, packets.skip(1))
    }
}

/// What a receiver makes of `packets`; nothing where it refuses one.
pub open spec fn received(receiver: SrtpState, packets: Seq<Seq<u8>>) -> Option<Seq<Seq<u8>>>
    decreases packets.len(),
{
    if packets.len() == 0 {
        Some(Seq::empty())
    } else {
        let packet = packets[0];
        let seq = bytes::be16_at(packet, 2);
        let roc = super::receiving_roc(receiver, seq);
        if super::holds_rtp_header(packet, 10) && super::rtp_authentic(receiver.rtp, roc, packet) {
            match received(super::after_receiving(receiver, seq), packets.skip(1)) {
                Some(rest) => Some(
                    seq![super::rtp_ciphered(receiver.rtp, roc, super::untagged(packet))] + rest,
                ),
                None => None,
            }
        } else {
            None
        }
    }
}

/// Whether the packets of a stream are whole and their numbers go forward.
pub open spec fn numbered(sender: SrtpState, packets: Seq<Seq<u8>>) -> bool
    decreases packets.len(),
{
    packets.len() > 0 ==> {
        let seq = bytes::be16_at(packets[0], 2);
        &&& super::holds_rtp_header(packets[0], 0)
        &&& is_next(sender, seq)
        &&& numbered(super::after_sending(sender, seq), packets.skip(1))
    }
}

/// A receiver in step with a sender recovers the whole stream, however long it
/// is and however often its sequence number wraps.
pub proof fn law_stream_is_recovered(
    sender: SrtpState,
    receiver: SrtpState,
    packets: Seq<Seq<u8>>,
)
    requires
        in_step(sender, receiver),
        numbered(sender, packets),
    ensures
        received(receiver, sent(sender, packets)) == Some(packets),
    decreases packets.len(),
{
    if packets.len() == 0 {
        assert(packets =~= Seq::empty());
    } else {
        let packet = packets[0];
        let seq = bytes::be16_at(packet, 2);
        let roc = super::sending_roc(sender, seq);
        let next = super::after_sending(sender, seq);
        law_receiver_stays_in_step(sender, receiver, seq);
        law_rtp_round_trip(sender.rtp, roc, packet);
        let out = sent(sender, packets);
        assert(out[0] == super::rtp_protected(sender.rtp, roc, packet));
        assert(out.skip(1) =~= sent(next, packets.skip(1)));
        law_stream_is_recovered(next, super::after_receiving(receiver, seq), packets.skip(1));
        assert(seq![packet] + packets.skip(1) =~= packets);
    }
}

/// Two new contexts with the same keying material are in step.
pub proof fn law_new_contexts_are_in_step(key: Seq<u8>, salt: Seq<u8>)
    ensures
        in_step(super::fresh(key, salt), super::fresh(key, salt)),
{
}

/// The index of the next RTCP packet has 31 bits, from the first packet on and
/// whatever is sent and received.
pub proof fn law_rtcp_index_has_31_bits(key: Seq<u8>, salt: Seq<u8>, state: SrtpState, seq: u16)
    requires
        state.srtcp_index < 0x8000_0000,
    ensures
        super::fresh(key, salt).srtcp_index < 0x8000_0000,
        super::after_sending(state, seq).srtcp_index < 0x8000_0000,
        super::after_receiving(state, seq).srtcp_index < 0x8000_0000,
        super::after_sending_rtcp(state).srtcp_index < 0x8000_0000,
{
}

/// The base64 that comes with a generated context gives the peer a context in
/// the same state.
pub proof fn law_generated_key_is_shared(state: SrtpState, b64: Seq<char>, material: Seq<u8>)
    requires
        super::generated(state, b64, material),
    ensures
        crypto::base64_decoded(text::trimmed(b64)) matches Ok(decoded) && decoded.len()
            >= super::KEYING_MATERIAL_LEN && super::fresh(
            decoded.subrange(0, 16),
            decoded.subrange(16, 30),
        ) == state,
{
    assert forall|i: int| 0 <= i < b64.len() implies !text::white(#[trigger] b64[i]) by {
        assert(crypto::base64_char(b64[i]));
    }
    text::lemma_trimmed_is_kept(b64);
}

/// The attribute line of a key, with the parameters (lifetime, master key index)
/// that stand behind the key.
pub open spec fn crypto_line(key: Seq<char>, parameters: Seq<char>) -> Seq<char> {
    "a=crypto:1 AES_CM_128_HMAC_SHA1_80 inline:"@ + key + parameters + "\r\n"@
}

/// Whether a key can be told apart from what stands around it: it holds no line
/// feed and no bar, and no white space ends the line.
pub open spec fn key_stands_alone(key: Seq<char>, parameters: Seq<char>) -> bool {
    &&& !key.contains('\n')
    &&& !key.contains('|')
    &&& !parameters.contains('\n')
    &&& if parameters.len() > 0 {
        parameters[0] == '|'
    } else {
        key.len() > 0 ==> !text::white(key.last())
    }
}

/// The key in the trimmed attribute line.
proof fn lemma_key_of_line(key: Seq<char>, parameters: Seq<char>)
    requires
        key_stands_alone(key, parameters),
    ensures
        super::crypto_key(
            text::trimmed("a=crypto:1 AES_CM_128_HMAC_SHA1_80 inline:"@ + key + parameters),
        ) == Some(key),
{
    reveal_strlit("a=crypto:1 AES_CM_128_HMAC_SHA1_80 inline:");
    reveal_strlit("a=crypto:");
    reveal_strlit("AES_CM_128_HMAC_SHA1_80");
    reveal_strlit("inline:");
    let head = seq!['a', '=', 'c', 'r', 'y', 'p', 't', 'o', ':', '1', ' ', 'A', 'E', 'S', '_', 'C', 'M', '_', '1', '2', '8', '_', 'H', 'M', 'A', 'C', '_', 'S', 'H', 'A', '1', '_', '8', '0', ' ', 'i', 'n', 'l', 'i', 'n', 'e', ':'];
    assert("a=crypto:1 AES_CM_128_HMAC_SHA1_80 inline:"@ =~= head);
    let full = head + key + parameters;
    let end = 42 + key.len();
    assert(forall|j: int| 0 <= j < 42 ==> full[j] == head[j]);
    assert(forall|j: int| 42 <= j < end ==> full[j] == key[j - 42]);
    let at = if parameters.len() > 0 {
        assert(full[end as int] == parameters[0]);
        end as int
    } else {
        assert(full[end - 1] == if key.len() > 0 {
            key.last()
        } else {
            ':'
        });
        end - 1
    };
    text::lemma_trimmed_keeps(full, at);
    let line = text::trimmed(full);
    let rest = line.skip(9);
    assert(line.subrange(0, 9) =~= "a=crypto:"@);
    assert(forall|j: int| 0 <= j < 33 ==> rest[j] == head[j + 9]);
    assert(forall|j: int| 33 <= j < end - 9 ==> rest[j] == key[j - 33]);
    text::lemma_index_is(rest, ' ', 0, 1);
    text::lemma_index_is(rest, ' ', 2, 25);
    assert(rest.subrange(2, 25) =~= "AES_CM_128_HMAC_SHA1_80"@);
    assert(rest.subrange(26, 33) =~= "inline:"@);
    assert(forall|j: int| 0 <= j < key.len() ==> key[j] != '|');
    text::lemma_index_is(rest, '|', 33, end - 9);
    assert(rest.subrange(33, end - 9) =~= key);
}

/// Lines without a key are passed over.
proof fn lemma_first_key_is_behind(before: Seq<Seq<char>>, lines: Seq<Seq<char>>)
    requires
        super::first_crypto_key(before) is None,
    ensures
        super::first_crypto_key(before + lines) == super::first_crypto_key(lines),
    decreases before.len(),
{
    if before.len() == 0 {
        assert(before + lines =~= lines);
    } else {
        assert((before + lines)[0] == before[0]);
        assert((before + lines).skip(1) =~= before.skip(1) + lines);
        lemma_first_key_is_behind(before.skip(1), lines);
    }
}

/// Parsing a session description gives the key of its attribute line, whatever
/// lines without a key come before it, whatever comes behind it, and whatever
/// parameters follow the key. So the line that
/// [`super::build_sdp_crypto_line`] makes, which has none, gives its key back.
pub proof fn law_sdp_crypto_round_trip(
    before: Seq<char>,
    key: Seq<char>,
    parameters: Seq<char>,
    after: Seq<char>,
)
    requires
        before.len() > 0 ==> before.last() == '\n',
        super::first_crypto_key(text::lines(before)) is None,
        key_stands_alone(key, parameters),
    ensures
        super::first_crypto_key(text::lines(before + crypto_line(key, parameters) + after)) == Some(
            key,
        ),
        crypto_line(key, Seq::empty()) == "a=crypto:1 AES_CM_128_HMAC_SHA1_80 inline:"@ + key
            + "\r\n"@,
{
    reveal_strlit("a=crypto:1 AES_CM_128_HMAC_SHA1_80 inline:");
    reveal_strlit("\r\n");
    let head = "a=crypto:1 AES_CM_128_HMAC_SHA1_80 inline:"@;
    assert(forall|j: int| 0 <= j < head.len() ==> head[j] != '\n');
    let line = head + key + parameters;
    let rest = crypto_line(key, parameters) + after;
    let s = before + rest;
    assert(s =~= before + crypto_line(key, parameters) + after);
    let from = before.len() as int;
    let n = from + line.len() + 1;
    assert(forall|j: int| from <= j < n - 1 ==> s[j] == line[j - from]);
    assert(s[n - 1] == '\r' && s[n] == '\n');
    assert(forall|j: int| 0 <= j < line.len() ==> line[j] != '\n') by {
        assert(forall|j: int| 0 <= j < key.len() ==> key[j] != '\n');
        assert(forall|j: int| 0 <= j < parameters.len() ==> parameters[j] != '\n');
    }
    text::lemma_index_is(s, '\n', from, n);
    assert(text::line_between(s, from, n) =~= line);
    text::lemma_lines_continue(before, rest, 0);
    let found = text::lines_from(s, from);
    assert(found[0] == line);
    lemma_key_of_line(key, parameters);
    lemma_first_key_is_behind(text::lines(before), found);
    assert(crypto_line(key, Seq::empty()) =~= head + key + "\r\n"@);
}

// ---- packets byte by byte ----
proof fn lemma_xor_zero()
    ensures
        forall|b: u8| #[trigger] (0u8 ^ b) == b,
{
    assert forall|b: u8| #[trigger] (0u8 ^ b) == b by {
        assert(0u8 ^ b == b) by (bit_vector);
    }
}

/// The `j`th of the four bytes of `v`, most significant first.
pub open spec fn byte_of(v: int, j: int) -> int {
    if j == 0 {
        v / 0x100_0000
    } else if j == 1 {
        v / 0x1_0000 % 256
    } else if j == 2 {
        v / 0x100 % 256
    } else {
        v % 256
    }
}

/// Whether `block` is the counter block of an RTP packet (RFC 3711, section 4.1.1):
/// the salt, with the source combined into bytes 4 to 7, the rollover counter into
/// bytes 8 to 11 and the sequence number into bytes 12 and 13, and two zero bytes.
pub open spec fn counts_rtp(block: Seq<u8>, salt: Seq<u8>, packet: Seq<u8>, roc: u32) -> bool {
    &&& block.len() == 16
    &&& forall|j: int| 0 <= j < 4 ==> #[trigger] block[j] == salt[j]
    &&& forall|j: int| 4 <= j < 8 ==> #[trigger] block[j] == packet[4 + j] ^ salt[j]
    &&& forall|j: int| 8 <= j < 12 ==> #[trigger] block[j] == (byte_of(roc as int, j - 8) as u8)
        ^ salt[j]
    &&& block[12] == packet[2] ^ salt[12] && block[13] == packet[3] ^ salt[13]
    &&& block[14] == 0 && block[15] == 0
}

/// Whether `block` is the counter block of an RTCP packet: the salt, with the source
/// combined into bytes 4 to 7 and the index into bytes 10 to 13, and two zero bytes.
pub open spec fn counts_rtcp(block: Seq<u8>, salt: Seq<u8>, packet: Seq<u8>, index: u32) -> bool {
    &&& block.len() == 16
    &&& forall|j: int| 0 <= j < 4 ==> #[trigger] block[j] == salt[j]
    &&& forall|j: int| 4 <= j < 8 ==> #[trigger] block[j] == packet[j] ^ salt[j]
    &&& block[8] == salt[8] && block[9] == salt[9]
    &&& forall|j: int| 10 <= j < 14 ==> #[trigger] block[j] == (byte_of(
        index as int,
        j - 10,
    ) as u8) ^ salt[j]
    &&& block[14] == 0 && block[15] == 0
}

/// Whether `block` is the counter block from which the keys with `label` come: the
/// master salt, with the label combined into byte 7, and two zero bytes.
pub open spec fn counts_label(block: Seq<u8>, salt: Seq<u8>, label: u8) -> bool {
    &&& block.len() == 16
    &&& forall|j: int| 0 <= j < 14 && j != 7 ==> #[trigger] block[j] == salt[j]
    &&& block[7] == label ^ salt[7]
    &&& block[14] == 0 && block[15] == 0
}

proof fn lemma_bytes_of_packet(packet: Seq<u8>, i: int)
    requires
        0 <= i,
        i + 4 <= packet.len(),
    ensures
        forall|j: int|
            0 <= j < 4 ==> #[trigger] bytes::be32(bytes::be32_at(packet, i))[j] == packet[i + j],
{
    bytes::law_be32_bytes_of_read(packet, i);
    let w = bytes::be32(bytes::be32_at(packet, i));
    assert forall|j: int| 0 <= j < 4 implies #[trigger] w[j] == packet[i + j] by {
        assert(w[j] == packet.subrange(i, i + 4)[j]);
    }
}

proof fn lemma_rtp_block(block: Seq<u8>, salt: Seq<u8>, packet: Seq<u8>, roc: u32)
    requires
        packet.len() >= 12,
        counts_rtp(block, salt, packet, roc),
    ensures
        block == super::rtp_block(salt, bytes::be32_at(packet, 8), roc, bytes::be16_at(packet, 2)),
{
    lemma_xor_zero();
    let ssrc = bytes::be32_at(packet, 8);
    let seq = bytes::be16_at(packet, 2);
    lemma_bytes_of_packet(packet, 8);
    bytes::law_be16_bytes_of_read(packet, 2);
    assert(bytes::be16(seq)[0] == packet.subrange(2, 4)[0]);
    assert(bytes::be16(seq)[1] == packet.subrange(2, 4)[1]);
    let base = super::zeros(4) + bytes::be32(ssrc) + bytes::be32(roc) + bytes::be16(seq)
        + super::zeros(2);
    let full = super::rtp_block(salt, ssrc, roc, seq);
    assert forall|j: int| 0 <= j < 16 implies block[j] == full[j] by {
        if 4 <= j < 8 {
            assert(base[j] == bytes::be32(ssrc)[j - 4]);
            assert(bytes::be32(ssrc)[j - 4] == packet[8 + (j - 4)]);
        } else if 8 <= j < 12 {
            assert(base[j] == bytes::be32(roc)[j - 8]);
        }
    }
    assert(block =~= full);
}

proof fn lemma_rtcp_block(block: Seq<u8>, salt: Seq<u8>, packet: Seq<u8>, index: u32)
    requires
        packet.len() >= 8,
        counts_rtcp(block, salt, packet, index),
    ensures
        block == super::rtcp_block(salt, bytes::be32_at(packet, 4), index),
{
    lemma_xor_zero();
    let ssrc = bytes::be32_at(packet, 4);
    lemma_bytes_of_packet(packet, 4);
    let base = super::zeros(4) + bytes::be32(ssrc) + super::zeros(2) + bytes::be32(index)
        + super::zeros(2);
    let full = super::rtcp_block(salt, ssrc, index);
    assert forall|j: int| 0 <= j < 16 implies block[j] == full[j] by {
        if 4 <= j < 8 {
            assert(base[j] == bytes::be32(ssrc)[j - 4]);
            assert(bytes::be32(ssrc)[j - 4] == packet[4 + (j - 4)]);
        } else if 10 <= j < 14 {
            assert(base[j] == bytes::be32(index)[j - 10]);
        }
    }
    assert(block =~= full);
}

/// What an SRTP packet holds, byte by byte: the header as it was, the payload
/// combined with the key stream for the packet's counter block, and the first ten
/// bytes of the HMAC over all of that and the rollover counter.
pub proof fn law_srtp_packet_byte_by_byte(
    keys: SessionKeys,
    roc: u32,
    packet: Seq<u8>,
    block: Seq<u8>,
    start: int,
)
    requires
        packet.len() >= 12,
        packet.len() >= start,
        start == if packet[0] / 16 % 2 == 1 {
            16 + packet[0] % 16 * 4 + (packet[14 + packet[0] % 16 * 4] * 256 + packet[15 + packet[0]
                % 16 * 4]) * 4
        } else {
            12 + packet[0] % 16 * 4
        },
        packet[0] / 16 % 2 == 1 ==> packet.len() >= 16 + packet[0] % 16 * 4,
        counts_rtp(block, keys.salt, packet, roc),
    ensures
        ({
            let out = super::rtp_protected(keys, roc, packet);
            let n = packet.len() as int;
            let signed = out.take(n).push(byte_of(roc as int, 0) as u8).push(
                byte_of(roc as int, 1) as u8,
            ).push(byte_of(roc as int, 2) as u8).push(byte_of(roc as int, 3) as u8);
            &&& super::holds_rtp_header(packet, 0)
            &&& out.len() == n + 10
            &&& forall|i: int| 0 <= i < start ==> #[trigger] out[i] == packet[i]
            &&& forall|i: int|
                start <= i < n ==> #[trigger] out[i] == packet[i] ^ crypto::aes128_ctr_keystream(
                    keys.cipher,
                    block,
                    i - start,
                )
            &&& forall|i: int|
                n <= i < n + 10 ==> #[trigger] out[i] == crypto::hmac_sha1(keys.auth, signed)[i - n]
        }),
{
    lemma_rtp_block(block, keys.salt, packet, roc);
    let out = super::rtp_protected(keys, roc, packet);
    let body = super::rtp_ciphered(keys, roc, packet);
    assert(super::rtp_header_len(packet) == start);
    assert(out.take(packet.len() as int) =~= body);
    assert(body + bytes::be32(roc) =~= body.push(byte_of(roc as int, 0) as u8).push(
        byte_of(roc as int, 1) as u8,
    ).push(byte_of(roc as int, 2) as u8).push(byte_of(roc as int, 3) as u8));
}

proof fn lemma_marked_index(index: u32)
    requires
        index < 0x8000_0000,
    ensures
        ({
            let word = bytes::be32(super::marked_index(index));
            &&& word.len() == 4
            &&& word[0] == 128 + byte_of(index as int, 0)
            &&& word[1] == byte_of(index as int, 1)
            &&& word[2] == byte_of(index as int, 2)
            &&& word[3] == byte_of(index as int, 3)
        }),
{
    let i = index as int;
    assert((i + 0x8000_0000) / 0x100_0000 == 128 + i / 0x100_0000);
    assert((i + 0x8000_0000) / 0x1_0000 == 0x8000 + i / 0x1_0000);
    assert((i + 0x8000_0000) / 0x100 == 0x80_0000 + i / 0x100);
}

/// What an SRTCP packet holds, byte by byte: the first eight bytes as they were, the
/// rest of the packet combined with the key stream for its counter block, the index
/// with the top bit set, and the first ten bytes of the HMAC over all of that.
#[verifier::spinoff_prover]
#[verifier::rlimit(40)]
pub proof fn law_srtcp_packet_byte_by_byte(
    keys: SessionKeys,
    index: u32,
    packet: Seq<u8>,
    block: Seq<u8>,
)
    requires
        packet.len() >= 8,
        index < 0x8000_0000,
        counts_rtcp(block, keys.salt, packet, index),
    ensures
        ({
            let out = super::rtcp_protected(keys, index, packet);
            let n = packet.len() as int;
            &&& out.len() == n + 14
            &&& forall|i: int| 0 <= i < 8 ==> #[trigger] out[i] == packet[i]
            &&& forall|i: int|
                8 <= i < n ==> #[trigger] out[i] == packet[i] ^ crypto::aes128_ctr_keystream(
                    keys.cipher,
                    block,
                    i - 8,
                )
            &&& out[n] == 128 + byte_of(index as int, 0)
            &&& out[n + 1] == byte_of(index as int, 1)
            &&& out[n + 2] == byte_of(index as int, 2)
            &&& out[n + 3] == byte_of(index as int, 3)
            &&& forall|i: int|
                n + 4 <= i < n + 14 ==> #[trigger] out[i] == crypto::hmac_sha1(
                    keys.auth,
                    out.take(n + 4),
                )[i - (n + 4)]
        }),
{
    lemma_rtcp_block(block, keys.salt, packet, index);
    let out = super::rtcp_protected(keys, index, packet);
    let body = super::rtcp_ciphered(keys, index, packet) + bytes::be32(super::marked_index(index));
    let n = packet.len() as int;
    lemma_marked_index(index);
    let word = bytes::be32(super::marked_index(index));
    assert(out.take(n + 4) =~= body);
    assert(forall|j: int| 0 <= j < 4 ==> out[n + j] == word[j]);
}

/// What opening gives of an SRTCP packet that any sender made: with the top bit of
/// the index set, the contents behind the first eight bytes combined with the key
/// stream for that index; without it, the contents as they are.
pub proof fn law_srtcp_packet_is_opened_byte_by_byte(
    keys: SessionKeys,
    data: Seq<u8>,
    block: Seq<u8>,
    index: u32,
)
    requires
        data.len() >= 22,
        index == data[data.len() - 14] % 128 * 0x100_0000 + data[data.len() - 13] * 0x1_0000
            + data[data.len() - 12] * 256 + data[data.len() - 11],
        counts_rtcp(block, keys.salt, data, index),
    ensures
        ({
            let out = super::rtcp_unprotected(keys, data);
            let n = data.len() - 14;
            &&& out.len() == n
            &&& forall|i: int| 0 <= i < 8 ==> #[trigger] out[i] == data[i]
            &&& data[n] >= 128 ==> forall|i: int|
                8 <= i < n ==> #[trigger] out[i] == data[i] ^ crypto::aes128_ctr_keystream(
                    keys.cipher,
                    block,
                    i - 8,
                )
            &&& data[n] < 128 ==> out == data.take(n)
        }),
{
    let n = data.len() - 14;
    let contents = data.take(n);
    let word = super::rtcp_index_word(data);
    if data[n] >= 128 {
        assert(word == 0x8000_0000 + index);
        assert(counts_rtcp(block, keys.salt, contents, index));
        lemma_rtcp_block(block, keys.salt, contents, index);
    } else {
        assert(word == index);
    }
}

/// Whether an SRTCP packet is accepted depends on its last ten bytes: they are the
/// first ten of the HMAC over what stands before them.
pub proof fn law_srtcp_tag_decides(keys: SessionKeys, data: Seq<u8>)
    requires
        data.len() >= 10,
    ensures
        super::rtcp_authentic(keys, data) <==> forall|i: int|
            0 <= i < 10 ==> #[trigger] data[data.len() - 10 + i] == crypto::hmac_sha1(
                keys.auth,
                data.take(data.len() - 10),
            )[i],
{
    let tag = super::tag_of(data);
    let expected = super::auth_tag(keys.auth, super::untagged(data));
    assert(super::untagged(data) =~= data.take(data.len() - 10));
    assert(forall|i: int| 0 <= i < 10 ==> #[trigger] data[data.len() - 10 + i] == tag[i]);
    if forall|i: int|
        0 <= i < 10 ==> #[trigger] data[data.len() - 10 + i] == crypto::hmac_sha1(
            keys.auth,
            data.take(data.len() - 10),
        )[i] {
        assert forall|i: int| 0 <= i < 10 implies tag[i] == expected[i] by {
            assert(data[data.len() - 10 + i] == tag[i]);
        }
        assert(tag =~= expected);
    }
}

/// Whether an SRTP packet is accepted depends on its last ten bytes: they are the
/// first ten of the HMAC over what stands before them and the rollover counter.
pub proof fn law_srtp_tag_decides(keys: SessionKeys, roc: u32, data: Seq<u8>)
    requires
        data.len() >= 10,
    ensures
        ({
            let signed = data.take(data.len() - 10).push(byte_of(roc as int, 0) as u8).push(
                byte_of(roc as int, 1) as u8,
            ).push(byte_of(roc as int, 2) as u8).push(byte_of(roc as int, 3) as u8);
            super::rtp_authentic(keys, roc, data) <==> forall|i: int|
                0 <= i < 10 ==> #[trigger] data[data.len() - 10 + i] == crypto::hmac_sha1(
                    keys.auth,
                    signed,
                )[i]
        }),
{
    let signed = data.take(data.len() - 10).push(byte_of(roc as int, 0) as u8).push(
        byte_of(roc as int, 1) as u8,
    ).push(byte_of(roc as int, 2) as u8).push(byte_of(roc as int, 3) as u8);
    let tag = super::tag_of(data);
    let expected = super::rtp_tag(keys, roc, super::untagged(data));
    assert(super::untagged(data) + bytes::be32(roc) =~= signed);
    assert(forall|i: int| 0 <= i < 10 ==> #[trigger] data[data.len() - 10 + i] == tag[i]);
    if forall|i: int|
        0 <= i < 10 ==> #[trigger] data[data.len() - 10 + i] == crypto::hmac_sha1(
            keys.auth,
            signed,
        )[i] {
        assert forall|i: int| 0 <= i < 10 implies tag[i] == expected[i] by {
            assert(data[data.len() - 10 + i] == tag[i]);
        }
        assert(tag =~= expected);
    }
}

proof fn lemma_derived(key: Seq<u8>, salt: Seq<u8>, label: u8, block: Seq<u8>, n: nat)
    requires
        counts_label(block, salt, label),
    ensures
        super::derived(key, salt, label, n).len() == n,
        forall|i: int|
            0 <= i < n ==> #[trigger] super::derived(key, salt, label, n)[i]
                == crypto::aes128_ctr_keystream(key, block, i),
{
    lemma_xor_zero();
    let full = super::derivation_block(salt, label);
    let base = super::zeros(7).push(label) + super::zeros(8);
    assert forall|j: int| 0 <= j < 16 implies block[j] == full[j] by {
        assert(base[j] == if j == 7 {
            label
        } else {
            0
        });
    }
    assert(block =~= full);
}

/// The session keys of a new context are key stream of the master key, for the
/// labels 0 to 5 (RFC 3711, section 4.3): cipher key, authentication key and salt of
/// RTP, then those of RTCP.
pub proof fn law_session_keys_are_key_stream(key: Seq<u8>, salt: Seq<u8>, blocks: Seq<Seq<u8>>)
    requires
        blocks.len() == 6,
        forall|label: int|
            0 <= label < 6 ==> counts_label(#[trigger] blocks[label], salt, label as u8),
    ensures
        ({
            let s = super::fresh(key, salt);
            &&& s.rtp.cipher.len() == 16 && s.rtcp.cipher.len() == 16
            &&& s.rtp.auth.len() == 20 && s.rtcp.auth.len() == 20
            &&& s.rtp.salt.len() == 14 && s.rtcp.salt.len() == 14
            &&& forall|i: int|
                0 <= i < 16 ==> #[trigger] s.rtp.cipher[i] == crypto::aes128_ctr_keystream(
                    key,
                    blocks[0],
                    i,
                )
            &&& forall|i: int|
                0 <= i < 20 ==> #[trigger] s.rtp.auth[i] == crypto::aes128_ctr_keystream(
                    key,
                    blocks[1],
                    i,
                )
            &&& forall|i: int|
                0 <= i < 14 ==> #[trigger] s.rtp.salt[i] == crypto::aes128_ctr_keystream(
                    key,
                    blocks[2],
                    i,
                )
            &&& forall|i: int|
                0 <= i < 16 ==> #[trigger] s.rtcp.cipher[i] == crypto::aes128_ctr_keystream(
                    key,
                    blocks[3],
                    i,
                )
            &&& forall|i: int|
                0 <= i < 20 ==> #[trigger] s.rtcp.auth[i] == crypto::aes128_ctr_keystream(
                    key,
                    blocks[4],
                    i,
                )
            &&& forall|i: int|
                0 <= i < 14 ==> #[trigger] s.rtcp.salt[i] == crypto::aes128_ctr_keystream(
                    key,
                    blocks[5],
                    i,
                )
        }),
{
    lemma_derived(key, salt, 0, blocks[0], 16);
    lemma_derived(key, salt, 1, blocks[1], 20);
    lemma_derived(key, salt, 2, blocks[2], 14);
    lemma_derived(key, salt, 3, blocks[3], 16);
    lemma_derived(key, salt, 4, blocks[4], 20);
    lemma_derived(key, salt, 5, blocks[5], 14);
}

/// A new context has sent and received nothing, and its RTCP packets count from 0,
/// one by one, whatever RTP packets pass meanwhile.
pub proof fn law_rtcp_packets_count_up(key: Seq<u8>, salt: Seq<u8>, state: SrtpState, seq: u16)
    requires
        state.srtcp_index < 0x8000_0000,
    ensures
        super::fresh(key, salt).srtcp_index == 0,
        !super::fresh(key, salt).initialized,
        super::fresh(key, salt).last_sent is None,
        super::fresh(key, salt).roc == 0,
        super::fresh(key, salt).sent_roc == 0,
        state.srtcp_index < 0x7fff_ffff ==> super::after_sending_rtcp(state).srtcp_index
            == state.srtcp_index + 1,
        state.srtcp_index == 0x7fff_ffff ==> super::after_sending_rtcp(state).srtcp_index == 0,
        super::after_sending_rtcp(state).rtp == state.rtp,
        super::after_sending_rtcp(state).rtcp == state.rtcp,
        super::after_sending(state, seq).srtcp_index == state.srtcp_index,
        super::after_receiving(state, seq).srtcp_index == state.srtcp_index,
        super::after_sending(state, seq).rtcp == state.rtcp,
        super::after_receiving(state, seq).rtcp == state.rtcp,
        super::after_sending(state, seq).rtp == state.rtp,
        super::after_receiving(state, seq).rtp == state.rtp,
{
}

/// A sender that numbers its packets one by one counts the wraps: the packet behind
/// number 65535 begins the next rollover, every other stays in its own.
pub proof fn law_sender_counts_the_wraps(state: SrtpState, last: u16, seq: u16)
    requires
        state.last_sent == Some(last),
        seq == (last + 1) % 0x1_0000,
        state.sent_roc < u32::MAX,
    ensures
        ({
            let next = super::after_sending(state, seq);
            &&& next.last_sent == Some(seq)
            &&& packet_index(next.sent_roc, seq) == packet_index(state.sent_roc, last) + 1
        }),
{
}

/// A key is found only in a crypto attribute for the supported suite that names it
/// inline, and what is found is the text between the method and the next bar.
pub proof fn law_keys_come_from_crypto_attributes(line: Seq<char>, key: Seq<char>)
    requires
        super::crypto_key(line) == Some(key),
    ensures
        exists|tag: Seq<char>, rest: Seq<char>|
            {
                &&& line == #[trigger] ("a=crypto:"@ + tag + " AES_CM_128_HMAC_SHA1_80 inline:"@
                    + key + rest)
                &&& !tag.contains(' ')
                &&& !key.contains('|')
                &&& rest.len() > 0 ==> rest[0] == '|'
            },
{
    reveal_strlit("a=crypto:");
    reveal_strlit("AES_CM_128_HMAC_SHA1_80");
    reveal_strlit("inline:");
    reveal_strlit(" AES_CM_128_HMAC_SHA1_80 inline:");
    let r = line.skip(9);
    let first = text::index_from(r, ' ', 0);
    text::lemma_index_from(r, ' ', 0);
    let second = text::index_from(r, ' ', first + 1);
    text::lemma_index_from(r, ' ', first + 1);
    let at = second + 8;
    let end = text::index_from(r, '|', at);
    text::lemma_index_from(r, '|', at);
    let tag = r.subrange(0, first);
    let rest = r.skip(end);
    let suite = "AES_CM_128_HMAC_SHA1_80"@;
    let middle = " AES_CM_128_HMAC_SHA1_80 inline:"@;
    assert(suite.len() == 23);
    assert(r.subrange(first + 1, second) == suite);
    assert(second == first + 24);
    assert(middle =~= seq![' '] + suite + seq![' '] + "inline:"@);
    assert(r.subrange(first, at) =~= middle) by {
        let inline = r.subrange(second + 1, at);
        assert(inline == "inline:"@);
        assert forall|j: int| 0 <= j < 32 implies r.subrange(first, at)[j] == middle[j] by {
            if 1 <= j < 24 {
                assert(r.subrange(first + 1, second)[j - 1] == r[first + j]);
            } else if 25 <= j {
                assert(inline[j - 25] == r[first + j]);
            }
        }
    }
    assert(line.subrange(0, 9) == "a=crypto:"@);
    assert(line =~= line.subrange(0, 9) + r);
    assert(r =~= tag + r.subrange(first, at) + key + rest);
    assert(line =~= "a=crypto:"@ + tag + middle + key + rest);
    assert forall|c: char| tag.contains(c) implies c != ' ' by {
        let j = choose|j: int| 0 <= j < tag.len() && tag[j] == c;
        assert(r[j] == c);
    }
    assert forall|c: char| key.contains(c) implies c != '|' by {
        let j = choose|j: int| 0 <= j < key.len() && key[j] == c;
        assert(r[at + j] == c);
    }
    if rest.len() > 0 {
        assert(rest[0] == r[end]);
    }
}

/// The key of a description is that of its first line that has one.
pub proof fn law_first_crypto_attribute_decides(
    before: Seq<Seq<char>>,
    line: Seq<char>,
    after: Seq<Seq<char>>,
)
    requires
        forall|i: int|
            0 <= i < before.len() ==> super::crypto_key(text::trimmed(#[trigger] before[i])) is None,
    ensures
        super::first_crypto_key(before) is None,
        super::crypto_key(text::trimmed(line)) is Some ==> super::first_crypto_key(
            before + seq![line] + after,
        ) == super::crypto_key(text::trimmed(line)),
    decreases before.len(),
{
    let all = before + seq![line] + after;
    if before.len() == 0 {
        assert(all[0] == line);
    } else {
        assert(all[0] == before[0]);
        assert(all.skip(1) =~= before.skip(1) + seq![line] + after);
        law_first_crypto_attribute_decides(before.skip(1), line, after);
    }
}

/// Which packets can be protected or opened: twelve bytes, four for each source, and the
/// extension that is announced have to be there, and the tag behind them.
pub proof fn law_whole_headers_are_needed(packet: Seq<u8>, trailer: int)
    ensures
        ({
            let sources = packet[0] % 16 * 4;
            let flag = (packet[0] / 16) % 2 == 1;
            let words = packet[sources + 14] * 256 + packet[sources + 15];
            super::holds_rtp_header(packet, trailer) <==> {
                &&& packet.len() >= 12 + trailer
                &&& !flag ==> packet.len() >= 12 + sources + trailer
                &&& flag ==> packet.len() >= 16 + sources + trailer && packet.len() >= 16 + sources
                    + words * 4 + trailer
            }
        }),
{
}

/// The rollover counter of any packet received: that of the cycle in which its number
/// lies nearest to the highest one accepted, the own cycle where two are as near. The
/// first packet of all begins with 0.
pub proof fn law_any_packet_has_its_roc(state: SrtpState, seq: u16)
    requires
        0 < state.roc < u32::MAX,
    ensures
        !state.initialized ==> super::receiving_roc(state, seq) == 0,
        state.initialized && seq > state.s_l + 0x8000 ==> super::receiving_roc(state, seq)
            == state.roc - 1,
        state.initialized && seq + 0x8000 < state.s_l ==> super::receiving_roc(state, seq)
            == state.roc + 1,
        state.initialized && seq <= state.s_l + 0x8000 && state.s_l <= seq + 0x8000
            ==> super::receiving_roc(state, seq) == state.roc,
{
}

/// What accepting any packet does: the first one begins the count, one ahead becomes the
/// highest, and any other leaves everything as it was.
pub proof fn law_any_packet_is_followed(state: SrtpState, seq: u16)
    requires
        0 < state.roc < u32::MAX || !state.initialized,
    ensures
        ({
            let next = super::after_receiving(state, seq);
            let ahead = seq + 0x8000 < state.s_l || state.s_l < seq <= state.s_l + 0x8000;
            &&& !state.initialized ==> next.initialized && next.s_l == seq && next.roc == state.roc
            &&& state.initialized && ahead ==> next.initialized && next.s_l == seq && next.roc
                == super::receiving_roc(state, seq)
            &&& state.initialized && !ahead ==> next == state
            &&& next.sent_roc == state.sent_roc && next.last_sent == state.last_sent
        }),
{
}

/// The rollover counter of what is sent goes up by one where the number falls by more
/// than half the sequence space, and never otherwise.
pub proof fn law_any_number_can_be_sent(state: SrtpState, seq: u16)
    requires
        state.sent_roc < u32::MAX,
    ensures
        ({
            let next = super::after_sending(state, seq);
            &&& next.last_sent == Some(seq)
            &&& next.sent_roc == super::sending_roc(state, seq)
            &&& state.last_sent is None ==> next.sent_roc == state.sent_roc
            &&& state.last_sent matches Some(last) ==> {
                &&& last > seq + 0x8000 ==> next.sent_roc == state.sent_roc + 1
                &&& last <= seq + 0x8000 ==> next.sent_roc == state.sent_roc
            }
            &&& next.roc == state.roc && next.s_l == state.s_l && next.initialized
                == state.initialized
        }),
{
}

/// What a context shows of itself: where it is in what it receives, or as long as it has
/// received nothing, in what it sends.
pub proof fn law_position_is_of_the_last_packet(state: SrtpState)
    ensures
        state.initialized ==> super::position(state) == (state.roc, state.s_l),
        !state.initialized && state.last_sent is Some ==> super::position(state) == (
            state.sent_roc,
            state.last_sent->0,
        ),
        !state.initialized && state.last_sent is None ==> super::position(state) == (
            state.sent_roc,
            0u16,
        ),
{
}

/// A message with a number in it holds its three parts end to end.
pub proof fn law_messages_hold_the_number(head: Seq<char>, n: nat, tail: Seq<char>)
    ensures
        ({
            let m = super::counted(head, n, tail);
            let digits = m.subrange(head.len() as int, m.len() - tail.len());
            &&& m.len() >= head.len() + tail.len()
            &&& m.take(head.len() as int) == head
            &&& m.skip(m.len() - tail.len()) == tail
            &&& text::digits_value(digits) == n
        }),
{
    text::law_decimal_writes_the_number(n);
    let m = super::counted(head, n, tail);
    assert(m.take(head.len() as int) =~= head);
    assert(m.skip(m.len() - tail.len()) =~= tail);
    assert(m.subrange(head.len() as int, m.len() - tail.len()) =~= text::decimal(n));
}

} // verus!
