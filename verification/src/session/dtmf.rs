//! DTMF digits as telephone events (RFC 2833).

use vstd::prelude::*;

use crate::bytes;
use crate::rtp::header::{self, HeaderFields};
use crate::rtp::RtpHeader;
use crate::text;

verus! {

/// The payload type of telephone events.
pub const EVENT_PAYLOAD_TYPE: u8 = 101;

/// The volume of an event, in dB below the reference.
pub const EVENT_VOLUME: u8 = 10;

/// How long an event has lasted in its first packet, and how much longer in each
/// one behind it, in timestamp units.
pub const EVENT_STEP: u16 = 160;

/// The event of a digit: 0 to 9 for themselves, 10 for `*` and 11 for `#`.
pub open spec fn event_of(digit: Seq<char>) -> Option<u8> {
    if digit.len() != 1 {
        None
    } else if '0' <= digit[0] <= '9' {
        Some((digit[0] as int - '0' as int) as u8)
    } else if digit[0] == '*' {
        Some(10)
    } else if digit[0] == '#' {
        Some(11)
    } else {
        None
    }
}

/// The event of a digit.
pub fn event_code(digit: &str) -> (event: Option<u8>)
    ensures
        event == event_of(digit@),
{
    let chars = text::chars_of(digit);
    if chars.len() != 1 {
        return None;
    }
    let c: char = chars[0];
    if '0' <= c && c <= '9' {
        Some((c as u32 - '0' as u32) as u8)
    } else if c == '*' {
        Some(10)
    } else if c == '#' {
        Some(11)
    } else {
        None
    }
}

/// One step of sending an event, 20 ms before the next.
pub struct DtmfStep {
    /// The packet to send and count.
    pub packet: Vec<u8>,
    /// The packet to send twice behind it.
    pub repeat: Option<Vec<u8>>,
}

/// The header of the `i`th packet of an event.
pub open spec fn event_header(i: int, base_seq: u16, timestamp: u32, ssrc: u32) -> HeaderFields {
    HeaderFields {
        marker: i == 0,
        ..header::plain_header(
            EVENT_PAYLOAD_TYPE,
            ((base_seq + i) % 0x1_0000) as u16,
            timestamp,
            ssrc,
        )
    }
}

/// The payload of the `i`th packet of an event; the third one ends it.
pub open spec fn event_body(event: u8, i: int) -> Seq<u8> {
    seq![
        event,
        if i == 2 {
            0x8a
        } else {
            0x0a
        },
    ] + bytes::be16((EVENT_STEP * (i + 1)) as u16)
}

/// The `i`th packet of an event, with the sequence number of the `place`th.
pub open spec fn event_packet(
    event: u8,
    i: int,
    place: int,
    base_seq: u16,
    timestamp: u32,
    ssrc: u32,
) -> Seq<u8> {
    header::header_bytes(
        HeaderFields {
            marker: i == 0,
            ..event_header(place, base_seq, timestamp, ssrc)
        },
    ) + event_body(event, i)
}

/// Whether `steps` send an event: three packets of growing duration, the last of
/// which ends it and is repeated behind it.
pub open spec fn is_event(
    steps: Seq<DtmfStep>,
    event: u8,
    base_seq: u16,
    timestamp: u32,
    ssrc: u32,
) -> bool {
    &&& steps.len() == 3
    &&& forall|i: int|
        0 <= i < 3 ==> (#[trigger] steps[i]).packet@ == event_packet(
            event,
            i,
            i,
            base_seq,
            timestamp,
            ssrc,
        )
    &&& forall|i: int| 0 <= i < 2 ==> (#[trigger] steps[i]).repeat is None
    &&& steps[2].repeat matches Some(repeat) && repeat@ == event_packet(
        event,
        2,
        3,
        base_seq,
        timestamp,
        ssrc,
    )
}

fn build_packet(event: u8, i: u16, place: u16, base_seq: u16, timestamp: u32, ssrc: u32) -> (packet:
    Vec<u8>)
    requires
        i < 3,
        place < 4,
    ensures
        packet@ == event_packet(event, i as int, place as int, base_seq, timestamp, ssrc),
{
    let plain = RtpHeader::new(EVENT_PAYLOAD_TYPE, base_seq.wrapping_add(place), timestamp, ssrc);
    let header = if i == 0 {
        plain.with_marker()
    } else {
        plain
    };
    assert(header@ == HeaderFields {
        marker: i == 0,
        ..event_header(place as int, base_seq, timestamp, ssrc)
    });
    let mut packet = header.to_bytes();
    let ghost start = packet@;
    packet.push(event);
    packet.push(
        if i == 2 {
            0x80 + EVENT_VOLUME
        } else {
            EVENT_VOLUME
        },
    );
    bytes::push_be16(&mut packet, EVENT_STEP * (i + 1));
    assert(packet@ =~= start + event_body(event, i as int));
    packet
}

/// The steps of sending an event.
pub fn event_steps(event: u8, base_seq: u16, timestamp: u32, ssrc: u32) -> (steps: Vec<DtmfStep>)
    ensures
        is_event(steps@, event, base_seq, timestamp, ssrc),
{
    let mut steps: Vec<DtmfStep> = Vec::new();
    for i in 0u16..3u16
        invariant
            steps@.len() == i,
            forall|j: int|
                0 <= j < i ==> (#[trigger] steps@[j]).packet@ == event_packet(
                    event,
                    j,
                    j,
                    base_seq,
                    timestamp,
                    ssrc,
                ),
            forall|j: int| 0 <= j < i && j < 2 ==> (#[trigger] steps@[j]).repeat is None,
            i == 3 ==> (steps@[2].repeat matches Some(repeat) && repeat@ == event_packet(
                event,
                2,
                3,
                base_seq,
                timestamp,
                ssrc,
            )),
    {
        let packet = build_packet(event, i, i, base_seq, timestamp, ssrc);
        let repeat = if i == 2 {
            Some(build_packet(event, i, i + 1, base_seq, timestamp, ssrc))
        } else {
            None
        };
        steps.push(DtmfStep { packet, repeat });
    }
    steps
}

/// A receiver reads every packet of an event as it was meant: the event's payload
/// type, one timestamp throughout, the marker on the first packet alone, and the
/// event's payload.
pub proof fn law_event_packets_are_read(
    event: u8,
    i: int,
    place: int,
    base_seq: u16,
    timestamp: u32,
    ssrc: u32,
)
    requires
        0 <= i < 3,
        0 <= place < 4,
    ensures
        ({
            let packet = event_packet(event, i, place, base_seq, timestamp, ssrc);
            let read = header::header_fields(packet);
            &&& header::holds_header(packet)
            &&& packet.len() == 16
            &&& read.payload_type == EVENT_PAYLOAD_TYPE
            &&& read.timestamp == timestamp
            &&& read.ssrc == ssrc
            &&& read.sequence == (base_seq + place) % 0x1_0000
            &&& read.marker == (i == 0)
            &&& packet.skip(header::payload_start(packet)) == event_body(event, i)
        }),
{
    let h = HeaderFields { marker: i == 0, ..event_header(place, base_seq, timestamp, ssrc) };
    header::law_header_length_is_of_bytes(h);
    header::law_parse_undoes_serialize(h, event_body(event, i));
}

/// The digits and their events (RFC 2833): 0 to 9, star and hash, one at a time, and
/// nothing else.
pub proof fn law_digits_have_their_events(digit: Seq<char>)
    ensures
        digit.len() == 1 && '0' <= digit[0] <= '9' ==> event_of(digit) == Some(
            (digit[0] as int - 48) as u8,
        ),
        digit == seq!['*'] ==> event_of(digit) == Some(10u8),
        digit == seq!['#'] ==> event_of(digit) == Some(11u8),
        event_of(digit) matches Some(event) ==> event <= 11 && digit.len() == 1,
        digit.len() == 1 && event_of(digit) is None ==> !('0' <= digit[0] <= '9') && digit[0] != '*'
            && digit[0] != '#',
{
}

/// The payload of the packets of an event: the event, the end flag on the last with
/// the volume behind it, and a duration that grows by 20 ms a packet.
pub proof fn law_event_payload_byte_by_byte(event: u8, i: int)
    requires
        0 <= i < 3,
    ensures
        ({
            let b = event_body(event, i);
            &&& b.len() == 4
            &&& b[0] == event
            &&& b[1] % 64 == 10
            &&& b[1] >= 128 <==> i == 2
            &&& b[1] < 64 || i == 2
            &&& b[1] / 64 % 2 == 0
            &&& b[2] * 256 + b[3] == 160 * (i + 1)
        }),
{
    bytes::law_network_order((EVENT_STEP * (i + 1)) as u16, 0, seq![0u8, 0, 0, 0], 0);
}

/// An event is three packets with numbers in a row and one timestamp, and a repeat
/// of the last under the number behind it; all carry payload type 101.
pub proof fn law_event_numbers_run(
    steps: Seq<DtmfStep>,
    event: u8,
    base_seq: u16,
    timestamp: u32,
    ssrc: u32,
    i: int,
)
    requires
        is_event(steps, event, base_seq, timestamp, ssrc),
        0 <= i < 3,
    ensures
        steps.len() == 3,
        ({
            let p = steps[i].packet@;
            &&& p.len() == 16
            &&& p[0] == 0x80
            &&& p[1] == if i == 0 {
                0xe5int
            } else {
                0x65
            }
            &&& p[2] * 256 + p[3] == (base_seq + i) % 0x1_0000
            &&& p[4] * 0x100_0000 + p[5] * 0x1_0000 + p[6] * 0x100 + p[7] == timestamp
            &&& p[8] * 0x100_0000 + p[9] * 0x1_0000 + p[10] * 0x100 + p[11] == ssrc
            &&& p.skip(12) == event_body(event, i)
        }),
        steps[0].repeat is None && steps[1].repeat is None,
        steps[2].repeat matches Some(r) && {
            &&& r@.len() == 16
            &&& r@[0] == 0x80 && r@[1] == 0x65
            &&& r@[2] * 256 + r@[3] == (base_seq + 3) % 0x1_0000
            &&& r@.skip(4) == steps[2].packet@.skip(4)
        },
{
    let h = HeaderFields { marker: i == 0, ..event_header(i, base_seq, timestamp, ssrc) };
    header::law_header_byte_by_byte(h, 0);
    let p = steps[i].packet@;
    let b = header::header_bytes(h);
    assert(p == b + event_body(event, i));
    assert(p.skip(12) =~= event_body(event, i));
    let last = HeaderFields { marker: false, ..event_header(2, base_seq, timestamp, ssrc) };
    let again = HeaderFields { marker: false, ..event_header(3, base_seq, timestamp, ssrc) };
    header::law_header_byte_by_byte(last, 0);
    header::law_header_byte_by_byte(again, 0);
    assert(steps[0].repeat is None && steps[1].repeat is None);
    let (a, c) = (header::header_bytes(last), header::header_bytes(again));
    assert(a.skip(4) =~= c.skip(4));
    let r = steps[2].repeat->0@;
    assert(steps[2].packet@ == a + event_body(event, 2));
    assert(r == c + event_body(event, 2));
    assert forall|j: int| 4 <= j < 16 implies r[j] == steps[2].packet@[j] by {
        if j < 12 {
            assert(a.skip(4)[j - 4] == a[j]);
            assert(c.skip(4)[j - 4] == c[j]);
        }
    }
    assert(r.skip(4) =~= steps[2].packet@.skip(4));
}

} // verus!
