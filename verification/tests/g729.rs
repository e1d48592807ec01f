use rtp_engine::codec::g729::{
    dequantize_lsp, pack_frame, prediction_index, pulse_pattern, push_excitation, push_history,
    quantize_lsp, quantize_subframe, unpack_frame, whole_frames, whole_packets, Frame, Subframe,
    FRAME_BYTES, FRAME_SIZE, PAYLOAD_TYPE, PITCH_MAX, SUBFRAME_SIZE,
};

fn sample_frame() -> Frame {
    Frame {
        lsp_low: 0x21,
        lsp_high: 0x43,
        first: Subframe { pitch: 0x55, pitch_gain: 5, code: 0x1abc, code_gain: 9 },
        second: Subframe { pitch: 0x2f, pitch_gain: 3, code: 0x0def, code_gain: 12 },
    }
}

#[test]
fn a_frame_is_packed_field_by_field() {
    let bytes = pack_frame(&sample_frame());
    assert_eq!(bytes, [0x21, 0x43, 0x55, 0xba, 0xbc, 0x92, 0xf6, 0xde, 0xfc, 0x00]);
}

#[test]
fn a_packed_frame_is_read_back() {
    let frame = sample_frame();
    let read = unpack_frame(&pack_frame(&frame)).unwrap();
    assert_eq!(read.lsp_low, 0x21);
    assert_eq!(read.lsp_high, 0x43);
    assert_eq!(read.first.lag, 0x55 + 20);
    assert_eq!(read.first.pitch_gain, 5);
    assert_eq!(read.first.code, 0x1abc);
    assert_eq!(read.first.code_gain, 9);
    assert_eq!(read.second.pitch_gain, 3);
    assert_eq!(read.second.code, 0x0def);
    assert_eq!(read.second.code_gain, 12);
}

#[test]
fn a_second_lag_is_read_where_its_halves_do_not_overlap() {
    let mut frame = sample_frame();
    frame.second.pitch = 0x23;
    assert_eq!(unpack_frame(&pack_frame(&frame)).unwrap().second.lag, 0x23 + 20);
    // Here the halves have a bit in common, and it counts once.
    frame.second.pitch = 0x13;
    assert_eq!(unpack_frame(&pack_frame(&frame)).unwrap().second.lag, 0x10 | (0x03 + 20));
}

#[test]
fn lags_are_bounded_when_read() {
    let mut bytes = [0u8; FRAME_BYTES];
    bytes[2] = 255;
    bytes[5] = 0x0f;
    let read = unpack_frame(&bytes).unwrap();
    assert_eq!(read.first.lag, PITCH_MAX);
    assert_eq!(read.second.lag, PITCH_MAX);
}

#[test]
fn short_data_holds_no_frame() {
    assert!(unpack_frame(&[0; 9]).is_none());
    assert!(unpack_frame(&[]).is_none());
    assert_eq!(whole_packets(29), 2);
    assert_eq!(whole_frames(239), 2);
    assert_eq!(PAYLOAD_TYPE, 18);
    assert_eq!(FRAME_SIZE, 2 * SUBFRAME_SIZE);
}

#[test]
fn indices_are_quantized_within_their_fields() {
    let s = quantize_subframe(143, 200, 0xffff, 99);
    assert_eq!(s, Subframe { pitch: 123, pitch_gain: 7, code: 0x1fff, code_gain: 15 });
    let s = quantize_subframe(20, 4, 0x0123, 8);
    assert_eq!(s, Subframe { pitch: 0, pitch_gain: 4, code: 0x0123, code_gain: 8 });
}

#[test]
fn deltas_are_quantized_and_read_back() {
    let (low, high) = quantize_lsp(&[-7, 8, 0, 3]);
    assert_eq!((low, high), (0xf0, 0xa7));
    assert_eq!(dequantize_lsp(low, high), [-7, 8, 0, 3]);
    let (low, high) = quantize_lsp(&[-100, 100, i32::MIN, i32::MAX]);
    assert_eq!(dequantize_lsp(low, high), [-7, 8, -7, 8]);
}

#[test]
fn an_index_names_four_pulses() {
    assert_eq!(pulse_pattern(0), [(0, false), (1, false), (2, true), (3, true)]);
    assert_eq!(
        pulse_pattern(0x1000 | 7 | 6 << 3 | 5 << 6 | 4 << 9),
        [(35, true), (31, true), (27, false), (23, false)]
    );
}

#[test]
fn histories_move_on() {
    assert_eq!(push_history(&[1, 2, 3, 4], &[5, 6]), [3, 4, 5, 6]);
    let history: Vec<i32> = (0..223).collect();
    let new: Vec<i32> = (1000..1040).collect();
    let moved = push_excitation(&history, &new);
    assert_eq!(moved.len(), 223);
    assert_eq!(moved[0], 40);
    assert_eq!(moved[102], 142);
    assert_eq!(moved[103], 1000);
    assert_eq!(moved[142], 1039);
    assert_eq!(moved[143], 183);
    assert_eq!(moved[182], 222);
    assert_eq!(moved[183], 183);
    assert_eq!(prediction_index(143, 0), 0);
    assert_eq!(prediction_index(20, 39), 162);
}
