use rtp_engine::codec::opus_codec::{
    append_encoded, downsample_into, upsample, MAX_DECODED, MAX_ENCODED,
};

/// The interpolation in floating point.
fn interpolated(pcm: &[i16]) -> Vec<i16> {
    let mut out = Vec::new();
    for i in 0..pcm.len() {
        let current = f64::from(pcm[i]);
        let next = f64::from(*pcm.get(i + 1).unwrap_or(&pcm[i]));
        for j in 0..6 {
            out.push((current + (next - current) * (f64::from(j) / 6.0)) as i16);
        }
    }
    out
}

#[test]
fn interpolation_is_that_of_floating_point() {
    let mut state: u32 = 12345;
    let mut pcm = vec![i16::MIN, i16::MAX, i16::MIN, 0, -1, 1, -6, 6, 7];
    for _ in 0..50_000 {
        state = state.wrapping_mul(1_664_525).wrapping_add(1_013_904_223);
        pcm.push((state >> 16) as u16 as i16);
    }
    assert_eq!(upsample(&pcm), interpolated(&pcm));
}

#[test]
fn a_short_frame_is_interpolated() {
    assert_eq!(upsample(&[0, 6]), [0, 1, 2, 3, 4, 5, 6, 6, 6, 6, 6, 6]);
    assert_eq!(upsample(&[0, -7])[..6], [0, -1, -2, -3, -4, -5]);
    assert!(upsample(&[]).is_empty());
}

#[test]
fn thinning_out_undoes_interpolation() {
    let pcm: Vec<i16> = (0..160).map(|i| (i * 401 % 30_011) as i16 - 15_000).collect();
    let up = upsample(&pcm);
    assert_eq!(up.len(), 960);
    let mut out = vec![9i16];
    downsample_into(&up, up.len(), &mut out);
    assert_eq!(out[0], 9);
    assert_eq!(out[1..], pcm[..]);
}

#[test]
fn interpolated_samples_lie_between_their_neighbours() {
    let pcm = [100i16, -250, -250, 32767, -32768];
    let up = upsample(&pcm);
    for i in 0..pcm.len() - 1 {
        let (low, high) = (pcm[i].min(pcm[i + 1]), pcm[i].max(pcm[i + 1]));
        assert!(up[i * 6..i * 6 + 6].iter().all(|s| low <= *s && *s <= high));
    }
}

#[test]
fn only_decoded_samples_are_thinned_out() {
    let decoded: Vec<i16> = (0..20).collect();
    let mut out = Vec::new();
    downsample_into(&decoded, 13, &mut out);
    assert_eq!(out, [0, 6, 12]);
    downsample_into(&decoded, 0, &mut out);
    assert_eq!(out, [0, 6, 12]);
    downsample_into(&decoded, 12, &mut out);
    assert_eq!(out, [0, 6, 12, 0, 6]);
}

#[test]
fn a_refused_frame_consumes_nothing() {
    let mut out = vec![1u8];
    assert_eq!(append_encoded(Some(&[2, 3]), 160, &mut out), 160);
    assert_eq!(out, [1, 2, 3]);
    assert_eq!(append_encoded(None, 160, &mut out), 0);
    assert_eq!(out, [1, 2, 3]);
    assert_eq!(MAX_DECODED, 5760);
    assert_eq!(MAX_ENCODED, 4000);
}
