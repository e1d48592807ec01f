use rtp_engine::rtp::{RtpCounters, RtpStats};

#[test]
fn test_counters_basic() {
    let mut counters = RtpCounters::new("PCMU");

    counters.record_sent(172);
    counters.record_sent(172);
    counters.record_received(172, 1);
    counters.record_received(172, 2);

    let stats = counters.snapshot();
    assert_eq!(stats.packets_sent, 2);
    assert_eq!(stats.packets_received, 2);
    assert_eq!(stats.bytes_sent, 344);
    assert_eq!(stats.bytes_received, 344);
    assert_eq!(stats.codec_name, "PCMU");
}

#[test]
fn stats_test_jitter_calculation() {
    let mut counters = RtpCounters::new("PCMU");

    // Simulate varying transit times
    counters.update_jitter(1000);
    counters.update_jitter(2000);
    counters.update_jitter(500);

    let stats = counters.snapshot();
    assert!(stats.jitter_us as f64 / 1000.0 > 0.0);
}

#[test]
fn stats_test_reset() {
    let mut counters = RtpCounters::new("PCMU");

    counters.record_sent(100);
    counters.record_received(100, 1);
    counters.reset();

    let stats = counters.snapshot();
    assert_eq!(stats.packets_sent, 0);
    assert_eq!(stats.packets_received, 0);
}

#[test]
fn test_sequence_rollover_forward() {
    let mut counters = RtpCounters::new("PCMU");

    // Start near the rollover point
    counters.record_received(100, 65534);
    assert_eq!(counters.seq_cycles(), 0);
    assert_eq!(counters.extended_highest_seq(), 65534);

    counters.record_received(100, 65535);
    assert_eq!(counters.seq_cycles(), 0);
    assert_eq!(counters.extended_highest_seq(), 65535);

    // Rollover: 65535 -> 0
    counters.record_received(100, 0);
    assert_eq!(counters.seq_cycles(), 1);
    assert_eq!(counters.extended_highest_seq(), 1 << 16); // cycle 1, seq 0

    counters.record_received(100, 1);
    assert_eq!(counters.seq_cycles(), 1);
    assert_eq!(counters.extended_highest_seq(), (1 << 16) | 1);

    // Continue normally in cycle 1
    counters.record_received(100, 2);
    counters.record_received(100, 3);
    assert_eq!(counters.seq_cycles(), 1);
    assert_eq!(counters.extended_highest_seq(), (1 << 16) | 3);
}

#[test]
fn test_second_rollover_sequential() {
    let mut counters = RtpCounters::new("PCMU");

    // Start in cycle 0 near rollover
    counters.record_received(100, 65534);
    counters.record_received(100, 65535);
    counters.record_received(100, 0); // -> cycle 1
    assert_eq!(counters.seq_cycles(), 1);

    // Progress sequentially through cycle 1
    // (In real RTP, packets arrive sequentially)
    for seq in 1u16..=65535 {
        counters.record_received(100, seq);
    }
    // Now rollover again
    counters.record_received(100, 0); // -> cycle 2
    assert_eq!(counters.seq_cycles(), 2);
    assert_eq!(counters.extended_highest_seq(), 2 << 16); // cycle 2, seq 0
}

#[test]
fn test_small_gap_near_rollover() {
    let mut counters = RtpCounters::new("PCMU");

    // Test small gaps (realistic packet loss) near rollover
    counters.record_received(100, 65530);
    counters.record_received(100, 65531);
    // Skip 65532 (lost)
    counters.record_received(100, 65533);
    counters.record_received(100, 65534);
    counters.record_received(100, 65535);
    // Rollover
    counters.record_received(100, 0);
    assert_eq!(counters.seq_cycles(), 1);
    // Skip 1 (lost)
    counters.record_received(100, 2);
    counters.record_received(100, 3);

    assert_eq!(counters.seq_cycles(), 1);
    assert_eq!(counters.extended_highest_seq(), (1 << 16) | 3);
}

#[test]
fn test_sequence_reorder_near_rollover() {
    let mut counters = RtpCounters::new("PCMU");

    // Receive packet 65534
    counters.record_received(100, 65534);
    assert_eq!(counters.seq_cycles(), 0);

    // Receive packet 0 (rollover)
    counters.record_received(100, 0);
    assert_eq!(counters.seq_cycles(), 1);

    // Late arrival of 65535 from before rollover
    // Should not increment cycles further
    counters.record_received(100, 65535);
    assert_eq!(counters.seq_cycles(), 1);

    // Continue normally
    counters.record_received(100, 1);
    counters.record_received(100, 2);
    assert_eq!(counters.extended_highest_seq(), (1 << 16) | 2);
}

#[test]
fn test_expected_packets_with_rollover() {
    let mut counters = RtpCounters::new("PCMU");

    // Start at 65530
    counters.record_received(100, 65530);

    // Go to 5 (across rollover)
    for seq in 65531..=65535 {
        counters.record_received(100, seq);
    }
    for seq in 0..=5 {
        counters.record_received(100, seq);
    }

    let stats = counters.snapshot();
    // Expected: 65530 to 65535 (6) + 0 to 5 (6) = 12 packets
    // But we also count from base_seq to highest, so:
    // base = 65530, highest = (1 << 16) | 5 = 65541
    // expected = 65541 - 65530 + 1 = 12
    assert_eq!(stats.packets_received, 12);
    assert_eq!(stats.extended_highest_seq, (1 << 16) | 5);
}

#[test]
fn test_multiple_rollovers() {
    let mut counters = RtpCounters::new("PCMU");

    counters.record_received(100, 0);

    // Simulate 3 full cycles
    for cycle in 0..3 {
        for seq in 1..=65535u16 {
            counters.record_received(100, seq);
        }
        counters.record_received(100, 0);
        assert_eq!(
            counters.seq_cycles(),
            cycle + 1,
            "After cycle {}, expected {} cycles",
            cycle,
            cycle + 1
        );
    }

    assert_eq!(counters.seq_cycles(), 3);
}

#[test]
fn test_packet_loss_calculation() {
    let mut counters = RtpCounters::new("PCMU");

    // Receive packets 0, 1, 2, 5, 6 (missing 3, 4)
    counters.record_received(100, 0);
    counters.record_received(100, 1);
    counters.record_received(100, 2);
    counters.record_received(100, 5);
    counters.record_received(100, 6);

    let stats = counters.snapshot();
    assert_eq!(stats.packets_received, 5);
    // Expected: 0 to 6 = 7 packets
    // Lost: 7 - 5 = 2
    assert_eq!(stats.packets_lost, 2);
}

/// The filter in floating point.
fn filtered(jitter: u64, diff: u64) -> u64 {
    let prev = jitter as f64;
    (prev + (diff as f64 - prev) / 16.0) as u64
}

#[test]
fn the_jitter_filter_is_that_of_floating_point() {
    let mut state: u64 = 99;
    let mut counters = RtpCounters::new("PCMU");
    let mut expected = 0u64;
    let mut diffs = vec![0, 1, 15, 16, 17, u64::MAX, u64::MAX - 1, 1 << 53, (1 << 53) + 1];
    for i in 0..20_000u32 {
        state = state.wrapping_mul(6_364_136_223_846_793_005).wrapping_add(1_442_695_040_888_963_407);
        diffs.push(state >> (i % 60));
    }
    for diff in diffs {
        counters.update_jitter(diff);
        expected = filtered(expected, diff);
        assert_eq!(counters.snapshot().jitter_us, expected);
    }
}

#[test]
fn small_jitter_is_filtered_exactly() {
    let mut counters = RtpCounters::new("PCMU");
    counters.update_jitter(1600);
    assert_eq!(counters.snapshot().jitter_us, 100);
    counters.update_jitter(100);
    assert_eq!(counters.snapshot().jitter_us, 100);
    counters.update_jitter(0);
    assert_eq!(counters.snapshot().jitter_us, 93);
}

#[test]
fn a_late_packet_changes_no_numbers() {
    let mut counters = RtpCounters::new("PCMU");
    counters.record_received(10, 100);
    counters.record_received(10, 105);
    counters.record_received(10, 103);
    let stats = counters.snapshot();
    assert_eq!(stats.extended_highest_seq, 105);
    assert_eq!(stats.packets_lost, 3);
    assert_eq!(stats.bytes_received, 30);
    assert_eq!(stats.seq_cycles, 0);
}

#[test]
fn a_packet_from_before_the_first_is_late() {
    let mut counters = RtpCounters::new("PCMU");
    counters.record_received(100, 5);
    counters.record_received(100, 65535);
    assert_eq!(counters.extended_highest_seq(), 5);
    assert_eq!(counters.seq_cycles(), 0);
    assert_eq!(counters.expected_packets, 1);
    let stats = counters.snapshot();
    assert_eq!(stats.packets_received, 2);
    assert_eq!(stats.bytes_received, 200);
    assert_eq!(stats.packets_lost, 0);
    // The stream goes on from there.
    counters.record_received(100, 6);
    assert_eq!(counters.extended_highest_seq(), 6);
    assert_eq!(counters.expected_packets, 2);
}

#[test]
fn every_packet_counts_at_the_nearest_number() {
    let mut counters = RtpCounters::new("PCMU");
    counters.record_received(1, 40_000);
    // Half the sequence space ahead or behind is taken in the same cycle.
    counters.record_received(1, 7_232);
    assert_eq!(counters.extended_highest_seq(), 40_000);
    counters.record_received(1, 7_231);
    assert_eq!(counters.extended_highest_seq(), 65_536 + 7_231);
    counters.record_received(1, 39_999);
    assert_eq!(counters.extended_highest_seq(), 65_536 + 39_999);
    // A packet of the cycle before, and a duplicate.
    counters.record_received(1, 7_500);
    counters.record_received(1, 39_999);
    assert_eq!(counters.extended_highest_seq(), 65_536 + 39_999);
    assert_eq!(counters.expected_packets, 65_536);
    assert_eq!(counters.snapshot().packets_received, 6);
}

#[test]
fn a_whole_stream_loses_nothing() {
    let mut counters = RtpCounters::new("PCMU");
    let mut seq = 65_000u16;
    for _ in 0..1000 {
        counters.record_received(1, seq);
        seq = seq.wrapping_add(1);
    }
    assert_eq!(counters.snapshot().packets_lost, 0);
    assert_eq!(counters.seq_cycles(), 1);
}

#[test]
fn default_stats_are_empty() {
    let stats = RtpStats::default();
    assert_eq!(stats.packets_sent, 0);
    assert_eq!(stats.codec_name, "");
    assert_eq!(stats.jitter_us, 0);
}
