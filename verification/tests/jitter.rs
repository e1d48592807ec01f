use rtp_engine::jitter::{JitterBuffer, JitterConfig, JitterMode};
use std::time::{Duration, Instant};

/// Waits until the clock has moved on by `time`.
fn wait(time: Duration) {
    let start = Instant::now();
    while start.elapsed() < time {
        std::hint::spin_loop();
    }
}

#[test]
fn test_fixed_jitter_buffer_basic() {
    let config = JitterConfig {
        mode: JitterMode::Fixed { delay_ms: 20 },
        clock_rate: 8000,
        max_packets: 10,
    };
    let mut jitter = JitterBuffer::new(config);

    // Push some packets
    assert!(jitter.push(0, 0, vec![1, 2, 3]));
    assert!(jitter.push(1, 160, vec![4, 5, 6]));
    assert!(jitter.push(2, 320, vec![7, 8, 9]));

    assert_eq!(jitter.len(), 3);

    // Wait for delay
    wait(Duration::from_millis(25));

    // Pop packets in order
    let p1 = jitter.pop(0).unwrap();
    assert_eq!(p1.seq, 0);
    assert_eq!(p1.payload, vec![1, 2, 3]);

    let p2 = jitter.pop(0).unwrap();
    assert_eq!(p2.seq, 1);

    let p3 = jitter.pop(0).unwrap();
    assert_eq!(p3.seq, 2);
}

#[test]
fn test_packet_reordering() {
    let config = JitterConfig {
        mode: JitterMode::Fixed { delay_ms: 10 },
        clock_rate: 8000,
        max_packets: 10,
    };
    let mut jitter = JitterBuffer::new(config);

    // Push packets out of order
    jitter.push(2, 320, vec![3]);
    jitter.push(0, 0, vec![1]);
    jitter.push(1, 160, vec![2]);

    wait(Duration::from_millis(15));

    // Should come out in order
    assert_eq!(jitter.pop(0).unwrap().seq, 0);
    assert_eq!(jitter.pop(0).unwrap().seq, 1);
    assert_eq!(jitter.pop(0).unwrap().seq, 2);
}

#[test]
fn test_packet_loss_detection() {
    let config = JitterConfig {
        mode: JitterMode::Fixed { delay_ms: 10 },
        clock_rate: 8000,
        max_packets: 10,
    };
    let mut jitter = JitterBuffer::new(config);

    // Push packets with gap (missing seq 1)
    jitter.push(0, 0, vec![1]);
    jitter.push(2, 320, vec![3]);

    wait(Duration::from_millis(15));

    // First packet normal
    let p1 = jitter.pop(0).unwrap();
    assert_eq!(p1.seq, 0);
    assert!(!p1.synthesized);

    // Second packet is synthesized (loss)
    let p2 = jitter.pop(0).unwrap();
    assert_eq!(p2.seq, 1);
    assert!(p2.synthesized);
    assert!(p2.payload.is_empty());

    // Third packet normal
    let p3 = jitter.pop(0).unwrap();
    assert_eq!(p3.seq, 2);
    assert!(!p3.synthesized);

    let stats = jitter.stats();
    assert_eq!(stats.packets_lost, 1);
}

#[test]
fn test_late_packet_dropped() {
    let config = JitterConfig {
        mode: JitterMode::Fixed { delay_ms: 5 },
        clock_rate: 8000,
        max_packets: 10,
    };
    let mut jitter = JitterBuffer::new(config);

    jitter.push(0, 0, vec![1]);
    jitter.push(1, 160, vec![2]);

    wait(Duration::from_millis(10));

    // Play first packet
    jitter.pop(0);

    // Try to push packet 0 again (too late)
    assert!(!jitter.push(0, 0, vec![1]));

    let stats = jitter.stats();
    assert_eq!(stats.packets_dropped, 1);
}

#[test]
fn test_adaptive_jitter_buffer() {
    let config = JitterConfig {
        mode: JitterMode::Adaptive {
            target_ms: 40,
            min_ms: 20,
            max_ms: 200,
        },
        clock_rate: 8000,
        max_packets: 20,
    };
    let mut jitter = JitterBuffer::new(config);

    assert_eq!(jitter.delay_ms(), 40); // Starts at target

    // Push packets with simulated jitter
    for i in 0..10u16 {
        jitter.push(i, i as u32 * 160, vec![i as u8]);
        wait(Duration::from_millis(5)); // Varying arrival
    }

    wait(Duration::from_millis(50));

    // Pop packets and check adaptation
    for _ in 0..5 {
        jitter.pop(0);
    }

    // Delay should have adapted (may increase or decrease)
    let delay = jitter.delay_ms();
    assert!(delay >= 20 && delay <= 200);
}

#[test]
fn test_sequence_rollover_in_jitter_buffer() {
    let config = JitterConfig {
        mode: JitterMode::Fixed { delay_ms: 5 },
        clock_rate: 8000,
        max_packets: 10,
    };
    let mut jitter = JitterBuffer::new(config);

    // Push packets near rollover
    jitter.push(65534, 0, vec![1]);
    jitter.push(65535, 160, vec![2]);
    jitter.push(0, 320, vec![3]); // Rollover
    jitter.push(1, 480, vec![4]);

    wait(Duration::from_millis(10));

    // Should come out in order across rollover
    assert_eq!(jitter.pop(0).unwrap().seq, 65534);
    assert_eq!(jitter.pop(0).unwrap().seq, 65535);
    assert_eq!(jitter.pop(0).unwrap().seq, 0);
    assert_eq!(jitter.pop(0).unwrap().seq, 1);
}

#[test]
fn test_buffer_overflow() {
    let config = JitterConfig {
        mode: JitterMode::Fixed { delay_ms: 100 },
        clock_rate: 8000,
        max_packets: 3,
    };
    let mut jitter = JitterBuffer::new(config);

    // Push more than max
    jitter.push(0, 0, vec![1]);
    jitter.push(1, 160, vec![2]);
    jitter.push(2, 320, vec![3]);
    jitter.push(3, 480, vec![4]); // Should drop oldest

    assert_eq!(jitter.len(), 3);

    let stats = jitter.stats();
    assert_eq!(stats.packets_dropped, 1);
}

#[test]
fn jitter_test_reset() {
    let config = JitterConfig::default();
    let mut jitter = JitterBuffer::new(config);

    jitter.push(0, 0, vec![1]);
    jitter.push(1, 160, vec![2]);

    jitter.reset();

    assert!(jitter.is_empty());
    assert_eq!(jitter.stats().packets_received, 0);
}

#[test]
fn test_flush() {
    let config = JitterConfig::default();
    let mut jitter = JitterBuffer::new(config);

    jitter.push(0, 0, vec![1]);
    jitter.push(1, 160, vec![2]);
    jitter.push(2, 320, vec![3]);

    let flushed = jitter.flush();
    assert_eq!(flushed.len(), 3);
    assert!(jitter.is_empty());
}

#[test]
fn jitter_test_jitter_calculation() {
    let config = JitterConfig {
        mode: JitterMode::Fixed { delay_ms: 10 },
        clock_rate: 8000,
        max_packets: 20,
    };
    let mut jitter = JitterBuffer::new(config);

    // Simulate packets with varying inter-arrival times
    let start = Instant::now();
    jitter.push_at(0, 0, vec![1], start, 0);
    assert_eq!(jitter.transit_change(), None);
    jitter.push_at(1, 160, vec![2], start, 20_000);
    assert_eq!(jitter.transit_change(), Some(0));
    jitter.push_at(2, 320, vec![3], start, 45_000);
    // 5 ms late are 40 ticks of the clock.
    assert_eq!(jitter.transit_change(), Some(40));
    jitter.push_at(3, 480, vec![4], start, 60_000);
    assert_eq!(jitter.transit_change(), Some(40));
}

#[test]
fn test_stats() {
    let config = JitterConfig {
        mode: JitterMode::Fixed { delay_ms: 5 },
        clock_rate: 8000,
        max_packets: 10,
    };
    let mut jitter = JitterBuffer::new(config);

    jitter.push(0, 0, vec![1]);
    jitter.push(1, 160, vec![2]);
    // Skip seq 2
    jitter.push(3, 480, vec![4]);

    wait(Duration::from_millis(10));

    jitter.pop(0); // seq 0
    jitter.pop(0); // seq 1
    jitter.pop(0); // seq 2 (synthesized)
    jitter.pop(0); // seq 3

    let stats = jitter.stats();
    assert_eq!(stats.packets_received, 3);
    assert_eq!(stats.packets_played, 4);
    assert_eq!(stats.packets_lost, 1);
}

fn fixed(delay_ms: u32, max_packets: usize) -> JitterBuffer {
    JitterBuffer::new(JitterConfig {
        mode: JitterMode::Fixed { delay_ms },
        clock_rate: 8000,
        max_packets,
    })
}

#[test]
fn playout_waits_for_the_delay() {
    let now = Instant::now();
    let mut jitter = fixed(20, 10);
    assert!(jitter.pop_at(now, 1_000_000, 0).is_none());
    assert!(jitter.push_at(7, 0, vec![1], now, 0));
    assert!(jitter.pop_at(now, 19_999, 0).is_none());
    let packet = jitter.pop_at(now, 20_000, 0).unwrap();
    assert_eq!(packet.seq, 7);
    // From then on a packet is due every time.
    let missing = jitter.pop_at(now, 20_000, 0).unwrap();
    assert_eq!(missing.seq, 8);
    assert!(missing.synthesized);
    // It carries on from the first packet's timestamp, 20 ms to a packet.
    assert_eq!(missing.timestamp, 160);
    assert_eq!(jitter.pop_at(now, 20_000, 0).unwrap().timestamp, 320);
}

#[test]
fn played_places_stay_closed() {
    let now = Instant::now();
    let mut jitter = fixed(0, 10);
    jitter.push_at(5, 0, vec![1], now, 0);
    jitter.push_at(7, 320, vec![3], now, 0);
    assert_eq!(jitter.pop_at(now, 0, 0).unwrap().seq, 5);
    assert!(jitter.pop_at(now, 0, 0).unwrap().synthesized);
    // Packet 6 comes too late.
    assert!(!jitter.push_at(6, 160, vec![2], now, 0));
    assert_eq!(jitter.pop_at(now, 0, 0).unwrap().payload, [3]);
    let stats = jitter.stats();
    assert_eq!(stats.packets_received, 3);
    assert_eq!(stats.packets_dropped, 1);
    assert_eq!(stats.packets_lost, 1);
    assert_eq!(stats.packets_played, 3);
}

#[test]
fn the_oldest_packet_makes_room() {
    let now = Instant::now();
    let mut jitter = fixed(0, 2);
    for seq in 0..4u16 {
        assert!(jitter.push_at(seq, u32::from(seq) * 160, vec![seq as u8], now, 0));
    }
    assert_eq!(jitter.len(), 2);
    assert_eq!(jitter.stats().packets_dropped, 2);
    assert_eq!(jitter.pop_at(now, 0, 0).unwrap().seq, 2);
}

#[test]
fn flushing_gives_the_packets_in_order() {
    let now = Instant::now();
    let mut jitter = fixed(0, 10);
    for seq in [65535u16, 1, 0, 2] {
        jitter.push_at(seq, 0, vec![seq as u8], now, 0);
    }
    let seqs: Vec<u16> = jitter.flush().iter().map(|p| p.seq).collect();
    assert_eq!(seqs, [65535, 0, 1, 2]);
    assert!(jitter.is_empty());
}

#[test]
fn the_delay_follows_the_jitter_within_its_bounds() {
    let now = Instant::now();
    let mut jitter = JitterBuffer::new(JitterConfig {
        mode: JitterMode::Adaptive { target_ms: 40, min_ms: 20, max_ms: 60 },
        clock_rate: 8000,
        max_packets: 50,
    });
    jitter.push_at(0, 0, vec![1], now, 0);
    assert_eq!(jitter.delay_ms(), 40);
    let mut last = 40;
    for _ in 0..50 {
        jitter.pop_at(now, 40_000, 500);
        assert!(jitter.delay_ms() >= last && jitter.delay_ms() <= 60);
        last = jitter.delay_ms();
    }
    assert_eq!(last, 60);
    for _ in 0..200 {
        jitter.pop_at(now, 40_000, 0);
        assert!(jitter.delay_ms() <= last && jitter.delay_ms() >= 20);
        last = jitter.delay_ms();
    }
    // A fixed delay stays.
    let mut fixed_delay = fixed(30, 10);
    fixed_delay.push_at(0, 0, vec![1], now, 0);
    fixed_delay.pop_at(now, 30_000, 500);
    assert_eq!(fixed_delay.delay_ms(), 30);
}

#[test]
fn the_default_buffer_adapts_around_sixty_milliseconds() {
    let config = JitterConfig::default();
    assert_eq!(config.mode, JitterMode::default());
    assert_eq!(
        config.mode,
        JitterMode::Adaptive { target_ms: 60, min_ms: 20, max_ms: 200 }
    );
    assert_eq!(config.clock_rate, 8000);
    let buffer = JitterBuffer::new(config);
    assert!(buffer.is_empty());
    assert_eq!(buffer.delay_ms(), 60);
    assert_eq!(buffer.elapsed_us(&Instant::now()), 0);
}

#[test]
fn elapsed_time_counts_from_the_first_packet() {
    let mut buffer = fixed(30, 10);
    let first = Instant::now();
    buffer.push_at(0, 0, vec![1], first, 0);
    buffer.push_at(1, 160, vec![2], first + Duration::from_millis(20), 20_000);
    assert_eq!(buffer.elapsed_us(&first), 0);
    assert_eq!(buffer.elapsed_us(&(first + Duration::from_micros(30_250))), 30_250);
    // Parts of a microsecond do not count.
    assert_eq!(buffer.elapsed_us(&(first + Duration::from_nanos(1_999))), 1);
}

#[test]
fn a_late_packet_at_the_wrap_leaves_the_next_one_in_time() {
    let mut buffer = fixed(0, 10);
    buffer.push(65535, 0, vec![1]);
    buffer.push(0, 160, vec![2]);
    assert_eq!(buffer.pop(0).unwrap().seq, 65535);
    assert_eq!(buffer.pop(0).unwrap().seq, 0);
    assert!(!buffer.push(65535, 0, vec![1]));
    assert!(!buffer.push(65535, 0, vec![1]));
    // The next packet to play is neither late nor is the buffer full.
    assert!(buffer.push(1, 320, vec![3]));
    assert_eq!(buffer.len(), 1);
    assert_eq!(buffer.stats().packets_dropped, 2);
    assert_eq!(buffer.pop(0).unwrap().payload, [3]);
    assert!(buffer.push(2, 480, vec![4]));
}

#[test]
fn packets_swapped_at_the_wrap_come_out_in_order() {
    let now = Instant::now();
    let mut buffer = fixed(0, 10);
    assert!(buffer.push_at(0, 160, vec![2], now, 0));
    assert!(buffer.push_at(65535, 0, vec![1], now, 0));
    assert!(buffer.push_at(1, 320, vec![3], now, 0));
    for (seq, payload) in [(65535, 1u8), (0, 2), (1, 3)] {
        let packet = buffer.pop_at(now, 0, 0).unwrap();
        assert_eq!(packet.seq, seq);
        assert_eq!(packet.payload, [payload]);
        assert!(!packet.synthesized);
    }
    assert_eq!(buffer.stats().packets_lost, 0);
}

#[test]
fn packets_long_before_the_first_are_buffered() {
    let now = Instant::now();
    let mut buffer = fixed(1000, 10);
    // Each lies about half the sequence space before the last.
    for (i, seq) in [40_000, 8_000, 41_500, 9_500, 43_000].into_iter().enumerate() {
        assert!(buffer.push_at(seq, 0, vec![i as u8], now, 0));
    }
    assert_eq!(buffer.len(), 5);
    assert_eq!(buffer.stats().packets_dropped, 0);
    assert!(!buffer.is_due(999_999));
    assert!(buffer.is_due(1_000_000));
    assert_eq!(buffer.pop_at(now, 1_000_000, 0).unwrap().seq, 43_000);
    let rest: Vec<u16> = buffer.flush().iter().map(|p| p.seq).collect();
    assert_eq!(rest, [9_500, 41_500, 8_000, 40_000]);
}

#[test]
fn concealment_before_the_first_packet_counts_back() {
    let now = Instant::now();
    let mut buffer = fixed(0, 10);
    buffer.push_at(10, 1_600, vec![3], now, 0);
    buffer.push_at(7, 1_120, vec![1], now, 0);
    assert_eq!(buffer.pop_at(now, 0, 0).unwrap().seq, 7);
    let missing = buffer.pop_at(now, 0, 0).unwrap();
    assert!(missing.synthesized);
    assert_eq!(missing.timestamp, 1_280);
    // The timestamp wraps as the sender's does.
    let mut buffer = fixed(0, 10);
    buffer.push_at(10, u32::MAX, vec![3], now, 0);
    buffer.pop_at(now, 0, 0);
    assert_eq!(buffer.pop_at(now, 0, 0).unwrap().timestamp, 159);
}
