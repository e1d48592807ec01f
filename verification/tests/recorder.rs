use rtp_engine::recorder::{recording_filename, Channel};
use rtp_engine::{generate_recording_filename, CallRecorder, RecorderHandle};
use std::path::PathBuf;

#[test]
fn test_recorder_creation() {
    let path = PathBuf::from("/tmp/test_recording.wav");
    let recorder = CallRecorder::new(path.clone(), 8000);

    assert!(!recorder.is_recording());
    assert_eq!(recorder.output_path(), &path);
}

#[test]
fn test_recorder_handle() {
    let path = PathBuf::from("/tmp/test_handle.wav");
    let mut recorder = CallRecorder::new(path, 8000);

    let tx_handle = recorder.tx_handle();
    let rx_handle = recorder.rx_handle();

    // Not recording yet
    assert!(!tx_handle.is_recording(&recorder));

    recorder.start();
    assert!(tx_handle.is_recording(&recorder));
    assert!(rx_handle.is_recording(&recorder));

    // Add samples
    tx_handle.add_samples(&mut recorder, &[100, 200, 300]);
    rx_handle.add_samples(&mut recorder, &[-100, -200, -300]);

    // Stop doesn't fail
    let _ = recorder.stop();
}

#[test]
fn test_recorder_write_wav() {
    let path = PathBuf::from("/tmp/rtp_engine_test/test_write.wav");

    let mut recorder = CallRecorder::new(path.clone(), 8000);
    recorder.start();

    let tx = recorder.tx_handle();
    let rx = recorder.rx_handle();

    // Add a short sine wave
    let samples: Vec<i16> = (0..800)
        .map(|i| ((i as f64 * 0.1).sin() * 16000.0) as i16)
        .collect();

    tx.add_samples(&mut recorder, &samples);
    rx.add_samples(&mut recorder, &samples);

    let result = recorder.stop();
    assert!(result.is_some());

    // Verify the image has reasonable size
    assert!(result.unwrap().len() > 44); // At least WAV header
}

#[test]
fn test_generate_filename() {
    let dir = PathBuf::from("/recordings");
    let filename = dir.join(generate_recording_filename("test-call-123"));

    assert!(filename.to_string_lossy().contains("call_"));
    assert!(filename.to_string_lossy().ends_with(".wav"));
    assert!(filename.starts_with(&dir));
}

#[test]
fn test_recorder_empty() {
    let path = PathBuf::from("/tmp/rtp_engine_test/test_empty.wav");

    let mut recorder = CallRecorder::new(path.clone(), 8000);
    recorder.start();
    // Don't add any samples
    let result = recorder.stop();

    // Should succeed without an image to write
    assert!(result.is_none());
    assert_eq!(recorder.output_path(), &path);
}

#[test]
fn a_wav_image_is_exact() {
    let mut recorder = CallRecorder::new(PathBuf::from("x.wav"), 8000);
    let tx = RecorderHandle { channel: Channel::Tx };
    let rx = RecorderHandle { channel: Channel::Rx };
    assert!(recorder.can_write());
    // Before the start nothing is taken.
    tx.add_samples(&mut recorder, &[1, 2, 3]);
    recorder.start();
    tx.add_samples(&mut recorder, &[1, -2]);
    rx.add_samples(&mut recorder, &[0x1234]);
    let image = recorder.stop().unwrap();
    assert!(!recorder.is_recording());
    let mut expected = b"RIFF".to_vec();
    expected.extend_from_slice(&44u32.to_le_bytes());
    expected.extend_from_slice(b"WAVEfmt ");
    expected.extend_from_slice(&16u32.to_le_bytes());
    expected.extend_from_slice(&1u16.to_le_bytes());
    expected.extend_from_slice(&2u16.to_le_bytes());
    expected.extend_from_slice(&8000u32.to_le_bytes());
    expected.extend_from_slice(&32000u32.to_le_bytes());
    expected.extend_from_slice(&4u16.to_le_bytes());
    expected.extend_from_slice(&16u16.to_le_bytes());
    expected.extend_from_slice(b"data");
    expected.extend_from_slice(&8u32.to_le_bytes());
    for sample in [1i16, 0x1234, -2, 0] {
        expected.extend_from_slice(&sample.to_le_bytes());
    }
    assert_eq!(image, expected);
    // What comes later is not taken.
    rx.add_samples(&mut recorder, &[5]);
    assert_eq!(recorder.write_wav().unwrap(), expected);
}

#[test]
fn the_sizes_in_a_wav_header_are_those_of_the_file() {
    let mut recorder = CallRecorder::new(PathBuf::from("x.wav"), 16000);
    recorder.start();
    recorder.rx_handle().add_samples(&mut recorder, &[7; 123]);
    let image = recorder.stop().unwrap();
    let word = |at: usize| u32::from_le_bytes(image[at..at + 4].try_into().unwrap()) as usize;
    assert_eq!(word(4), image.len() - 8);
    assert_eq!(word(40), image.len() - 44);
    assert_eq!(word(24), 16000);
}

#[test]
fn a_file_name_is_one_component() {
    let name = recording_filename("20240102_030405", "a/b:c d\u{e9}-_.wav");
    assert_eq!(name, "call_20240102_030405_a_b_c_d\u{e9}___wav.wav");
    let name = generate_recording_filename("../../etc/passwd");
    assert!(!name.contains('/'));
    assert!(name.starts_with("call_2"));
    assert_eq!(name.len(), "call_20240102_030405_.wav".len() + "../../etc/passwd".len());
}
