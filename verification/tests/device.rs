use rtp_engine::device::{
    choose_device, device_labels, limit_capture, list_all_devices, mark_default, take_front,
    DeviceChoice, PlaybackQueue,
};
use rtp_engine::resample::{resample_plan, ResamplePlan, SMALL_CHUNK};
use rtp_engine::{AudioDevices, Error};

fn names(list: &[&str]) -> Vec<String> {
    list.iter().map(|s| String::from(*s)).collect()
}

#[test]
fn the_default_device_is_marked() {
    let devices = mark_default(&names(&["a", "b"]), &Some("b".into()));
    assert_eq!(devices.len(), 2);
    assert_eq!(devices[0].name, "a");
    assert!(!devices[0].is_default);
    assert!(devices[1].is_default);
    assert!(!mark_default(&names(&["a"]), &None)[0].is_default);
}

#[test]
fn the_first_error_stands_for_both_lists() {
    let list = || Ok(mark_default(&names(&["a"]), &None));
    let both = list_all_devices(list(), list()).unwrap();
    assert_eq!(both.input_devices.len(), 1);
    assert_eq!(both.output_devices.len(), 1);
    let e = list_all_devices(Err(Error::device("in")), Err(Error::device("out"))).unwrap_err();
    assert_eq!(e.message(), "device error: in");
    let e = list_all_devices(list(), Err(Error::device("out"))).unwrap_err();
    assert_eq!(e.message(), "device error: out");
    assert!(AudioDevices::default().input_devices.is_empty());
}

#[test]
fn labels_tell_the_direction() {
    assert_eq!(
        device_labels(&names(&["mic"]), &names(&["ear", "wall"])),
        ["Input: mic", "Output: ear", "Output: wall"]
    );
}

#[test]
fn a_device_is_chosen_by_name() {
    let listed = vec![None, Some("a".into()), Some("b".into()), Some("b".into())];
    assert_eq!(choose_device(&listed, &Some("b".into())), DeviceChoice::Listed(2));
    assert_eq!(choose_device(&listed, &Some("c".into())), DeviceChoice::Default);
    assert_eq!(choose_device(&listed, &None), DeviceChoice::Default);
}

#[test]
fn a_capture_buffer_is_kept_to_a_second() {
    let mut buf: Vec<i32> = (0..1000).collect();
    assert_eq!(limit_capture(&mut buf, 1000), 0);
    buf.extend(1000..1101);
    assert_eq!(limit_capture(&mut buf, 1000), 200);
    assert_eq!(buf.len(), 901);
    assert_eq!(buf[0], 200);
}

#[test]
fn samples_are_taken_from_the_front() {
    let mut buf = vec![1, 2, 3];
    assert_eq!(take_front(&mut buf, 2), [1, 2]);
    assert_eq!(buf, [3]);
    assert_eq!(take_front(&mut buf, 9), [3]);
    assert!(buf.is_empty());
}

#[test]
fn a_playback_queue_drops_the_oldest_and_fills_with_silence() {
    let mut queue = PlaybackQueue::new(4);
    queue.write(&[1, 2, 3]);
    queue.write(&[4, 5]);
    assert_eq!(queue.fill(2, 0), [2, 3]);
    assert_eq!(queue.fill(4, 0), [4, 5, 0, 0]);
    assert_eq!(queue.fill(1, 0), [0]);
}

#[test]
fn short_chunks_are_interpolated() {
    assert_eq!(resample_plan(100, 8000, 8000), ResamplePlan::Copy);
    assert_eq!(resample_plan(0, 8000, 48000), ResamplePlan::Copy);
    assert_eq!(resample_plan(SMALL_CHUNK - 1, 8000, 48000), ResamplePlan::Linear);
    assert_eq!(resample_plan(SMALL_CHUNK, 8000, 48000), ResamplePlan::HighQuality);
}
