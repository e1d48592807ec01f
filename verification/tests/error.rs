use rtp_engine::Error;

#[test]
fn test_error_constructors() {
    let e = Error::codec("test codec error");
    assert!(matches!(e, Error::Codec(_)));
    assert_eq!(format!("{}", e.message()), "codec error: test codec error");

    let e = Error::rtp("test rtp error");
    assert!(matches!(e, Error::Rtp(_)));
    assert_eq!(format!("{}", e.message()), "RTP error: test rtp error");

    let e = Error::rtcp("test rtcp error");
    assert!(matches!(e, Error::Rtcp(_)));
    assert_eq!(format!("{}", e.message()), "RTCP error: test rtcp error");

    let e = Error::srtp("test srtp error");
    assert!(matches!(e, Error::Srtp(_)));
    assert_eq!(format!("{}", e.message()), "SRTP error: test srtp error");

    let e = Error::device("test device error");
    assert!(matches!(e, Error::Device(_)));
    assert_eq!(format!("{}", e.message()), "device error: test device error");

    let e = Error::invalid_parameter("bad param");
    assert!(matches!(e, Error::InvalidParameter(_)));
    assert_eq!(format!("{}", e.message()), "invalid parameter: bad param");
}

#[test]
fn test_error_from_io() {
    let io_err = std::io::Error::new(std::io::ErrorKind::NotFound, "file not found");
    let e: Error = io_err.into();
    assert!(matches!(e, Error::Network(_)));
    assert!(format!("{}", e.message()).contains("file not found"));
}

#[test]
fn test_error_debug() {
    let e = Error::codec("debug test");
    let debug_str = format!("{:?}", e);
    assert!(debug_str.contains("Codec"));
    assert!(debug_str.contains("debug test"));
}

#[test]
fn stun_and_network_errors_have_their_headings() {
    assert_eq!(Error::stun("no reply").message(), "STUN error: no reply");
    let e = Error::from(std::io::Error::new(std::io::ErrorKind::Other, "gone"));
    assert_eq!(e.message(), "network error: gone");
    assert_eq!(Error::codec(String::from("owned")).message(), "codec error: owned");
}
