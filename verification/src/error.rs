//! Error types of the engine.

use vstd::prelude::*;
use vstd::string::to_string_from_display_ensures;

verus! {

/// `std::io::Error`, carried through and never looked into.
#[verifier::external_type_specification]
#[verifier::external_body]
pub struct ExIoError(std::io::Error);

/// `String::from(&str)` copies the text.
pub assume_specification<'a>[ <String as From<&'a str>>::from ](value: &str) -> (s: String)
    ensures
        s@ == value@,
;

/// Errors that can occur in the engine.
#[derive(Debug)]
pub enum Error {
    /// Codec initialization or encoding/decoding error.
    Codec(String),
    /// RTP packet parsing or construction error.
    Rtp(String),
    /// RTCP packet parsing or construction error.
    Rtcp(String),
    /// SRTP encryption/decryption error.
    Srtp(String),
    /// Audio device error.
    Device(String),
    /// Network I/O error.
    Network(std::io::Error),
    /// STUN protocol error.
    Stun(String),
    /// Invalid configuration or parameter.
    InvalidParameter(String),
}

impl Error {
    /// What stands in front of the detail in [`Error::message`].
    pub open spec fn heading(&self) -> Seq<char> {
        match self {
            Error::Codec(_) => "codec error: "@,
            Error::Rtp(_) => "RTP error: "@,
            Error::Rtcp(_) => "RTCP error: "@,
            Error::Srtp(_) => "SRTP error: "@,
            Error::Device(_) => "device error: "@,
            Error::Network(_) => "network error: "@,
            Error::Stun(_) => "STUN error: "@,
            Error::InvalidParameter(_) => "invalid parameter: "@,
        }
    }

    /// Whether `detail` describes the error: the text it was made with, or what
    /// `std::io::Error` displays.
    pub open spec fn has_detail(&self, detail: Seq<char>) -> bool {
        match self {
            Error::Codec(m) => detail == m@,
            Error::Rtp(m) => detail == m@,
            Error::Rtcp(m) => detail == m@,
            Error::Srtp(m) => detail == m@,
            Error::Device(m) => detail == m@,
            Error::Network(e) => exists|t: String| #[trigger]
                to_string_from_display_ensures::<std::io::Error>(e, t) && t@ == detail,
            Error::Stun(m) => detail == m@,
            Error::InvalidParameter(m) => detail == m@,
        }
    }

    /// Creates a codec error.
    pub fn codec<S: Into<String>>(msg: S) -> (e: Self)
        ensures
            e matches Error::Codec(m) && call_ensures(<S as Into<String>>::into, (msg,), m),
    {
        Error::Codec(msg.into())
    }

    /// Creates an RTP error.
    pub fn rtp<S: Into<String>>(msg: S) -> (e: Self)
        ensures
            e matches Error::Rtp(m) && call_ensures(<S as Into<String>>::into, (msg,), m),
    {
        Error::Rtp(msg.into())
    }

    /// Creates an RTCP error.
    pub fn rtcp<S: Into<String>>(msg: S) -> (e: Self)
        ensures
            e matches Error::Rtcp(m) && call_ensures(<S as Into<String>>::into, (msg,), m),
    {
        Error::Rtcp(msg.into())
    }

    /// Creates an SRTP error.
    pub fn srtp<S: Into<String>>(msg: S) -> (e: Self)
        ensures
            e matches Error::Srtp(m) && call_ensures(<S as Into<String>>::into, (msg,), m),
    {
        Error::Srtp(msg.into())
    }

    /// Creates a device error.
    pub fn device<S: Into<String>>(msg: S) -> (e: Self)
        ensures
            e matches Error::Device(m) && call_ensures(<S as Into<String>>::into, (msg,), m),
    {
        Error::Device(msg.into())
    }

    /// Creates a STUN error.
    pub fn stun<S: Into<String>>(msg: S) -> (e: Self)
        ensures
            e matches Error::Stun(m) && call_ensures(<S as Into<String>>::into, (msg,), m),
    {
        Error::Stun(msg.into())
    }

    /// Creates an invalid parameter error.
    pub fn invalid_parameter<S: Into<String>>(msg: S) -> (e: Self)
        ensures
            e matches Error::InvalidParameter(m) && call_ensures(<S as Into<String>>::into, (msg,), m),
    {
        Error::InvalidParameter(msg.into())
    }

    /// The text shown to a user: the kind of the error, then its detail.
    pub fn message(&self) -> (text: String)
        ensures
            exists|detail: Seq<char>| #[trigger]
                self.has_detail(detail) && text@ == self.heading() + detail,
    {
        let (mut text, detail): (String, String) = match self {
            Error::Codec(m) => ("codec error: ".to_string(), m.clone()),
            Error::Rtp(m) => ("RTP error: ".to_string(), m.clone()),
            Error::Rtcp(m) => ("RTCP error: ".to_string(), m.clone()),
            Error::Srtp(m) => ("SRTP error: ".to_string(), m.clone()),
            Error::Device(m) => ("device error: ".to_string(), m.clone()),
            Error::Network(e) => ("network error: ".to_string(), e.to_string()),
            Error::Stun(m) => ("STUN error: ".to_string(), m.clone()),
            Error::InvalidParameter(m) => ("invalid parameter: ".to_string(), m.clone()),
        };
        text.append(detail.as_str());
        assert(self.has_detail(detail@));
        text
    }
}

impl From<std::io::Error> for Error {
    fn from(e: std::io::Error) -> (error: Self) {
        Error::Network(e)
    }
}

impl vstd::std_specs::convert::FromSpecImpl<std::io::Error> for Error {
    open spec fn obeys_from_spec() -> bool {
        true
    }

    open spec fn from_spec(e: std::io::Error) -> Self {
        Error::Network(e)
    }
}

/// Every kind of error is shown under its own heading.
pub proof fn law_headings_tell_the_kind(e: Error)
    ensures
        e is Codec ==> e.heading() == "codec error: "@,
        e is Rtp ==> e.heading() == "RTP error: "@,
        e is Rtcp ==> e.heading() == "RTCP error: "@,
        e is Srtp ==> e.heading() == "SRTP error: "@,
        e is Device ==> e.heading() == "device error: "@,
        e is Network ==> e.heading() == "network error: "@,
        e is Stun ==> e.heading() == "STUN error: "@,
        e is InvalidParameter ==> e.heading() == "invalid parameter: "@,
{
}

/// The detail of an error is the text that it was made with.
pub proof fn law_details_are_the_text(text: String, detail: Seq<char>)
    ensures
        Error::Codec(text).has_detail(detail) <==> detail == text@,
        Error::Rtp(text).has_detail(detail) <==> detail == text@,
        Error::Rtcp(text).has_detail(detail) <==> detail == text@,
        Error::Srtp(text).has_detail(detail) <==> detail == text@,
        Error::Device(text).has_detail(detail) <==> detail == text@,
        Error::Stun(text).has_detail(detail) <==> detail == text@,
        Error::InvalidParameter(text).has_detail(detail) <==> detail == text@,
{
}

} // verus!
