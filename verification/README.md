# rtp_engine

A media engine for voice over RTP whose logic is verified with Verus.

- `src/` is the library. It works on bytes, samples and times: RTP and RTCP
  packets, SRTP, G.711 and the framing of Opus and G.729, a jitter buffer, call
  recording, STUN, voice processing and sessions. Every function has a contract,
  and what holds of several functions together is stated in the functions whose
  names begin with `law_`.
- `app/` is the application around it: sockets, audio devices, files, timers, the
  codecs and the voice processor of linked libraries, and floating point.
- `tests/` runs the library on concrete values.

What the library takes from other crates (AES, HMAC, base64, random numbers, the
local time) goes through a few functions in `src/crypto.rs`, `src/clock.rs` and
`src/recorder.rs`, each of which says what is relied on.
