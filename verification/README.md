# gst_meet

A headless Jitsi Meet recorder and the service that renders its recordings,
with the decision logic written in Verus and proved against its contracts.

## Layout

- `src/` — the verified library.
  - `xml`, `text`, `json`: stanzas as plain data, text helpers, JSON values.
  - `jingle`, `jingle_session`, `jingle_media`, `jingle_action`, `offer`:
    reading a Jingle `session-initiate` and turning it into the SDP offer
    handed to `webrtcbin`; `source-add` handling.
  - `answer`, `room`: turning `webrtcbin`'s answer and candidates into the
    `session-accept` and `transport-info` stanzas; Colibri messages.
  - `iq`, `presence`, `xep`: IQ replies, the presence that joins a room.
  - `media`, `participant`, `branch`, `timeline`: per-participant state, what
    each SSRC carries, where it is recorded, and the meeting timeline.
  - `renderer`, `layout`: the live composite's tiles and their layout.
  - `render/`: reading a recorded timeline back, cutting it into segments,
    and resolving the segments into clips.
  - `avatar`, `config`, `e2ee`, `server`: the camera-off stand-in, settings,
    the Olm identity, and the `room=` request parameter.
- `tests/` — tests of the library on concrete values.
- `app/` — the programs around it: XMPP (libstrophe), GStreamer pipelines,
  GES rendering, cairo drawing, HTTP and configuration files.
