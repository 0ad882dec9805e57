# neural_dvr

The core of a backend that streams Hikvision DVR cameras to a web page:
configuration, RTSP URLs, ffmpeg settings, JPEG frame extraction, stream
bookkeeping, capture sessions and camera discovery, written in Verus and
proved against their specifications.

- `src/` — the verified library (`config`, `frames`, `capture`, `streaming`,
  `discovery`, `api`, `models`, with `text` and `order` as helpers).
- `app/` — the server around it: axum routes, WebSockets, ffmpeg processes,
  the ISAPI HTTP client and environment loading.
- `tests/` — tests of the library on concrete values.
