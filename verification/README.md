# zeroclaw_channels

A voice-oriented webhook channel and a speech-safe text formatter, written
in Verus.

- `src/` — the verified library
  - `text` — Unicode whitespace, trimming, whitespace collapsing,
    truncation with `…`, prefix stripping, with laws on their results
  - `audio_safe` — `format_for_tts`, the formatter for spoken replies
  - `timing` — ordered timing maps (key order as `BTreeMap<String, _>`)
  - `voice` — voice-event metadata: merging, cleaning, normalisation
  - `webhook` — the channel: configuration, signature checks, outbound
    requests, inbound message framing
  - `outside` — the trusted calls into `regex`, `hex`, `hmac`/`sha2`,
    `str::to_uppercase` and the system clock
- `tests/` — tests run against the compiled library
- `app/` — JSON (de)serialisation, the axum server and the reqwest client
