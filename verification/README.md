# mimo

The verified core of a desktop speech-to-text assistant that sends audio to a
chat-completions API, streams the transcript back, and can have a chat model
tidy the text afterwards.

- `src/` is the library, written in Verus: request building and answer-stream
  decoding (`api`, `sse`), the streaming tag filter (`tag_filter`), Base64 and
  the storage form of API keys (`base64`, `dpapi`, `commands`), prompt
  templates and providers (`prompt`, `provider`), the requests-per-minute
  window (`rate_limiter`), and the WAV layout and slicing rules (`ffmpeg`,
  `audio`). Each public function has a contract; the laws the library keeps
  are public proof functions (`lemma_*`).
- `tests/` runs the library on concrete values.
- `app/` is the unverified shell: Tauri commands, HTTP and streams, audio
  decoding and resampling, files, logging, and the operating system's data
  protection.
