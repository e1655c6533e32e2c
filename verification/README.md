# Mini voice assistant

A local voice assistant with an agent: it listens for speech, recognizes it
with Whisper, answers with tools or a llama.cpp model server, speaks the
answer with Piper, and remembers conversations in SQLite.

The decisions and texts of the assistant form a library verified with Verus
(`src/`); the program around it (`app/`) does the input and output.

## Layout

- `src/text.rs` — character-level string routines (trim, find, replace,
  lines, words, split, join, UTF-8 byte lengths, decimal numbers), each stated
  against the `str` operation it mirrors.
- `src/agent/` — the persona and its phrases (`persona.rs`), tool routing and
  every tool's own computation (`tools.rs`), the calculator's tokenizer and
  parser (`calc.rs`), and the conversation core: bounded history, turn
  counting, memory extraction, memory context and the way a request takes
  through the tools and the model (`orchestrator.rs`).
- `src/memory/` — the knowledge base (chunking and keyword search) and the
  database statistics.
- `src/tts/` — text cleaning and sentence splitting for speech; the Piper
  engine's script and fallback silence.
- `src/llm/` — request messages and the framing of streamed answers.
- `src/stt/` — joining recognized segments.
- `src/ui/` — status texts, markdown reading, input and history texts.
- `src/clock.rs` — local time as plain numbers, and its formatting.
- `app/` — the window (egui), audio devices (cpal), recognition (whisper-rs),
  the HTTP client, the SQLite database, processes, and the conversation loop.
- `tests/` — tests of the library on concrete values.

Functions named like `split_sentences_keeps_text` or `chunking_keeps_text`
are proof functions stating properties that hold for every input.
