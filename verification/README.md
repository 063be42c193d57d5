# Nextbase

Two desktop tools and the verified library behind them.

- **Wisper**: hold a shortcut, speak, release. The dictation is transcribed, tidied and pasted
  into whatever has focus. Selected text can be polished and a focused field spell-checked.
- **Meeting Agent** (`nbmeet`): records the microphone and the system output, transcribes a
  sample both ways and waits for someone to look at it, then transcribes the whole recording
  and writes a note, two transcripts and the facts about how they were made.

## Layout

- `src/` is the library, written in Verus. It decides: what a shortcut means, what is asked of
  a provider and what its reply says, which window of a recording is sampled, where a
  recording is split, what the notes hold, what may be started, stopped, uploaded or deleted.
  Every function says in its `ensures` what it returns, and public proof functions state what
  holds of several of them together.
- `tests/` runs the library on concrete values, with the outside crates linked.
- `app/` is the program: devices, files, the network, the terminal, the dashboard. It performs
  what the library asks for and hands the outcome back.

## What is trusted

Calls into `serde_json`, `hound`, `chrono`, `uuid`, `reqwest::Url` and a few string functions
of the standard library stand behind small functions marked `external_body`, in `json.rs`,
`wav.rs`, `moment.rs`, `storage.rs`, `import.rs` and `text.rs`. The comment above each says
what is claimed of the call.
