# apple_speech

The decisions behind on-device dictation with Apple's Speech framework, verified with Verus.

- `src/` is the library. Every function states what it returns, and the proofs come with it.
  - `text`, `transcript`: white space, words, and the choice between transcripts.
  - `recognition`: what the recognizer has reported so far, and when to stop waiting for it.
  - `locale`, `context`: the language and the phrases that the recognizer is told about.
  - `authorization`, `session`: the conversation with the framework, one stage at a time.
    `session_laws` proves what holds of every such conversation: no task is started without
    permission or before its request was told to stay on the device, no stage is skipped, every
    session ends.
  - `job`, `files`: writing the audio file, having it recognized, and removing it.
  - `timeout`, `samples`, `rounding`: the wait for a transcript and the conversion of samples to
    16-bit PCM, computed in integers with the rounding of binary floating point.
- `tests/` runs the library on concrete values and compares the arithmetic with floating point.
- `app/` sends the Objective-C messages, writes the file and waits, as the library tells it.
