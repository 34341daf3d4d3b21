# vibe_core

Audio preparation and transcript handling for a desktop transcriber, verified with Verus.

- `src/` is the library. It decides and computes: where speech begins in a recording, what to ask of
  ffmpeg and what to make of its reports, how a transcription runs from the chosen path to the
  transcript, whether a transcript is a loop, and which URLs a window may open.
- `app/` does what the library cannot: processes, files, the stream of the transcriber.
- `tests/` runs the library, against the processor's own floating point where that applies.

Loudness levels and times are IEEE 754 values. The library handles them as integers (`binary`), so
that sums, multiples, rounding and comparisons are proved rather than assumed. Reading and printing
decimal notation is left to the caller.

`session` is a state machine: each reply names one thing to do, and what came of it goes back in as
the next event. `history` states what holds over a whole transcription.
