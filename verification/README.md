# Etta

Etta is an adaptive, offline-first learning engine that takes an adult learner
from foundational algebra to astrophysics. Content (lessons, quizzes, grading of
written answers) comes from a language model; everything the learner produces
is kept in a local SQLite database.

## Layout

- `src/` — the library, written in Verus. Every rule the engine applies is
  stated as a contract and proved: input validation, prompt assembly and
  escaping, quiz parsing and repair, objective grading, the answer-permutation
  gate, SSE stream decoding, spaced-repetition quality, session planning,
  curriculum graph validation, placement, streaks, rate limiting, the one-shot
  retry store, backup rotation and the export scrub. Laws that span calls are
  public proof functions (`lemma_*`) next to the functions they speak of.
- `app/` — the program around the library: a line-oriented JSON command loop
  on stdin/stdout, the SQLite store, the HTTP client, the OS keychain, and the
  floating-point mastery, decay and SM-2 arithmetic.
- `tests/` — tests of the library's public functions.

## Running

The program takes its data directory as its first argument (default
`etta-data`). It reads the twelve domain files of the curriculum from
`<data dir>/curriculum/` (`algebra.json` … `astrophysics.json`) and
the tutor's system prompt from `<data dir>/system_prompt.txt` and the model
vendor's id prefix from `<data dir>/model_vendor.txt` (default and fallback
model ids are `<prefix>-sonnet-4-6` and the like), and keeps
`etta.db` and its daily backups in the same directory. Each input line is a
JSON object `{"cmd": ..., "args": {...}}`; each output line is
`{"ok": value}` or `{"error": text}`, with streamed lesson text sent first as
`{"delta": text, "requestId": id}` lines.
