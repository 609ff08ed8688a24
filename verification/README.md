# Rolava

Rolava is an assistant that plays a character in QQ chats. It reads what is said in groups and in
direct conversations, decides whether to answer, asks a language model, runs the tools that the
model calls, and remembers people and topics.

- `src/` is the library, verified with Verus: the context of a request and how it stays the same
  from turn to turn, the tool loop, the filter, batches and routing of messages, commands, memories
  and how they are forgotten, schedules, daily summaries, images in messages, the wire formats of
  the model providers, the configuration and the rules of the administration page. Contracts are
  stated over plain values; a proof function whose name begins with `law_` states what holds of
  several functions together.
- `tests/` runs the library on concrete values.
- `app/` is the program around it: SQLite, HTTP, files and the tasks that run at the same time. It
  hands the library plain values and does what the library decides.

What the library has from other crates stands behind small functions whose doc comments say what is
taken for granted: JSON and TOML texts, the clock of the machine, cron expressions, random
characters, hashes, Base64 and the decoding of images.
