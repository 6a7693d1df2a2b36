# shore_daemon

The memory of a chat daemon, verified with Verus: what the memory agent may do, how conversations are
compacted into entries, how entries are tidied up, how markdown memories are searched, and how clients
are served.

## Layout

- `src/` is the library. Its functions have contracts that say what they return or change, over
  mathematical models of texts, entries and conversations. Some ask something of their input, mostly that
  a count stays within the machine's integers; of a reading of the clock and of a random identifier only the
  form is claimed.
  - `text/` holds operations on strings, stated over sequences of characters.
  - `memory/agent/` is the tool loop of the memory agent, its tools and its prompt.
  - `memory/compaction/` splits conversations and reads what a model makes of them.
  - `memory/collation/` merges, splits and rewrites entries, clusters them, fills in timestamps and lets
    confidences fade.
  - `memory/` also holds the keyword index, the fusion of rankings, the markdown memory, deferred edits
    and dreaming.
  - `server/`, `notifications.rs` and `runtime_state.rs` are the decisions of the daemon around it.
- `tests/` runs the library.
- `app/` is the daemon itself: the database, the files, the sockets, the models, and all computation with
  floating point numbers. Its vector store on LanceDB is built with `--cfg lancedb`.

## Conventions

- A string is a sequence of characters. A score is held by the bits of a double.
- Where a loop waits for a model, a client or a person, the library holds the state of the loop and says
  what comes next; the daemon does it and reports back.
- A function that depends on the clock has a counterpart that takes the time as an argument.
- What is taken from other crates on trust is said above each function that calls them: the clock and
  times in RFC 3339 form (`chrono`), random identifiers (`uuid`), digests (`sha2`), JSON (`serde_json`),
  and the Unicode tables of the standard library.
