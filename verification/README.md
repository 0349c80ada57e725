# Mneme

A local-first read-it-later agent: saved web pages, PDFs and texts become
immutable source snapshots, and the facts extracted from them are woven into
a wiki of Markdown entity pages, each fact pointing back to the exact range
of the source it came from.

The decisions of the agent are a library verified with Verus; a small
command-line program does the file, network, key-store and Git work around
it.

## Layout

- `src/` — the verified library.
  - `domain.rs` — sources, entity pages, claims and page operations, each
    with a mathematical view.
  - `text.rs`, `lines.rs`, `order.rs`, `hash.rs`, `utf16.rs` — text,
    ordering, hashing and UTF-16 offsets.
  - `page.rs` — applying operations to a page, routing and committing
    batches, and the laws that no fact is silently lost.
  - `entity_md.rs`, `md_round_trip.rs` — the Markdown form of a page and the
    proof that the Markdown a page is written as reads back as that page,
    given its frontmatter fields back from the YAML reader.
  - `vault.rs` — where files go, listings, graph, snapshot immutability.
  - `ai.rs`, `mock.rs`, `wire.rs`, `chat.rs` — sentence and name detection,
    the offline demo provider, the prompts and replies of a model service,
    and the chat request body and reply.
  - `query.rs` — search, related facts and research context.
  - `agent.rs`, `wikify.rs`, `ingest.rs`, `fetch.rs` — settings, providers,
    health scan, Git backup, and the ingest, wikify and fetch procedures as
    state machines that the caller drives.
- `tests/` — tests of the library on concrete values.
- `app/` — the command-line program: `mneme <vault-dir> <command>`.
