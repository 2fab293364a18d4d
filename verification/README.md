# glowtail

A log investigation engine, verified with [Verus](https://github.com/verus-lang/verus). It follows
files, parses their lines, keeps the rows, filters, searches and presents them, and holds the state
of the front-ends that show them.

## Layout

`src/` is the library. Every function states what it returns or changes, and Verus proves it.

| Modules | What they hold |
|---------|----------------|
| `text`, `time`, `model`, `events` | values: text, timestamps, rows, presented rows, events of a source |
| `json`, `parser`, `source`, `ingest` | from bytes to rows: JSON and plain lines, line splitting, following a file through renames and truncation |
| `filter`, `query` | filters, how they are compiled, and the query language |
| `index`, `session`, `order`, `summary`, `timeline`, `analytics`, `present`, `viewport` | the engine and its parts |
| `laws` | what holds of the engine as a whole; other laws stand in the module they are about, in functions named `law_…` |
| `startup`, `ui`, `cli`, `tui`, `iced`, `gpui`, `gui`, `makepad` | what the programs do with flags, keys and events, and the texts and colours they show |

`tests/` runs the library, `app/` holds the programs: argument handling, reading files, terminals and
windows. It performs the requests that the library makes, such as reading the next line of a file,
and hands back what came of them.

## What is trusted

Calls into `chrono`, `regex`, `serde_json` and parts of the standard library stand behind small
functions whose contracts are believed, not proved. They are in `time`, `filter`, `json`, `source` and
`text`, and each says in its comment what is claimed.

## Queries

A filter is text to look for in the raw line, or a query: conditions joined by `and`.

    level >= warn
    level in (warn, error)
    message contains "timeout"
    service = "billing" and level >= error
    json.userId = "123"
    source = 1
    timestamp >= "2026-05-21T09:00:00Z"
    timestamp between "2026-05-21T09:00:00Z" and "2026-05-21T10:00:00Z"
