# travsr_tools

The read-side tools over an indexed code graph: dependencies, callers, references, blast radius,
textual search, execution paths, graph drawings, repository maps, snippets and context for a query.

- `src/` is the library. Every function in it is verified by Verus against its contract. It works on
  a `Store`: a snapshot of the graph of one repository together with what its database and analysers
  answered for a request.
- `tests/` runs the library on concrete graphs.
- `app/` is ordinary Rust around it: it runs `git`, reads files and settings, computes
  floating-point scores, and records the answers of an index in a `Store`.

The modules of the library:

| modules | what they hold |
|---|---|
| `text`, `split`, `width`, `order`, `rank` | strings, sorted lists and stable orders |
| `sanitize` | which arguments are valid, and the envelope of an answer |
| `store`, `retrieval` | the snapshot |
| `json`, `rules` | the outside crates `serde_json` and `ignore`, behind trusted contracts |
| `names`, `noise`, `lang`, `notes`, `global` | names, classifications, notes on the index, several repositories |
| `deps`, `callers`, `refs`, `blast`, `radius`, `search`, `exec_path` | questions about one symbol or file |
| `pattern`, `grep` | textual search, and the order of its runs |
| `regions`, `repo_map`, `map_bounds`, `overview`, `graph`, `graph_json`, `stats`, `registry` | maps, drawings and counts |
| `snippets`, `readback` | source of symbols, and that printed lines can be asked for again |
| `seeds`, `picks`, `roles`, `clusters`, `docs`, `sections`, `context`, `trace` | context for a query |

Laws that hold over several functions are public proof functions whose names start with `law_`.
