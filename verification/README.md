# carrick

The rules of a scanner that reads the services of a workspace and checks how
they call each other, written in Rust and verified with Verus.

- `src/` holds the rules. Every function states what it returns over a
  mathematical model of its inputs. What the library promises as a whole stands
  beside the functions as public proof functions.
- `app/` reads files, the environment and the network, and hands plain values to
  the library.
- `tests/` runs the library on sources, payloads and paths.

| Module | What it decides |
| --- | --- |
| `credentials`, `current_service` | who a run is, and which service it analyses |
| `deno_support` | which Deno manifest governs a service, and what its types rest on |
| `dispatch`, `file_based_router` | the operations that one route serves, and the routes that files make |
| `engine::capture`, `engine::pairs`, `engine::outcomes`, `engine::retype` | type capture and the check of one service's types against another's |
| `engine::durability` | the work that a run still owes, and when it holds an index back |
| `engine::served_paths`, `engine::upload_boundary` | what of this machine may leave it |
| `env_alias`, `event_emitter`, `external_call_candidates` | what the syntax of a service says of its addresses, its event buses and its calls to others |
| `findings` | what a scan reports, and how it is written |
| `framework_detector` | what the model is asked, and how its answer is read |
| `parsing`, `syntax` | how a source text is parsed, and the syntax that the passes walk |

The parser and its scopes are those of `swc_ecma_parser`, `swc_common` and
`swc_ecma_transforms_base`, spelled out by `serde_json`. Regular expressions,
version numbers, digests and the Unicode tables are those of `regex`, `semver`,
`sha2` and the standard library. The contracts of the functions
that call them are taken as given; each says so where it stands.
