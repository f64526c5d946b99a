# protohub

The verified core of a desktop tool for browsing `.proto` files and making
unary gRPC calls. Every decision the tool makes is a function in `src/` with
a contract that Verus proves; `app/` holds the file system, git, protobuf
compilation and network work around it.

## Layout

- `src/text.rs` — trimming, line splitting, searching and joining text.
- `src/paths.rs` — Unix path components, joining, equality, deduplication,
  the include paths a descriptor is compiled with.
- `src/proto.rs` — the line-by-line reader of `.proto` files (package,
  messages, enums, services, rpc methods) and the merging of descriptor
  services with the reader's line numbers.
- `src/source.rs` — the source blocks of rpc methods and enums, and imports.
- `src/git.rs` — parsing `git status --porcelain=v1` output.
- `src/workflow.rs` — the git flows (workspace facts, pull, changes, diff,
  commit) as state machines; the caller runs git.
- `src/grpc.rs` — finding the service and method of a call, its URI,
  authority, path and metadata, the checks on them, and error messages.
- `src/json.rs` — JSON values as plain data.
- `src/template.rs` — message descriptors as plain data; request templates,
  field summaries, type labels, and the template of a method.
- `src/normalize.rs` — request JSON brought to protobuf's JSON field names.
- `src/enums.rs` — the walk along the import graph that collects the enums a
  file can use.
- `src/tree.rs` — which directory entries the workspace tree lists, in which
  order.

The public proof functions named `law_*` state properties that hold across
calls or for every input: deduplicated paths hold no two equal paths, the
reader reports everything in line order, the walk reads each file once,
normalized gRPC paths start with `/` and are stable, and so on.
