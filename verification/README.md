# rustkube

The logic of a Kubernetes API server, written in Rust and proved with Verus: what
is read in a request, who may make it, what it makes of a stored object, and what
is answered. Each function states in its contract what it returns, over a model of
JSON documents, texts and keys; what relates several functions is stated as a
public proof function whose name begins with `law_`.

## Layout

- `src/` is the library.
  - `json`, `text`, `decimal`, `numeric`, `ipv4`, `sorted`, `pointer` and `merge`
    hold documents, texts, numbers, addresses and maps, with their models.
  - `outside` holds every call into another crate, with what is believed of it.
  - `apimachinery` holds what components share: quantities, selectors, taints,
    protobuf bodies, certificates, metrics, and waiting for files.
  - `apiserver` holds the server: storage keys and revisions, authentication,
    authorization, admission, apply and patch, custom resources, watches and their
    cache, addresses of Services, discovery, tables, and the handlers.
- `app/` is the server around the library: the store, the network, files and
  clocks. A host hands it a store, its selectors and schedules, and the descriptors
  of the protobuf messages.
- `tests/` runs the library on values.

Work that waits, such as a conditional write or a move from one key to another, is
split. The library decides each step from what came of the last one, and `app/`
performs it.
