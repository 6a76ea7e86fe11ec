# shbox

The decisions of an SSH sandbox daemon, verified with Verus: configuration,
authentication, subordinate-id leases, sandbox storage, confinement policy,
process domains, the ID-map broker's protocol, connection limits, and the
WebSocket transport.

## Layout

- `src/` is the library. Every function in it is verified, but for ten small
  wrappers around calls into other crates and the standard library, whose
  contracts are trusted: parsing keys and drawing them (`auth/source`,
  `hostkey`), parsing TOML (`tables`), random numbers (`token`, `hostkey`), UTF-8
  checks (`text`), `Debug` quoting (`quote`), and the views of a shared buffer
  (`ws`). The contract that `text` gives to `String::push` is trusted too. What
  the library decides from the outside world (a stat, a read, an answer of the
  kernel) comes in as a plain value or through a closure, which is only called
  where its contract says so; what it wants done goes out as a plain value.
  - `auth/`: key fingerprints, key sources, the accepted-key snapshot, and the
    store that refreshes it.
  - `config/`: the document's fields, their validation, and the snapshot.
  - `sandbox/`: sandbox ids, the storage rules, durable step sequences, and
    `subid/`: delegated ranges, the lease ledger, the allocator, the changes
    between two ledgers, and startup reconciliation.
  - `platform/`: curated paths, the launch policy, environments, commands,
    private temp directories, process domains, and the launch sequence.
  - `broker/`: the wire format, descriptor messages, client, and service.
  - `server/`: connection and process caps, listeners, and session supervision.
  - `account`, `endpoint`, `hostkey`, `lockfile`, `ws`: one concern each.
  - `text`, `paths`, `quote`, `tables`, `token`, `env`: shared primitives.
- `tests/` runs the library on concrete values.
- `app/` is the daemon around it: files, sockets, processes, and the runtime. It
  takes the confinement engine, the SSH handler, and the metadata format as
  trait implementations.

Laws that relate several functions are public proof functions, next to the
functions they are about.
