# pecs_registry

A service registry and discovery library for microservices, with its core
logic verified by Verus.

## Layout

- `src/` — the verified library:
  - `instance`, `config`, `error`, `traits`: service instances, endpoints,
    registry settings (with cluster endpoint parsing), errors and change events;
  - `directory`: per-service instance snapshots updated by change events, the
    set of watched services, the decisions of a watch loop (exponential
    back-off, reconnection, periodic reconciliation), and recovery of a
    snapshot saved on disk when the registry is down;
  - `selector`: round-robin, smooth weighted round-robin, random, power of two
    choices with in-flight tracking, consistent hashing on a ring of virtual
    nodes, and tag (canary) filtering; `selector::smooth` proves the period of
    smooth weighted round-robin;
  - `discover`: the insertions and removals that discovery streams and
    load-balanced gRPC channels receive when a snapshot changes;
  - `provider`: the in-memory registry, the Nacos request builder and the etcd
    key layout and lease keep-alive decisions;
  - `builder`: choosing a provider from the configuration;
  - `strmap`, `text`: a string-keyed map and string helpers used throughout.
- `tests/` — tests of the library on concrete values.
- `app/` — the asynchronous layer around the library: the `Registry` provider
  trait, HTTP (Nacos) and etcd clients, background watch and keep-alive tasks,
  Tower/Tonic integration, serde forms of the types, and the
  `RegistryService` facade.

Weights are held in hundredths (`100` is weight 1.0).
