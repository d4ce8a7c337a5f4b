# irium_poawx

The PoAW-X consensus rules, wire codecs and pool/miner helpers of the Irium
node, written in Verus: each function carries a `requires`/`ensures`
contract over mathematical models (sequences, integers, spec functions), and
the laws that relate several functions are stated and proved as public proof
functions next to them.

Layout:

- `src/` — the verified library (`lib.rs` lists the modules): activation
  heights and gates, the proposer lottery and eligibility registry, the
  registration pool, reward splits and manifests, the adaptive-mode state
  machine, the double-sign evidence and penalty state, the candidate-admission gates and its flood limiter, on-chain
  candidacy registrations, the canonical eligible set and the
  mandatory-inclusion set, stratum coinbase and merkle construction, receipt
  roots, NAT-PMP codecs, log parsing, the simulator's integer measures and
  its scenarios' plans and verdicts, and the byte/text codecs they share.
- `tests/` — executable tests of the library.
- `app/` — the unverified glue: environment and file reading, sockets,
  shared process state, JSON records, and the floating-point statistics.

Calls into outside crates (`sha2`, `hex`, `bs58`, and a few `std` string
functions) go through small trusted wrappers marked
`#[verifier::external_body]`, each documented with what its contract claims.

What is not here:

- Parts of the node that rest on types this crate does not hold (the role
  candidate, assignment proof and finality vote): the candidate-admission
  record and its cache, pool-admission bytes, gossip candidate gathering,
  block registration scans and coinbase validation against a manifest. Their
  gates are here; their records and logic are not. The double-sign module is
  here in the part that does not need the vote's own code: the evidence id,
  the order of the evidence checks (taking each vote's signature check as
  input), equivocation detection, the replayable penalty state and the
  bounded evidence cache.
- The simulator's mining run (the weighted proposer lottery) and the sybil
  grind: they call the node's fairness weight, puzzle-mode assignment and
  leading-zero check, which this crate does not hold, so no program here
  runs the scenarios. Each scenario's plan and verdicts are verified
  (`poawx_scenarios`) and take the run's outcome as input.

Keyed tables: the proposer registry and registration pool are keyed by
33-byte VRF keys, and the flood limiter by (class, address). vstd models a
`HashMap`'s contents only for keys of primitive integer types, and a
`BTreeMap`'s only for keys whose ordering it knows (integers and tuples of
them), so neither key type would let a contract say what these maps hold.
The tables are vectors instead, with an invariant that no key occurs twice.
