# inc_search_eval

Verified incremental search for erasure-coding configurations: how many source
packets `k` and parity packets `p` to group, and how to spread the parity over a
proactive round and up to `nc_limit` retransmission (ARQ) cycles, so that the
residual erasure rate meets a target within a delay budget with little
redundancy.

What the contracts state: every coded outcome keeps `k * p <= max_kp`, and its
`k + p` stays within `MAX_N` (255) except for a base of one source and 255
parity packets. Its rate is judged within the target by the rate formula (for
a proactive outcome: not judged above it, so a NaN answer passes, as in the
search). Every ARQ outcome fits the delay budget with all its packets counted,
and so does every proactive outcome whose base has no more source than parity
packets. A proactive outcome of the parity walk (base with more source than
parity packets) is held to the budget only with its source packets and one
parity packet, which is what the search checks.

The proactive search starts from the fewest parity packets for one source
packet, never returns a higher redundancy than that base (except when all
packets are used), and no step of its walk after the outcome replaced it; the
ARQ search places each
parity packet on the entry of lowest redundancy (the first on a tie), keeps its
ARQ cycles ascending, removes a cycle at most once in its main walk, and returns
the configuration of lowest redundancy among those its walk visited. With
formulas that give one answer per query, both searches give one result per
input (`determinism.rs`). That the result is the lowest over all configurations
is not stated, and does not hold in general: the walks skip configurations.

- `src/` — the library, verified with Verus. The searches take the real-valued
  formulas (residual erasure rate, redundancy information) as closures that
  return order keys (`keys.rs`), and every decision on them is verified:
  `fec.rs` (proactive search), `arq.rs` (greedy parity placement, cycle
  shedding, ARQ search), `search.rs` (choice between the two), `timing.rs`
  (delays in nanoseconds), `p_fail.rs` (failing erasure counts of a cycle),
  `outcome.rs` (shared types, schedule sums), `determinism.rs` (one result per
  input).
- `app/` — the evaluation harness: the floating-point formulas and a benchmark
  that times the search on random inputs.
- `tests/` — scenarios on concrete values.
