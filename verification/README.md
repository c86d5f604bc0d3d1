# Ribosome ledger

The ledger of the Ribosome maintenance host, written in Verus: the budget that a
grant gives its runs, the provider calls and effects charged against it, the runs
that park while child work completes, and the external executions attached to a
grant. Every operation states what it does in its contract, and Verus proves the
code against it.

## Layout

- `src/store.rs` — the ledger's tables and their invariant (`Store::wf`).
- `src/grants.rs`, `src/allocations.rs`, `src/budgets.rs` — grants, the tree of
  budget allocations under each grant, what each subtree has drawn, and how child
  allocations and run allocations are opened.
- `src/accounting.rs` — provider permits: reservation against every owner of an
  allocation, dispatch, release and usage.
- `src/experiments.rs` — the accounting handed to an evaluator for one case, and
  the preflight of an experiment against its grant and policy.
- `src/study.rs` — the decisions of a study's dispatch loop: the counterbalanced
  order of arms, whether a case is evaluated, and what its outcome does to the study.
- `src/agent_evaluator.rs` — the per-stage budget and the sandbox grant of an
  agent evaluation.
- `src/admission.rs` — the evidence an admission request must rest on.
- `src/evidence.rs` — the event log: ingesting observed events, and paging through
  what a grant may see, in log order; a discovery grant reads only the events of
  its registered corpus.
- `src/external_evidence.rs` — importing the evidence of a completed external run:
  its source memory, artifact snapshots and events, all kept or none.
- `src/discovery.rs` — the checks a discovery record must pass before acceptance.
- `src/parking.rs` — waiting on child work, resuming, and stopping children.
- `src/communication.rs` — messages between the runs of a grant: sending under the
  inbox's capacity, paged delivery with bounded attempts, acknowledgement.
- `src/attachments.rs` — attachment policy, lifecycle, feedback and writer handoffs.
- `src/effects.rs`, `src/dispatch.rs`, `src/effect_validation.rs`, `src/host.rs` —
  effect admission, recording an effect before dispatch, the write fence of
  unsettled effects, the decisions taken while an effect is dispatched, receipts,
  validation evidence and which validity a completed effect's checks transfer.
- `src/property_validation.rs` — whether a past effect still vouches for the
  properties it restored.
- `src/validity.rs` — validity generations per scope, invalidation marks, the
  dependency closure of a path, declared obligations and recorded properties.
- `src/effect_finalization.rs` — finalizing a completed effect: invalidating the
  dependents of what it wrote, restoring validity and properties from checks that
  still cover them, the final receipt and its completion event.
- `src/context.rs` — a run's retained context: segment frontiers, the retained tail,
  summary heads, currency of pinned artifacts, and cursors.
- `src/laws.rs` — properties that relate several operations.
- `src/decimal.rs`, `src/digest.rs`, `src/text.rs`, `src/cli.rs`, `src/clock.rs`,
  `src/error.rs`, `src/compare.rs`, `src/contracts.rs` — counters, content hashes,
  text order, arguments, the clock, errors and the protocol's types.
- `tests/` — tests of the library on concrete ledgers.
- `app/main.rs` — a small command-line program around the library.

The time and fresh identifiers that some operations need are read by thin
wrappers; each such operation also has a form that takes them as arguments, whose
contract fixes the outcome. What the workspace adapter reports (checker versions,
current artifact versions) reaches the decisions that depend on it as a
`HostReport` gathered by the caller.
