# kasumi-engine

The core of a replicated document engine, written in Rust and verified with Verus.
The library holds what the engine decides; reading, writing, waiting and encoding
stay outside of it.

- `src/` is the library. Each rule is a spec function, each executable function is
  proved to follow it, and what holds across functions is stated as a lemma:
  - `recovery_*`, `journal_rules`, `receiver_rules`, `activation_rules`,
    `snapshot_rules`, `rules`: the journal of recoveries, its commands, its planner
    and its restored snapshots.
  - `record_forms`: what another component finds of the forms of retained records.
  - `lifecycle_*`: lifecycle Control, its policy changes and its signer.
  - `history_*`: archived history, its export, publication, reads and hydration.
  - `full_backup`, `backup_copy`, `backup_publication`: full backups.
  - `mutation_*`, `receipt_*`, `identities`: ordered mutations and their permanent
    receipts.
  - `lease_*`, `heap_accounting`, `versions`: leases over retained generations.
  - `custody`, `custody_service`, `ordered_seek`, `policy_limits`, `restore_lineage`:
    the services.
  - `deployment_*`: the inspection of a deployment, and what holds of an accepted one.
  - `proposal_jobs`, `blocking_child`: the custody of work in progress.
- `tests/` runs the library from outside.
- `app/` connects it to stores of encrypted objects, tasks and the clock.

Digests, identities and names are plain values in the library: a digest is two
128-bit halves, an identity one 128-bit number, a name the digest of its text. What
another component refuses (a credential, a policy, the form of a request) is handed
in as that refusal.
