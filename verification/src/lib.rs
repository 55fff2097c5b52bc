//! Verified core of a replicated document engine.
//!
//! Every item is stated and proved here; the crate that drives storage,
//! replication and the network calls these functions with plain values.
#![allow(unused_imports)]

pub mod access_laws;
pub mod activation_rules;
pub mod archive_laws;
pub mod backup_copy;
pub mod backup_laws;
pub mod backup_publication;
pub mod blocking_child;
pub mod control_laws;
pub mod custody;
pub mod custody_laws;
pub mod custody_service;
pub mod deployment_grammar;
pub mod deployment_prefix;
pub mod deployment_preflight;
pub mod deployment_text;
pub mod digest;
pub mod dispatch_laws;
pub mod encoding;
pub mod encoding_laws;
pub mod errors;
pub mod evidence_laws;
pub mod first_refusal;
pub mod full_backup;
pub mod heap_accounting;
pub mod heap_laws;
pub mod held;
pub mod hex_text;
pub mod history_archiver;
pub mod history_closed;
pub mod history_export;
pub mod history_hydration;
pub mod history_laws;
pub mod history_model;
pub mod history_point_read;
pub mod history_reads;
pub mod history_rules;
pub mod history_state;
pub mod hydration_laws;
pub mod identities;
pub mod jobs_laws;
pub mod journal_laws;
pub mod journal_rules;
pub mod lease_laws;
pub mod lease_manager;
pub mod lease_paging;
pub mod lease_roots;
pub mod lease_selection;
pub mod lexing_laws;
pub mod lifecycle_closed;
pub mod lifecycle_laws;
pub mod lifecycle_model;
pub mod lifecycle_rules;
pub mod lifecycle_service;
pub mod lifecycle_signer;
pub mod lifecycle_state;
pub mod model;
pub mod mutation_apply;
pub mod mutation_laws;
pub mod mutation_receipt;
pub mod observation_laws;
pub mod ordered_seek;
pub mod page_laws;
pub mod planner_laws;
pub mod policy_limits;
pub mod proposal_jobs;
pub mod receipt_chain;
pub mod receipt_laws;
pub mod receipt_paths;
pub mod receipt_reads;
pub mod receiver_laws;
pub mod receiver_rules;
pub mod record_forms;
pub mod recovery_activation;
pub mod recovery_attempts;
pub mod recovery_chain;
pub mod recovery_completion;
pub mod recovery_continuity;
pub mod recovery_frame;
pub mod recovery_inputs;
pub mod recovery_laws;
pub mod recovery_lookup;
pub mod recovery_milestones;
pub mod recovery_outcomes;
pub mod recovery_planner;
pub mod recovery_progress;
pub mod recovery_quorum;
pub mod recovery_receiver;
pub mod recovery_results;
pub mod recovery_route;
pub mod recovery_snapshot;
pub mod recovery_source;
pub mod recovery_state;
pub mod recovery_successor;
pub mod restore_laws;
pub mod restore_lineage;
pub mod rules;
pub mod seek_laws;
pub mod snapshot_laws;
pub mod snapshot_rules;
pub mod state;
pub mod table;
pub mod texts;
pub mod versions;
pub mod views;
