//! The ledger of the Ribosome maintenance host: grants and their budget allocation
//! trees, provider permits and their settlement, parked runs and the child work they
//! wait on, attached external executions and their writer handoffs, and the decisions
//! the host takes before it lets an effect touch a workspace.

pub mod error;
pub mod decimal;
pub mod contracts;
pub mod digest;
pub mod store;
pub mod compare;
pub mod allocations;
pub mod grants;
pub mod clock;
pub mod budgets;
pub mod accounting;
pub mod experiments;
pub mod agent_evaluator;
pub mod parking;
pub mod attachments;
pub mod effects;
pub mod context;
pub mod communication;
pub mod cli;
pub mod host;
pub mod effect_validation;
pub mod property_validation;
pub mod text;
pub mod dispatch;
pub mod validity;
pub mod effect_finalization;
pub mod evidence;
pub mod external_evidence;
pub mod discovery;
pub mod admission;
pub mod study;
pub mod laws;
