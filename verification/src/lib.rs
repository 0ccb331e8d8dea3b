//! Batch renaming with two guarantees: every conflict of a batch is found
//! before a file is touched, and the renames themselves run as a transaction
//! that is journaled, rolled back on failure and undoable afterwards.

pub mod clock;
pub mod commit;
pub mod conflicts;
pub mod engine;
pub mod fs;
pub mod models;
pub mod paths;
pub mod replay;
pub mod rules;
pub mod text;
pub mod transaction;

pub use crate::clock::Moment;
pub use crate::commit::approved_plans;
pub use crate::conflicts::{is_reserved_name, BatchIndex, Conflict, Probe};
pub use crate::engine::{Engine, PreviewItem};
pub use crate::fs::{FileSystem, IoFailure, Metadata};
pub use crate::models::{
    CaseType, Context, DateSource, Filename, FilterType, GravityError, Pipeline, Position, Rule,
};
pub use crate::transaction::{
    undo_plan, TransactionError, TransactionExecutor, TransactionJournal, TransactionStep,
};
