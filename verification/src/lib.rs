//! A guarded bulk file transfer: a plan of copy/move steps is validated,
//! every source is locked, the steps run in order, and the locks are
//! released again.  The orchestration is verified over an in-memory model
//! of the file system and of the set of held locks; the thin shell that
//! performs the same actions on a real file system lives outside the
//! library.

mod fs_model;
mod locker;
mod transfer;

pub use fs_model::FileSystem;
pub use transfer::DataTransfer;
pub use transfer::DataTransferRunner;
pub use transfer::DataTransferStep;
pub use transfer::Operation;
pub use transfer::RunOutcome;
pub use transfer::TransferError;
pub use transfer::all_sources_exist;
pub use transfer::apply_step;
pub use transfer::copy_only;
pub use transfer::lemma_copy_plan_preserves_files;
pub use transfer::lemma_empty_plan_trivial;
pub use transfer::lemma_move_transfers_file;
pub use transfer::run_model;
pub use transfer::step_eq;
pub use locker::LockSet;
pub use locker::lock_all;
pub use locker::source_set;
pub use locker::unlock_all;
pub use locker::with_lock;
