use vstd::prelude::*;

use crate::fs_model::FileSystem;

verus! {

/// What a step does with its source file once the contents have been
/// copied to the destination.
#[derive(Clone, Copy, Debug, PartialEq, Eq, Structural)]
pub enum Operation {
    /// Copy the source to the destination and keep the source.
    Copy,
    /// Copy the source to the destination, then delete the source.
    Move,
}

/// Why a transfer failed.
#[derive(Clone, Copy, Debug, PartialEq, Eq, Structural)]
pub enum TransferError {
    /// A source file was missing when the plan was re-validated.
    NotFound,
    /// A source file could not be opened for locking.
    LockOpenFailed,
    /// A step could not copy: its source was gone at the step's turn, or
    /// the byte counter would not have held the total.
    CopyFailed,
}

/// One transfer step: a source path, a destination path, and the
/// operation to perform.  Both paths are set at construction and never
/// mutated; equality is structural.
#[derive(Debug)]
pub struct DataTransferStep {
    pub from: String,
    pub to: String,
    pub operation: Operation,
}

/// Structural equality of two steps: same source, same destination, same
/// operation.
pub open spec fn step_eq(a: DataTransferStep, b: DataTransferStep) -> bool {
    a.from@ == b.from@ && a.to@ == b.to@ && a.operation == b.operation
}

impl PartialEq for DataTransferStep {
    fn eq(&self, other: &Self) -> bool {
        self.from == other.from && self.to == other.to && self.operation == other.operation
    }
}

impl vstd::std_specs::cmp::PartialEqSpecImpl for DataTransferStep {
    open spec fn obeys_eq_spec() -> bool {
        true
    }

    open spec fn eq_spec(&self, other: &Self) -> bool {
        step_eq(*self, *other)
    }
}

/// An ordered plan of transfer steps.  Order is significant: locking and
/// execution follow it.  Duplicate paths are permitted; each step is
/// locked and executed independently.  A plan may be empty.
#[derive(Debug)]
pub struct DataTransfer {
    pub steps: Vec<DataTransferStep>,
}

impl PartialEq for DataTransfer {
    fn eq(&self, other: &Self) -> bool {
        if self.steps.len() != other.steps.len() {
            return false;
        }
        let mut i: usize = 0;
        while i < self.steps.len()
            invariant
                i <= self.steps@.len(),
                self.steps@.len() == other.steps@.len(),
                forall|j: int| 0 <= j < i ==> step_eq(self.steps@[j], other.steps@[j]),
            decreases self.steps@.len() - i,
        {
            if !(self.steps[i] == other.steps[i]) {
                return false;
            }
            i = i + 1;
        }
        true
    }
}

impl vstd::std_specs::cmp::PartialEqSpecImpl for DataTransfer {
    open spec fn obeys_eq_spec() -> bool {
        true
    }

    open spec fn eq_spec(&self, other: &Self) -> bool {
        self.steps@.len() == other.steps@.len() && (forall|i: int|
            0 <= i < self.steps@.len() ==> step_eq(self.steps@[i], other.steps@[i]))
    }
}

/// Every step's source is present in the file system.
pub open spec fn all_sources_exist(
    steps: Seq<DataTransferStep>,
    fs: Map<Seq<char>, Seq<u8>>,
) -> bool {
    forall|i: int| 0 <= i < steps.len() ==> fs.contains_key(steps[i].from@)
}

/// The plan holds only copy steps.
pub open spec fn copy_only(steps: Seq<DataTransferStep>) -> bool {
    forall|i: int| 0 <= i < steps.len() ==> steps[i].operation is Copy
}

/// The file system after one step: the destination holds the source's
/// contents, and a move then deletes the source.
pub open spec fn apply_step(
    fs: Map<Seq<char>, Seq<u8>>,
    step: DataTransferStep,
) -> Map<Seq<char>, Seq<u8>>
    recommends
        fs.contains_key(step.from@),
{
    let copied = fs.insert(step.to@, fs[step.from@]);
    if step.operation is Move {
        copied.remove(step.from@)
    } else {
        copied
    }
}

/// How running a sequence of steps ends, starting from a file system and
/// an already accumulated byte count.
pub enum RunOutcome {
    /// Every step ran; `files` is the file system afterwards and `total`
    /// the bytes copied over the whole run.
    Complete { files: Map<Seq<char>, Seq<u8>>, total: u64 },
    /// A step could not copy — its source was gone at its turn, or the
    /// byte counter would have overflowed just after its copy; `files` is
    /// the file system at the point of failure, with the completed steps
    /// applied and nothing rolled back.
    Failed { files: Map<Seq<char>, Seq<u8>> },
}

/// Executes the steps in order: each step copies its source's contents to
/// its destination and adds the source's size to the byte count; a move
/// then deletes its source.  The first step whose source is missing, or
/// whose copy would push the byte count past `u64::MAX`, stops the run.
pub open spec fn run_model(
    steps: Seq<DataTransferStep>,
    fs: Map<Seq<char>, Seq<u8>>,
    acc: u64,
) -> RunOutcome
    decreases steps.len(),
{
    if steps.len() == 0 {
        RunOutcome::Complete { files: fs, total: acc }
    } else if !fs.contains_key(steps.first().from@) {
        RunOutcome::Failed { files: fs }
    } else {
        let n = fs[steps.first().from@].len();
        let next = apply_step(fs, steps.first());
        if acc + n > u64::MAX {
            RunOutcome::Failed { files: next }
        } else {
            run_model(steps.drop_first(), next, (acc + n) as u64)
        }
    }
}

/// A plan that can be validated and run against a file system.
pub trait DataTransferRunner {
    /// The plan's steps, in execution order.
    spec fn plan_steps(&self) -> Seq<DataTransferStep>;

    /// Re-validates the plan, then executes each step in plan order.  A
    /// missing source at validation time fails the whole run with
    /// `NotFound` before any mutation; afterwards the first step that
    /// cannot copy stops the run with `CopyFailed`, the completed steps
    /// kept and nothing rolled back.  On success the total number of
    /// bytes copied is returned.
    fn run(&self, fs: &mut FileSystem) -> (r: Result<u64, TransferError>)
        requires
            old(fs).wf(),
        ensures
            final (fs).wf(),
            !all_sources_exist(self.plan_steps(), old(fs)@) ==> r == Err::<
                u64,
                TransferError,
            >(TransferError::NotFound) && final (fs)@ == old(fs)@,
            all_sources_exist(self.plan_steps(), old(fs)@) ==> (match run_model(
                self.plan_steps(),
                old(fs)@,
                0,
            ) {
                RunOutcome::Complete { files, total } => r == Ok::<u64, TransferError>(total)
                    && final (fs)@ == files,
                RunOutcome::Failed { files } => r == Err::<u64, TransferError>(
                    TransferError::CopyFailed,
                ) && final (fs)@ == files,
            }),
    ;

    /// Whether every step's source exists; never an error of its own.
    fn validate(&self, fs: &FileSystem) -> (r: Result<bool, TransferError>)
        ensures
            r == Ok::<bool, TransferError>(all_sources_exist(self.plan_steps(), fs@)),
    ;

    /// The plan's steps.
    fn get_steps(&self) -> (r: &Vec<DataTransferStep>)
        ensures
            r@ == self.plan_steps(),
    ;
}

impl DataTransferRunner for DataTransfer {
    open spec fn plan_steps(&self) -> Seq<DataTransferStep> {
        self.steps@
    }

    #[verifier::loop_isolation(false)]
    fn run(&self, fs: &mut FileSystem) -> (r: Result<u64, TransferError>) {
        let valid = match self.validate(fs) {
            Ok(b) => b,
            Err(_) => false,
        };
        if !valid {
            return Err(TransferError::NotFound);
        }
        let ghost fs0 = fs@;
        proof {
            assert(self.steps@.skip(0) =~= self.steps@);
        }
        let mut total: u64 = 0;
        let mut i: usize = 0;
        while i < self.steps.len()
            invariant
                i <= self.steps@.len(),
                fs.wf(),
                run_model(self.steps@.skip(i as int), fs@, total) == run_model(
                    self.steps@,
                    fs0,
                    0,
                ),
            decreases self.steps@.len() - i,
        {
            let ghost pre = self.steps@.skip(i as int);
            let ghost fs_at = fs@;
            proof {
                assert(pre[0] == self.steps@[i as int]);
                assert(pre.drop_first() =~= self.steps@.skip(i as int + 1));
            }
            let step = &self.steps[i];
            let copied = fs.copy_file(&step.from, &step.to);
            match copied {
                Some(n) => {
                    match step.operation {
                        Operation::Copy => {},
                        Operation::Move => {
                            let _ = fs.remove_file(&step.from);
                        },
                    }
                    proof {
                        assert(fs@ == apply_step(fs_at, pre.first()));
                    }
                    match total.checked_add(n) {
                        Some(t) => {
                            total = t;
                        },
                        None => {
                            return Err(TransferError::CopyFailed);
                        },
                    }
                },
                None => {
                    return Err(TransferError::CopyFailed);
                },
            }
            i = i + 1;
        }
        proof {
            assert(self.steps@.skip(self.steps@.len() as int) =~= Seq::<
                DataTransferStep,
            >::empty());
        }
        Ok(total)
    }

    #[verifier::loop_isolation(false)]
    fn validate(&self, fs: &FileSystem) -> (r: Result<bool, TransferError>) {
        let mut i: usize = 0;
        while i < self.steps.len()
            invariant
                i <= self.steps@.len(),
                forall|j: int| 0 <= j < i ==> fs@.contains_key(self.steps@[j].from@),
            decreases self.steps@.len() - i,
        {
            if !fs.contains_file(&self.steps[i].from) {
                return Ok(false);
            }
            i = i + 1;
        }
        Ok(true)
    }

    fn get_steps(&self) -> (r: &Vec<DataTransferStep>) {
        &self.steps
    }
}

/// Law: a plan of copy steps deletes nothing.  A completed run keeps
/// every file that was present before it; in particular every step's
/// source file still exists afterwards.
pub proof fn lemma_copy_plan_preserves_files(
    steps: Seq<DataTransferStep>,
    fs: Map<Seq<char>, Seq<u8>>,
    acc: u64,
)
    requires
        copy_only(steps),
    ensures
        run_model(steps, fs, acc) matches RunOutcome::Complete { files, .. } ==> ({
            &&& forall|k: Seq<char>| fs.contains_key(k) ==> files.contains_key(k)
            &&& forall|i: int| 0 <= i < steps.len() ==> files.contains_key(steps[i].from@)
        }),
    decreases steps.len(),
{
    if steps.len() > 0 && fs.contains_key(steps.first().from@) {
        let s0 = steps.first();
        let n = fs[s0.from@].len();
        if acc + n <= u64::MAX {
            let rest = steps.drop_first();
            let next = apply_step(fs, s0);
            assert(s0 == steps[0]);
            assert forall|i: int| 0 <= i < rest.len() implies rest[i].operation is Copy by {
                assert(rest[i] == steps[i + 1]);
            }
            lemma_copy_plan_preserves_files(rest, next, (acc + n) as u64);
            match run_model(steps, fs, acc) {
                RunOutcome::Complete { files, total } => {
                    assert forall|k: Seq<char>| fs.contains_key(k) implies files.contains_key(
                        k,
                    ) by {
                        assert(next.contains_key(k));
                    }
                    assert forall|i: int| 0 <= i < steps.len() implies files.contains_key(
                        steps[i].from@,
                    ) by {
                        if i == 0 {
                            assert(next.contains_key(s0.from@));
                        } else {
                            assert(rest[i - 1] == steps[i]);
                        }
                    }
                },
                RunOutcome::Failed { .. } => {},
            }
        }
    }
}

/// Law: a one-step move plan, run to completion, deletes its source and
/// leaves the source's contents at the destination (stated for a step
/// whose destination differs from its source).
pub proof fn lemma_move_transfers_file(
    step: DataTransferStep,
    fs: Map<Seq<char>, Seq<u8>>,
    acc: u64,
)
    requires
        step.operation is Move,
        step.from@ != step.to@,
        fs.contains_key(step.from@),
        acc + fs[step.from@].len() <= u64::MAX,
    ensures
        (run_model(seq![step], fs, acc) matches RunOutcome::Complete { files, total }
            && !files.contains_key(step.from@) && files.contains_key(step.to@) && files[step.to@]
            == fs[step.from@] && total == acc + fs[step.from@].len()),
{
    reveal_with_fuel(run_model, 2);
    let s = seq![step];
    assert(s.first() == step);
    assert(s.drop_first() =~= Seq::<DataTransferStep>::empty());
}

/// Law: the empty plan validates against any file system, and its run
/// completes with zero bytes transferred and the file system untouched.
pub proof fn lemma_empty_plan_trivial(fs: Map<Seq<char>, Seq<u8>>)
    ensures
        all_sources_exist(Seq::<DataTransferStep>::empty(), fs),
        run_model(Seq::<DataTransferStep>::empty(), fs, 0) == (RunOutcome::Complete {
            files: fs,
            total: 0u64,
        }),
{
}

} // verus!
