use vstd::prelude::*;

use crate::fs_model::FileSystem;
use crate::transfer::DataTransfer;
use crate::transfer::DataTransferRunner;
use crate::transfer::DataTransferStep;
use crate::transfer::RunOutcome;
use crate::transfer::TransferError;
use crate::transfer::all_sources_exist;
use crate::transfer::run_model;

verus! {

/// The set of paths whose files the guarded run currently holds an
/// exclusive lock on.  It exists only for the span of one guarded run:
/// created empty, filled by the lock phase, drained by the unlock phase.
pub struct LockSet {
    held: Vec<String>,
}

/// The set described by a sequence of locked paths.
spec fn set_of(paths: Seq<String>) -> Set<Seq<char>>
    decreases paths.len(),
{
    if paths.len() == 0 {
        Set::empty()
    } else {
        set_of(paths.drop_last()).insert(paths.last()@)
    }
}

/// Each path is held at most once.
spec fn unique_locks(paths: Seq<String>) -> bool {
    forall|i: int, j: int| 0 <= i < j < paths.len() ==> paths[i]@ != paths[j]@
}

impl View for LockSet {
    type V = Set<Seq<char>>;

    closed spec fn view(&self) -> Set<Seq<char>> {
        set_of(self.held@)
    }
}

proof fn lemma_set_of_contains(paths: Seq<String>, k: Seq<char>)
    ensures
        set_of(paths).contains(k) <==> (exists|i: int| 0 <= i < paths.len() && paths[i]@ == k),
    decreases paths.len(),
{
    if paths.len() > 0 {
        lemma_set_of_contains(paths.drop_last(), k);
        if paths.last()@ == k {
            assert(paths[paths.len() - 1]@ == k);
        } else {
            if set_of(paths).contains(k) {
                let i = choose|i: int|
                    0 <= i < paths.drop_last().len() && paths.drop_last()[i]@ == k;
                assert(paths[i]@ == k);
            }
            if exists|i: int| 0 <= i < paths.len() && paths[i]@ == k {
                let i = choose|i: int| 0 <= i < paths.len() && paths[i]@ == k;
                assert(paths.drop_last()[i]@ == k);
            }
        }
    }
}

proof fn lemma_set_of_remove(paths: Seq<String>, i: int)
    requires
        unique_locks(paths),
        0 <= i < paths.len(),
    ensures
        unique_locks(paths.remove(i)),
        set_of(paths.remove(i)) == set_of(paths).remove(paths[i]@),
    decreases paths.len(),
{
    let k = paths[i]@;
    if i == paths.len() - 1 {
        assert(paths.remove(i) =~= paths.drop_last());
        lemma_set_of_contains(paths.drop_last(), k);
        assert forall|j: int| 0 <= j < paths.drop_last().len()
            implies paths.drop_last()[j]@ != k by {
            assert(paths[j]@ != paths[paths.len() - 1]@);
        }
        assert(!set_of(paths.drop_last()).contains(k));
        assert(set_of(paths.drop_last()).insert(k).remove(k) =~= set_of(paths.drop_last()));
    } else {
        lemma_set_of_remove(paths.drop_last(), i);
        assert(paths.remove(i).drop_last() =~= paths.drop_last().remove(i));
        assert(paths.remove(i).last() == paths.last());
        assert(paths.drop_last()[i] == paths[i]);
        let lk = paths.last()@;
        assert(lk != k);
        assert(set_of(paths.drop_last()).remove(k).insert(lk) =~= set_of(
            paths.drop_last(),
        ).insert(lk).remove(k));
        assert(set_of(paths.remove(i)) =~= set_of(paths).remove(k));
    }
}

impl LockSet {
    /// Each path is held at most once.
    pub closed spec fn wf(&self) -> bool {
        unique_locks(self.held@)
    }

    /// A lock set holding nothing.
    pub fn new() -> (r: LockSet)
        ensures
            r.wf(),
            r@ == Set::<Seq<char>>::empty(),
    {
        LockSet { held: Vec::new() }
    }

    fn find_lock(&self, path: &String) -> (r: Option<usize>)
        ensures
            match r {
                Some(i) => i < self.held@.len() && self.held@[i as int]@ == path@,
                None => forall|j: int| 0 <= j < self.held@.len() ==> self.held@[j]@ != path@,
            },
    {
        let mut i: usize = 0;
        while i < self.held.len()
            invariant
                i <= self.held@.len(),
                forall|j: int| 0 <= j < i ==> self.held@[j]@ != path@,
            decreases self.held@.len() - i,
        {
            if self.held[i] == *path {
                return Some(i);
            }
            i = i + 1;
        }
        None
    }

    /// Whether the lock on the given path is currently held.
    pub fn holds(&self, path: &String) -> (r: bool)
        ensures
            r == self@.contains(path@),
    {
        proof {
            lemma_set_of_contains(self.held@, path@);
        }
        self.find_lock(path).is_some()
    }

    /// Takes the exclusive lock on the given path; taking a lock that is
    /// already held changes nothing.
    fn acquire(&mut self, path: &String)
        requires
            old(self).wf(),
        ensures
            final (self).wf(),
            final (self)@ == old(self)@.insert(path@),
    {
        proof {
            lemma_set_of_contains(self.held@, path@);
        }
        match self.find_lock(path) {
            Some(_) => {
                proof {
                    assert(self@ =~= self@.insert(path@));
                }
            },
            None => {
                let ghost cur = self.held@;
                self.held.push(path.clone());
                proof {
                    assert(self.held@.drop_last() =~= cur);
                    assert forall|a: int, b: int| 0 <= a < b < self.held@.len()
                        implies self.held@[a]@ != self.held@[b]@ by {
                        assert(self.held@[a] == cur[a]);
                        if b < self.held@.len() - 1 {
                            assert(self.held@[b] == cur[b]);
                        }
                    }
                }
            },
        }
    }

    /// Drops the lock on the given path; dropping one that is not held
    /// changes nothing.
    fn release(&mut self, path: &String)
        requires
            old(self).wf(),
        ensures
            final (self).wf(),
            final (self)@ == old(self)@.remove(path@),
    {
        proof {
            lemma_set_of_contains(self.held@, path@);
        }
        match self.find_lock(path) {
            Some(i) => {
                proof {
                    lemma_set_of_remove(self.held@, i as int);
                }
                self.held.remove(i);
            },
            None => {
                proof {
                    assert(self@ =~= self@.remove(path@));
                }
            },
        }
    }
}

/// The set of source paths that a plan's steps touch.
pub open spec fn source_set(steps: Seq<DataTransferStep>) -> Set<Seq<char>>
    decreases steps.len(),
{
    if steps.len() == 0 {
        Set::empty()
    } else {
        source_set(steps.drop_last()).insert(steps.last().from@)
    }
}

/// Locks every step's source, in plan order, all or nothing: when some
/// source cannot be opened — in this model, when it does not exist — no
/// lock is taken and the run is refused.  A missing source at lock time
/// is a validation problem, not a tolerated transfer side effect, so
/// unlike releasing, locking treats it as a hard failure.
#[verifier::loop_isolation(false)]
pub fn lock_all(steps: &Vec<DataTransferStep>, fs: &FileSystem, locks: &mut LockSet) -> (r:
    Result<bool, TransferError>)
    requires
        old(locks).wf(),
    ensures
        final (locks).wf(),
        all_sources_exist(steps@, fs@) ==> (r == Ok::<bool, TransferError>(true) && final (locks)@
            == old(locks)@.union(source_set(steps@))),
        !all_sources_exist(steps@, fs@) ==> (r == Err::<bool, TransferError>(
            TransferError::LockOpenFailed,
        ) && final (locks)@ == old(locks)@),
{
    let ghost locks0 = locks@;
    let mut i: usize = 0;
    while i < steps.len()
        invariant
            i <= steps@.len(),
            forall|j: int| 0 <= j < i ==> fs@.contains_key(steps@[j].from@),
        decreases steps@.len() - i,
    {
        if !fs.contains_file(&steps[i].from) {
            return Err(TransferError::LockOpenFailed);
        }
        i = i + 1;
    }
    proof {
        assert(steps@.take(0) =~= Seq::<DataTransferStep>::empty());
        assert(locks0.union(source_set(steps@.take(0))) =~= locks0);
    }
    let mut i: usize = 0;
    while i < steps.len()
        invariant
            i <= steps@.len(),
            locks.wf(),
            locks@ == locks0.union(source_set(steps@.take(i as int))),
        decreases steps@.len() - i,
    {
        locks.acquire(&steps[i].from);
        proof {
            assert(steps@.take(i as int + 1).drop_last() =~= steps@.take(i as int));
            assert(steps@.take(i as int + 1).last() == steps@[i as int]);
            assert(locks0.union(source_set(steps@.take(i as int))).insert(steps@[i as int].from@)
                =~= locks0.union(source_set(steps@.take(i as int + 1))));
        }
        i = i + 1;
    }
    proof {
        assert(steps@.take(steps@.len() as int) =~= steps@);
    }
    Ok(true)
}

/// Releases every step's source lock, in plan order, and reports success.
/// Releasing is keyed by the path alone, so a source file that no longer
/// exists — a move legitimately deletes its source during the run — is
/// trivially unlocked, never a failure; in this model no other way for a
/// release to fail exists, so the report is always success.
#[verifier::loop_isolation(false)]
pub fn unlock_all(steps: &Vec<DataTransferStep>, locks: &mut LockSet) -> (r: bool)
    requires
        old(locks).wf(),
    ensures
        final (locks).wf(),
        final (locks)@ == old(locks)@.difference(source_set(steps@)),
        r,
{
    let ghost locks0 = locks@;
    proof {
        assert(steps@.take(0) =~= Seq::<DataTransferStep>::empty());
        assert(locks0.difference(source_set(steps@.take(0))) =~= locks0);
    }
    let mut i: usize = 0;
    while i < steps.len()
        invariant
            i <= steps@.len(),
            locks.wf(),
            locks@ == locks0.difference(source_set(steps@.take(i as int))),
        decreases steps@.len() - i,
    {
        locks.release(&steps[i].from);
        proof {
            assert(steps@.take(i as int + 1).drop_last() =~= steps@.take(i as int));
            assert(steps@.take(i as int + 1).last() == steps@[i as int]);
            assert(locks0.difference(source_set(steps@.take(i as int))).remove(
                steps@[i as int].from@,
            ) =~= locks0.difference(source_set(steps@.take(i as int + 1))));
        }
        i = i + 1;
    }
    proof {
        assert(steps@.take(steps@.len() as int) =~= steps@);
    }
    true
}

/// The guarded run: lock every source, run the plan, release every
/// source, as one composed operation.  The locks are released on every
/// exit path that acquired them — also when a step fails mid-run — so a
/// guarded run never leaks a lock; only the lock phase's own refusal
/// leaves everything untouched.
pub fn with_lock(transfer: &DataTransfer, fs: &mut FileSystem, locks: &mut LockSet) -> (r: Result<
    bool,
    TransferError,
>)
    requires
        old(fs).wf(),
        old(locks).wf(),
    ensures
        final (fs).wf(),
        final (locks).wf(),
        !all_sources_exist(transfer.steps@, old(fs)@) ==> (r == Err::<bool, TransferError>(
            TransferError::LockOpenFailed,
        ) && final (fs)@ == old(fs)@ && final (locks)@ == old(locks)@),
        all_sources_exist(transfer.steps@, old(fs)@) ==> (final (locks)@ == old(
            locks,
        )@.difference(source_set(transfer.steps@)) && (match run_model(
            transfer.steps@,
            old(fs)@,
            0,
        ) {
            RunOutcome::Complete { files, .. } => r == Ok::<bool, TransferError>(true)
                && final (fs)@ == files,
            RunOutcome::Failed { files } => r == Err::<bool, TransferError>(
                TransferError::CopyFailed,
            ) && final (fs)@ == files,
        })),
{
    let ghost locks0 = locks@;
    let acquired = match lock_all(transfer.get_steps(), &*fs, locks) {
        Ok(b) => b,
        Err(e) => {
            return Err(e);
        },
    };
    if !acquired {
        // Not all locks were taken: a hard precondition for running, so
        // abort; the all-or-nothing lock phase cannot report this, but a
        // run must never start on a partly locked plan.
        return Err(TransferError::LockOpenFailed);
    }
    let outcome = transfer.run(fs);
    let released = unlock_all(transfer.get_steps(), locks);
    proof {
        assert(locks0.union(source_set(transfer.steps@)).difference(
            source_set(transfer.steps@),
        ) =~= locks0.difference(source_set(transfer.steps@)));
    }
    match outcome {
        Ok(_) => Ok(released),
        Err(e) => Err(e),
    }
}

} // verus!
