use guarded_transfer::DataTransfer;
use guarded_transfer::DataTransferRunner;
use guarded_transfer::DataTransferStep;
use guarded_transfer::FileSystem;
use guarded_transfer::LockSet;
use guarded_transfer::Operation;
use guarded_transfer::TransferError;
use guarded_transfer::lock_all;
use guarded_transfer::unlock_all;
use guarded_transfer::with_lock;

fn build_test_data(from: &str, to: &str, operation: Operation) -> DataTransfer {
    let transfer_step = DataTransferStep {
        from: from.to_owned(),
        to: to.to_owned(),
        operation,
    };
    DataTransfer { steps: vec![transfer_step] }
}

#[test]
fn assert_file_exists() {
    let mut fs = FileSystem::new();
    fs.write_file("from.tmp".to_owned(), Vec::new());
    fs.write_file("to.tmp".to_owned(), Vec::new());
    let transfer = build_test_data("from.tmp", "to.tmp", Operation::Copy);
    assert_eq!(transfer.validate(&fs).unwrap(), true)
}

#[test]
fn assert_run_copy() {
    let mut fs = FileSystem::new();
    fs.write_file("from.tmp".to_owned(), Vec::new());
    fs.write_file("to.tmp".to_owned(), Vec::new());
    let transfer = build_test_data("from.tmp", "to.tmp", Operation::Copy);
    let mut locks = LockSet::new();
    let _copy = with_lock(&transfer, &mut fs, &mut locks);
    let is_successful = transfer.steps.iter().all(|step| fs.contains_file(&step.to));
    assert!(is_successful)
}

#[test]
fn assert_move() {
    let mut fs = FileSystem::new();
    fs.write_file("test.dat".to_owned(), b"see me getting written".to_vec());
    fs.write_file("moved.tmp".to_owned(), Vec::new());
    let transfer = build_test_data("test.dat", "moved.tmp", Operation::Move);
    let mut locks = LockSet::new();
    let _copy = with_lock(&transfer, &mut fs, &mut locks);
    let origin_exists_after_move = fs.contains_file(&transfer.steps[0].from);
    let destination_exists_after_move = fs.contains_file(&transfer.steps[0].to);
    assert!(!origin_exists_after_move);
    assert!(destination_exists_after_move);
}

#[test]
fn copy_keeps_source_and_contents() {
    let mut fs = FileSystem::new();
    fs.write_file("a.txt".to_owned(), b"hello".to_vec());
    let transfer = build_test_data("a.txt", "b.txt", Operation::Copy);
    let mut locks = LockSet::new();
    let result = with_lock(&transfer, &mut fs, &mut locks);
    assert_eq!(result, Ok(true));
    assert_eq!(
        fs.read_file(&"b.txt".to_owned()).unwrap().as_slice(),
        b"hello"
    );
    assert!(fs.contains_file(&"a.txt".to_owned()));
    assert_eq!(
        fs.read_file(&"a.txt".to_owned()).unwrap().as_slice(),
        b"hello"
    );
}

#[test]
fn move_transfers_contents_and_deletes_source() {
    let mut fs = FileSystem::new();
    fs.write_file("m.dat".to_owned(), b"payload".to_vec());
    let transfer = build_test_data("m.dat", "n.dat", Operation::Move);
    let mut locks = LockSet::new();
    let result = with_lock(&transfer, &mut fs, &mut locks);
    assert_eq!(result, Ok(true));
    assert_eq!(
        fs.read_file(&"n.dat".to_owned()).unwrap().as_slice(),
        b"payload"
    );
    assert!(!fs.contains_file(&"m.dat".to_owned()));
}

#[test]
fn missing_source_fails_and_creates_nothing() {
    let mut fs = FileSystem::new();
    let transfer = build_test_data("missing.txt", "out.txt", Operation::Copy);
    let mut locks = LockSet::new();
    let guarded = with_lock(&transfer, &mut fs, &mut locks);
    assert_eq!(guarded, Err(TransferError::LockOpenFailed));
    assert!(!fs.contains_file(&"out.txt".to_owned()));
    let direct = transfer.run(&mut fs);
    assert_eq!(direct, Err(TransferError::NotFound));
    assert!(!fs.contains_file(&"out.txt".to_owned()));
}

#[test]
fn one_missing_source_fails_the_whole_plan_before_any_copy() {
    let mut fs = FileSystem::new();
    fs.write_file("ok.txt".to_owned(), b"data".to_vec());
    let transfer = DataTransfer {
        steps: vec![
            DataTransferStep {
                from: "ok.txt".to_owned(),
                to: "ok_copy.txt".to_owned(),
                operation: Operation::Copy,
            },
            DataTransferStep {
                from: "missing.txt".to_owned(),
                to: "other.txt".to_owned(),
                operation: Operation::Copy,
            },
        ],
    };
    assert_eq!(transfer.validate(&fs).unwrap(), false);
    let result = transfer.run(&mut fs);
    assert_eq!(result, Err(TransferError::NotFound));
    assert!(!fs.contains_file(&"ok_copy.txt".to_owned()));
    assert!(!fs.contains_file(&"other.txt".to_owned()));
}

#[test]
fn empty_plan_succeeds_with_zero_bytes_and_no_mutation() {
    let mut fs = FileSystem::new();
    fs.write_file("untouched.txt".to_owned(), b"still here".to_vec());
    let transfer = DataTransfer { steps: Vec::new() };
    let mut locks = LockSet::new();
    assert_eq!(with_lock(&transfer, &mut fs, &mut locks), Ok(true));
    assert_eq!(transfer.run(&mut fs), Ok(0));
    assert_eq!(
        fs.read_file(&"untouched.txt".to_owned()).unwrap().as_slice(),
        b"still here"
    );
    assert!(!locks.holds(&"untouched.txt".to_owned()));
}

#[test]
fn run_reports_total_bytes_copied() {
    let mut fs = FileSystem::new();
    fs.write_file("five.bin".to_owned(), vec![1, 2, 3, 4, 5]);
    fs.write_file("seven.bin".to_owned(), vec![0; 7]);
    let transfer = DataTransfer {
        steps: vec![
            DataTransferStep {
                from: "five.bin".to_owned(),
                to: "five_copy.bin".to_owned(),
                operation: Operation::Copy,
            },
            DataTransferStep {
                from: "seven.bin".to_owned(),
                to: "seven_copy.bin".to_owned(),
                operation: Operation::Copy,
            },
        ],
    };
    assert_eq!(transfer.run(&mut fs), Ok(12));
}

#[test]
fn unlocking_a_moved_away_source_is_not_a_failure() {
    let mut fs = FileSystem::new();
    fs.write_file("m.dat".to_owned(), b"payload".to_vec());
    let transfer = build_test_data("m.dat", "n.dat", Operation::Move);
    let mut locks = LockSet::new();
    assert_eq!(lock_all(&transfer.steps, &fs, &mut locks), Ok(true));
    assert!(locks.holds(&"m.dat".to_owned()));
    // The move deletes its source while the lock is held.
    assert_eq!(transfer.run(&mut fs), Ok(7));
    assert!(!fs.contains_file(&"m.dat".to_owned()));
    assert_eq!(unlock_all(&transfer.steps, &mut locks), true);
    assert!(!locks.holds(&"m.dat".to_owned()));
}

#[test]
fn lock_phase_is_all_or_nothing() {
    let mut fs = FileSystem::new();
    fs.write_file("good.txt".to_owned(), b"x".to_vec());
    let transfer = DataTransfer {
        steps: vec![
            DataTransferStep {
                from: "good.txt".to_owned(),
                to: "good_copy.txt".to_owned(),
                operation: Operation::Copy,
            },
            DataTransferStep {
                from: "absent.txt".to_owned(),
                to: "absent_copy.txt".to_owned(),
                operation: Operation::Copy,
            },
        ],
    };
    let mut locks = LockSet::new();
    assert_eq!(
        lock_all(&transfer.steps, &fs, &mut locks),
        Err(TransferError::LockOpenFailed)
    );
    assert!(!locks.holds(&"good.txt".to_owned()));
    assert!(!locks.holds(&"absent.txt".to_owned()));
}

#[test]
fn mid_run_failure_still_releases_every_lock() {
    let mut fs = FileSystem::new();
    fs.write_file("a.bin".to_owned(), b"abc".to_vec());
    let transfer = DataTransfer {
        steps: vec![
            DataTransferStep {
                from: "a.bin".to_owned(),
                to: "b.bin".to_owned(),
                operation: Operation::Move,
            },
            // The same source again: the move above already deleted it.
            DataTransferStep {
                from: "a.bin".to_owned(),
                to: "c.bin".to_owned(),
                operation: Operation::Copy,
            },
        ],
    };
    let mut locks = LockSet::new();
    let result = with_lock(&transfer, &mut fs, &mut locks);
    assert_eq!(result, Err(TransferError::CopyFailed));
    // The first step's work is kept; nothing is rolled back.
    assert_eq!(fs.read_file(&"b.bin".to_owned()).unwrap().as_slice(), b"abc");
    assert!(!fs.contains_file(&"a.bin".to_owned()));
    assert!(!fs.contains_file(&"c.bin".to_owned()));
    assert!(!locks.holds(&"a.bin".to_owned()));
}

#[test]
fn plan_equality_is_structural() {
    let left = build_test_data("a.txt", "b.txt", Operation::Copy);
    let same = build_test_data("a.txt", "b.txt", Operation::Copy);
    let other_op = build_test_data("a.txt", "b.txt", Operation::Move);
    let other_path = build_test_data("a.txt", "c.txt", Operation::Copy);
    assert!(left == same);
    assert!(left != other_op);
    assert!(left != other_path);
    assert!(left.steps[0] == same.steps[0]);
}

#[test]
fn file_system_copy_reports_size_or_missing_source() {
    let mut fs = FileSystem::new();
    fs.write_file("src.bin".to_owned(), vec![9, 9, 9]);
    assert_eq!(fs.copy_file(&"src.bin".to_owned(), &"dst.bin".to_owned()), Some(3));
    assert_eq!(fs.read_file(&"dst.bin".to_owned()).unwrap().as_slice(), &[9, 9, 9]);
    assert_eq!(fs.copy_file(&"gone.bin".to_owned(), &"dst2.bin".to_owned()), None);
    assert!(!fs.contains_file(&"dst2.bin".to_owned()));
    assert!(fs.remove_file(&"dst.bin".to_owned()));
    assert!(!fs.remove_file(&"dst.bin".to_owned()));
}

#[test]
fn get_steps_returns_the_plan_steps() {
    let transfer = build_test_data("a.txt", "b.txt", Operation::Copy);
    let steps = transfer.get_steps();
    assert_eq!(steps.len(), 1);
    assert!(steps[0] == transfer.steps[0]);
}
