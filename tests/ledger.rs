use fishy::deploy::{should_publish, DeployError};
use fishy::init::{check_project_schema_name, init_schema_file, sanity_check, InitError};
use fishy::lock_file::{append_commits, check_commits, Commit, LedgerError, LockFile, LockFileVersion};

#[test]
fn lock_file_version_number() {
    assert_eq!(LockFileVersion::V1.as_u64(), 1);
    assert_eq!(LockFileVersion::from_u64(1), Some(LockFileVersion::V1));
    assert_eq!(LockFileVersion::from_u64(2), None);
}

#[test]
fn commit_hashes_its_entry() {
    let c = Commit::new(&vec![1, 2, 3], &vec![9]);
    assert_eq!(c.entry_hash.len(), 68);
    assert!(c.entry_hash.starts_with("0020"));
    assert_ne!(c.entry_hash, Commit::new(&vec![1, 2, 4], &vec![9]).entry_hash);
    assert!(c.is_intact());
    assert_eq!(check_commits(&vec![c.clone()]), Ok(()));
    let mut bad = c.clone();
    bad.entry = vec![7];
    assert!(!bad.is_intact());
    assert_eq!(
        check_commits(&vec![c.clone(), bad.clone()]),
        Err(LedgerError::EntryHashMismatch { entry_hash: c.entry_hash.clone() })
    );
}

#[test]
fn appending_keeps_order() {
    let a = Commit::new(&vec![1], &vec![1]);
    let b = Commit::new(&vec![2], &vec![2]);
    let c = Commit::new(&vec![3], &vec![3]);
    let lock = LockFile::new(&vec![a.clone()]);
    let next = append_commits(&lock, &vec![b.clone(), c.clone()]);
    assert_eq!(next.commits(), vec![a.clone(), b, c]);
    assert_eq!(next.version(), LockFileVersion::V1);
    let empty = LockFile::from_parts(LockFileVersion::V1, None);
    assert_eq!(empty.commits(), Vec::<Commit>::new());
}

#[test]
fn deploy_decisions() {
    assert_eq!(should_publish(0, 3, None), Ok(true));
    assert_eq!(should_publish(0, 3, Some((0, 4))), Ok(false));
    assert_eq!(should_publish(0, 4, Some((0, 4))), Ok(true));
    assert_eq!(
        should_publish(0, 3, Some((1, 1))),
        Err(DeployError::LogMismatch { local_log_id: 0, remote_log_id: 1 })
    );
}

#[test]
fn init_checks_and_template() {
    assert_eq!(sanity_check(&"dir".to_string(), true), Ok(()));
    assert_eq!(
        sanity_check(&"dir".to_string(), false),
        Err(InitError::MissingTargetDir { target_dir: "dir".to_string() })
    );
    assert_eq!(check_project_schema_name(&"events".to_string()), Ok(()));
    assert_eq!(
        check_project_schema_name(&"e".to_string()),
        Err(InitError::InvalidSchemaName { name: "e".to_string() })
    );
    assert_eq!(
        init_schema_file(&"events".to_string()),
        "[events]\ndescription = \"Write about your schema here\"\n\n[events.fields]\nsome_field = { type = \"str\" }"
    );
}
