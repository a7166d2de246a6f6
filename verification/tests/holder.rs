use bob::data::{BobData, BobKey, BobMeta};
use bob::error::Error;
use bob::holder::{HolderState, PearlHolder, PearlTimestampHolder};

fn record(bytes: Vec<u8>, timestamp: i64) -> BobData {
    BobData { data: bytes, meta: BobMeta::new(timestamp) }
}

#[test]
fn a_new_log_is_created_and_not_ready() {
    let mut log = PearlHolder::new();
    assert_eq!(log.state(), HolderState::Created);
    assert!(!log.is_ready());
    assert_eq!(
        log.write(BobKey { key: 1 }, record(vec![1], 5)).err().unwrap(),
        Error::VDiskIsNotReady
    );
    assert_eq!(log.read(BobKey { key: 1 }).err().unwrap(), Error::VDiskIsNotReady);
    assert_eq!(log.exist(&vec![BobKey { key: 1 }]).err().unwrap(), Error::VDiskIsNotReady);
}

#[test]
fn a_prepared_log_takes_each_key_once() {
    let mut log = PearlHolder::new();
    log.prepare().unwrap();
    assert_eq!(log.state(), HolderState::Ready);
    log.write(BobKey { key: 1 }, record(vec![0x41], 1000)).unwrap();
    assert_eq!(
        log.write(BobKey { key: 1 }, record(vec![0x42], 1000)).err().unwrap(),
        Error::DuplicateKey
    );
    let read = log.read(BobKey { key: 1 }).unwrap();
    assert_eq!(read.data, vec![0x41]);
    assert_eq!(read.meta.timestamp, 1000);
    assert_eq!(log.read(BobKey { key: 2 }).err().unwrap(), Error::KeyNotFound);
    assert_eq!(
        log.exist(&vec![BobKey { key: 2 }, BobKey { key: 1 }]).unwrap(),
        vec![false, true]
    );
}

#[test]
fn a_failed_log_refuses_with_a_storage_error_and_keeps_its_records() {
    let mut log = PearlHolder::new();
    log.prepare().unwrap();
    log.write(BobKey { key: 1 }, record(vec![1], 10)).unwrap();
    log.fail("disk gone");
    assert_eq!(log.state(), HolderState::Failed);
    assert_eq!(
        log.write(BobKey { key: 2 }, record(vec![2], 10)).err().unwrap(),
        Error::StorageError("disk gone".to_string())
    );
    assert_eq!(
        log.read(BobKey { key: 1 }).err().unwrap(),
        Error::StorageError("disk gone".to_string())
    );
    assert_eq!(log.prepare().err().unwrap(), Error::StorageError("disk gone".to_string()));
    assert_eq!(log.try_reinit().unwrap(), true);
    assert_eq!(log.state(), HolderState::Reinitializing);
    assert_eq!(log.read(BobKey { key: 1 }).err().unwrap(), Error::VDiskIsNotReady);
    log.reinit().unwrap();
    assert_eq!(log.state(), HolderState::Ready);
    assert_eq!(log.read(BobKey { key: 1 }).unwrap().data, vec![1]);
    assert_eq!(log.read(BobKey { key: 2 }).err().unwrap(), Error::KeyNotFound);
}

#[test]
fn only_one_caller_reinitializes() {
    let mut log = PearlHolder::new();
    log.prepare().unwrap();
    assert_eq!(log.try_reinit().unwrap(), true);
    assert_eq!(log.try_reinit().unwrap(), false);
    assert_eq!(log.state(), HolderState::Reinitializing);
    assert_eq!(log.prepare().err().unwrap(), Error::VDiskIsNotReady);
    log.reinit().unwrap();
    assert_eq!(log.try_reinit().unwrap(), true);
}

#[test]
fn a_partition_needs_a_window() {
    assert!(PearlTimestampHolder::new(PearlHolder::new(), 1000, 1100).is_some());
    assert!(PearlTimestampHolder::new(PearlHolder::new(), 0, 100).is_some());
    assert!(PearlTimestampHolder::new(PearlHolder::new(), -100, 0).is_some());
    assert!(PearlTimestampHolder::new(PearlHolder::new(), 1050, 1150).is_some());
    assert!(PearlTimestampHolder::new(PearlHolder::new(), -50, 50).is_some());
    assert!(PearlTimestampHolder::new(PearlHolder::new(), 100, 100).is_none());
    assert!(PearlTimestampHolder::new(PearlHolder::new(), 100, 0).is_none());
    assert!(PearlTimestampHolder::new(PearlHolder::new(), i64::MIN, i64::MAX).is_none());
    assert!(PearlTimestampHolder::new(PearlHolder::new(), i64::MIN, 0).is_none());
    assert!(PearlTimestampHolder::new(PearlHolder::new(), i64::MIN, -1).is_some());
    assert!(PearlTimestampHolder::new(PearlHolder::new(), i64::MIN, i64::MIN / 2).is_some());
}

#[test]
fn a_partition_takes_the_timestamps_of_its_window() {
    let holder = PearlTimestampHolder::new(PearlHolder::new(), 2000, 2100).unwrap();
    let period = holder.end_timestamp() - holder.start_timestamp();
    assert_eq!(period, 100);
    assert_eq!(holder.start_timestamp() % period, 0);
    assert!(holder.is_actual(&record(vec![], 2000)));
    assert!(holder.is_actual(&record(vec![], 2099)));
    assert!(!holder.is_actual(&record(vec![], 2100)));
    assert!(!holder.is_actual(&record(vec![], 1999)));
}

#[test]
fn a_partition_hands_reads_and_writes_to_its_log() {
    let mut holder = PearlTimestampHolder::new(PearlHolder::new(), 0, 10).unwrap();
    assert_eq!(
        holder.write(BobKey { key: 1 }, record(vec![1], 3)).err().unwrap(),
        Error::VDiskIsNotReady
    );
    holder.prepare().unwrap();
    holder.write(BobKey { key: 1 }, record(vec![1], 3)).unwrap();
    assert_eq!(holder.read(BobKey { key: 1 }).unwrap().data, vec![1]);
    assert_eq!(holder.exist(&vec![BobKey { key: 1 }]).unwrap(), vec![true]);
    holder.fail("broken");
    assert_eq!(holder.pearl().state(), HolderState::Failed);
    assert_eq!(holder.try_reinit().unwrap(), true);
    holder.reinit().unwrap();
    assert!(holder.pearl().is_ready());
    assert_eq!(holder.start_timestamp(), 0);
    assert_eq!(holder.end_timestamp(), 10);
}

#[test]
fn a_log_that_is_being_opened_is_not_ready_yet() {
    let mut log = PearlHolder::new();
    assert!(log.begin_prepare());
    assert_eq!(log.state(), HolderState::Initializing);
    assert!(!log.begin_prepare());
    assert_eq!(log.read(BobKey { key: 1 }).err().unwrap(), Error::VDiskIsNotReady);
    assert_eq!(
        log.write(BobKey { key: 1 }, record(vec![1], 1)).err().unwrap(),
        Error::VDiskIsNotReady
    );
    log.prepare().unwrap();
    assert_eq!(log.state(), HolderState::Ready);
    assert!(!log.begin_prepare());
    assert_eq!(log.state(), HolderState::Ready);
    let mut holder = PearlTimestampHolder::new(PearlHolder::new(), 0, 10).unwrap();
    assert!(holder.begin_prepare());
    assert_eq!(holder.pearl().state(), HolderState::Initializing);
    holder.prepare().unwrap();
    assert!(holder.pearl().is_ready());
}

#[test]
fn a_partition_lies_in_the_directory_of_its_start_or_of_the_name_given() {
    let made = PearlTimestampHolder::new(PearlHolder::new(), -100, 0).unwrap();
    assert_eq!(made.directory_name(), "-100");
    let found =
        PearlTimestampHolder::in_directory(PearlHolder::new(), 100, 200, "0100".to_string()).unwrap();
    assert_eq!(found.directory_name(), "0100");
    assert_eq!(found.start_timestamp(), 100);
    assert!(PearlTimestampHolder::in_directory(PearlHolder::new(), 5, 5, "5".to_string()).is_none());
}
