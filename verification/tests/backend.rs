use bob::backend::{Backend, BackendStorage};
use bob::configs::{BackendSettings, BackendType, NodeConfig, PearlConfig};
use bob::data::{
    BobData, BobFlags, BobKey, BobMeta, BobOptions, DiskPath, GetSource, Node, NodeDisk, VDisk,
    VDiskId,
};
use bob::error::Error;
use bob::holder::HolderState;
use bob::mapper::Virtual;
use bob::operation::BackendOperation;
use bob::pearl::Pearl;
use bob::settings::{AlienDirectory, Settings};
use bob::stub_backend::StubBackend;
use std::sync::Arc;

fn node_named(name: &str) -> Node {
    Node::new(name, "10.0.0.1", 20000)
}

fn one_vdisk_cluster() -> Virtual {
    Virtual::new(
        "node-a",
        vec![DiskPath::new("d1", "/tmp/d1"), DiskPath::new("alien", "/tmp")],
        vec![node_named("node-a"), node_named("node-b")],
        vec![VDisk::new(
            VDiskId::new(0),
            vec![
                NodeDisk::new(node_named("node-a"), "d1", "/tmp/d1"),
                NodeDisk::new(node_named("node-b"), "d1", "/mnt/d1"),
            ],
        )],
    )
    .unwrap()
}

fn three_vdisk_cluster() -> Virtual {
    Virtual::new(
        "node-a",
        vec![DiskPath::new("d1", "/tmp/d1"), DiskPath::new("alien", "/tmp")],
        vec![node_named("node-a"), node_named("node-b")],
        vec![
            VDisk::new(VDiskId::new(0), vec![NodeDisk::new(node_named("node-b"), "d1", "/mnt/d1")]),
            VDisk::new(VDiskId::new(1), vec![NodeDisk::new(node_named("node-a"), "d1", "/tmp/d1")]),
            VDisk::new(VDiskId::new(2), vec![NodeDisk::new(node_named("node-a"), "d1", "/tmp/d1")]),
        ],
    )
    .unwrap()
}

fn options_of(kind: BackendType) -> NodeConfig {
    NodeConfig {
        name: "node-a".to_string(),
        backend_type: kind,
        pearl: Some(PearlConfig {
            alien_disk: "alien".to_string(),
            fail_retry_timeout: 100,
            settings: BackendSettings {
                root_dir_name: "bob".to_string(),
                alien_root_dir_name: "alien".to_string(),
                timestamp_period: 100,
            },
        }),
        check_interval: 1000,
    }
}

fn pearl_backend(map: Virtual) -> Backend {
    Backend::new(Arc::new(map), &options_of(BackendType::Pearl)).unwrap()
}

fn blob(bytes: Vec<u8>, timestamp: i64) -> BobData {
    BobData { data: bytes, meta: BobMeta::new(timestamp) }
}

fn plain_put() -> BobOptions {
    BobOptions::new_put(BobFlags::new_force_node(), vec![])
}

fn normal_get() -> BobOptions {
    BobOptions::new_get(BobFlags::new_force_node(), GetSource::Normal)
}

fn alien_get() -> BobOptions {
    BobOptions::new_get(BobFlags::new_force_node(), GetSource::Alien)
}

fn normal_groups(backend: &Backend) -> &Vec<bob::group::PearlGroup> {
    backend.backend().vdisks_groups().unwrap()
}

fn alien_groups(backend: &Backend) -> &Vec<bob::group::PearlGroup> {
    match backend.backend() {
        BackendStorage::Pearl(pearl) => pearl.alien_groups(),
        _ => panic!("the engine has no groups"),
    }
}

fn directories_of(groups: &Vec<bob::group::PearlGroup>) -> Vec<String> {
    let mut all = Vec::new();
    for group in groups.iter() {
        for holder in group.pearls().iter() {
            all.push(Settings::holder_directory(group.directory_path(), holder));
        }
    }
    all
}

#[test]
fn round_trip() {
    let mut backend = pearl_backend(one_vdisk_cluster());
    backend.put(BobKey { key: 1 }, blob(vec![0x41], 1_000), plain_put()).unwrap();
    let read = backend.get(BobKey { key: 1 }, &normal_get()).unwrap();
    assert_eq!(read.data.data, vec![0x41]);
    assert_eq!(read.data.meta.timestamp, 1_000);
    assert_eq!(directories_of(normal_groups(&backend)), vec!["/tmp/d1/bob/0/1000/".to_string()]);
    assert!(alien_groups(&backend).is_empty());
}

#[test]
fn conflict_resolution() {
    let mut backend = pearl_backend(one_vdisk_cluster());
    backend.put(BobKey { key: 2 }, blob(vec![0x00], 500), plain_put()).unwrap();
    backend.put(BobKey { key: 2 }, blob(vec![0x01], 1500), plain_put()).unwrap();
    assert_eq!(backend.get(BobKey { key: 2 }, &normal_get()).unwrap().data.data, vec![0x01]);
}

#[test]
fn alien_fallback() {
    let mut backend = pearl_backend(one_vdisk_cluster());
    backend.put(BobKey { key: 9 }, blob(vec![0x09], 2050), plain_put()).unwrap();
    let local = BackendOperation::new_local(VDiskId::new(0), DiskPath::new("d1", "/tmp/d1"));
    backend.report_failure(&local, 2000, "disk d1 is broken");
    assert_eq!(normal_groups(&backend)[0].pearls()[0].pearl().state(), HolderState::Failed);

    let answer = backend.put(BobKey { key: 3 }, blob(vec![0x02], 2000), plain_put());
    assert_eq!(answer.err().unwrap(), Error::Internal);

    assert_eq!(alien_groups(&backend).len(), 1);
    assert_eq!(alien_groups(&backend)[0].node_name(), "node-a");
    assert_eq!(alien_groups(&backend)[0].vdisk_id().as_u32(), 0);
    assert_eq!(
        directories_of(alien_groups(&backend)),
        vec!["/tmp/alien/node-a/0/2000/".to_string()]
    );
    let mut alien = BackendOperation::new_alien(VDiskId::new(0));
    alien.set_remote_folder("node-a");
    let kept = backend.get_local(BobKey { key: 3 }, alien).unwrap();
    assert_eq!(kept.data.data, vec![0x02]);
    assert_eq!(
        backend.get(BobKey { key: 3 }, &normal_get()).err().unwrap(),
        Error::KeyNotFound
    );
}

#[test]
fn remote_alien() {
    let mut backend = pearl_backend(one_vdisk_cluster());
    let options = BobOptions::new_put(BobFlags::new_force_node(), vec!["node-b".to_string()]);
    backend.put(BobKey { key: 4 }, blob(vec![0x03], 2100), options).unwrap();
    assert_eq!(
        directories_of(alien_groups(&backend)),
        vec!["/tmp/alien/node-b/0/2100/".to_string()]
    );
    assert!(directories_of(normal_groups(&backend)).is_empty());
    let mut alien = BackendOperation::new_alien(VDiskId::new(0));
    alien.set_remote_folder("node-b");
    assert_eq!(backend.get_local(BobKey { key: 4 }, alien).unwrap().data.data, vec![0x03]);
}

#[test]
fn duplicate() {
    let mut backend = pearl_backend(one_vdisk_cluster());
    backend.put(BobKey { key: 1 }, blob(vec![0x41], 1_000), plain_put()).unwrap();
    let again = backend.put(BobKey { key: 1 }, blob(vec![0x42], 1_000), plain_put());
    assert_eq!(again.err().unwrap(), Error::DuplicateKey);
    assert!(alien_groups(&backend).is_empty());
    assert_eq!(backend.get(BobKey { key: 1 }, &normal_get()).unwrap().data.data, vec![0x41]);
}

#[test]
fn batched_exist() {
    let mut backend = pearl_backend(three_vdisk_cluster());
    backend.put(BobKey { key: 1 }, blob(vec![1], 1_000), plain_put()).unwrap();
    backend.put(BobKey { key: 2 }, blob(vec![2], 1_000), plain_put()).unwrap();
    let keys = vec![BobKey { key: 1 }, BobKey { key: 99 }, BobKey { key: 2 }];
    assert_eq!(backend.exist(&keys, &normal_get()).unwrap(), vec![true, false, true]);
}

#[test]
fn keys_are_sorted_into_one_batch_for_each_operation() {
    let backend = pearl_backend(three_vdisk_cluster());
    let keys: Vec<BobKey> = [1u64, 99, 2, 4, 5, 3].iter().map(|k| BobKey { key: *k }).collect();
    let batches = backend.group_keys_by_operations(&keys, &normal_get());
    assert_eq!(batches.len(), 2);
    assert_eq!(batches[0].operation.vdisk_id().as_u32(), 1);
    assert_eq!(batches[0].keys, vec![BobKey { key: 1 }, BobKey { key: 4 }]);
    assert_eq!(batches[0].indexes, vec![0, 3]);
    assert_eq!(batches[1].operation.vdisk_id().as_u32(), 2);
    assert_eq!(batches[1].keys, vec![BobKey { key: 2 }, BobKey { key: 5 }]);
    assert_eq!(batches[1].indexes, vec![2, 4]);
    let alien = backend.group_keys_by_operations(&keys, &alien_get());
    assert_eq!(alien.len(), 3);
    let neither = BobOptions::new_put(BobFlags::new_force_node(), vec![]);
    assert!(backend.group_keys_by_operations(&keys, &neither).is_empty());
}

#[test]
fn exist_is_false_for_keys_without_operation_and_for_missing_groups() {
    let mut backend = pearl_backend(three_vdisk_cluster());
    backend.put(BobKey { key: 1 }, blob(vec![1], 1_000), plain_put()).unwrap();
    let keys = vec![BobKey { key: 1 }, BobKey { key: 0 }];
    let neither = BobOptions::new_put(BobFlags::new_force_node(), vec![]);
    assert_eq!(backend.exist(&keys, &neither).unwrap(), vec![false, false]);
    assert_eq!(backend.exist(&keys, &alien_get()).unwrap(), vec![false, false]);
    assert_eq!(backend.exist(&vec![], &normal_get()).unwrap(), Vec::<bool>::new());
}

#[test]
fn a_write_for_a_vdisk_that_this_node_does_not_hold_is_internal() {
    let mut backend = pearl_backend(three_vdisk_cluster());
    let answer = backend.put(BobKey { key: 0 }, blob(vec![1], 1_000), plain_put());
    assert_eq!(answer.err().unwrap(), Error::Internal);
    assert!(directories_of(normal_groups(&backend)).is_empty());
    assert!(alien_groups(&backend).is_empty());
}

#[test]
fn a_read_needs_a_source_and_a_place() {
    let mut backend = pearl_backend(three_vdisk_cluster());
    backend.put(BobKey { key: 1 }, blob(vec![1], 1_000), plain_put()).unwrap();
    let neither = BobOptions::new_put(BobFlags::new_force_node(), vec![]);
    assert_eq!(backend.get(BobKey { key: 1 }, &neither).err().unwrap(), Error::Internal);
    assert_eq!(backend.get(BobKey { key: 0 }, &normal_get()).err().unwrap(), Error::Internal);
    assert_eq!(backend.get(BobKey { key: 1 }, &alien_get()).err().unwrap(), Error::Internal);
    assert_eq!(backend.get(BobKey { key: 4 }, &normal_get()).err().unwrap(), Error::KeyNotFound);
    let all = BobOptions::new_get(BobFlags::new_force_node(), GetSource::All);
    assert_eq!(backend.get(BobKey { key: 1 }, &all).unwrap().data.data, vec![1]);
}

#[test]
fn remote_writes_stop_at_the_first_failure() {
    let mut backend = pearl_backend(one_vdisk_cluster());
    let options = BobOptions::new_put(
        BobFlags::new_force_node(),
        vec!["node-b".to_string(), "node-b".to_string(), "node-a".to_string()],
    );
    let answer = backend.put(BobKey { key: 4 }, blob(vec![3], 2100), options);
    assert_eq!(answer.err().unwrap(), Error::DuplicateKey);
    assert_eq!(alien_groups(&backend).len(), 1);
    assert_eq!(alien_groups(&backend)[0].node_name(), "node-b");
}

#[test]
fn a_write_that_cannot_be_kept_anywhere_ends_with_the_local_error() {
    let mut backend = pearl_backend(one_vdisk_cluster());
    let answer = backend.put(BobKey { key: 1 }, blob(vec![1], i64::MAX), plain_put());
    assert_eq!(answer.err().unwrap(), Error::Internal);
    let operation = BackendOperation::new_local(VDiskId::new(0), DiskPath::new("d1", "/tmp/d1"));
    let raw = backend.put_local(BobKey { key: 1 }, blob(vec![1], i64::MAX), operation);
    assert_eq!(raw.err().unwrap(), Error::Internal);
    assert_eq!(alien_groups(&backend).len(), 1);
    assert!(alien_groups(&backend)[0].pearls().is_empty());
}

#[test]
fn the_engine_starts_from_the_names_in_its_directories() {
    let mut backend = pearl_backend(three_vdisk_cluster());
    let names = vec![vec!["100".to_string()], vec![]];
    backend.run_backend(&names, &vec![], 250).unwrap();
    assert_eq!(
        directories_of(normal_groups(&backend)),
        vec![
            "/tmp/d1/bob/1/100/".to_string(),
            "/tmp/d1/bob/1/200/".to_string(),
            "/tmp/d1/bob/2/200/".to_string()
        ]
    );
    assert_eq!(
        backend.run_backend(&vec![], &vec![], 250).err().unwrap(),
        Error::Internal
    );
    assert!(matches!(backend.run_backend(&names, &vec![], i64::MAX), Err(Error::Failed(_))));
}

#[test]
fn the_stub_engine_accepts_everything_and_finds_nothing() {
    let mut backend = Backend::new(Arc::new(one_vdisk_cluster()), &options_of(BackendType::Stub)).unwrap();
    backend.put(BobKey { key: 1 }, blob(vec![7], 1), plain_put()).unwrap();
    let read = backend.get(BobKey { key: 1 }, &normal_get()).unwrap();
    assert_eq!(read.data.data, vec![0]);
    assert_eq!(read.data.meta.timestamp, 1);
    assert_eq!(backend.exist(&vec![BobKey { key: 1 }], &normal_get()).unwrap(), vec![false]);
    backend.run_backend(&vec![], &vec![], 0).unwrap();
    assert!(backend.backend().vdisks_groups().is_none());
    let stub = StubBackend {};
    assert!(stub.put(BackendOperation::new_alien(VDiskId::new(0)), BobKey { key: 1 }, blob(vec![], 0)).is_ok());
}

#[test]
fn the_memory_engine_keeps_what_is_written() {
    let mut backend =
        Backend::new(Arc::new(one_vdisk_cluster()), &options_of(BackendType::InMemory)).unwrap();
    backend.put(BobKey { key: 1 }, blob(vec![7], 1), plain_put()).unwrap();
    backend.put(BobKey { key: 1 }, blob(vec![8], 1), plain_put()).unwrap();
    assert_eq!(backend.get(BobKey { key: 1 }, &normal_get()).unwrap().data.data, vec![8]);
    assert_eq!(backend.get(BobKey { key: 2 }, &normal_get()).err().unwrap(), Error::KeyNotFound);
    assert_eq!(
        backend.exist(&vec![BobKey { key: 1 }, BobKey { key: 2 }], &normal_get()).unwrap(),
        vec![true, false]
    );
    let remote = BobOptions::new_put(BobFlags::new_force_node(), vec!["node-b".to_string()]);
    backend.put(BobKey { key: 5 }, blob(vec![9], 1), remote).unwrap();
    assert_eq!(backend.get(BobKey { key: 5 }, &alien_get()).unwrap().data.data, vec![9]);
    assert_eq!(backend.get(BobKey { key: 5 }, &normal_get()).err().unwrap(), Error::KeyNotFound);
}

#[test]
fn a_backend_without_settings_for_its_engine_is_not_made() {
    let mut options = options_of(BackendType::Pearl);
    options.pearl = None;
    assert!(Backend::new(Arc::new(one_vdisk_cluster()), &options).is_none());
    options.backend_type = BackendType::Stub;
    assert!(Backend::new(Arc::new(one_vdisk_cluster()), &options).is_some());
}

#[test]
fn an_operation_is_found_for_the_source_of_a_read() {
    let backend = pearl_backend(three_vdisk_cluster());
    let local = backend.find_operation(BobKey { key: 1 }, &normal_get()).unwrap();
    assert!(!local.is_data_alien());
    assert_eq!(local.disk_name_local(), "d1");
    assert_eq!(local.vdisk_id().as_u32(), 1);
    assert!(backend.find_operation(BobKey { key: 0 }, &normal_get()).is_none());
    let alien = backend.find_operation(BobKey { key: 0 }, &alien_get()).unwrap();
    assert!(alien.is_data_alien());
    assert!(alien.remote_node_name.is_none());
    let neither = BobOptions::new_put(BobFlags::empty(), vec![]);
    assert!(backend.find_operation(BobKey { key: 1 }, &neither).is_none());
}

#[test]
fn alien_groups_found_on_disk_take_the_writes_for_their_node() {
    let mut backend = pearl_backend(one_vdisk_cluster());
    let listing = vec![AlienDirectory {
        node_name: "node-b".to_string(),
        vdisks: vec!["00".to_string(), "5".to_string()],
    }];
    backend.load_alien_groups(&listing);
    assert_eq!(alien_groups(&backend).len(), 1);
    let options = BobOptions::new_put(BobFlags::new_force_node(), vec!["node-b".to_string()]);
    backend.put(BobKey { key: 4 }, blob(vec![3], 2100), options).unwrap();
    assert_eq!(alien_groups(&backend).len(), 1);
    assert_eq!(
        directories_of(alien_groups(&backend)),
        vec!["/tmp/alien/node-b/00/2100/".to_string()]
    );
}

#[test]
fn the_partitions_of_the_engine_are_attached_by_vdisk() {
    let mut backend = pearl_backend(one_vdisk_cluster());
    backend.change_partition_state(0, 700, true).unwrap();
    assert_eq!(directories_of(normal_groups(&backend)), vec!["/tmp/d1/bob/0/700/".to_string()]);
    assert!(matches!(backend.change_partition_state(0, 700, true), Err(Error::Failed(_))));
    assert_eq!(backend.change_partition_state(3, 700, true).err().unwrap(), Error::VDiskNoFound(3));
    backend.change_partition_state(0, 700, false).unwrap();
    assert!(directories_of(normal_groups(&backend)).is_empty());
    let mut stub = Backend::new(Arc::new(one_vdisk_cluster()), &options_of(BackendType::Stub)).unwrap();
    assert_eq!(stub.change_partition_state(0, 700, true).err().unwrap(), Error::Internal);
}

#[test]
fn presence_of_alien_data_is_answered_like_that_of_own_data() {
    let mut memory =
        Backend::new(Arc::new(one_vdisk_cluster()), &options_of(BackendType::InMemory)).unwrap();
    let remote = BobOptions::new_put(BobFlags::new_force_node(), vec!["node-b".to_string()]);
    memory.put(BobKey { key: 5 }, blob(vec![9], 1), remote).unwrap();
    let keys = vec![BobKey { key: 5 }, BobKey { key: 6 }];
    assert_eq!(memory.exist(&keys, &alien_get()).unwrap(), vec![true, false]);
    assert_eq!(memory.exist(&keys, &normal_get()).unwrap(), vec![false, false]);

    let settings =
        Settings::new(&options_of(BackendType::Pearl), Arc::new(one_vdisk_cluster())).unwrap();
    let mut pearl = Pearl::new(Arc::new(settings));
    let mut alien = BackendOperation::new_alien(VDiskId::new(0));
    alien.set_remote_folder("node-b");
    pearl.put_alien(alien.clone(), BobKey { key: 5 }, blob(vec![9], 100)).unwrap();
    assert_eq!(pearl.exist_alien(alien.clone(), &keys).unwrap(), vec![true, false]);
    assert_eq!(pearl.get_alien(alien.clone(), BobKey { key: 5 }).unwrap().data.data, vec![9]);
    let local = BackendOperation::new_local(VDiskId::new(0), DiskPath::new("d1", "/tmp/d1"));
    assert_eq!(pearl.exist(local.clone(), &keys).unwrap(), vec![false, false]);
    pearl.put(local.clone(), BobKey { key: 6 }, blob(vec![8], 100)).unwrap();
    assert_eq!(pearl.exist(local.clone(), &keys).unwrap(), vec![false, true]);
    assert_eq!(pearl.get(local, BobKey { key: 6 }).unwrap().data.data, vec![8]);
    let unknown = BackendOperation::new_local(VDiskId::new(0), DiskPath::new("d9", "/tmp/d9"));
    assert_eq!(pearl.exist(unknown.clone(), &keys).err().unwrap(), Error::VDiskNoFound(0));
    assert_eq!(
        pearl.put(unknown.clone(), BobKey { key: 7 }, blob(vec![7], 100)).err().unwrap(),
        Error::VDiskNoFound(0)
    );
    assert_eq!(pearl.get(unknown, BobKey { key: 6 }).err().unwrap(), Error::VDiskNoFound(0));
    assert_eq!(
        pearl.put_alien(BackendOperation::new_alien(VDiskId::new(0)), BobKey { key: 7 }, blob(vec![7], 100))
            .err()
            .unwrap(),
        Error::Internal
    );
}

#[test]
fn every_batch_holds_keys_at_increasing_positions() {
    let backend = pearl_backend(three_vdisk_cluster());
    let keys: Vec<BobKey> =
        [1u64, 1, 4, 2, 7, 2, 0, 10, 5].iter().map(|k| BobKey { key: *k }).collect();
    let batches = backend.group_keys_by_operations(&keys, &normal_get());
    let mut seen = vec![0usize; keys.len()];
    for batch in batches.iter() {
        assert!(!batch.keys.is_empty());
        assert_eq!(batch.keys.len(), batch.indexes.len());
        for pair in batch.indexes.windows(2) {
            assert!(pair[0] < pair[1]);
        }
        for (key, index) in batch.keys.iter().zip(batch.indexes.iter()) {
            assert_eq!(*key, keys[*index]);
            assert_eq!(backend.find_operation(*key, &normal_get()).unwrap(), batch.operation);
            seen[*index] += 1;
        }
    }
    for (index, key) in keys.iter().enumerate() {
        let expected = if backend.find_operation(*key, &normal_get()).is_some() { 1 } else { 0 };
        assert_eq!(seen[index], expected);
    }
}

#[test]
fn errors_of_the_engine_carry_the_vdisk_and_the_text_of_the_failure() {
    let settings =
        Settings::new(&options_of(BackendType::Pearl), Arc::new(one_vdisk_cluster())).unwrap();
    let mut pearl = Pearl::new(Arc::new(settings));
    let local = BackendOperation::new_local(VDiskId::new(0), DiskPath::new("d1", "/tmp/d1"));
    pearl.put(local.clone(), BobKey { key: 1 }, blob(vec![1], 100)).unwrap();
    pearl.report_failure(&local, 100, "no space left");
    assert_eq!(
        pearl.put(local.clone(), BobKey { key: 2 }, blob(vec![2], 150)).err().unwrap(),
        Error::StorageError("no space left".to_string())
    );
    pearl.report_failure(&local, 100, "no space left");
    assert_eq!(
        pearl.get(local, BobKey { key: 1 }).err().unwrap(),
        Error::Failed("cannot read from some pearls".to_string())
    );
    let far = BackendOperation::new_local(VDiskId::new(9), DiskPath::new("d1", "/tmp/d1"));
    assert_eq!(
        pearl.get(far, BobKey { key: 1 }).err().unwrap(),
        Error::VDiskNoFound(9)
    );
}
