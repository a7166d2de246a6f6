use bob::data::{BobData, BobKey, BobMeta, DiskPath, VDiskId};
use bob::error::Error;
use bob::mem_backend::{MemBackend, MemDisk, VDisk};
use bob::operation::BackendOperation;

const VDISKS_COUNT: u32 = 10;

fn payload(bytes: Vec<u8>) -> BobData {
    BobData { data: bytes, meta: BobMeta::new_stub() }
}

#[test]
fn test_mem_put_wrong_disk() {
    let mut backend = MemBackend::new_direct(&["name".to_string()], VDISKS_COUNT);

    let retval = backend.put(
        BackendOperation::new_local(VDiskId::new(0), DiskPath::new("invalid name", "")),
        BobKey { key: 1 },
        BobData { data: vec![0], meta: BobMeta::new_stub() },
    );
    assert_eq!(retval.err().unwrap(), Error::Internal)
}

#[test]
fn test_mem_put_get() {
    let mut backend = MemBackend::new_direct(&["name".to_string()], VDISKS_COUNT);

    backend
        .put(
            BackendOperation::new_local(VDiskId::new(0), DiskPath::new("name", "")),
            BobKey { key: 1 },
            BobData { data: vec![1], meta: BobMeta::new_stub() },
        )
        .unwrap();
    let retval = backend
        .get(
            BackendOperation::new_local(VDiskId::new(0), DiskPath::new("name", "")),
            BobKey { key: 1 },
        )
        .unwrap();
    assert_eq!(retval.data.data, vec![1]);
}

#[test]
fn test_mem_get_wrong_disk() {
    let mut backend = MemBackend::new_direct(&["name".to_string()], VDISKS_COUNT);

    backend
        .put(
            BackendOperation::new_local(VDiskId::new(0), DiskPath::new("name", "")),
            BobKey { key: 1 },
            BobData { data: vec![1], meta: BobMeta::new_stub() },
        )
        .unwrap();
    let retval = backend.get(
        BackendOperation::new_local(VDiskId::new(0), DiskPath::new("invalid name", "")),
        BobKey { key: 1 },
    );
    assert_eq!(retval.err().unwrap(), Error::Internal)
}

#[test]
fn test_mem_get_no_data() {
    let backend = MemBackend::new_direct(&["name".to_string()], VDISKS_COUNT);

    let retval = backend.get(
        BackendOperation::new_local(VDiskId::new(0), DiskPath::new("name", "")),
        BobKey { key: 1 },
    );
    assert_eq!(retval.err().unwrap(), Error::KeyNotFound)
}

#[test]
fn mem_vdisk_keeps_the_last_payload_of_a_key() {
    let mut vdisk = VDisk::new();
    assert!(vdisk.get(BobKey { key: 7 }).is_none());
    vdisk.put(BobKey { key: 7 }, payload(vec![1, 2]));
    vdisk.put(BobKey { key: 7 }, payload(vec![3]));
    assert_eq!(vdisk.get(BobKey { key: 7 }).unwrap().data, vec![3]);
    assert!(vdisk.get(BobKey { key: 8 }).is_none());
}

#[test]
fn mem_disk_has_the_virtual_disks_below_its_count() {
    let mut disk = MemDisk::new("d".to_string(), 2);
    assert_eq!(disk.name(), "d");
    disk.put(VDiskId::new(1), BobKey { key: 5 }, payload(vec![9]));
    assert_eq!(disk.get(VDiskId::new(1), BobKey { key: 5 }).unwrap().data, vec![9]);
    assert!(disk.get(VDiskId::new(0), BobKey { key: 5 }).is_none());
}

#[test]
fn mem_disk_drops_a_write_to_an_unknown_virtual_disk() {
    let mut disk = MemDisk::new("d".to_string(), 2);
    disk.put(VDiskId::new(2), BobKey { key: 5 }, payload(vec![9]));
    assert!(disk.get(VDiskId::new(2), BobKey { key: 5 }).is_none());
}

#[test]
fn mem_backend_put_without_local_disk_is_internal() {
    let mut backend = MemBackend::new(&["name".to_string()], VDISKS_COUNT);
    let retval = backend.put(
        BackendOperation::new_alien(VDiskId::new(0)),
        BobKey { key: 1 },
        payload(vec![1]),
    );
    assert_eq!(retval.err().unwrap(), Error::Internal);
}

#[test]
fn mem_backend_alien_data_is_kept_apart() {
    let mut backend = MemBackend::new_direct(&["name".to_string()], VDISKS_COUNT);
    let mut op = BackendOperation::new_alien(VDiskId::new(3));
    op.set_remote_folder("other");
    backend.put_alien(op.clone(), BobKey { key: 4 }, payload(vec![8])).unwrap();
    assert_eq!(backend.get_alien(op.clone(), BobKey { key: 4 }).unwrap().data.data, vec![8]);
    assert_eq!(
        backend.get_alien(op, BobKey { key: 5 }).err().unwrap(),
        Error::KeyNotFound
    );
    let local = BackendOperation::new_local(VDiskId::new(3), DiskPath::new("name", ""));
    assert_eq!(backend.get(local, BobKey { key: 4 }).err().unwrap(), Error::KeyNotFound);
}

#[test]
fn mem_backend_exist_answers_key_by_key() {
    let mut backend = MemBackend::new_direct(&["name".to_string()], VDISKS_COUNT);
    let op = BackendOperation::new_local(VDiskId::new(0), DiskPath::new("name", ""));
    backend.put(op.clone(), BobKey { key: 1 }, payload(vec![1])).unwrap();
    let found = backend
        .exist(op, &vec![BobKey { key: 1 }, BobKey { key: 2 }])
        .unwrap();
    assert_eq!(found, vec![true, false]);
}
