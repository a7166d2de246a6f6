use bob::api::{
    alien, change_partition_state, collect_disks_info, collect_replicas_info, data_vdisk_to_scheme,
    find_group, find_vdisk, get_vdisk_by_id, not_acceptable_backend, partition_by_id, partitions,
    status, vdisk_by_id, vdisks, Action, StatusExt,
};
use bob::backend::Backend;
use bob::configs::{BackendSettings, BackendType, NodeConfig, PearlConfig};
use bob::data::{
    BobData, BobFlags, BobKey, BobMeta, BobOptions, DiskPath, Node, NodeDisk, VDisk, VDiskId,
};
use bob::mapper::Virtual;
use std::sync::Arc;

fn shown_backend(kind: BackendType) -> Backend {
    let a = Node::new("node-a", "10.0.0.1", 20000);
    let b = Node::new("node-b", "10.0.0.2", 20001);
    let map = Virtual::new(
        "node-a",
        vec![DiskPath::new("d1", "/tmp/d1"), DiskPath::new("alien", "/tmp")],
        vec![a.clone(), b.clone()],
        vec![
            VDisk::new(
                VDiskId::new(0),
                vec![NodeDisk::new(a.clone(), "d1", "/tmp/d1"), NodeDisk::new(b.clone(), "d7", "/mnt/d7")],
            ),
            VDisk::new(VDiskId::new(1), vec![NodeDisk::new(b, "d7", "/mnt/d7")]),
        ],
    )
    .unwrap();
    let config = NodeConfig {
        name: "node-a".to_string(),
        backend_type: kind,
        pearl: Some(PearlConfig {
            alien_disk: "alien".to_string(),
            fail_retry_timeout: 100,
            settings: BackendSettings {
                root_dir_name: "bob".to_string(),
                alien_root_dir_name: "alien".to_string(),
                timestamp_period: 100,
            },
        }),
        check_interval: 1000,
    };
    Backend::new(Arc::new(map), &config).unwrap()
}

fn written(backend: &mut Backend, key: u64, timestamp: i64) {
    backend
        .put(
            BobKey { key },
            BobData { data: vec![1], meta: BobMeta::new(timestamp) },
            BobOptions::new_put(BobFlags::new_force_node(), vec![]),
        )
        .unwrap();
}

#[test]
fn actions_are_read_from_their_names() {
    assert_eq!(Action::from_param("attach"), Ok(Action::Attach));
    assert_eq!(Action::from_param("detach"), Ok(Action::Detach));
    assert_eq!(Action::from_param("Attach"), Err("Attach".to_string()));
    assert_eq!(Action::from_param(""), Err("".to_string()));
    assert_eq!(Action::Attach.name(), "Attach");
    assert_eq!(Action::Detach.name(), "Detach");
}

#[test]
fn the_status_shows_the_node_and_the_vdisks() {
    let backend = shown_backend(BackendType::Pearl);
    let node = status(&backend);
    assert_eq!(node.name, "node-a");
    assert_eq!(node.address, "10.0.0.1:20000");
    assert_eq!(node.vdisks.len(), 2);
    assert_eq!(node.vdisks[0].id, 0);
    assert_eq!(node.vdisks[0].replicas.len(), 2);
    assert_eq!(node.vdisks[0].replicas[1].node, "node-b");
    assert_eq!(node.vdisks[0].replicas[1].disk, "d7");
    assert_eq!(node.vdisks[0].replicas[1].path, "/mnt/d7");
    assert_eq!(node.vdisks[1].id, 1);
    assert_eq!(vdisks(&backend).len(), 2);
    assert_eq!(collect_disks_info(&backend).len(), 2);
}

#[test]
fn a_vdisk_is_shown_by_its_number() {
    let backend = shown_backend(BackendType::Pearl);
    assert_eq!(vdisk_by_id(&backend, 1).unwrap().id, 1);
    assert!(vdisk_by_id(&backend, 2).is_none());
    assert_eq!(get_vdisk_by_id(&backend, 0).unwrap().replicas[0].disk, "d1");
    assert_eq!(find_vdisk(&backend, 1).unwrap().id.as_u32(), 1);
    assert!(find_vdisk(&backend, 9).is_none());
    let shown = data_vdisk_to_scheme(find_vdisk(&backend, 0).unwrap());
    assert_eq!(shown.id, 0);
    assert_eq!(shown.replicas[0].node, "node-a");
    let replicas = collect_replicas_info(&find_vdisk(&backend, 1).unwrap().replicas);
    assert_eq!(replicas.len(), 1);
    assert_eq!(replicas[0].path, "/mnt/d7");
}

#[test]
fn the_partitions_of_a_vdisk_are_shown_by_their_starts() {
    let mut backend = shown_backend(BackendType::Pearl);
    written(&mut backend, 0, 1000);
    written(&mut backend, 2, 300);
    let shown = partitions(&backend, 0).ok().unwrap();
    assert_eq!(shown.vdisk_id, 0);
    assert_eq!(shown.node_name, "node-a");
    assert_eq!(shown.disk_name, "d1");
    assert_eq!(shown.partitions, vec![300, 1000]);
    let one = partition_by_id(&backend, 0, 300).ok().unwrap();
    assert_eq!(one.timestamp, 300);
    assert_eq!(one.vdisk_id, 0);
    assert_eq!(one.disk_name, "d1");
    let missing = partition_by_id(&backend, 0, 400).err().unwrap();
    assert_eq!(missing.status, 404);
    assert!(!missing.ok);
    assert_eq!(missing.msg, "partition with id: 400 in vdisk 0 not found");
}

#[test]
fn a_vdisk_without_group_is_not_found() {
    let backend = shown_backend(BackendType::Pearl);
    let answer = find_group(&backend, 1).err().unwrap();
    assert_eq!(answer.status, 404);
    assert!(!answer.ok);
    assert_eq!(answer.msg, "vdisk with id: 1 not found");
    assert_eq!(partitions(&backend, 1).err().unwrap().status, 404);
    assert_eq!(partition_by_id(&backend, 1, 0).err().unwrap().msg, "vdisk with id: 1 not found");
    assert_eq!(find_group(&backend, 0).ok().unwrap().disk_name(), "d1");
}

#[test]
fn only_the_time_partitioned_engine_has_partitions() {
    let mut backend = shown_backend(BackendType::InMemory);
    let answer = partitions(&backend, 0).err().unwrap();
    assert_eq!(answer.status, 406);
    assert!(answer.ok);
    assert_eq!(answer.msg, "only pearl backend supports partitions");
    assert_eq!(partition_by_id(&backend, 0, 0).err().unwrap().status, 406);
    assert_eq!(
        change_partition_state(&mut backend, 0, 0, Action::Attach).err().unwrap().status,
        406
    );
    assert_eq!(not_acceptable_backend().status, 406);
}

#[test]
fn partitions_are_attached_and_detached() {
    let mut backend = shown_backend(BackendType::Pearl);
    written(&mut backend, 0, 1000);
    let attached = change_partition_state(&mut backend, 0, 2000, Action::Attach).ok().unwrap();
    assert_eq!(attached.status, 200);
    assert!(attached.ok);
    assert_eq!(attached.msg, "partition with id: 2000 in vdisk 0 is successfully Attached");
    assert_eq!(partitions(&backend, 0).ok().unwrap().partitions, vec![1000, 2000]);
    let again = change_partition_state(&mut backend, 0, 2000, Action::Attach).err().unwrap();
    assert_eq!(again.status, 200);
    assert!(!again.ok);
    assert_eq!(again.msg, "Failed: the partition cannot be attached");
    let detached = change_partition_state(&mut backend, 0, 2000, Action::Detach).ok().unwrap();
    assert_eq!(detached.msg, "partition with id: 2000 in vdisk 0 is successfully Detached");
    assert_eq!(partitions(&backend, 0).ok().unwrap().partitions, vec![1000]);
    let gone = change_partition_state(&mut backend, 0, 2000, Action::Detach).err().unwrap();
    assert!(!gone.ok);
    assert_eq!(gone.msg, "Failed: the partition is not attached");
    let unknown = change_partition_state(&mut backend, 1, 0, Action::Attach).err().unwrap();
    assert_eq!(unknown.status, 404);
}

#[test]
fn an_answer_has_a_body() {
    assert_eq!(
        StatusExt::new(200, true, "done".to_string()).body(),
        "{ \"ok\": true, \"msg\": \"done\" }"
    );
    assert_eq!(
        StatusExt::new(404, false, "no".to_string()).body(),
        "{ \"ok\": false, \"msg\": \"no\" }"
    );
    let bare = StatusExt::from_status(500, "Internal Server Error");
    assert!(bare.ok);
    assert_eq!(bare.msg, "Internal Server Error");
    assert_eq!(bare.status, 500);
    assert_eq!(alien(), "alien");
}
