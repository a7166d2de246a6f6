use bob::data::{BobKey, DiskPath, Node, NodeDisk, VDisk, VDiskId};
use bob::mapper::Virtual;

fn node_a() -> Node {
    Node::new("node-a", "10.0.0.1", 20000)
}

fn node_b() -> Node {
    Node::new("node-b", "10.0.0.2", 20001)
}

fn three_vdisks() -> Vec<VDisk> {
    vec![
        VDisk::new(VDiskId::new(0), vec![NodeDisk::new(node_b(), "d1", "/mnt/b1")]),
        VDisk::new(
            VDiskId::new(1),
            vec![NodeDisk::new(node_b(), "d1", "/mnt/b1"), NodeDisk::new(node_a(), "d1", "/tmp/d1")],
        ),
        VDisk::new(
            VDiskId::new(2),
            vec![NodeDisk::new(node_a(), "d2", "/tmp/d2"), NodeDisk::new(node_a(), "d1", "/tmp/d1")],
        ),
    ]
}

fn map_of_node_a() -> Virtual {
    Virtual::new(
        "node-a",
        vec![DiskPath::new("d1", "/tmp/d1"), DiskPath::new("d2", "/tmp/d2")],
        vec![node_a(), node_b()],
        three_vdisks(),
    )
    .unwrap()
}

#[test]
fn a_key_goes_to_the_vdisk_of_its_remainder() {
    let map = map_of_node_a();
    assert_eq!(map.get_operation(BobKey { key: 0 }).0.as_u32(), 0);
    assert_eq!(map.get_operation(BobKey { key: 1 }).0.as_u32(), 1);
    assert_eq!(map.get_operation(BobKey { key: 2 }).0.as_u32(), 2);
    assert_eq!(map.get_operation(BobKey { key: 99 }).0.as_u32(), 0);
    assert_eq!(map.get_operation(BobKey { key: u64::MAX }).0.as_u32(), 0);
    assert_eq!(map.get_operation(BobKey { key: 100 }).0.as_u32(), 1);
}

#[test]
fn a_key_has_a_local_disk_where_this_node_holds_a_replica() {
    let map = map_of_node_a();
    assert!(map.get_operation(BobKey { key: 0 }).1.is_none());
    let path = map.get_operation(BobKey { key: 1 }).1.unwrap();
    assert_eq!(path.name(), "d1");
    assert_eq!(path.path(), "/tmp/d1");
    let first = map.get_operation(BobKey { key: 2 }).1.unwrap();
    assert_eq!(first.name(), "d2");
    assert_eq!(first.path(), "/tmp/d2");
}

#[test]
fn placement_is_the_same_on_every_call_and_in_every_map_of_the_same_cluster() {
    let map = map_of_node_a();
    let again = map_of_node_a();
    for key in 0..50u64 {
        let here = map.get_operation(BobKey { key });
        let there = again.get_operation(BobKey { key });
        let twice = map.get_operation(BobKey { key });
        assert_eq!(here.0, there.0);
        assert_eq!(here.1, there.1);
        assert_eq!(here.0, twice.0);
        assert_eq!(here.1, twice.1);
    }
}

#[test]
fn a_node_holds_the_vdisks_that_have_a_replica_on_it() {
    let map = map_of_node_a();
    assert!(map.does_node_holds_vdisk("node-b", VDiskId::new(0)));
    assert!(!map.does_node_holds_vdisk("node-a", VDiskId::new(0)));
    assert!(map.does_node_holds_vdisk("node-a", VDiskId::new(1)));
    assert!(!map.does_node_holds_vdisk("node-b", VDiskId::new(2)));
    assert!(!map.does_node_holds_vdisk("node-a", VDiskId::new(3)));
    assert!(!map.does_node_holds_vdisk("node-c", VDiskId::new(1)));
}

#[test]
fn the_vdisks_of_a_disk_are_those_with_a_replica_on_it_here() {
    let map = map_of_node_a();
    let on_d1: Vec<u32> = map.get_vdisks_by_disk("d1").iter().map(|id| id.as_u32()).collect();
    assert_eq!(on_d1, vec![1, 2]);
    let on_d2: Vec<u32> = map.get_vdisks_by_disk("d2").iter().map(|id| id.as_u32()).collect();
    assert_eq!(on_d2, vec![2]);
    assert!(map.get_vdisks_by_disk("d3").is_empty());
}

#[test]
fn a_map_needs_a_virtual_disk_for_each_id() {
    assert!(Virtual::new("node-a", vec![], vec![], vec![]).is_none());
    let gap = vec![VDisk::new(VDiskId::new(0), vec![]), VDisk::new(VDiskId::new(2), vec![])];
    assert!(Virtual::new("node-a", vec![], vec![], gap).is_none());
    let twice = vec![VDisk::new(VDiskId::new(0), vec![]), VDisk::new(VDiskId::new(0), vec![])];
    assert!(Virtual::new("node-a", vec![], vec![], twice).is_none());
    let single = vec![VDisk::new(VDiskId::new(0), vec![])];
    assert!(Virtual::new("node-a", vec![], vec![], single).is_some());
}

#[test]
fn the_virtual_disks_may_come_in_any_order() {
    let mut shuffled = three_vdisks();
    shuffled.reverse();
    let map = Virtual::new(
        "node-a",
        vec![DiskPath::new("d1", "/tmp/d1"), DiskPath::new("d2", "/tmp/d2")],
        vec![node_a(), node_b()],
        shuffled,
    )
    .unwrap();
    let ordered = map_of_node_a();
    let ids: Vec<u32> = map.vdisks().iter().map(|v| v.id.as_u32()).collect();
    assert_eq!(ids, vec![0, 1, 2]);
    for key in 0..20u64 {
        let here = map.get_operation(BobKey { key });
        let there = ordered.get_operation(BobKey { key });
        assert_eq!(here.0, there.0);
        assert_eq!(here.1, there.1);
    }
    assert_eq!(map.vdisks()[2].replicas.len(), 2);
    assert!(map.does_node_holds_vdisk("node-b", VDiskId::new(0)));
}

#[test]
fn the_map_knows_its_node_and_its_disks() {
    let map = map_of_node_a();
    assert_eq!(map.local_node_name(), "node-a");
    assert_eq!(map.local_node_address().unwrap(), "10.0.0.1:20000");
    assert_eq!(map.local_disks().len(), 2);
    assert_eq!(map.nodes().len(), 2);
    assert_eq!(map.vdisks().len(), 3);
    assert_eq!(map.get_disk_by_name("d2").unwrap().path(), "/tmp/d2");
    assert!(map.get_disk_by_name("d9").is_none());
    let ids: Vec<u32> = map.get_vdisks_ids().iter().map(|id| id.as_u32()).collect();
    assert_eq!(ids, vec![0, 1, 2]);
}

#[test]
fn nodes_and_replicas_compare_by_address_and_path() {
    assert!(node_a() == Node::new("other-name", "10.0.0.1", 20000));
    assert!(node_a() != node_b());
    assert!(NodeDisk::new(node_a(), "d1", "/p") == NodeDisk::new(node_a(), "d2", "/p"));
    assert!(NodeDisk::new(node_a(), "d1", "/p") != NodeDisk::new(node_a(), "d1", "/q"));
    assert!(NodeDisk::new(node_a(), "d1", "/p") != NodeDisk::new(node_b(), "d1", "/p"));
}
