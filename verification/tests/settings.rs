use bob::configs::{BackendSettings, BackendType, NodeConfig, PearlConfig};
use bob::data::{BobData, BobMeta, DiskPath, Node, NodeDisk, VDisk, VDiskId};
use bob::error::Error;
use bob::holder::HolderState;
use bob::mapper::Virtual;
use bob::operation::{BackendGetResult, BackendOperation};
use bob::settings::{choose_data, start_of_window, AlienDirectory, Settings};
use std::sync::Arc;

fn settings_node(period: i64) -> NodeConfig {
    NodeConfig {
        name: "node-a".to_string(),
        backend_type: BackendType::Pearl,
        pearl: Some(PearlConfig {
            alien_disk: "alien".to_string(),
            fail_retry_timeout: 100,
            settings: BackendSettings {
                root_dir_name: "bob".to_string(),
                alien_root_dir_name: "alien".to_string(),
                timestamp_period: period,
            },
        }),
        check_interval: 1000,
    }
}

fn settings_map() -> Virtual {
    let a = Node::new("node-a", "10.0.0.1", 20000);
    let b = Node::new("node-b", "10.0.0.2", 20000);
    Virtual::new(
        "node-a",
        vec![DiskPath::new("d1", "/tmp/d1"), DiskPath::new("alien", "/tmp")],
        vec![a.clone(), b.clone()],
        vec![
            VDisk::new(
                VDiskId::new(0),
                vec![NodeDisk::new(a.clone(), "d1", "/tmp/d1"), NodeDisk::new(b.clone(), "d1", "/mnt/d1")],
            ),
            VDisk::new(VDiskId::new(1), vec![NodeDisk::new(b, "d1", "/mnt/d1")]),
            VDisk::new(VDiskId::new(2), vec![NodeDisk::new(a, "d1", "/tmp/d1")]),
        ],
    )
    .unwrap()
}

fn settings_of(period: i64) -> Arc<Settings> {
    Arc::new(Settings::new(&settings_node(period), Arc::new(settings_map())).unwrap())
}

fn found(bytes: Vec<u8>, timestamp: i64) -> BackendGetResult {
    BackendGetResult { data: BobData { data: bytes, meta: BobMeta::new(timestamp) } }
}

#[test]
fn the_window_of_a_timestamp_starts_at_the_multiple_below() {
    assert_eq!(start_of_window(1000, 100), Some(1000));
    assert_eq!(start_of_window(1050, 100), Some(1000));
    assert_eq!(start_of_window(1099, 100), Some(1000));
    assert_eq!(start_of_window(0, 100), Some(0));
    assert_eq!(start_of_window(-1, 100), Some(-100));
    assert_eq!(start_of_window(-100, 100), Some(-100));
    assert_eq!(start_of_window(-101, 100), Some(-200));
    assert_eq!(start_of_window(7, 1), Some(7));
}

#[test]
fn a_window_outside_the_timestamps_is_refused() {
    assert_eq!(start_of_window(i64::MAX, 100), None);
    assert_eq!(start_of_window(i64::MIN, 100), None);
    assert_eq!(start_of_window(i64::MAX, 1), None);
    assert_eq!(start_of_window(i64::MAX - 1, 1), Some(i64::MAX - 1));
    assert_eq!(start_of_window(i64::MIN, 1), Some(i64::MIN));
    assert_eq!(start_of_window(i64::MIN, 2), Some(i64::MIN));
}

#[test]
fn the_latest_record_is_chosen() {
    let chosen = choose_data(vec![found(vec![1], 5), found(vec![2], 9), found(vec![3], 7)]).unwrap();
    assert_eq!(chosen.data.data, vec![2]);
    assert_eq!(chosen.data.meta.timestamp, 9);
}

#[test]
fn among_records_of_one_timestamp_the_last_is_chosen() {
    let chosen = choose_data(vec![found(vec![1], 9), found(vec![2], 9), found(vec![3], 7)]).unwrap();
    assert_eq!(chosen.data.data, vec![2]);
    let single = choose_data(vec![found(vec![4], -3)]).unwrap();
    assert_eq!(single.data.data, vec![4]);
}

#[test]
fn no_record_means_key_not_found() {
    assert_eq!(choose_data(vec![]).err().unwrap(), Error::KeyNotFound);
}

#[test]
fn settings_need_a_positive_period_and_the_alien_disk() {
    assert!(Settings::new(&settings_node(100), Arc::new(settings_map())).is_some());
    assert!(Settings::new(&settings_node(0), Arc::new(settings_map())).is_none());
    assert!(Settings::new(&settings_node(-5), Arc::new(settings_map())).is_none());
    let mut without = settings_node(100);
    without.pearl = None;
    assert!(Settings::new(&without, Arc::new(settings_map())).is_none());
    let mut other = settings_node(100);
    other.pearl.as_mut().unwrap().alien_disk = "nowhere".to_string();
    assert!(Settings::new(&other, Arc::new(settings_map())).is_none());
}

#[test]
fn settings_hold_what_the_options_say() {
    let settings = settings_of(100);
    assert_eq!(settings.get_timestamp_period(), 100);
    assert_eq!(settings.fail_retry_timeout(), 100);
    assert_eq!(settings.alien_disk(), "alien");
    assert_eq!(settings.mapper().local_node_name(), "node-a");
}

#[test]
fn directories_follow_the_layout() {
    let settings = settings_of(100);
    assert_eq!(settings.normal_path("/tmp/d1", VDiskId::new(0)), "/tmp/d1/bob/0/");
    assert_eq!(settings.normal_path("/tmp/d1", VDiskId::new(17)), "/tmp/d1/bob/17/");
    assert_eq!(settings.alien_path(VDiskId::new(0), "node-b"), "/tmp/alien/node-b/0/");
    assert_eq!(Settings::holder_path("/tmp/d1/bob/0/", 1000), "/tmp/d1/bob/0/1000/");
    assert_eq!(Settings::holder_path("/tmp/alien/node-a/0/", 2000), "/tmp/alien/node-a/0/2000/");
    assert_eq!(Settings::holder_path("/g/", -100), "/g/-100/");
}

#[test]
fn a_new_partition_holds_the_timestamp_it_was_made_for() {
    let settings = settings_of(100);
    let data = BobData { data: vec![], meta: BobMeta::new(1234) };
    let holder = settings.create_pearl(&data).unwrap();
    assert_eq!(holder.start_timestamp(), 1200);
    assert_eq!(holder.end_timestamp(), 1300);
    assert_eq!(holder.directory_name(), "1200");
    assert_eq!(Settings::holder_directory("/g/", &holder), "/g/1200/");
    assert_eq!(holder.pearl().state(), HolderState::Created);
    assert!(settings.is_actual(&holder, &data));
    let current = settings.create_current_pearl(1299).unwrap();
    assert_eq!(current.start_timestamp(), 1200);
    assert_eq!(settings.get_current_timestamp_start(1299).unwrap(), 1200);
    assert_eq!(settings.is_actual_pearl(&holder, 1250).unwrap(), true);
    assert_eq!(settings.is_actual_pearl(&holder, 1300).unwrap(), false);
}

#[test]
fn a_partition_outside_the_timestamps_is_not_made() {
    let settings = settings_of(100);
    let data = BobData { data: vec![], meta: BobMeta::new(i64::MAX) };
    assert!(matches!(settings.create_pearl(&data), Err(Error::Failed(_))));
    assert!(matches!(settings.create_current_pearl(i64::MIN), Err(Error::Failed(_))));
    assert!(matches!(settings.get_current_timestamp_start(i64::MAX), Err(Error::Failed(_))));
}

#[test]
fn every_directory_name_that_writes_a_timestamp_becomes_a_partition() {
    let settings = settings_of(100);
    let names: Vec<String> = [
        "1000", "abc", "1050", "-200", "+300", "0400", "", "99999999999999999999", "7",
        "9223372036854775807", "9223372036854775707", "-9223372036854775808",
    ]
    .iter()
    .map(|n| n.to_string())
    .collect();
    let holders = settings.read_vdisk_directory(&names);
    let starts: Vec<i64> = holders.iter().map(|h| h.start_timestamp()).collect();
    assert_eq!(
        starts,
        vec![1000, 1050, -200, 300, 400, 7, 9223372036854775707, i64::MIN]
    );
    for holder in holders.iter() {
        assert_eq!(holder.end_timestamp() as i128 - holder.start_timestamp() as i128, 100);
        assert_eq!(holder.pearl().state(), HolderState::Created);
    }
    let directories: Vec<&str> = holders.iter().map(|h| h.directory_name()).collect();
    assert_eq!(
        directories,
        vec!["1000", "1050", "-200", "+300", "0400", "7", "9223372036854775707", "-9223372036854775808"]
    );
    assert_eq!(Settings::holder_directory("/tmp/d1/bob/0/", &holders[3]), "/tmp/d1/bob/0/+300/");
}

#[test]
fn a_directory_that_is_no_multiple_of_the_period_is_read_as_a_partition() {
    let settings = settings_of(100);
    let holders = settings.read_vdisk_directory(&vec!["1050".to_string()]);
    assert_eq!(holders.len(), 1);
    assert_eq!(holders[0].start_timestamp(), 1050);
    assert_eq!(holders[0].end_timestamp(), 1150);
}

#[test]
fn partitions_made_for_a_timestamp_start_at_multiples_of_the_period() {
    let settings = settings_of(100);
    for ts in [-1001i64, -1000, -1, 0, 1, 99, 100, 1050, 123456789].iter() {
        let data = BobData { data: vec![], meta: BobMeta::new(*ts) };
        let made = settings.create_pearl(&data).unwrap();
        assert_eq!(made.end_timestamp() - made.start_timestamp(), 100);
        assert_eq!(made.start_timestamp().rem_euclid(100), 0);
        assert!(made.start_timestamp() <= *ts && *ts < made.end_timestamp());
        let current = settings.create_current_pearl(*ts).unwrap();
        assert_eq!(current.start_timestamp(), made.start_timestamp());
    }
}

#[test]
fn names_of_nodes_and_vdisks_are_checked_against_the_cluster() {
    let settings = settings_of(100);
    assert_eq!(settings.try_parse_node_name("node-b").unwrap(), "node-b");
    assert!(matches!(settings.try_parse_node_name("node-c"), Err(Error::Failed(_))));
    assert_eq!(settings.try_parse_vdisk_id("2").unwrap().as_u32(), 2);
    assert_eq!(settings.try_parse_vdisk_id("+1").unwrap().as_u32(), 1);
    assert!(matches!(settings.try_parse_vdisk_id("3"), Err(Error::Failed(_))));
    assert!(matches!(settings.try_parse_vdisk_id("x"), Err(Error::Failed(_))));
    assert!(matches!(settings.try_parse_vdisk_id("-1"), Err(Error::Failed(_))));
}

#[test]
fn the_groups_of_a_node_are_those_of_its_disks_and_vdisks() {
    let settings = settings_of(100);
    let groups = Settings::read_group_from_disk(&settings);
    assert_eq!(groups.len(), 2);
    assert_eq!(groups[0].vdisk_id().as_u32(), 0);
    assert_eq!(groups[0].node_name(), "node-a");
    assert_eq!(groups[0].disk_name(), "d1");
    assert_eq!(groups[0].directory_path(), "/tmp/d1/bob/0/");
    assert_eq!(groups[1].vdisk_id().as_u32(), 2);
    assert_eq!(groups[1].directory_path(), "/tmp/d1/bob/2/");
    assert!(groups[0].pearls().is_empty());
    assert_eq!(groups[1].settings().get_timestamp_period(), 100);
}

#[test]
fn alien_directories_of_known_nodes_and_held_vdisks_become_groups() {
    let settings = settings_of(100);
    let listing = vec![
        AlienDirectory {
            node_name: "node-b".to_string(),
            vdisks: vec!["0".to_string(), "2".to_string(), "1".to_string(), "7".to_string(), "x".to_string()],
        },
        AlienDirectory { node_name: "stranger".to_string(), vdisks: vec!["0".to_string()] },
        AlienDirectory { node_name: "node-a".to_string(), vdisks: vec!["02".to_string()] },
    ];
    let groups = Settings::read_alien_directory(&settings, &listing);
    assert_eq!(groups.len(), 3);
    assert_eq!(groups[0].node_name(), "node-b");
    assert_eq!(groups[0].vdisk_id().as_u32(), 0);
    assert_eq!(groups[0].disk_name(), "alien");
    assert_eq!(groups[0].directory_path(), "/tmp/alien/node-b/0/");
    assert_eq!(groups[1].node_name(), "node-b");
    assert_eq!(groups[1].vdisk_id().as_u32(), 1);
    assert_eq!(groups[2].node_name(), "node-a");
    assert_eq!(groups[2].vdisk_id().as_u32(), 2);
    assert_eq!(groups[2].directory_path(), "/tmp/alien/node-a/02/");
}

#[test]
fn an_alien_group_is_made_for_the_node_of_an_operation() {
    let settings = settings_of(100);
    let mut operation = BackendOperation::new_alien(VDiskId::new(1));
    assert!(matches!(Settings::create_group(&settings, &operation), Err(Error::Internal)));
    operation.set_remote_folder("node-b");
    let group = Settings::create_group(&settings, &operation).ok().unwrap();
    assert_eq!(group.node_name(), "node-b");
    assert_eq!(group.vdisk_id().as_u32(), 1);
    assert_eq!(group.disk_name(), "alien");
    assert_eq!(group.directory_path(), "/tmp/alien/node-b/1/");
    assert!(group.equal(&operation));
}
