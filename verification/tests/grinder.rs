use bob::configs::{BackendSettings, BackendType, NodeConfig, PearlConfig};
use bob::data::{
    BobData, BobFlags, BobKey, BobMeta, BobOptions, DiskPath, GetSource, Node, NodeDisk, VDisk,
    VDiskId,
};
use bob::error::Error;
use bob::api::Action;
use bob::backend::{BackendStorage, StartAction};
use bob::grinder::{Grinder, Routed};
use bob::settings::AlienDirectory;
use bob::mapper::Virtual;

fn router() -> Grinder {
    let a = Node::new("node-a", "10.0.0.1", 20000);
    let map = Virtual::new(
        "node-a",
        vec![DiskPath::new("d1", "/tmp/d1"), DiskPath::new("alien", "/tmp")],
        vec![a.clone()],
        vec![VDisk::new(VDiskId::new(0), vec![NodeDisk::new(a, "d1", "/tmp/d1")])],
    )
    .unwrap();
    let config = NodeConfig {
        name: "node-a".to_string(),
        backend_type: BackendType::Pearl,
        pearl: Some(PearlConfig {
            alien_disk: "alien".to_string(),
            fail_retry_timeout: 100,
            settings: BackendSettings {
                root_dir_name: "bob".to_string(),
                alien_root_dir_name: "alien".to_string(),
                timestamp_period: 100,
            },
        }),
        check_interval: 1000,
    };
    Grinder::new(map, &config).unwrap()
}

fn item(bytes: Vec<u8>, timestamp: i64) -> BobData {
    BobData { data: bytes, meta: BobMeta::new(timestamp) }
}

#[test]
fn a_forced_request_is_answered_by_the_local_storage() {
    let mut grinder = router();
    let put = grinder.put(
        BobKey { key: 1 },
        item(vec![1], 1000),
        BobOptions::new_put(BobFlags::new_force_node(), vec![]),
    );
    assert!(matches!(put, Routed::Local(Ok(_))));
    let get = grinder.get(BobKey { key: 1 }, &BobOptions::new_get(BobFlags::new_force_node(), GetSource::Normal));
    match get {
        Routed::Local(Ok(found)) => assert_eq!(found.data.data, vec![1]),
        _ => panic!("the read was not answered here"),
    }
    let exist = grinder.exist(
        &vec![BobKey { key: 1 }, BobKey { key: 2 }],
        &BobOptions::new_get(BobFlags::new_force_node(), GetSource::Normal),
    );
    match exist {
        Routed::Local(Ok(found)) => assert_eq!(found, vec![true, false]),
        _ => panic!("the check was not answered here"),
    }
    let counters = grinder.counters();
    assert_eq!(counters.client_put_count, 1);
    assert_eq!(counters.client_put_error_count, 0);
    assert_eq!(counters.client_get_count, 1);
    assert_eq!(counters.client_get_error_count, 0);
    assert_eq!(counters.grinder_put_count, 0);
    assert_eq!(counters.grinder_get_count, 0);
}

#[test]
fn a_request_without_the_flag_is_handed_to_the_cluster() {
    let mut grinder = router();
    let put = grinder.put(BobKey { key: 1 }, item(vec![1], 1000), BobOptions::new_put(BobFlags::empty(), vec![]));
    assert!(matches!(put, Routed::Cluster));
    let get = grinder.get(BobKey { key: 1 }, &BobOptions::new_get(BobFlags::empty(), GetSource::Normal));
    assert!(matches!(get, Routed::Cluster));
    let exist = grinder.exist(&vec![BobKey { key: 1 }], &BobOptions::new_get(BobFlags::empty(), GetSource::Normal));
    assert!(matches!(exist, Routed::Cluster));
    grinder.cluster_put_finished(true);
    grinder.cluster_put_finished(false);
    grinder.cluster_get_finished(true);
    let counters = grinder.counters();
    assert_eq!(counters.grinder_put_count, 1);
    assert_eq!(counters.grinder_put_error_count, 1);
    assert_eq!(counters.grinder_get_count, 1);
    assert_eq!(counters.grinder_get_error_count, 1);
    assert_eq!(counters.client_put_count, 0);
    assert_eq!(counters.client_get_count, 0);
    let forced = grinder.get(BobKey { key: 1 }, &BobOptions::new_get(BobFlags::new_force_node(), GetSource::Normal));
    assert!(matches!(forced, Routed::Local(Err(Error::KeyNotFound))));
}

#[test]
fn failures_of_the_local_storage_are_counted() {
    let mut grinder = router();
    let options = || BobOptions::new_put(BobFlags::new_force_node(), vec![]);
    let first = grinder.put(BobKey { key: 1 }, item(vec![1], 1000), options());
    assert!(matches!(first, Routed::Local(Ok(_))));
    let second = grinder.put(BobKey { key: 1 }, item(vec![2], 1000), options());
    assert!(matches!(second, Routed::Local(Err(Error::DuplicateKey))));
    let missing = grinder.get(BobKey { key: 7 }, &BobOptions::new_get(BobFlags::new_force_node(), GetSource::Normal));
    assert!(matches!(missing, Routed::Local(Err(Error::KeyNotFound))));
    let counters = grinder.counters();
    assert_eq!(counters.client_put_count, 2);
    assert_eq!(counters.client_put_error_count, 1);
    assert_eq!(counters.client_get_count, 1);
    assert_eq!(counters.client_get_error_count, 1);
    assert_eq!(grinder.backend().mapper().local_node_name(), "node-a");
    grinder.run_backend(&vec![vec![]], &vec![], 5).unwrap();
}

#[test]
fn the_router_passes_the_administration_on() {
    let mut grinder = router();
    let attached = grinder.change_partition_state(0, 500, Action::Attach).ok().unwrap();
    assert!(attached.ok);
    let refused = grinder.change_partition_state(0, 500, Action::Attach).err().unwrap();
    assert!(!refused.ok);
    let listing = vec![AlienDirectory { node_name: "node-a".to_string(), vdisks: vec!["0".to_string()] }];
    grinder.load_alien_groups(&listing);
    match grinder.backend().backend() {
        BackendStorage::Pearl(pearl) => {
            assert_eq!(pearl.alien_groups().len(), 1);
            assert_eq!(pearl.alien_groups()[0].directory_path(), "/tmp/alien/node-a/0/");
            assert_eq!(pearl.vdisks_groups()[0].pearls().len(), 1);
            assert_eq!(pearl.settings().alien_folder(), "/tmp/alien/");
        }
        _ => panic!("the engine has no groups"),
    }
    grinder.run_backend(&vec![vec![]], &vec![vec!["300".to_string()]], 5).unwrap();
    match grinder.backend().backend() {
        BackendStorage::Pearl(pearl) => {
            let starts: Vec<i64> =
                pearl.alien_groups()[0].pearls().iter().map(|h| h.start_timestamp()).collect();
            assert_eq!(starts, vec![0, 300]);
        }
        _ => panic!("the engine has no groups"),
    }
}

#[test]
fn a_failed_start_is_repeated_after_the_delay_of_the_settings() {
    let grinder = router();
    assert_eq!(grinder.after_start(&Ok(())), StartAction::Serve);
    assert_eq!(
        grinder.after_start(&Err(Error::Failed("x".to_string()))),
        StartAction::RetryAfter(100)
    );
    assert_eq!(grinder.after_start(&Err(Error::Internal)), StartAction::RetryAfter(100));
    assert_eq!(grinder.backend().after_start(&Ok(())), StartAction::Serve);
}
