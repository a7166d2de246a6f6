use bob::data::Node;
use bob::error::Error;
use bob::link_manager::{CheckAction, LinkManager, NodeLinkHolder};

fn peers() -> Vec<Node> {
    vec![Node::new("node-a", "10.0.0.1", 20000), Node::new("node-b", "10.0.0.2", 20000)]
}

#[test]
fn a_peer_without_connection_is_connected_to_and_one_with_connection_is_pinged() {
    let mut link: NodeLinkHolder<u32> = NodeLinkHolder::new(Node::new("node-b", "h", 1));
    assert_eq!(link.check(), CheckAction::Connect);
    assert!(link.get_connection().is_none());
    link.set_connection(17);
    assert_eq!(link.check(), CheckAction::Ping);
    assert_eq!(link.get_connection(), Some(&17));
    assert_eq!(link.node().name(), "node-b");
    link.ping_finished(true);
    assert_eq!(link.get_connection(), Some(&17));
    link.ping_finished(false);
    assert!(link.get_connection().is_none());
    link.set_connection(18);
    link.clear_connection();
    assert_eq!(link.check(), CheckAction::Connect);
}

#[test]
fn a_service_error_costs_the_connection() {
    let mut link: NodeLinkHolder<u32> = NodeLinkHolder::new(Node::new("node-b", "h", 1));
    link.set_connection(1);
    link.call_finished(None);
    link.call_finished(Some(&Error::KeyNotFound));
    link.call_finished(Some(&Error::Internal));
    link.call_finished(Some(&Error::StorageError("x".to_string())));
    assert_eq!(link.get_connection(), Some(&1));
    link.call_finished(Some(&Error::Timeout));
    assert!(link.get_connection().is_none());
    link.set_connection(2);
    link.call_finished(Some(&Error::Failed("x".to_string())));
    assert!(link.get_connection().is_none());
}

#[test]
fn a_call_needs_a_connection() {
    let manager: LinkManager<u32> = LinkManager::new(peers(), 5000);
    assert_eq!(manager.check_interval(), 5000);
    assert_eq!(manager.links().len(), 2);
    assert_eq!(manager.links()[0].node().name(), "node-a");
    assert_eq!(manager.links()[1].node().name(), "node-b");
    assert_eq!(manager.get_link(&peers()[1]), Some(1));
    assert_eq!(manager.get_link(&Node::new("node-c", "h", 1)), None);
    assert_eq!(
        manager.call_node(&peers()[1]).err().unwrap(),
        Error::Failed("No active connection node-b".to_string())
    );
    assert_eq!(
        manager.call_node(&Node::new("node-c", "h", 1)).err().unwrap(),
        Error::Failed("No active connection node-c".to_string())
    );
}

#[test]
fn the_manager_drops_the_connection_of_the_node_that_failed() {
    let mut manager: LinkManager<u32> = LinkManager::new(peers(), 5000);
    manager.call_finished(&peers()[0], Some(&Error::Timeout));
    manager.call_finished(&Node::new("node-c", "h", 1), Some(&Error::Timeout));
    assert!(manager.links()[0].get_connection().is_none());
    assert!(manager.links()[1].get_connection().is_none());
}

#[test]
fn the_manager_keeps_and_drops_connections_by_node() {
    let mut manager: LinkManager<u32> = LinkManager::new(peers(), 5000);
    manager.set_connection(&peers()[1], 7);
    manager.set_connection(&Node::new("node-c", "h", 1), 8);
    assert!(manager.links()[0].get_connection().is_none());
    assert_eq!(manager.links()[1].get_connection(), Some(&7));
    assert_eq!(manager.call_node(&peers()[1]).ok(), Some(&7));
    manager.ping_finished(&peers()[1], true);
    assert_eq!(manager.links()[1].get_connection(), Some(&7));
    manager.call_finished(&peers()[1], Some(&Error::KeyNotFound));
    assert_eq!(manager.links()[1].get_connection(), Some(&7));
    manager.ping_finished(&peers()[1], false);
    assert!(manager.links()[1].get_connection().is_none());
    manager.set_connection(&peers()[1], 9);
    manager.call_finished(&peers()[1], Some(&Error::Failed("down".to_string())));
    assert!(manager.links()[1].get_connection().is_none());
}

#[test]
fn calls_to_several_nodes_start_node_by_node() {
    let mut manager: LinkManager<u32> = LinkManager::new(peers(), 5000);
    manager.set_connection(&peers()[0], 3);
    let nodes = vec![peers()[1].clone(), peers()[0].clone(), Node::new("node-c", "h", 1)];
    assert_eq!(manager.get_connections(&nodes), vec![None, Some(&3), None]);
    let started = manager.call_nodes(&nodes);
    assert_eq!(started.len(), 3);
    assert_eq!(started[0], Err(Error::Failed("No active connection node-b".to_string())));
    assert_eq!(started[1], Ok(&3));
    assert_eq!(started[2], Err(Error::Failed("No active connection node-c".to_string())));
}

#[test]
fn peers_are_told_apart_by_host_and_port() {
    let mut manager: LinkManager<u32> = LinkManager::new(peers(), 5000);
    let renamed = Node::new("another-name", "10.0.0.2", 20000);
    assert_eq!(manager.get_link(&renamed), Some(1));
    manager.set_connection(&renamed, 4);
    assert_eq!(manager.call_node(&peers()[1]).ok(), Some(&4));
    let other_port = Node::new("node-b", "10.0.0.2", 20001);
    assert_eq!(manager.get_link(&other_port), None);
    assert!(manager.call_node(&other_port).is_err());
}
