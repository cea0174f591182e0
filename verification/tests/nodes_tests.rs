use hashchain_node::node::{Node, Nodes};

#[test]
fn adding_the_same_address_twice_yields_one_member() {
    let mut nodes = Nodes::new();
    nodes.add_node("127.0.0.1:3000".to_string());
    nodes.add_node("127.0.0.1:3000".to_string());
    assert_eq!(nodes.len(), 1);
    assert!(nodes.node_is_known("127.0.0.1:3000"));
}

#[test]
fn evicting_a_non_member_is_a_no_op() {
    let mut nodes = Nodes::new();
    nodes.add_node("127.0.0.1:3000".to_string());
    nodes.evict_node("127.0.0.1:4000");
    assert_eq!(nodes.len(), 1);
    assert!(nodes.node_is_known("127.0.0.1:3000"));
}

#[test]
fn evicting_a_member_removes_exactly_it() {
    let mut nodes = Nodes::new();
    nodes.add_node("a:1".to_string());
    nodes.add_node("b:2".to_string());
    nodes.add_node("c:3".to_string());
    nodes.evict_node("b:2");
    assert_eq!(nodes.len(), 2);
    assert!(!nodes.node_is_known("b:2"));
    assert!(nodes.node_is_known("a:1"));
    assert!(nodes.node_is_known("c:3"));
    let members = nodes.get_nodes();
    assert_eq!(members[0].get_addr(), "a:1");
    assert_eq!(members[1].get_addr(), "c:3");
}

#[test]
fn snapshot_is_unaffected_by_later_mutation() {
    let mut nodes = Nodes::new();
    nodes.add_node("a:1".to_string());
    let snapshot = nodes.get_nodes();
    nodes.add_node("b:2".to_string());
    nodes.evict_node("a:1");
    assert_eq!(snapshot.len(), 1);
    assert_eq!(snapshot[0].get_addr(), "a:1");
}

#[test]
fn first_returns_the_earliest_member() {
    let mut nodes = Nodes::new();
    assert!(nodes.first().is_none());
    nodes.add_node("a:1".to_string());
    nodes.add_node("b:2".to_string());
    assert_eq!(nodes.first().unwrap().get_addr(), "a:1");
}

#[test]
fn node_keeps_its_address() {
    let n = Node::new("10.0.0.1:8333".to_string());
    assert_eq!(n.get_addr(), "10.0.0.1:8333");
    assert_eq!(n.clone().get_addr(), "10.0.0.1:8333");
}
