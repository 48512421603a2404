use libhorao::add_two;
use libhorao::model::network;
use libhorao::model::network::{
    clone_firewalls, clone_routers, clone_switches, DataCenterNetwork, Firewall, NetworkTopology,
    NetworkType, Router, RouterType, Switch, SwitchType,
};
use libhorao::model::osi_layers::{clone_links, clone_ports, Link, LinkLayer, Port};
use libhorao::model::status::DeviceStatus;

fn port_with(serial: &str, status: DeviceStatus) -> Port {
    Port::new(
        serial.to_string(),
        format!("port {}", serial),
        "sfp28".to_string(),
        7,
        "aa:bb:cc:dd:ee:ff".to_string(),
        status,
        25,
    )
}

#[test]
fn topology_traversal_works() {
    let dcn = network::DataCenterNetwork::new(
        "name".to_string(),
        network::NetworkType::Management,
        vec![],
        vec![],
        vec![],
    );
    assert_eq!(network::NetworkTopology::Undefined, dcn.get_topology());
}

#[test]
fn add_two_adds() {
    assert_eq!(add_two(3, 4), 7);
    assert_eq!(add_two(-5, 2), -3);
    assert_eq!(add_two(i32::MAX, i32::MIN), -1);
}

#[test]
fn only_up_is_up() {
    assert!(DeviceStatus::Up.is_up());
    assert!(!DeviceStatus::Down.is_up());
    assert!(!DeviceStatus::Degraded.is_up());
}

#[test]
fn up_and_degraded_are_operational() {
    assert!(DeviceStatus::Up.is_operational());
    assert!(DeviceStatus::Degraded.is_operational());
    assert!(!DeviceStatus::Down.is_operational());
}

#[test]
fn port_is_up_follows_its_status() {
    assert!(port_with("sn-1", DeviceStatus::Up).is_up());
    assert!(!port_with("sn-1", DeviceStatus::Down).is_up());
    assert!(!port_with("sn-1", DeviceStatus::Degraded).is_up());
}

#[test]
fn port_keeps_what_it_was_made_of() {
    let port = port_with("sn-1", DeviceStatus::Degraded);
    assert_eq!(port.serial_number(), "sn-1");
    assert_eq!(port.name(), "port sn-1");
    assert_eq!(port.model(), "sfp28");
    assert_eq!(port.number(), 7);
    assert_eq!(port.mac(), "aa:bb:cc:dd:ee:ff");
    assert_eq!(port.status(), DeviceStatus::Degraded);
    assert_eq!(port.speed_gb(), 25);
}

#[test]
fn set_status_changes_only_the_status() {
    let mut port = port_with("sn-1", DeviceStatus::Up);
    port.set_status(DeviceStatus::Down);
    assert_eq!(port, port_with("sn-1", DeviceStatus::Down));
    assert!(!port.is_up());
}

#[test]
fn port_clone_is_equal() {
    let port = port_with("sn-1", DeviceStatus::Degraded);
    assert_eq!(port.clone(), port);
    let link = Link::new(port_with("a", DeviceStatus::Up), port_with("b", DeviceStatus::Down));
    assert_eq!(link.clone(), link);
}

#[test]
fn link_is_up_iff_both_ports_are_up() {
    let all = [DeviceStatus::Up, DeviceStatus::Down, DeviceStatus::Degraded];
    for left in all {
        for right in all {
            let link = Link::new(port_with("l", left), port_with("r", right));
            let expected = left == DeviceStatus::Up && right == DeviceStatus::Up;
            assert_eq!(link.is_up(), expected);
            assert_eq!(link.is_up(), link.left().is_up() && link.right().is_up());
        }
    }
}

#[test]
fn link_with_a_degraded_port_is_down() {
    let link = Link::new(port_with("l", DeviceStatus::Up), port_with("r", DeviceStatus::Degraded));
    assert!(!link.is_up());
    let link = Link::new(port_with("l", DeviceStatus::Degraded), port_with("r", DeviceStatus::Up));
    assert!(!link.is_up());
}

#[test]
fn link_keeps_its_ports() {
    let link = Link::new(port_with("l", DeviceStatus::Up), port_with("r", DeviceStatus::Down));
    assert_eq!(link.left(), &port_with("l", DeviceStatus::Up));
    assert_eq!(link.right(), &port_with("r", DeviceStatus::Down));
}

#[test]
fn new_network_records_undefined_and_has_no_links() {
    let dcn = DataCenterNetwork::new(
        "mgmt".to_string(),
        NetworkType::Management,
        vec![],
        vec![],
        vec![],
    );
    assert_eq!(dcn.name(), "mgmt");
    assert_eq!(dcn.network_type(), NetworkType::Management);
    assert!(dcn.switches().is_empty());
    assert!(dcn.routers().is_empty());
    assert!(dcn.firewalls().is_empty());
    assert!(dcn.links().is_empty());
    assert_eq!(dcn.topology(), NetworkTopology::Undefined);
}

#[test]
fn empty_network_with_links_is_undefined() {
    let mut dcn =
        DataCenterNetwork::new("data".to_string(), NetworkType::Data, vec![], vec![], vec![]);
    dcn.set_links(vec![Link::new(
        port_with("a", DeviceStatus::Up),
        port_with("b", DeviceStatus::Up),
    )]);
    assert_eq!(dcn.get_topology(), NetworkTopology::Undefined);
    let (label, anomalies) = dcn.get_topology_with_anomalies();
    assert_eq!(label, NetworkTopology::Undefined);
    assert_eq!(anomalies.len(), 1);
}

fn sample_switch() -> Switch {
    Switch::new(
        "sw-1".to_string(),
        "tor".to_string(),
        "x440".to_string(),
        3,
        LinkLayer::Layer2,
        SwitchType::Distribution,
        DeviceStatus::Degraded,
        false,
        vec![port_with("l0", DeviceStatus::Up), port_with("l1", DeviceStatus::Down)],
        vec![port_with("u0", DeviceStatus::Up)],
    )
}

fn sample_router() -> Router {
    Router::new(
        "rt-1".to_string(),
        "border".to_string(),
        "mx".to_string(),
        4,
        RouterType::Edge,
        DeviceStatus::Up,
        vec![port_with("rl0", DeviceStatus::Up)],
        vec![port_with("rw0", DeviceStatus::Degraded), port_with("rw1", DeviceStatus::Up)],
    )
}

fn sample_firewall() -> Firewall {
    Firewall::new(
        "fw-1".to_string(),
        "edge".to_string(),
        "pa".to_string(),
        5,
        DeviceStatus::Down,
        vec![port_with("fl0", DeviceStatus::Up)],
        vec![],
    )
}

#[test]
fn switch_keeps_what_it_was_made_of() {
    let switch = sample_switch();
    assert_eq!(switch.serial_number(), "sw-1");
    assert_eq!(switch.name(), "tor");
    assert_eq!(switch.model(), "x440");
    assert_eq!(switch.number(), 3);
    assert_eq!(switch.layer(), LinkLayer::Layer2);
    assert_eq!(switch.switch_type(), SwitchType::Distribution);
    assert_eq!(switch.status(), DeviceStatus::Degraded);
    assert!(!switch.managed());
    assert_eq!(
        switch.lan_ports(),
        &vec![port_with("l0", DeviceStatus::Up), port_with("l1", DeviceStatus::Down)]
    );
    assert_eq!(switch.uplink_ports(), &vec![port_with("u0", DeviceStatus::Up)]);
}

#[test]
fn router_keeps_what_it_was_made_of() {
    let router = sample_router();
    assert_eq!(router.serial_number(), "rt-1");
    assert_eq!(router.name(), "border");
    assert_eq!(router.model(), "mx");
    assert_eq!(router.number(), 4);
    assert_eq!(router.router_type(), RouterType::Edge);
    assert_eq!(router.status(), DeviceStatus::Up);
    assert_eq!(router.lan_ports(), &vec![port_with("rl0", DeviceStatus::Up)]);
    assert_eq!(router.wan_ports().len(), 2);
    assert_eq!(router.wan_ports()[0], port_with("rw0", DeviceStatus::Degraded));
}

#[test]
fn firewall_keeps_what_it_was_made_of() {
    let firewall = sample_firewall();
    assert_eq!(firewall.serial_number(), "fw-1");
    assert_eq!(firewall.name(), "edge");
    assert_eq!(firewall.model(), "pa");
    assert_eq!(firewall.number(), 5);
    assert_eq!(firewall.status(), DeviceStatus::Down);
    assert_eq!(firewall.lan_ports(), &vec![port_with("fl0", DeviceStatus::Up)]);
    assert!(firewall.wan_ports().is_empty());
}

#[test]
fn copies_are_equal_in_all_fields() {
    assert_eq!(sample_switch().clone(), sample_switch());
    assert_eq!(sample_router().clone(), sample_router());
    assert_eq!(sample_firewall().clone(), sample_firewall());
    let ports = vec![port_with("a", DeviceStatus::Up), port_with("b", DeviceStatus::Degraded)];
    assert_eq!(clone_ports(&ports), ports);
    let links = vec![Link::new(port_with("a", DeviceStatus::Up), port_with("b", DeviceStatus::Down))];
    assert_eq!(clone_links(&links), links);
    assert_eq!(clone_switches(&vec![sample_switch()]), vec![sample_switch()]);
    assert_eq!(clone_routers(&vec![sample_router()]), vec![sample_router()]);
    assert_eq!(clone_firewalls(&vec![sample_firewall()]), vec![sample_firewall()]);
}

#[test]
fn a_copy_of_a_network_is_equal_and_resolves_alike() {
    let mut dcn = DataCenterNetwork::new(
        "data".to_string(),
        NetworkType::Data,
        vec![sample_switch()],
        vec![sample_router()],
        vec![sample_firewall()],
    );
    dcn.set_links(vec![Link::new(
        port_with("u0", DeviceStatus::Up),
        port_with("rl0", DeviceStatus::Up),
    )]);
    dcn.refresh_topology();
    let copy = dcn.clone();
    assert_eq!(copy, dcn);
    assert_eq!(copy.topology(), dcn.topology());
    assert_eq!(copy.get_topology(), dcn.get_topology());
    assert_eq!(copy.switches(), &vec![sample_switch()]);
    assert_eq!(copy.routers(), &vec![sample_router()]);
    assert_eq!(copy.firewalls(), &vec![sample_firewall()]);
    assert_eq!(copy.links().len(), 1);
}
