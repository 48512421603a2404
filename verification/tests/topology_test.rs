use libhorao::model::graph::{ConnectivityGraph, GraphError};
use libhorao::model::network::{
    resolve_network_topo, DataCenterNetwork, Firewall, NetworkTopology, NetworkType, Router,
    RouterType, Switch, SwitchType,
};
use libhorao::model::osi_layers::{Link, LinkLayer, Port};
use libhorao::model::status::DeviceStatus;
use libhorao::model::topology::{
    classify, dragonfly_label, is_clos, is_connected, is_dcell, is_fat_tree, is_tree, is_vl2,
};

fn port(serial: &str) -> Port {
    Port::new(
        serial.to_string(),
        serial.to_string(),
        "sfp".to_string(),
        1,
        "00:00:00:00:00:00".to_string(),
        DeviceStatus::Up,
        10,
    )
}

/// A switch named `name` with `lan` LAN ports `name-l0`, `name-l1`, ... and
/// `uplink` uplink ports `name-u0`, `name-u1`, ...
fn switch(name: &str, role: SwitchType, lan: usize, uplink: usize) -> Switch {
    Switch::new(
        name.to_string(),
        name.to_string(),
        "sw".to_string(),
        1,
        LinkLayer::Layer3,
        role,
        DeviceStatus::Up,
        true,
        (0..lan).map(|i| port(&format!("{}-l{}", name, i))).collect(),
        (0..uplink).map(|i| port(&format!("{}-u{}", name, i))).collect(),
    )
}

/// A router named `name` with LAN ports `name-l..` and WAN ports `name-w..`.
fn router(name: &str, lan: usize, wan: usize) -> Router {
    Router::new(
        name.to_string(),
        name.to_string(),
        "rt".to_string(),
        1,
        RouterType::Core,
        DeviceStatus::Up,
        (0..lan).map(|i| port(&format!("{}-l{}", name, i))).collect(),
        (0..wan).map(|i| port(&format!("{}-w{}", name, i))).collect(),
    )
}

fn firewall(name: &str, lan: usize, wan: usize) -> Firewall {
    Firewall::new(
        name.to_string(),
        name.to_string(),
        "fw".to_string(),
        1,
        DeviceStatus::Up,
        (0..lan).map(|i| port(&format!("{}-l{}", name, i))).collect(),
        (0..wan).map(|i| port(&format!("{}-w{}", name, i))).collect(),
    )
}

fn link(left: &str, right: &str) -> Link {
    Link::new(port(left), port(right))
}

fn links(pairs: &[(&str, &str)]) -> Vec<Link> {
    pairs.iter().map(|(l, r)| link(l, r)).collect()
}

fn fabric(switches: Vec<Switch>, pairs: &[(&str, &str)]) -> DataCenterNetwork {
    let mut dcn =
        DataCenterNetwork::new("fabric".to_string(), NetworkType::Data, switches, vec![], vec![]);
    dcn.set_links(links(pairs));
    dcn
}

fn plane(
    switches: Vec<Switch>,
    routers: Vec<Router>,
    firewalls: Vec<Firewall>,
    pairs: &[(&str, &str)],
) -> DataCenterNetwork {
    let mut dcn =
        DataCenterNetwork::new("plane".to_string(), NetworkType::Data, switches, routers, firewalls);
    dcn.set_links(links(pairs));
    dcn
}

fn two_tier_fat_tree() -> DataCenterNetwork {
    fabric(
        vec![
            switch("a0", SwitchType::Access, 4, 2),
            switch("a1", SwitchType::Access, 4, 2),
            switch("d0", SwitchType::Distribution, 2, 1),
            switch("d1", SwitchType::Distribution, 2, 1),
            switch("c0", SwitchType::Core, 2, 0),
        ],
        &[
            ("a0-u0", "d0-l0"),
            ("a0-u1", "d1-l0"),
            ("a1-u0", "d0-l1"),
            ("a1-u1", "d1-l1"),
            ("d0-u0", "c0-l0"),
            ("d1-u0", "c0-l1"),
        ],
    )
}

#[test]
fn no_devices_is_undefined() {
    for network_type in [NetworkType::Management, NetworkType::Control, NetworkType::Data] {
        let dcn = DataCenterNetwork::new("empty".to_string(), network_type, vec![], vec![], vec![]);
        assert_eq!(dcn.get_topology(), NetworkTopology::Undefined);
    }
}

#[test]
fn two_switches_without_links_are_undefined() {
    let dcn = fabric(
        vec![switch("a", SwitchType::Access, 1, 1), switch("b", SwitchType::Core, 1, 1)],
        &[],
    );
    assert_eq!(dcn.get_topology(), NetworkTopology::Undefined);
}

#[test]
fn a_single_switch_is_undefined() {
    let switches = vec![Switch::new(
        "1".to_string(),
        "s1".to_string(),
        "cisco".to_string(),
        1,
        LinkLayer::Layer3,
        SwitchType::Access,
        DeviceStatus::Up,
        true,
        vec![],
        vec![],
    )];
    let (label, anomalies) = resolve_network_topo(switches, vec![]);
    assert_eq!(NetworkTopology::Undefined, label);
    assert!(anomalies.is_empty());
}

#[test]
fn layered_uniform_fabric_is_a_fat_tree() {
    assert_eq!(two_tier_fat_tree().get_topology(), NetworkTopology::FatTree);
}

#[test]
fn minimal_chain_is_a_fat_tree_not_a_tree() {
    let dcn = fabric(
        vec![
            switch("a", SwitchType::Access, 0, 1),
            switch("d", SwitchType::Distribution, 1, 1),
            switch("c", SwitchType::Core, 1, 0),
        ],
        &[("a-u0", "d-l0"), ("d-u0", "c-l0")],
    );
    assert_eq!(dcn.get_topology(), NetworkTopology::FatTree);
}

#[test]
fn the_order_of_devices_and_link_ends_does_not_matter_to_a_fat_tree() {
    let dcn = fabric(
        vec![
            switch("c", SwitchType::Core, 1, 0),
            switch("a", SwitchType::Access, 0, 1),
            switch("d", SwitchType::Distribution, 1, 1),
        ],
        &[("c-l0", "d-u0"), ("d-l0", "a-u0")],
    );
    assert_eq!(dcn.get_topology(), NetworkTopology::FatTree);
}

#[test]
fn uneven_uplinks_in_a_tier_are_no_fat_tree() {
    // a0 uses two uplink ports, a1 only one: seven nodes would be needed for
    // a tree, and there are six edges on five nodes
    let dcn = fabric(
        vec![
            switch("a0", SwitchType::Access, 0, 2),
            switch("a1", SwitchType::Access, 0, 2),
            switch("d0", SwitchType::Distribution, 2, 1),
            switch("d1", SwitchType::Distribution, 2, 1),
            switch("c0", SwitchType::Core, 2, 0),
        ],
        &[
            ("a0-u0", "d0-l0"),
            ("a0-u1", "d1-l0"),
            ("a1-u0", "d0-l1"),
            ("d0-u0", "c0-l0"),
            ("d1-u0", "c0-l1"),
        ],
    );
    assert_eq!(dcn.get_topology(), NetworkTopology::Undefined);
}

#[test]
fn a_shortcut_from_access_to_core_is_no_fat_tree() {
    let dcn = fabric(
        vec![
            switch("a", SwitchType::Access, 0, 2),
            switch("d", SwitchType::Distribution, 1, 1),
            switch("c", SwitchType::Core, 2, 0),
        ],
        &[("a-u0", "d-l0"), ("d-u0", "c-l0"), ("a-u1", "c-l1")],
    );
    assert_eq!(dcn.get_topology(), NetworkTopology::Undefined);
}

#[test]
fn a_chain_that_leaves_a_lower_switch_through_a_lan_port_is_only_a_tree() {
    let dcn = fabric(
        vec![
            switch("a", SwitchType::Access, 1, 0),
            switch("d", SwitchType::Distribution, 2, 0),
            switch("c", SwitchType::Core, 1, 0),
            switch("x", SwitchType::Core, 1, 1),
        ],
        &[("a-l0", "d-l0"), ("d-l1", "c-l0"), ("x-u0", "x-l0")],
    );
    // the link on x is a self-loop and is left out: x stays apart
    assert_eq!(dcn.get_topology(), NetworkTopology::Undefined);
    let dcn = fabric(
        vec![
            switch("a", SwitchType::Access, 1, 1),
            switch("d", SwitchType::Distribution, 2, 0),
            switch("c", SwitchType::Core, 1, 0),
        ],
        &[("a-u0", "d-l0"), ("d-l1", "c-l0")],
    );
    assert_eq!(dcn.get_topology(), NetworkTopology::Tree);
}

#[test]
fn a_chain_that_ends_in_uplink_ports_above_is_a_fat_tree() {
    // the access switch's uplink is wired to an uplink port of the
    // distribution switch, and that switch's uplink to an uplink port of
    // the core switch
    let dcn = fabric(
        vec![
            switch("a", SwitchType::Access, 0, 1),
            switch("d", SwitchType::Distribution, 0, 2),
            switch("c", SwitchType::Core, 0, 1),
        ],
        &[("a-u0", "d-u0"), ("d-u1", "c-u0")],
    );
    let graph = dcn.graph().unwrap();
    assert!(is_fat_tree(&graph));
    assert!(is_tree(&graph));
    assert_eq!(dcn.get_topology(), NetworkTopology::FatTree);
}

#[test]
fn a_layered_fabric_with_mixed_ports_above_is_a_fat_tree() {
    // some uplinks end in LAN ports above, some in uplink ports: every
    // access switch has two uplinks and every distribution switch one
    let dcn = fabric(
        vec![
            switch("a0", SwitchType::Access, 4, 2),
            switch("a1", SwitchType::Access, 4, 2),
            switch("d0", SwitchType::Distribution, 2, 2),
            switch("d1", SwitchType::Distribution, 2, 1),
            switch("c0", SwitchType::Core, 1, 1),
        ],
        &[
            ("a0-u0", "d0-l0"),
            ("a0-u1", "d1-l0"),
            ("a1-u0", "d0-u1"),
            ("a1-u1", "d1-l1"),
            ("d0-u0", "c0-u0"),
            ("c0-l0", "d1-u0"),
        ],
    );
    assert_eq!(dcn.get_topology(), NetworkTopology::FatTree);
}

#[test]
fn a_distribution_switch_without_an_uplink_is_no_fat_tree() {
    // d1 is wired to from below in its uplink port, but has no link up
    let dcn = fabric(
        vec![
            switch("a0", SwitchType::Access, 0, 2),
            switch("d0", SwitchType::Distribution, 1, 1),
            switch("d1", SwitchType::Distribution, 0, 1),
            switch("c0", SwitchType::Core, 1, 0),
        ],
        &[("a0-u0", "d0-l0"), ("a0-u1", "d1-u0"), ("d0-u0", "c0-l0")],
    );
    assert!(!is_fat_tree(&dcn.graph().unwrap()));
    assert_eq!(dcn.get_topology(), NetworkTopology::Tree);
}

#[test]
fn a_core_switch_that_nothing_is_wired_to_is_no_fat_tree() {
    let dcn = fabric(
        vec![
            switch("a", SwitchType::Access, 0, 1),
            switch("d", SwitchType::Distribution, 1, 1),
            switch("c0", SwitchType::Core, 1, 0),
            switch("c1", SwitchType::Core, 1, 0),
        ],
        &[("a-u0", "d-l0"), ("d-u0", "c0-l0")],
    );
    assert!(!is_fat_tree(&dcn.graph().unwrap()));
    assert_eq!(dcn.get_topology(), NetworkTopology::Undefined);
}

#[test]
fn a_full_mesh_with_an_uplink_port_above_is_vl2() {
    // two access and two distribution switches, five links, uneven
    // uplinks, one of them ending in an uplink port above
    let dcn = fabric(
        vec![
            switch("a0", SwitchType::Access, 0, 3),
            switch("a1", SwitchType::Access, 0, 2),
            switch("d0", SwitchType::Distribution, 2, 1),
            switch("d1", SwitchType::Distribution, 2, 0),
        ],
        &[
            ("a0-u0", "d0-l0"),
            ("a0-u1", "d1-l0"),
            ("a0-u2", "d0-u0"),
            ("a1-u0", "d0-l1"),
            ("a1-u1", "d1-l1"),
        ],
    );
    assert!(is_vl2(&dcn.graph().unwrap()));
    assert_eq!(dcn.get_topology(), NetworkTopology::VL2);
    let switches = vec![
        switch("a0", SwitchType::Access, 0, 3),
        switch("a1", SwitchType::Access, 0, 2),
        switch("d0", SwitchType::Distribution, 2, 1),
        switch("d1", SwitchType::Distribution, 2, 0),
    ];
    let (label, anomalies) = resolve_network_topo(
        switches,
        links(&[
            ("a0-u0", "d0-l0"),
            ("a0-u1", "d1-l0"),
            ("a0-u2", "d0-u0"),
            ("a1-u0", "d0-l1"),
            ("a1-u1", "d1-l1"),
        ]),
    );
    assert_eq!(label, NetworkTopology::VL2);
    assert!(anomalies.is_empty());
}

#[test]
fn a_mesh_that_leaves_the_lower_tier_through_a_lan_port_is_no_vl2() {
    let dcn = fabric(
        vec![
            switch("a0", SwitchType::Access, 1, 1),
            switch("a1", SwitchType::Access, 0, 2),
            switch("d0", SwitchType::Distribution, 2, 0),
            switch("d1", SwitchType::Distribution, 2, 0),
        ],
        &[("a0-u0", "d0-l0"), ("a0-l0", "d1-l0"), ("a1-u0", "d0-l1"), ("a1-u1", "d1-l1")],
    );
    assert!(!is_vl2(&dcn.graph().unwrap()));
    assert_eq!(dcn.get_topology(), NetworkTopology::Undefined);
}

#[test]
fn resolve_reports_dangling_ports_and_self_loops() {
    let switches = vec![
        switch("a", SwitchType::Access, 1, 1),
        switch("d", SwitchType::Distribution, 1, 1),
        switch("c", SwitchType::Core, 1, 0),
    ];
    let (label, anomalies) = resolve_network_topo(
        switches,
        links(&[("a-u0", "d-l0"), ("a-l0", "a-u0"), ("d-u0", "c-l0"), ("nowhere", "c-l0")]),
    );
    assert_eq!(label, NetworkTopology::FatTree);
    assert_eq!(
        anomalies,
        vec![
            GraphError::DuplicateLinkEndpoint { link: 1 },
            GraphError::DanglingPortReference { link: 3 },
        ]
    );
}

#[test]
fn a_restored_network_records_what_its_links_bear_out() {
    let parts = || {
        vec![
            switch("a", SwitchType::Access, 0, 1),
            switch("d", SwitchType::Distribution, 1, 1),
            switch("c", SwitchType::Core, 1, 0),
        ]
    };
    let chain = [("a-u0", "d-l0"), ("d-u0", "c-l0")];
    let silent = DataCenterNetwork::restore(
        "fabric".to_string(),
        NetworkType::Data,
        parts(),
        vec![],
        vec![],
        links(&chain),
        NetworkTopology::Undefined,
    );
    assert_eq!(silent.topology(), NetworkTopology::Undefined);
    assert_eq!(silent.get_topology(), NetworkTopology::FatTree);
    assert_eq!(silent.links().len(), 2);
    assert_eq!(silent.name(), "fabric");
    assert_eq!(silent.network_type(), NetworkType::Data);
    assert_eq!(silent.switches().len(), 3);
    let faithful = DataCenterNetwork::restore(
        "fabric".to_string(),
        NetworkType::Data,
        parts(),
        vec![],
        vec![],
        links(&chain),
        NetworkTopology::FatTree,
    );
    assert_eq!(faithful.topology(), NetworkTopology::FatTree);
    let mistaken = DataCenterNetwork::restore(
        "fabric".to_string(),
        NetworkType::Data,
        parts(),
        vec![],
        vec![],
        links(&chain),
        NetworkTopology::Hedera,
    );
    assert_eq!(mistaken.topology(), NetworkTopology::FatTree);
    let unlinked = DataCenterNetwork::restore(
        "fabric".to_string(),
        NetworkType::Data,
        parts(),
        vec![],
        vec![],
        vec![],
        NetworkTopology::Tree,
    );
    assert_eq!(unlinked.topology(), NetworkTopology::Undefined);
}

#[test]
fn a_root_with_leaves_is_a_tree() {
    for leaves in 1..6usize {
        let mut switches = vec![switch("root", SwitchType::Core, leaves, 0)];
        let mut pairs: Vec<(String, String)> = Vec::new();
        for i in 0..leaves {
            let name = format!("leaf{}", i);
            switches.push(switch(&name, SwitchType::Access, 0, 1));
            pairs.push((format!("{}-u0", name), format!("root-l{}", i)));
        }
        let mut dcn =
            DataCenterNetwork::new("star".to_string(), NetworkType::Data, switches, vec![], vec![]);
        dcn.set_links(pairs.iter().map(|(l, r)| link(l, r)).collect());
        assert_eq!(dcn.get_topology(), NetworkTopology::Tree);
    }
}

#[test]
fn a_star_around_a_distribution_switch_with_both_tiers_is_a_fat_tree() {
    let dcn = fabric(
        vec![
            switch("d", SwitchType::Distribution, 2, 1),
            switch("a0", SwitchType::Access, 0, 1),
            switch("a1", SwitchType::Access, 0, 1),
            switch("c", SwitchType::Core, 1, 0),
        ],
        &[("a0-u0", "d-l0"), ("a1-u0", "d-l1"), ("d-u0", "c-l0")],
    );
    assert_eq!(dcn.get_topology(), NetworkTopology::FatTree);
}

#[test]
fn a_deeper_tree_of_mixed_devices_is_a_tree() {
    let dcn = plane(
        vec![switch("s0", SwitchType::Access, 2, 1), switch("s1", SwitchType::Access, 1, 1)],
        vec![router("r", 2, 1)],
        vec![firewall("f", 1, 1)],
        &[("f-l0", "r-w0"), ("r-l0", "s0-u0"), ("r-l1", "s1-u0")],
    );
    assert_eq!(dcn.get_topology(), NetworkTopology::Tree);
}

#[test]
fn a_ring_is_undefined() {
    let dcn = plane(
        vec![],
        vec![router("r0", 1, 1), router("r1", 1, 1), router("r2", 1, 1)],
        vec![],
        &[("r0-w0", "r1-l0"), ("r1-w0", "r2-l0"), ("r2-w0", "r0-l0")],
    );
    assert_eq!(dcn.get_topology(), NetworkTopology::Undefined);
}

#[test]
fn a_cycle_beside_a_lone_node_is_undefined() {
    // three edges on four nodes, as a tree has, but not connected
    let dcn = plane(
        vec![],
        vec![router("r0", 1, 1), router("r1", 1, 1), router("r2", 1, 1), router("r3", 1, 1)],
        vec![],
        &[("r0-w0", "r1-l0"), ("r1-w0", "r2-l0"), ("r2-w0", "r0-l0")],
    );
    assert_eq!(dcn.get_topology(), NetworkTopology::Undefined);
}

#[test]
fn a_long_chain_listed_backwards_is_a_tree() {
    // the marks spread by one node in each pass over the edges
    let n = 40usize;
    let routers: Vec<Router> = (0..n).map(|i| router(&format!("r{}", i), 1, 1)).collect();
    let mut pairs: Vec<Link> = Vec::new();
    for i in (0..n - 1).rev() {
        pairs.push(link(&format!("r{}-w0", i), &format!("r{}-l0", i + 1)));
    }
    let mut dcn =
        DataCenterNetwork::new("chain".to_string(), NetworkType::Data, vec![], routers, vec![]);
    dcn.set_links(pairs);
    assert_eq!(dcn.get_topology(), NetworkTopology::Tree);
}

#[test]
fn a_full_mesh_of_two_tiers_is_vl2() {
    let dcn = fabric(
        vec![
            switch("a0", SwitchType::Access, 0, 3),
            switch("a1", SwitchType::Access, 0, 2),
            switch("d0", SwitchType::Distribution, 3, 0),
            switch("d1", SwitchType::Distribution, 2, 0),
        ],
        &[
            ("a0-u0", "d0-l0"),
            ("a0-u1", "d1-l0"),
            ("a0-u2", "d0-l2"),
            ("a1-u0", "d0-l1"),
            ("a1-u1", "d1-l1"),
        ],
    );
    assert_eq!(dcn.get_topology(), NetworkTopology::VL2);
}

#[test]
fn vl2_on_distribution_and_core() {
    let dcn = fabric(
        vec![
            switch("c0", SwitchType::Core, 2, 0),
            switch("c1", SwitchType::Core, 2, 0),
            switch("d0", SwitchType::Distribution, 0, 2),
            switch("d1", SwitchType::Distribution, 0, 2),
        ],
        &[("d0-u0", "c0-l0"), ("d0-u1", "c1-l0"), ("d1-u0", "c0-l1"), ("d1-u1", "c1-l1")],
    );
    assert_eq!(dcn.get_topology(), NetworkTopology::VL2);
}

#[test]
fn two_tiers_with_a_missing_link_are_undefined() {
    let dcn = fabric(
        vec![
            switch("a0", SwitchType::Access, 0, 2),
            switch("a1", SwitchType::Access, 0, 2),
            switch("d0", SwitchType::Distribution, 2, 0),
            switch("d1", SwitchType::Distribution, 2, 0),
            switch("d2", SwitchType::Distribution, 2, 0),
        ],
        &[("a0-u0", "d0-l0"), ("a0-u1", "d1-l0"), ("a1-u0", "d0-l1"), ("a1-u1", "d1-l1")],
    );
    assert_eq!(dcn.get_topology(), NetworkTopology::Undefined);
}

#[test]
fn groups_of_routers_with_global_links_are_a_dragonfly() {
    let dcn = plane(
        vec![],
        vec![
            router("g0a", 2, 1),
            router("g0b", 2, 1),
            router("g1a", 2, 1),
            router("g1b", 2, 1),
            router("g2a", 2, 1),
            router("g2b", 2, 1),
        ],
        vec![],
        &[
            ("g0a-l0", "g0b-l0"),
            ("g1a-l0", "g1b-l0"),
            ("g2a-l0", "g2b-l0"),
            ("g0a-w0", "g1a-w0"),
            ("g1b-w0", "g2a-w0"),
            ("g2b-w0", "g0b-w0"),
        ],
    );
    assert_eq!(dcn.get_topology(), NetworkTopology::DragonFly);
}

#[test]
fn groups_of_leaves_and_spines_are_a_dragonfly_plus() {
    let dcn = fabric(
        vec![
            switch("leaf0", SwitchType::Access, 1, 0),
            switch("spine0", SwitchType::Distribution, 1, 1),
            switch("leaf1", SwitchType::Access, 1, 0),
            switch("spine1", SwitchType::Core, 1, 1),
        ],
        &[("leaf0-l0", "spine0-l0"), ("leaf1-l0", "spine1-l0"), ("spine0-u0", "spine1-u0")],
    );
    assert_eq!(dcn.get_topology(), NetworkTopology::DragonFlyPlus);
}

#[test]
fn a_global_link_at_a_leaf_makes_a_plain_dragonfly() {
    let dcn = fabric(
        vec![
            switch("leaf0", SwitchType::Access, 1, 1),
            switch("spine0", SwitchType::Distribution, 1, 1),
            switch("leaf1", SwitchType::Access, 1, 1),
            switch("spine1", SwitchType::Core, 1, 1),
        ],
        &[("leaf0-l0", "spine0-l0"), ("leaf1-l0", "spine1-l0"), ("leaf0-u0", "spine1-u0")],
    );
    assert_eq!(dcn.get_topology(), NetworkTopology::DragonFly);
}

#[test]
fn groups_two_links_apart_are_a_slingshot() {
    // four groups in a ring: opposite groups have no link between them
    let names = ["g0", "g1", "g2", "g3"];
    let mut routers = Vec::new();
    let mut pairs: Vec<Link> = Vec::new();
    for g in names {
        routers.push(router(&format!("{}a", g), 1, 1));
        routers.push(router(&format!("{}b", g), 1, 1));
        pairs.push(link(&format!("{}a-l0", g), &format!("{}b-l0", g)));
    }
    for i in 0..4 {
        let next = (i + 1) % 4;
        pairs.push(link(&format!("{}b-w0", names[i]), &format!("{}a-w0", names[next])));
    }
    let mut dcn =
        DataCenterNetwork::new("ring".to_string(), NetworkType::Data, vec![], routers, vec![]);
    dcn.set_links(pairs);
    assert_eq!(dcn.get_topology(), NetworkTopology::Slingshot);
}

#[test]
fn groups_three_links_apart_are_no_slingshot() {
    // six groups in a ring: opposite groups are three links apart
    let names = ["g0", "g1", "g2", "g3", "g4", "g5"];
    let mut routers = Vec::new();
    let mut pairs: Vec<Link> = Vec::new();
    for g in names {
        routers.push(router(&format!("{}a", g), 1, 1));
        routers.push(router(&format!("{}b", g), 1, 1));
        pairs.push(link(&format!("{}a-l0", g), &format!("{}b-l0", g)));
    }
    for i in 0..6 {
        let next = (i + 1) % 6;
        pairs.push(link(&format!("{}b-w0", names[i]), &format!("{}a-w0", names[next])));
    }
    let mut dcn =
        DataCenterNetwork::new("ring".to_string(), NetworkType::Data, vec![], routers, vec![]);
    dcn.set_links(pairs);
    assert_eq!(dcn.get_topology(), NetworkTopology::Undefined);
}

#[test]
fn a_group_that_is_not_complete_is_no_dragonfly() {
    let dcn = plane(
        vec![],
        vec![
            router("g0a", 2, 1),
            router("g0b", 2, 1),
            router("g0c", 2, 1),
            router("g1a", 2, 1),
            router("g1b", 2, 1),
        ],
        vec![],
        &[
            ("g0a-l0", "g0b-l0"),
            ("g0b-l1", "g0c-l0"),
            ("g1a-l0", "g1b-l0"),
            ("g0a-w0", "g1a-w0"),
        ],
    );
    // g0a and g0c have no local link: the fabric is a tree of five routers
    assert_eq!(dcn.get_topology(), NetworkTopology::Tree);
}

#[test]
fn a_firewall_keeps_a_fabric_from_being_a_dragonfly() {
    let dcn = plane(
        vec![],
        vec![router("g0a", 1, 1), router("g0b", 1, 1), router("g1a", 1, 1)],
        vec![firewall("g1b", 1, 1)],
        &[("g0a-l0", "g0b-l0"), ("g1a-l0", "g1b-l0"), ("g0a-w0", "g1a-w0")],
    );
    assert_eq!(dcn.get_topology(), NetworkTopology::Tree);
}

#[test]
fn cells_wired_upward_are_a_dcell() {
    let dcn = fabric(
        vec![
            switch("t0", SwitchType::Core, 2, 0),
            switch("t1", SwitchType::Core, 2, 0),
            switch("a0", SwitchType::Access, 1, 1),
            switch("a1", SwitchType::Access, 1, 1),
            switch("b0", SwitchType::Access, 1, 1),
            switch("b1", SwitchType::Access, 1, 1),
        ],
        &[
            ("t0-l0", "t1-l0"),
            ("a0-l0", "a1-l0"),
            ("b0-l0", "b1-l0"),
            ("a0-u0", "t0-l1"),
            ("b1-u0", "t1-l1"),
        ],
    );
    assert_eq!(dcn.get_topology(), NetworkTopology::DCell);
}

#[test]
fn a_cell_with_two_uplinks_is_no_dcell() {
    let dcn = fabric(
        vec![
            switch("t0", SwitchType::Core, 3, 0),
            switch("t1", SwitchType::Core, 3, 0),
            switch("a0", SwitchType::Access, 1, 1),
            switch("a1", SwitchType::Access, 1, 1),
        ],
        &[("t0-l0", "t1-l0"), ("a0-l0", "a1-l0"), ("a0-u0", "t0-l1"), ("a1-u0", "t1-l1")],
    );
    assert_eq!(dcn.get_topology(), NetworkTopology::Undefined);
}

#[test]
fn labels_that_connectivity_cannot_tell_are_never_given() {
    let never = [
        NetworkTopology::Portland,
        NetworkTopology::Hedera,
        NetworkTopology::BCube,
        NetworkTopology::MDCube,
        NetworkTopology::FiConn,
        NetworkTopology::OSA,
        NetworkTopology::CThrough,
        NetworkTopology::Helios,
    ];
    let label = two_tier_fat_tree().get_topology();
    for other in never {
        assert_ne!(label, other);
    }
}

#[test]
fn asking_twice_gives_the_same_label() {
    let dcn = two_tier_fat_tree();
    let first = dcn.get_topology();
    let second = dcn.get_topology();
    assert_eq!(first, second);
    assert_eq!(first, NetworkTopology::FatTree);
}

#[test]
fn refresh_records_the_label_and_new_links_forget_it() {
    let mut dcn = two_tier_fat_tree();
    assert_eq!(dcn.topology(), NetworkTopology::Undefined);
    assert_eq!(dcn.refresh_topology(), NetworkTopology::FatTree);
    assert_eq!(dcn.topology(), NetworkTopology::FatTree);
    assert_eq!(dcn.get_topology(), NetworkTopology::FatTree);
    dcn.set_links(links(&[("a0-u0", "d0-l0")]));
    assert_eq!(dcn.topology(), NetworkTopology::Undefined);
    assert_eq!(dcn.links().len(), 1);
    assert_eq!(dcn.get_topology(), NetworkTopology::Undefined);
}

#[test]
fn anomalous_links_are_skipped_and_reported() {
    let dcn = fabric(
        vec![
            switch("a", SwitchType::Access, 1, 1),
            switch("d", SwitchType::Distribution, 1, 1),
            switch("c", SwitchType::Core, 1, 0),
        ],
        &[("a-u0", "d-l0"), ("a-l0", "a-u0"), ("d-u0", "c-l0"), ("c-l0", "lost")],
    );
    let (label, anomalies) = dcn.get_topology_with_anomalies();
    assert_eq!(label, NetworkTopology::FatTree);
    assert_eq!(
        anomalies,
        vec![
            GraphError::DuplicateLinkEndpoint { link: 1 },
            GraphError::DanglingPortReference { link: 3 },
        ]
    );
    assert_eq!(dcn.get_topology(), NetworkTopology::FatTree);
    assert_eq!(dcn.graph().unwrap_err(), GraphError::DuplicateLinkEndpoint { link: 1 });
}

#[test]
fn the_graph_of_a_network_without_anomalies() {
    let dcn = two_tier_fat_tree();
    let graph = dcn.graph().unwrap();
    assert_eq!(graph.node_count(), 5);
    assert_eq!(graph.edge_count(), 6);
    assert_eq!(classify(&graph), NetworkTopology::FatTree);
}

#[test]
fn links_to_routers_are_unknown_to_a_fabric_of_switches() {
    let switches = vec![switch("a", SwitchType::Access, 0, 1), switch("c", SwitchType::Core, 1, 0)];
    let (label, anomalies) =
        resolve_network_topo(switches, links(&[("a-u0", "c-l0"), ("a-u0", "r-l0")]));
    assert_eq!(label, NetworkTopology::Tree);
    assert_eq!(anomalies, vec![GraphError::DanglingPortReference { link: 1 }]);
}

#[test]
fn classify_reads_a_prebuilt_graph() {
    let switches = vec![switch("a", SwitchType::Access, 0, 1), switch("c", SwitchType::Core, 1, 0)];
    let (graph, anomalies) = ConnectivityGraph::build_tolerant(
        &switches,
        &vec![],
        &vec![],
        &links(&[("c-l0", "a-u0")]),
    );
    assert!(anomalies.is_empty());
    assert_eq!(classify(&graph), NetworkTopology::Tree);
    assert_eq!(classify(&graph), NetworkTopology::Tree);
}

#[test]
fn health_does_not_change_the_topology() {
    let mut down = port("a-u0");
    down.set_status(DeviceStatus::Down);
    let mut degraded = port("d-u0");
    degraded.set_status(DeviceStatus::Degraded);
    let mut dcn = DataCenterNetwork::new(
        "fabric".to_string(),
        NetworkType::Data,
        vec![
            switch("a", SwitchType::Access, 0, 1),
            switch("d", SwitchType::Distribution, 1, 1),
            switch("c", SwitchType::Core, 1, 0),
        ],
        vec![],
        vec![],
    );
    dcn.set_links(vec![Link::new(down, port("d-l0")), Link::new(degraded, port("c-l0"))]);
    assert_eq!(dcn.get_topology(), NetworkTopology::FatTree);
}

#[test]
fn the_patterns_of_a_minimal_chain() {
    let dcn = fabric(
        vec![
            switch("a", SwitchType::Access, 0, 1),
            switch("d", SwitchType::Distribution, 1, 1),
            switch("c", SwitchType::Core, 1, 0),
        ],
        &[("a-u0", "d-l0"), ("d-u0", "c-l0")],
    );
    let graph = dcn.graph().unwrap();
    assert!(is_fat_tree(&graph));
    assert!(is_tree(&graph));
    assert!(is_connected(&graph));
    assert!(!is_vl2(&graph));
    assert!(!is_dcell(&graph));
    assert_eq!(dragonfly_label(&graph), None);
    assert_eq!(classify(&graph), NetworkTopology::FatTree);
}

#[test]
fn a_clos_is_told_by_its_two_tiers() {
    let dcn = fabric(
        vec![
            switch("a0", SwitchType::Access, 0, 2),
            switch("a1", SwitchType::Access, 0, 2),
            switch("c0", SwitchType::Core, 2, 0),
            switch("c1", SwitchType::Core, 2, 0),
        ],
        &[("a0-u0", "c0-l0"), ("a0-u1", "c1-l0"), ("a1-u0", "c0-l1"), ("a1-u1", "c1-l1")],
    );
    let graph = dcn.graph().unwrap();
    assert!(is_clos(&graph, SwitchType::Access, SwitchType::Core));
    assert!(!is_clos(&graph, SwitchType::Access, SwitchType::Distribution));
    assert!(!is_clos(&graph, SwitchType::Distribution, SwitchType::Core));
    assert!(!is_clos(&graph, SwitchType::Core, SwitchType::Access));
    assert!(is_vl2(&graph));
    assert!(!is_tree(&graph));
    assert!(is_connected(&graph));
    assert_eq!(dcn.get_topology(), NetworkTopology::VL2);
}

#[test]
fn a_single_upper_switch_makes_a_tree_not_a_clos() {
    let dcn = fabric(
        vec![
            switch("a0", SwitchType::Access, 0, 1),
            switch("a1", SwitchType::Access, 0, 1),
            switch("d0", SwitchType::Distribution, 2, 0),
        ],
        &[("a0-u0", "d0-l0"), ("a1-u0", "d0-l1")],
    );
    let graph = dcn.graph().unwrap();
    assert!(!is_vl2(&graph));
    assert!(is_tree(&graph));
    assert_eq!(dcn.get_topology(), NetworkTopology::Tree);
}

#[test]
fn connectivity_of_small_graphs() {
    let none = ConnectivityGraph::build(&vec![], &vec![], &vec![], &vec![]).unwrap();
    assert!(is_connected(&none));
    assert!(!is_tree(&none));
    let one = ConnectivityGraph::build(
        &vec![switch("a", SwitchType::Access, 0, 0)],
        &vec![],
        &vec![],
        &vec![],
    )
    .unwrap();
    assert!(is_connected(&one));
    assert!(!is_tree(&one));
    let two = ConnectivityGraph::build(
        &vec![switch("a", SwitchType::Access, 0, 1), switch("b", SwitchType::Access, 0, 1)],
        &vec![],
        &vec![],
        &vec![],
    )
    .unwrap();
    assert!(!is_connected(&two));
    assert!(!is_tree(&two));
}

#[test]
fn the_family_label_of_groups() {
    let dcn = plane(
        vec![],
        vec![router("g0a", 1, 1), router("g0b", 1, 1), router("g1a", 1, 1), router("g1b", 1, 1)],
        vec![],
        &[("g0a-l0", "g0b-l0"), ("g1a-l0", "g1b-l0"), ("g0a-w0", "g1b-w0")],
    );
    let graph = dcn.graph().unwrap();
    assert_eq!(dragonfly_label(&graph), Some(NetworkTopology::DragonFly));
    assert!(!is_dcell(&graph));
    // three edges on four nodes, connected: the conditions of the tree hold
    // too, and the more specific pattern gives the label
    assert!(is_tree(&graph));
    assert_eq!(classify(&graph), NetworkTopology::DragonFly);
}

#[test]
fn a_global_link_inside_a_group_is_no_dragonfly() {
    let dcn = plane(
        vec![],
        vec![router("g0a", 1, 2), router("g0b", 1, 1), router("g1a", 1, 1), router("g1b", 1, 1)],
        vec![],
        &[
            ("g0a-l0", "g0b-l0"),
            ("g1a-l0", "g1b-l0"),
            ("g0a-w0", "g1b-w0"),
            ("g0a-w1", "g0b-w0"),
        ],
    );
    assert_eq!(dragonfly_label(&dcn.graph().unwrap()), None);
    assert_eq!(dcn.get_topology(), NetworkTopology::Undefined);
}

#[test]
fn every_link_is_an_edge_or_an_anomaly() {
    let switches = vec![
        switch("a", SwitchType::Access, 1, 1),
        switch("d", SwitchType::Distribution, 1, 1),
    ];
    let all = links(&[
        ("a-u0", "d-l0"),
        ("a-l0", "a-u0"),
        ("x", "y"),
        ("d-u0", "a-l0"),
        ("d-l0", "z"),
    ]);
    let (graph, anomalies) = ConnectivityGraph::build_tolerant(&switches, &vec![], &vec![], &all);
    assert_eq!(graph.edge_count(), 2);
    assert_eq!(anomalies.len(), 3);
    assert_eq!(graph.edge_count() + anomalies.len(), all.len());
}

#[test]
fn listing_the_switches_in_another_order_keeps_the_label() {
    let pairs = [
        ("a0-u0", "d0-l0"),
        ("a0-u1", "d1-u1"),
        ("a1-u0", "d0-l1"),
        ("a1-u1", "d1-l1"),
        ("d0-u0", "c0-l0"),
        ("d1-u0", "c0-l1"),
        ("a0-l0", "a0-l1"),
        ("a1-l0", "gone"),
    ];
    let build = |order: [usize; 5]| {
        let make = |i: usize| match i {
            0 => switch("a0", SwitchType::Access, 4, 2),
            1 => switch("a1", SwitchType::Access, 4, 2),
            2 => switch("d0", SwitchType::Distribution, 2, 1),
            3 => switch("d1", SwitchType::Distribution, 2, 2),
            _ => switch("c0", SwitchType::Core, 2, 0),
        };
        fabric(order.iter().map(|i| make(*i)).collect(), &pairs)
    };
    let first = build([0, 1, 2, 3, 4]).get_topology_with_anomalies();
    assert_eq!(first.0, NetworkTopology::FatTree);
    assert_eq!(
        first.1,
        vec![
            GraphError::DuplicateLinkEndpoint { link: 6 },
            GraphError::DanglingPortReference { link: 7 },
        ]
    );
    for order in [[4, 3, 2, 1, 0], [2, 0, 4, 1, 3], [1, 4, 0, 3, 2]] {
        assert_eq!(build(order).get_topology_with_anomalies(), first);
    }
}

#[test]
fn listing_the_routers_of_a_dragonfly_in_another_order_keeps_the_label() {
    let pairs = [
        ("g0a-l0", "g0b-l0"),
        ("g1a-l0", "g1b-l0"),
        ("g2a-l0", "g2b-l0"),
        ("g0a-w0", "g1a-w0"),
        ("g1b-w0", "g2a-w0"),
        ("g2b-w0", "g0b-w0"),
    ];
    let names = ["g0a", "g0b", "g1a", "g1b", "g2a", "g2b"];
    for order in [[0, 1, 2, 3, 4, 5], [5, 3, 1, 4, 2, 0], [2, 4, 0, 5, 1, 3]] {
        let routers = order.iter().map(|i| router(names[*i], 2, 1)).collect();
        let dcn = plane(vec![], routers, vec![], &pairs);
        assert_eq!(dcn.get_topology(), NetworkTopology::DragonFly);
    }
}
