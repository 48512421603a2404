//! The connectivity graph of a network plane.
//!
//! Devices are the nodes, in the order switches, routers, firewalls; each
//! link whose two ports are found on two different devices is an edge. The
//! graph is a multigraph: parallel links between one pair of devices stay
//! apart. A port is identified by its serial number, and belongs to the first
//! device that lists it.

use vstd::prelude::*;

use crate::model::network::{
    firewall_views, router_views, switch_views, Firewall, FirewallView, Router, RouterType,
    RouterView, Switch, SwitchType, SwitchView,
};
use crate::model::osi_layers::{link_views, port_views, Link, LinkLayer, LinkView, Port, PortView};

verus! {

/// The role in which a device lists a port.
#[derive(Debug, Clone, Copy, PartialEq, Eq, Structural)]
pub enum PortRole {
    Lan,
    Uplink,
    Wan,
}

/// What the graph records of a device: its kind, and the role or layer that
/// comes with the kind.
#[derive(Debug, Clone, Copy, PartialEq, Eq, Structural)]
pub enum NodeKind {
    Switch { role: SwitchType, layer: LinkLayer },
    Router { role: RouterType },
    Firewall,
}

impl NodeKind {
    /// The role of the ports a device of this kind lists beside its LAN
    /// ports: uplink ports on a switch, WAN ports on a router or firewall.
    pub open spec fn spec_secondary_role(&self) -> PortRole {
        match *self {
            NodeKind::Switch { .. } => PortRole::Uplink,
            _ => PortRole::Wan,
        }
    }

    #[verifier::when_used_as_spec(spec_secondary_role)]
    pub fn secondary_role(&self) -> (role: PortRole)
        ensures
            role == self.spec_secondary_role(),
    {
        match self {
            NodeKind::Switch { .. } => PortRole::Uplink,
            _ => PortRole::Wan,
        }
    }
}

/// The kind of connection an edge makes, told by the port roles at its ends.
#[derive(Debug, Clone, Copy, PartialEq, Eq, Structural)]
pub enum EdgeClass {
    /// LAN port to LAN port: a link inside a cell or group.
    Local,
    /// Uplink or WAN port on both sides: a link between groups.
    Global,
    /// A LAN port on one side only: a link from a lower device, on the
    /// side of the uplink or WAN port, up to a higher one.
    Rising,
}

/// One link between two different devices, with the role of the port it
/// occupies on each side.
#[derive(Debug, Clone, Copy, PartialEq, Eq, Structural)]
pub struct Edge {
    pub left: usize,
    pub left_role: PortRole,
    pub right: usize,
    pub right_role: PortRole,
}

impl Edge {
    /// The edge ends at node `a`.
    pub open spec fn touches(self, a: int) -> bool {
        self.left == a || self.right == a
    }

    /// The edge runs between the nodes `a` and `b`, in either direction.
    pub open spec fn joins(self, a: int, b: int) -> bool {
        (self.left == a && self.right == b) || (self.left == b && self.right == a)
    }

    /// The edge ends at node `a` in a port of role `role`.
    pub open spec fn uses(self, a: int, role: PortRole) -> bool {
        (self.left == a && self.left_role == role) || (self.right == a && self.right_role
            == role)
    }

    pub open spec fn spec_class(&self) -> EdgeClass {
        if self.left_role == PortRole::Lan && self.right_role == PortRole::Lan {
            EdgeClass::Local
        } else if self.left_role != PortRole::Lan && self.right_role != PortRole::Lan {
            EdgeClass::Global
        } else {
            EdgeClass::Rising
        }
    }

    /// The kind of connection this edge makes.
    #[verifier::when_used_as_spec(spec_class)]
    pub fn class(&self) -> (class: EdgeClass)
        ensures
            class == self.spec_class(),
    {
        let left_lan = match self.left_role {
            PortRole::Lan => true,
            _ => false,
        };
        let right_lan = match self.right_role {
            PortRole::Lan => true,
            _ => false,
        };
        if left_lan && right_lan {
            EdgeClass::Local
        } else if !left_lan && !right_lan {
            EdgeClass::Global
        } else {
            EdgeClass::Rising
        }
    }

    /// The edge counts under the filter: any edge where there is none, else
    /// the edges of the given class.
    pub open spec fn passes(self, filter: Option<EdgeClass>) -> bool {
        filter matches Some(class) ==> self.spec_class() == class
    }

    /// The end of a rising edge that is not in a LAN port: the lower device.
    pub open spec fn low_end(self) -> int {
        if self.left_role == PortRole::Lan {
            self.right as int
        } else {
            self.left as int
        }
    }
}

/// The number of edges that end at node `a` in a port of role `role`.
pub open spec fn count_uses(edges: Seq<Edge>, a: int, role: PortRole) -> nat
    decreases edges.len(),
{
    if edges.len() == 0 {
        0
    } else {
        count_uses(edges.drop_last(), a, role) + if edges.last().uses(a, role) {
            1nat
        } else {
            0nat
        }
    }
}

/// The graph as a mathematical value: the kind of each node, and the edges
/// in the order of the links they come from.
pub struct GraphView {
    pub nodes: Seq<NodeKind>,
    pub edges: Seq<Edge>,
}

impl GraphView {
    pub open spec fn has_node(self, a: int) -> bool {
        0 <= a < self.nodes.len()
    }

    /// A device of node `a`'s kind lists ports of role `role`.
    pub open spec fn role_fits(self, a: int, role: PortRole) -> bool {
        role == PortRole::Lan || role == self.nodes[a].spec_secondary_role()
    }

    /// The edge joins two different nodes of the graph, each in a port role
    /// that its kind has.
    pub open spec fn edge_ok(self, e: Edge) -> bool {
        &&& self.has_node(e.left as int)
        &&& self.has_node(e.right as int)
        &&& e.left != e.right
        &&& self.role_fits(e.left as int, e.left_role)
        &&& self.role_fits(e.right as int, e.right_role)
    }

    /// Every edge is in order: there is no self-loop and no edge to a node
    /// outside the graph.
    pub open spec fn wf(self) -> bool {
        forall|k: int| 0 <= k < self.edges.len() ==> self.edge_ok(#[trigger] self.edges[k])
    }

    /// The number of link endpoints at node `a` in ports of role `role`.
    pub open spec fn role_degree(self, a: int, role: PortRole) -> nat {
        count_uses(self.edges, a, role)
    }

    /// The number of link endpoints at node `a`.
    pub open spec fn degree(self, a: int) -> nat {
        self.role_degree(a, PortRole::Lan) + self.role_degree(a, PortRole::Uplink)
            + self.role_degree(a, PortRole::Wan)
    }

    /// Some edge that passes the filter runs between `a` and `b`.
    pub open spec fn linked_in(self, a: int, b: int, filter: Option<EdgeClass>) -> bool {
        exists|k: int|
            0 <= k < self.edges.len() && (#[trigger] self.edges[k]).joins(a, b)
                && self.edges[k].passes(filter)
    }

    /// Some edge runs between `a` and `b`.
    pub open spec fn linked(self, a: int, b: int) -> bool {
        self.linked_in(a, b, None)
    }

    /// Some edge of the given class runs between `a` and `b`.
    pub open spec fn linked_by(self, a: int, b: int, class: EdgeClass) -> bool {
        self.linked_in(a, b, Some(class))
    }
}

/// `m` is the adjacency matrix of the graph under the filter: a square
/// matrix over the nodes whose cell `(a, b)` tells whether an edge that
/// passes the filter runs between `a` and `b`.
pub open spec fn is_adjacency(m: Seq<Vec<bool>>, g: GraphView, filter: Option<EdgeClass>) -> bool {
    &&& m.len() == g.nodes.len()
    &&& forall|a: int| 0 <= a < m.len() ==> (#[trigger] m[a]).len() == g.nodes.len()
    &&& forall|a: int, b: int|
        0 <= a < m.len() && 0 <= b < m.len() ==> (#[trigger] m[a][b]) == g.linked_in(a, b, filter)
}

/// What the builder reads of a device: its kind and the serial numbers of
/// its ports, the LAN ports apart from the others.
pub struct DevicePorts {
    pub kind: NodeKind,
    pub lan: Seq<Seq<char>>,
    pub secondary: Seq<Seq<char>>,
}

impl DevicePorts {
    /// The device lists a port with this serial number.
    pub open spec fn owns(self, serial: Seq<char>) -> bool {
        self.lan.contains(serial) || self.secondary.contains(serial)
    }

    /// The role in which the device lists the port; a serial number found
    /// among the LAN ports counts as a LAN port.
    pub open spec fn role_of(self, serial: Seq<char>) -> PortRole {
        if self.lan.contains(serial) {
            PortRole::Lan
        } else {
            self.kind.spec_secondary_role()
        }
    }
}

/// The serial numbers of a sequence of ports, in order.
pub open spec fn serials(ports: Seq<PortView>) -> Seq<Seq<char>> {
    Seq::new(ports.len(), |i: int| ports[i].serial_number)
}

pub open spec fn switch_ports(s: SwitchView) -> DevicePorts {
    DevicePorts {
        kind: NodeKind::Switch { role: s.switch_type, layer: s.layer },
        lan: serials(s.lan_ports),
        secondary: serials(s.uplink_ports),
    }
}

pub open spec fn router_ports(r: RouterView) -> DevicePorts {
    DevicePorts {
        kind: NodeKind::Router { role: r.router_type },
        lan: serials(r.lan_ports),
        secondary: serials(r.wan_ports),
    }
}

pub open spec fn firewall_ports(f: FirewallView) -> DevicePorts {
    DevicePorts { kind: NodeKind::Firewall, lan: serials(f.lan_ports), secondary: serials(f.wan_ports) }
}

/// The devices of a network plane in node order: switches first, then
/// routers, then firewalls.
pub open spec fn devices_of(
    switches: Seq<SwitchView>,
    routers: Seq<RouterView>,
    firewalls: Seq<FirewallView>,
) -> Seq<DevicePorts> {
    Seq::new(switches.len(), |i: int| switch_ports(switches[i])) + Seq::new(
        routers.len(),
        |i: int| router_ports(routers[i]),
    ) + Seq::new(firewalls.len(), |i: int| firewall_ports(firewalls[i]))
}

/// Device `i` is the first one that lists a port with this serial number.
pub open spec fn is_owner(devices: Seq<DevicePorts>, serial: Seq<char>, i: int) -> bool {
    &&& 0 <= i < devices.len()
    &&& devices[i].owns(serial)
    &&& forall|j: int| 0 <= j < i ==> !(#[trigger] devices[j]).owns(serial)
}

/// Some device lists a port with this serial number.
pub open spec fn has_owner(devices: Seq<DevicePorts>, serial: Seq<char>) -> bool {
    exists|i: int| is_owner(devices, serial, i)
}

/// The device a port belongs to, where it has one.
pub open spec fn owner(devices: Seq<DevicePorts>, serial: Seq<char>) -> int {
    choose|i: int| is_owner(devices, serial, i)
}

/// What a link comes to when its two ports are looked up.
#[derive(Debug, Clone, Copy, PartialEq, Eq, Structural)]
pub enum LinkResolution {
    /// Both ports were found, on two different devices.
    Connects(Edge),
    /// One of the ports is on no device.
    Dangling,
    /// Both ports are on one device.
    SelfLoop,
}

/// Looks up both ports of a link. A port that no device lists makes the
/// link dangling, whatever the other port is.
pub open spec fn resolve_link(devices: Seq<DevicePorts>, link: LinkView) -> LinkResolution {
    let l = link.left.serial_number;
    let r = link.right.serial_number;
    if !has_owner(devices, l) || !has_owner(devices, r) {
        LinkResolution::Dangling
    } else {
        let a = owner(devices, l);
        let b = owner(devices, r);
        if a == b {
            LinkResolution::SelfLoop
        } else {
            LinkResolution::Connects(
                Edge {
                    left: a as usize,
                    left_role: devices[a].role_of(l),
                    right: b as usize,
                    right_role: devices[b].role_of(r),
                },
            )
        }
    }
}

/// An anomaly found in a link while the graph was built. `link` is the
/// position of the link in the list of links.
#[derive(Debug, Clone, Copy, PartialEq, Eq, Structural)]
pub enum GraphError {
    /// A port of the link is on no device of the network.
    DanglingPortReference { link: usize },
    /// Both ports of the link are on the same device.
    DuplicateLinkEndpoint { link: usize },
}

/// The edges that the links give, in the order of the links; anomalous
/// links give none.
pub open spec fn edges_of(devices: Seq<DevicePorts>, links: Seq<LinkView>) -> Seq<Edge>
    decreases links.len(),
{
    if links.len() == 0 {
        Seq::empty()
    } else {
        let before = edges_of(devices, links.drop_last());
        match resolve_link(devices, links.last()) {
            LinkResolution::Connects(e) => before.push(e),
            _ => before,
        }
    }
}

/// The anomalies among the links, in the order of the links.
pub open spec fn anomalies_of(devices: Seq<DevicePorts>, links: Seq<LinkView>) -> Seq<GraphError>
    decreases links.len(),
{
    if links.len() == 0 {
        Seq::empty()
    } else {
        let before = anomalies_of(devices, links.drop_last());
        let at = (links.len() - 1) as usize;
        match resolve_link(devices, links.last()) {
            LinkResolution::Connects(_) => before,
            LinkResolution::Dangling => before.push(GraphError::DanglingPortReference { link: at }),
            LinkResolution::SelfLoop => before.push(GraphError::DuplicateLinkEndpoint { link: at }),
        }
    }
}

/// The kinds of the devices, in node order.
pub open spec fn kinds_of(devices: Seq<DevicePorts>) -> Seq<NodeKind> {
    Seq::new(devices.len(), |i: int| devices[i].kind)
}

/// The connectivity graph of the devices and links, anomalous links left out.
pub open spec fn graph_of(devices: Seq<DevicePorts>, links: Seq<LinkView>) -> GraphView {
    GraphView { nodes: kinds_of(devices), edges: edges_of(devices, links) }
}

/// The devices of a network plane as the builder reads them.
pub open spec fn plane_devices(
    switches: Seq<Switch>,
    routers: Seq<Router>,
    firewalls: Seq<Firewall>,
) -> Seq<DevicePorts> {
    devices_of(switch_views(switches), router_views(routers), firewall_views(firewalls))
}

/// The strings of a sequence as sequences of characters.
pub open spec fn strings(items: Seq<String>) -> Seq<Seq<char>> {
    Seq::new(items.len(), |i: int| items[i]@)
}

/// A port has at most one owner.
pub proof fn lemma_owner_is(devices: Seq<DevicePorts>, serial: Seq<char>, i: int)
    requires
        is_owner(devices, serial, i),
    ensures
        has_owner(devices, serial),
        owner(devices, serial) == i,
{
    let j = owner(devices, serial);
    assert(is_owner(devices, serial, j));
    if j < i {
        assert(!devices[j].owns(serial));
    }
    if i < j {
        assert(!devices[i].owns(serial));
    }
}

/// Adding an edge raises the count of a node and role by one where the edge
/// ends there in that role, and leaves it otherwise.
proof fn lemma_count_push(edges: Seq<Edge>, e: Edge, a: int, role: PortRole)
    ensures
        count_uses(edges.push(e), a, role) == count_uses(edges, a, role) + if e.uses(a, role) {
            1nat
        } else {
            0nat
        },
{
    assert(edges.push(e).drop_last() =~= edges);
}

/// Without self-loops, a node has at most one endpoint on each edge.
proof fn lemma_degree_bound(edges: Seq<Edge>, a: int)
    requires
        forall|k: int| 0 <= k < edges.len() ==> (#[trigger] edges[k]).left != edges[k].right,
    ensures
        count_uses(edges, a, PortRole::Lan) + count_uses(edges, a, PortRole::Uplink) + count_uses(
            edges,
            a,
            PortRole::Wan,
        ) <= edges.len(),
    decreases edges.len(),
{
    if edges.len() > 0 {
        let before = edges.drop_last();
        assert forall|k: int| 0 <= k < before.len() implies (#[trigger] before[k]).left
            != before[k].right by {
            assert(before[k] == edges[k]);
        }
        lemma_degree_bound(before, a);
    }
}

/// The ports of one device as the builder keeps them while it works.
struct IndexEntry {
    kind: NodeKind,
    lan: Vec<String>,
    secondary: Vec<String>,
}

impl IndexEntry {
    spec fn ports(&self) -> DevicePorts {
        DevicePorts {
            kind: self.kind,
            lan: strings(self.lan@),
            secondary: strings(self.secondary@),
        }
    }
}

spec fn entries(index: Seq<IndexEntry>) -> Seq<DevicePorts> {
    Seq::new(index.len(), |i: int| index[i].ports())
}

fn port_serials(ports: &Vec<Port>) -> (out: Vec<String>)
    ensures
        strings(out@) == serials(port_views(ports@)),
{
    let mut out: Vec<String> = Vec::new();
    let mut i: usize = 0;
    while i < ports.len()
        invariant
            i <= ports.len(),
            out.len() == i,
            forall|j: int| 0 <= j < i ==> out[j]@ == ports[j]@.serial_number,
        decreases ports.len() - i,
    {
        out.push(ports[i].serial_number().clone());
        i += 1;
    }
    assert(strings(out@) =~= serials(port_views(ports@)));
    out
}

fn lists(serials: &Vec<String>, serial: &String) -> (found: bool)
    ensures
        found == strings(serials@).contains(serial@),
{
    let mut i: usize = 0;
    while i < serials.len()
        invariant
            i <= serials.len(),
            forall|j: int| 0 <= j < i ==> serials[j]@ != serial@,
        decreases serials.len() - i,
    {
        if serials[i] == *serial {
            assert(strings(serials@)[i as int] == serial@);
            return true;
        }
        i += 1;
    }
    false
}

fn find_owner(index: &Vec<IndexEntry>, serial: &String) -> (found: Option<(usize, PortRole)>)
    ensures
        match found {
            Some((i, role)) => is_owner(entries(index@), serial@, i as int) && role == entries(
                index@,
            )[i as int].role_of(serial@),
            None => !has_owner(entries(index@), serial@),
        },
{
    let mut i: usize = 0;
    while i < index.len()
        invariant
            i <= index.len(),
            forall|j: int| 0 <= j < i ==> !(#[trigger] entries(index@)[j]).owns(serial@),
        decreases index.len() - i,
    {
        let entry = &index[i];
        assert(entries(index@)[i as int] == entry.ports());
        if lists(&entry.lan, serial) {
            return Some((i, PortRole::Lan));
        }
        if lists(&entry.secondary, serial) {
            return Some((i, entry.kind.secondary_role()));
        }
        i += 1;
    }
    None
}

fn resolve(index: &Vec<IndexEntry>, link: &Link) -> (res: LinkResolution)
    ensures
        res == resolve_link(entries(index@), link@),
        res matches LinkResolution::Connects(e) ==> graph_of(
            entries(index@),
            Seq::empty(),
        ).edge_ok(e),
{
    let left = find_owner(index, link.left().serial_number());
    let right = find_owner(index, link.right().serial_number());
    match (left, right) {
        (Some((a, left_role)), Some((b, right_role))) => {
            proof {
                lemma_owner_is(entries(index@), link@.left.serial_number, a as int);
                lemma_owner_is(entries(index@), link@.right.serial_number, b as int);
            }
            if a == b {
                LinkResolution::SelfLoop
            } else {
                LinkResolution::Connects(Edge { left: a, left_role, right: b, right_role })
            }
        },
        _ => LinkResolution::Dangling,
    }
}

fn index_devices(switches: &Vec<Switch>, routers: &Vec<Router>, firewalls: &Vec<Firewall>) -> (index:
    Vec<IndexEntry>)
    ensures
        entries(index@) == plane_devices(switches@, routers@, firewalls@),
{
    let ghost target = plane_devices(switches@, routers@, firewalls@);
    let mut index: Vec<IndexEntry> = Vec::new();
    let mut i: usize = 0;
    while i < switches.len()
        invariant
            i <= switches.len(),
            index.len() == i,
            target == plane_devices(switches@, routers@, firewalls@),
            forall|j: int| 0 <= j < i ==> (#[trigger] index[j]).ports() == target[j],
        decreases switches.len() - i,
    {
        let device = &switches[i];
        let lan = port_serials(device.lan_ports());
        let secondary = port_serials(device.uplink_ports());
        let kind = NodeKind::Switch { role: device.switch_type(), layer: device.layer() };
        index.push(IndexEntry { kind, lan, secondary });
        i += 1;
    }
    let mut i: usize = 0;
    while i < routers.len()
        invariant
            i <= routers.len(),
            index.len() == switches.len() + i,
            target == plane_devices(switches@, routers@, firewalls@),
            forall|j: int| 0 <= j < switches.len() + i ==> (#[trigger] index[j]).ports() == target[j],
        decreases routers.len() - i,
    {
        let device = &routers[i];
        let lan = port_serials(device.lan_ports());
        let secondary = port_serials(device.wan_ports());
        let kind = NodeKind::Router { role: device.router_type() };
        index.push(IndexEntry { kind, lan, secondary });
        i += 1;
    }
    let mut i: usize = 0;
    while i < firewalls.len()
        invariant
            i <= firewalls.len(),
            index.len() == switches.len() + routers.len() + i,
            target == plane_devices(switches@, routers@, firewalls@),
            forall|j: int|
                0 <= j < switches.len() + routers.len() + i ==> (#[trigger] index[j]).ports()
                    == target[j],
        decreases firewalls.len() - i,
    {
        let device = &firewalls[i];
        let lan = port_serials(device.lan_ports());
        let secondary = port_serials(device.wan_ports());
        index.push(IndexEntry { kind: NodeKind::Firewall, lan, secondary });
        i += 1;
    }
    assert(entries(index@) =~= target);
    index
}

/// A node as the graph keeps it: the kind of the device and, by port role,
/// the number of link endpoints at the device.
#[derive(Debug, Clone, Copy)]
struct Node {
    kind: NodeKind,
    lan: usize,
    uplink: usize,
    wan: usize,
}

impl Node {
    /// The recorded counts are those of node `a` under these edges.
    spec fn counts(self, edges: Seq<Edge>, a: int) -> bool {
        &&& self.lan == count_uses(edges, a, PortRole::Lan)
        &&& self.uplink == count_uses(edges, a, PortRole::Uplink)
        &&& self.wan == count_uses(edges, a, PortRole::Wan)
    }

    /// The node with one more endpoint in a port of the given role.
    fn with_endpoint(self, role: PortRole) -> (node: Node)
        requires
            match role {
                PortRole::Lan => self.lan < usize::MAX,
                PortRole::Uplink => self.uplink < usize::MAX,
                PortRole::Wan => self.wan < usize::MAX,
            },
        ensures
            node.kind == self.kind,
            node.lan == self.lan + if role == PortRole::Lan { 1int } else { 0int },
            node.uplink == self.uplink + if role == PortRole::Uplink { 1int } else { 0int },
            node.wan == self.wan + if role == PortRole::Wan { 1int } else { 0int },
    {
        match role {
            PortRole::Lan => Node { lan: self.lan + 1, ..self },
            PortRole::Uplink => Node { uplink: self.uplink + 1, ..self },
            PortRole::Wan => Node { wan: self.wan + 1, ..self },
        }
    }
}

/// The connectivity graph of one network plane: an undirected multigraph
/// with the kind of each node, the port roles of each edge, and the number
/// of link endpoints of each node by role.
///
/// A graph is built from devices and links and never changes afterwards.
#[derive(Debug)]
pub struct ConnectivityGraph {
    nodes: Vec<Node>,
    edges: Vec<Edge>,
}

impl View for ConnectivityGraph {
    type V = GraphView;

    closed spec fn view(&self) -> GraphView {
        GraphView {
            nodes: Seq::new(self.nodes.len() as nat, |i: int| self.nodes[i].kind),
            edges: self.edges@,
        }
    }
}

impl ConnectivityGraph {
    #[verifier::type_invariant]
    spec fn inv(&self) -> bool {
        &&& self@.wf()
        &&& forall|a: int|
            0 <= a < self.nodes.len() ==> (#[trigger] self.nodes[a]).counts(self.edges@, a)
    }

    /// Builds the graph of a network plane and reports every anomalous link
    /// beside it. A link with a port that no device lists, or with both
    /// ports on one device, gives no edge and one entry in the report.
    pub fn build_tolerant(
        switches: &Vec<Switch>,
        routers: &Vec<Router>,
        firewalls: &Vec<Firewall>,
        links: &Vec<Link>,
    ) -> (out: (ConnectivityGraph, Vec<GraphError>))
        ensures
            out.0@ == graph_of(plane_devices(switches@, routers@, firewalls@), link_views(links@)),
            out.1@ == anomalies_of(
                plane_devices(switches@, routers@, firewalls@),
                link_views(links@),
            ),
            out.0@.wf(),
    {
        let index = index_devices(switches, routers, firewalls);
        let ghost devices = plane_devices(switches@, routers@, firewalls@);
        let ghost all = link_views(links@);
        let ghost base = graph_of(devices, Seq::empty());
        let mut nodes: Vec<Node> = Vec::new();
        let mut i: usize = 0;
        while i < index.len()
            invariant
                i <= index.len(),
                nodes.len() == i,
                devices == entries(index@),
                forall|a: int|
                    0 <= a < i ==> (#[trigger] nodes[a]).kind == devices[a].kind && nodes[a].counts(
                        Seq::empty(),
                        a,
                    ),
            decreases index.len() - i,
        {
            nodes.push(Node { kind: index[i].kind, lan: 0, uplink: 0, wan: 0 });
            i += 1;
        }
        let mut edges: Vec<Edge> = Vec::new();
        let mut anomalies: Vec<GraphError> = Vec::new();
        let mut k: usize = 0;
        assert(all.take(0) =~= Seq::empty());
        while k < links.len()
            invariant
                k <= links.len(),
                devices == entries(index@),
                all == link_views(links@),
                base == graph_of(devices, Seq::empty()),
                nodes.len() == devices.len(),
                edges@ == edges_of(devices, all.take(k as int)),
                anomalies@ == anomalies_of(devices, all.take(k as int)),
                forall|j: int| 0 <= j < edges.len() ==> base.edge_ok(#[trigger] edges[j]),
                forall|a: int|
                    0 <= a < nodes.len() ==> (#[trigger] nodes[a]).kind == devices[a].kind
                        && nodes[a].counts(edges@, a),
            decreases links.len() - k,
        {
            let ghost before = edges@;
            proof {
                let next = all.take(k + 1);
                assert(next.drop_last() =~= all.take(k as int));
                assert(next.last() == links[k as int]@);
            }
            match resolve(&index, &links[k]) {
                LinkResolution::Connects(e) => {
                    edges.push(e);
                    proof {
                        assert forall|j: int| 0 <= j < edges.len() implies (#[trigger] edges[j]).left
                            != edges[j].right by {
                            assert(base.edge_ok(edges[j]));
                        }
                        lemma_degree_bound(edges@, e.left as int);
                        lemma_degree_bound(edges@, e.right as int);
                        assert forall|a: int, role: PortRole|
                            count_uses(edges@, a, role) == #[trigger] count_uses(before, a, role)
                                + if e.uses(a, role) {
                                1nat
                            } else {
                                0nat
                            } by {
                            lemma_count_push(before, e, a, role);
                        }
                        assert(edges.len() == edges@.len());
                        assert(nodes[e.left as int].counts(before, e.left as int));
                        assert(nodes[e.right as int].counts(before, e.right as int));
                        assert(e.uses(e.left as int, e.left_role));
                        assert(e.uses(e.right as int, e.right_role));
                        assert(count_uses(edges@, e.left as int, e.left_role) == count_uses(
                            before,
                            e.left as int,
                            e.left_role,
                        ) + 1);
                        assert(count_uses(edges@, e.right as int, e.right_role) == count_uses(
                            before,
                            e.right as int,
                            e.right_role,
                        ) + 1);
                    }
                    let left = nodes[e.left];
                    nodes.set(e.left, left.with_endpoint(e.left_role));
                    let right = nodes[e.right];
                    nodes.set(e.right, right.with_endpoint(e.right_role));
                },
                LinkResolution::Dangling => {
                    anomalies.push(GraphError::DanglingPortReference { link: k });
                },
                LinkResolution::SelfLoop => {
                    anomalies.push(GraphError::DuplicateLinkEndpoint { link: k });
                },
            }
            k += 1;
        }
        assert(all.take(links.len() as int) =~= all);
        let graph = ConnectivityGraph { nodes, edges };
        assert(graph@.nodes =~= kinds_of(devices));
        (graph, anomalies)
    }

    /// Builds the graph of a network plane, or fails with the first
    /// anomalous link.
    pub fn build(
        switches: &Vec<Switch>,
        routers: &Vec<Router>,
        firewalls: &Vec<Firewall>,
        links: &Vec<Link>,
    ) -> (out: Result<ConnectivityGraph, GraphError>)
        ensures
            match out {
                Ok(graph) => {
                    &&& anomalies_of(
                        plane_devices(switches@, routers@, firewalls@),
                        link_views(links@),
                    ).len() == 0
                    &&& graph@ == graph_of(
                        plane_devices(switches@, routers@, firewalls@),
                        link_views(links@),
                    )
                    &&& graph@.wf()
                },
                Err(error) => {
                    &&& anomalies_of(
                        plane_devices(switches@, routers@, firewalls@),
                        link_views(links@),
                    ).len() > 0
                    &&& error == anomalies_of(
                        plane_devices(switches@, routers@, firewalls@),
                        link_views(links@),
                    )[0]
                },
            },
    {
        let (graph, anomalies) = ConnectivityGraph::build_tolerant(
            switches,
            routers,
            firewalls,
            links,
        );
        if anomalies.len() == 0 {
            Ok(graph)
        } else {
            Err(anomalies[0])
        }
    }

    /// The adjacency matrix of the graph, over all edges or over those of
    /// one class.
    pub fn adjacency(&self, filter: Option<EdgeClass>) -> (m: Vec<Vec<bool>>)
        ensures
            is_adjacency(m@, self@, filter),
    {
        let n = self.node_count();
        let mut m: Vec<Vec<bool>> = Vec::new();
        let mut a: usize = 0;
        while a < n
            invariant
                a <= n,
                m.len() == a,
                forall|i: int| 0 <= i < a ==> (#[trigger] m[i]).len() == n,
                forall|i: int, j: int| 0 <= i < a && 0 <= j < n ==> !(#[trigger] m[i][j]),
            decreases n - a,
        {
            let mut row: Vec<bool> = Vec::new();
            let mut b: usize = 0;
            while b < n
                invariant
                    b <= n,
                    row.len() == b,
                    forall|j: int| 0 <= j < b ==> !(#[trigger] row[j]),
                decreases n - b,
            {
                row.push(false);
                b += 1;
            }
            m.push(row);
            a += 1;
        }
        let count = self.edge_count();
        let mut k: usize = 0;
        while k < count
            invariant
                k <= count,
                count == self@.edges.len(),
                n == self@.nodes.len(),
                m.len() == n,
                forall|i: int| 0 <= i < n ==> (#[trigger] m[i]).len() == n,
                forall|i: int, j: int|
                    0 <= i < n && 0 <= j < n ==> (#[trigger] m[i][j]) == (exists|t: int|
                        0 <= t < k && (#[trigger] self@.edges[t]).joins(i, j)
                            && self@.edges[t].passes(filter)),
            decreases count - k,
        {
            let e = self.edge(k);
            let counted = match filter {
                None => true,
                Some(class) => e.class() == class,
            };
            if counted {
                m[e.left][e.right] = true;
                m[e.right][e.left] = true;
            }
            k += 1;
        }
        m
    }

    /// The number of nodes. Every edge of the graph joins two different
    /// nodes below this number.
    pub fn node_count(&self) -> (n: usize)
        ensures
            n == self@.nodes.len(),
            self@.wf(),
    {
        proof {
            use_type_invariant(self);
        }
        self.nodes.len()
    }

    /// The number of edges.
    pub fn edge_count(&self) -> (n: usize)
        ensures
            n == self@.edges.len(),
    {
        self.edges.len()
    }

    /// The kind of node `a`.
    pub fn kind(&self, a: usize) -> (kind: NodeKind)
        requires
            a < self@.nodes.len(),
        ensures
            kind == self@.nodes[a as int],
    {
        self.nodes[a].kind
    }

    /// Edge `k`, in the order of the links.
    pub fn edge(&self, k: usize) -> (e: Edge)
        requires
            k < self@.edges.len(),
        ensures
            e == self@.edges[k as int],
            self@.edge_ok(e),
    {
        proof {
            use_type_invariant(self);
        }
        self.edges[k]
    }

    /// The number of link endpoints at node `a` in ports of role `role`.
    pub fn role_degree(&self, a: usize, role: PortRole) -> (n: usize)
        requires
            a < self@.nodes.len(),
        ensures
            n == self@.role_degree(a as int, role),
    {
        proof {
            use_type_invariant(self);
        }
        match role {
            PortRole::Lan => self.nodes[a].lan,
            PortRole::Uplink => self.nodes[a].uplink,
            PortRole::Wan => self.nodes[a].wan,
        }
    }

    /// The number of link endpoints at node `a`.
    pub fn degree(&self, a: usize) -> (n: usize)
        requires
            a < self@.nodes.len(),
        ensures
            n == self@.degree(a as int),
    {
        proof {
            use_type_invariant(self);
            assert forall|k: int| 0 <= k < self.edges@.len() implies (#[trigger] self.edges@[k]).left
                != self.edges@[k].right by {
                assert(self@.edge_ok(self@.edges[k]));
            }
            lemma_degree_bound(self.edges@, a as int);
            assert(self.edges.len() == self.edges@.len());
            assert(self.nodes[a as int].counts(self.edges@, a as int));
        }
        self.nodes[a].lan + self.nodes[a].uplink + self.nodes[a].wan
    }
}

} // verus!
