//! Networking equipment and the network planes built from it.

use vstd::prelude::*;

use crate::model::graph::{
    anomalies_of, devices_of, graph_of, ConnectivityGraph, DevicePorts, GraphError, GraphView,
};
use crate::model::laws::{lemma_empty_network_is_undefined, lemma_unlinked_network_is_undefined};
use crate::model::osi_layers::{
    clone_links, clone_ports, link_views, port_views, Link, LinkLayer, LinkView, Port, PortView,
};
use crate::model::status::DeviceStatus;
use crate::model::topology::{classify, topology_of};

verus! {

/// The canonical topologies a fabric can implement. `Undefined` stands for
/// "no pattern matches"; it is a value, never an error.
#[derive(Debug, Clone, Copy, PartialEq, Eq, Structural)]
pub enum NetworkTopology {
    /// Low-radix tree, or star-bus.
    Tree,
    /// Low-radix Clos with uniform high capacity between servers.
    VL2,
    /// High-radix Clos of commodity switches with full bisection bandwidth.
    FatTree,
    /// Layer 2 routing and forwarding protocol on a fat tree.
    Portland,
    /// Dynamic flow scheduling on a fat tree.
    Hedera,
    /// Recursively defined structure of fully connected cells.
    DCell,
    /// Recursive structure for modular, container based data centers.
    BCube,
    /// Interconnection of BCube containers.
    MDCube,
    /// Recursive structure on dual-port servers and low-end switches.
    FiConn,
    /// Fully optical, reconfigurable at run time.
    OSA,
    /// Hybrid electrical and optical, driven by the end hosts.
    CThrough,
    /// Hybrid electrical and optical switch architecture.
    Helios,
    /// Fully connected router groups with global links between groups.
    DragonFly,
    /// DragonFly whose groups are joined in a flattened butterfly.
    Slingshot,
    /// DragonFly whose groups are split into leaf and spine switches.
    DragonFlyPlus,
    /// No canonical pattern matches.
    Undefined,
}

/// The plane a network serves.
#[derive(Debug, Clone, Copy, PartialEq, Eq, Structural)]
pub enum NetworkType {
    /// Administrative access to devices.
    Management,
    /// Guidance for the data plane.
    Control,
    /// The forwarding plane.
    Data,
}

/// The role of a router.
#[derive(Debug, Clone, Copy, PartialEq, Eq, Structural)]
pub enum RouterType {
    Core,
    Edge,
}

/// The tier of a switch. `Distribution` is also known as aggregation.
#[derive(Debug, Clone, Copy, PartialEq, Eq, Structural)]
pub enum SwitchType {
    Access,
    Distribution,
    Core,
}

/// The views of a sequence of switches, in order.
pub open spec fn switch_views(switches: Seq<Switch>) -> Seq<SwitchView> {
    Seq::new(switches.len(), |i: int| switches[i]@)
}

/// The views of a sequence of routers, in order.
pub open spec fn router_views(routers: Seq<Router>) -> Seq<RouterView> {
    Seq::new(routers.len(), |i: int| routers[i]@)
}

/// The views of a sequence of firewalls, in order.
pub open spec fn firewall_views(firewalls: Seq<Firewall>) -> Seq<FirewallView> {
    Seq::new(firewalls.len(), |i: int| firewalls[i]@)
}

/// Mathematical content of a [`Firewall`].
pub struct FirewallView {
    pub serial_number: Seq<char>,
    pub name: Seq<char>,
    pub model: Seq<char>,
    pub number: i64,
    pub status: DeviceStatus,
    pub lan_ports: Seq<PortView>,
    pub wan_ports: Seq<PortView>,
}

/// A firewall with its LAN and WAN ports.
#[derive(Debug, PartialEq, Eq)]
pub struct Firewall {
    serial_number: String,
    name: String,
    model: String,
    number: i64,
    status: DeviceStatus,
    lan_ports: Vec<Port>,
    wan_ports: Vec<Port>,
}

impl View for Firewall {
    type V = FirewallView;

    closed spec fn view(&self) -> FirewallView {
        FirewallView {
            serial_number: self.serial_number@,
            name: self.name@,
            model: self.model@,
            number: self.number,
            status: self.status,
            lan_ports: port_views(self.lan_ports@),
            wan_ports: port_views(self.wan_ports@),
        }
    }
}

impl Clone for Firewall {
    fn clone(&self) -> (copy: Firewall)
        ensures
            copy@ == self@,
    {
        Firewall {
            serial_number: self.serial_number.clone(),
            name: self.name.clone(),
            model: self.model.clone(),
            number: self.number,
            status: self.status,
            lan_ports: clone_ports(&self.lan_ports),
            wan_ports: clone_ports(&self.wan_ports),
        }
    }
}

impl Firewall {
    pub fn new(
        serial_number: String,
        name: String,
        model: String,
        number: i64,
        status: DeviceStatus,
        lan_ports: Vec<Port>,
        wan_ports: Vec<Port>,
    ) -> (device: Firewall)
        ensures
            device@ == (FirewallView {
                serial_number: serial_number@,
                name: name@,
                model: model@,
                number,
                status,
                lan_ports: port_views(lan_ports@),
                wan_ports: port_views(wan_ports@),
            }),
    {
        Firewall { serial_number, name, model, number, status, lan_ports, wan_ports }
    }

    pub fn serial_number(&self) -> (s: &String)
        ensures
            s@ == self@.serial_number,
    {
        &self.serial_number
    }

    pub fn name(&self) -> (s: &String)
        ensures
            s@ == self@.name,
    {
        &self.name
    }

    pub fn model(&self) -> (s: &String)
        ensures
            s@ == self@.model,
    {
        &self.model
    }

    pub fn number(&self) -> (value: i64)
        ensures
            value == self@.number,
    {
        self.number
    }

    pub fn status(&self) -> (value: DeviceStatus)
        ensures
            value == self@.status,
    {
        self.status
    }

    pub fn lan_ports(&self) -> (ports: &Vec<Port>)
        ensures
            port_views(ports@) == self@.lan_ports,
    {
        &self.lan_ports
    }

    pub fn wan_ports(&self) -> (ports: &Vec<Port>)
        ensures
            port_views(ports@) == self@.wan_ports,
    {
        &self.wan_ports
    }
}

/// Mathematical content of a [`Router`].
pub struct RouterView {
    pub serial_number: Seq<char>,
    pub name: Seq<char>,
    pub model: Seq<char>,
    pub number: i64,
    pub router_type: RouterType,
    pub status: DeviceStatus,
    pub lan_ports: Seq<PortView>,
    pub wan_ports: Seq<PortView>,
}

/// A router with its LAN and WAN ports.
#[derive(Debug, PartialEq, Eq)]
pub struct Router {
    serial_number: String,
    name: String,
    model: String,
    number: i64,
    router_type: RouterType,
    status: DeviceStatus,
    lan_ports: Vec<Port>,
    wan_ports: Vec<Port>,
}

impl View for Router {
    type V = RouterView;

    closed spec fn view(&self) -> RouterView {
        RouterView {
            serial_number: self.serial_number@,
            name: self.name@,
            model: self.model@,
            number: self.number,
            router_type: self.router_type,
            status: self.status,
            lan_ports: port_views(self.lan_ports@),
            wan_ports: port_views(self.wan_ports@),
        }
    }
}

impl Clone for Router {
    fn clone(&self) -> (copy: Router)
        ensures
            copy@ == self@,
    {
        Router {
            serial_number: self.serial_number.clone(),
            name: self.name.clone(),
            model: self.model.clone(),
            number: self.number,
            router_type: self.router_type,
            status: self.status,
            lan_ports: clone_ports(&self.lan_ports),
            wan_ports: clone_ports(&self.wan_ports),
        }
    }
}

impl Router {
    pub fn new(
        serial_number: String,
        name: String,
        model: String,
        number: i64,
        router_type: RouterType,
        status: DeviceStatus,
        lan_ports: Vec<Port>,
        wan_ports: Vec<Port>,
    ) -> (device: Router)
        ensures
            device@ == (RouterView {
                serial_number: serial_number@,
                name: name@,
                model: model@,
                number,
                router_type,
                status,
                lan_ports: port_views(lan_ports@),
                wan_ports: port_views(wan_ports@),
            }),
    {
        Router { serial_number, name, model, number, router_type, status, lan_ports, wan_ports }
    }

    pub fn serial_number(&self) -> (s: &String)
        ensures
            s@ == self@.serial_number,
    {
        &self.serial_number
    }

    pub fn name(&self) -> (s: &String)
        ensures
            s@ == self@.name,
    {
        &self.name
    }

    pub fn model(&self) -> (s: &String)
        ensures
            s@ == self@.model,
    {
        &self.model
    }

    pub fn number(&self) -> (value: i64)
        ensures
            value == self@.number,
    {
        self.number
    }

    pub fn router_type(&self) -> (value: RouterType)
        ensures
            value == self@.router_type,
    {
        self.router_type
    }

    pub fn status(&self) -> (value: DeviceStatus)
        ensures
            value == self@.status,
    {
        self.status
    }

    pub fn lan_ports(&self) -> (ports: &Vec<Port>)
        ensures
            port_views(ports@) == self@.lan_ports,
    {
        &self.lan_ports
    }

    pub fn wan_ports(&self) -> (ports: &Vec<Port>)
        ensures
            port_views(ports@) == self@.wan_ports,
    {
        &self.wan_ports
    }
}

/// Mathematical content of a [`Switch`].
pub struct SwitchView {
    pub serial_number: Seq<char>,
    pub name: Seq<char>,
    pub model: Seq<char>,
    pub number: i64,
    pub layer: LinkLayer,
    pub switch_type: SwitchType,
    pub status: DeviceStatus,
    pub managed: bool,
    pub lan_ports: Seq<PortView>,
    pub uplink_ports: Seq<PortView>,
}

/// A switch with its LAN and uplink ports.
#[derive(Debug, PartialEq, Eq)]
pub struct Switch {
    serial_number: String,
    name: String,
    model: String,
    number: i64,
    layer: LinkLayer,
    switch_type: SwitchType,
    status: DeviceStatus,
    managed: bool,
    lan_ports: Vec<Port>,
    uplink_ports: Vec<Port>,
}

impl View for Switch {
    type V = SwitchView;

    closed spec fn view(&self) -> SwitchView {
        SwitchView {
            serial_number: self.serial_number@,
            name: self.name@,
            model: self.model@,
            number: self.number,
            layer: self.layer,
            switch_type: self.switch_type,
            status: self.status,
            managed: self.managed,
            lan_ports: port_views(self.lan_ports@),
            uplink_ports: port_views(self.uplink_ports@),
        }
    }
}

impl Clone for Switch {
    fn clone(&self) -> (copy: Switch)
        ensures
            copy@ == self@,
    {
        Switch {
            serial_number: self.serial_number.clone(),
            name: self.name.clone(),
            model: self.model.clone(),
            number: self.number,
            layer: self.layer,
            switch_type: self.switch_type,
            status: self.status,
            managed: self.managed,
            lan_ports: clone_ports(&self.lan_ports),
            uplink_ports: clone_ports(&self.uplink_ports),
        }
    }
}

impl Switch {
    pub fn new(
        serial_number: String,
        name: String,
        model: String,
        number: i64,
        layer: LinkLayer,
        switch_type: SwitchType,
        status: DeviceStatus,
        managed: bool,
        lan_ports: Vec<Port>,
        uplink_ports: Vec<Port>,
    ) -> (device: Switch)
        ensures
            device@ == (SwitchView {
                serial_number: serial_number@,
                name: name@,
                model: model@,
                number,
                layer,
                switch_type,
                status,
                managed,
                lan_ports: port_views(lan_ports@),
                uplink_ports: port_views(uplink_ports@),
            }),
    {
        Switch { serial_number, name, model, number, layer, switch_type, status, managed, lan_ports, uplink_ports }
    }

    pub fn serial_number(&self) -> (s: &String)
        ensures
            s@ == self@.serial_number,
    {
        &self.serial_number
    }

    pub fn name(&self) -> (s: &String)
        ensures
            s@ == self@.name,
    {
        &self.name
    }

    pub fn model(&self) -> (s: &String)
        ensures
            s@ == self@.model,
    {
        &self.model
    }

    pub fn number(&self) -> (value: i64)
        ensures
            value == self@.number,
    {
        self.number
    }

    pub fn layer(&self) -> (value: LinkLayer)
        ensures
            value == self@.layer,
    {
        self.layer
    }

    pub fn switch_type(&self) -> (value: SwitchType)
        ensures
            value == self@.switch_type,
    {
        self.switch_type
    }

    pub fn status(&self) -> (value: DeviceStatus)
        ensures
            value == self@.status,
    {
        self.status
    }

    pub fn managed(&self) -> (value: bool)
        ensures
            value == self@.managed,
    {
        self.managed
    }

    pub fn lan_ports(&self) -> (ports: &Vec<Port>)
        ensures
            port_views(ports@) == self@.lan_ports,
    {
        &self.lan_ports
    }

    pub fn uplink_ports(&self) -> (ports: &Vec<Port>)
        ensures
            port_views(ports@) == self@.uplink_ports,
    {
        &self.uplink_ports
    }
}

/// Copies a list of switches, one by one.
pub fn clone_switches(devices: &Vec<Switch>) -> (copy: Vec<Switch>)
    ensures
        switch_views(copy@) == switch_views(devices@),
{
    let mut copy: Vec<Switch> = Vec::new();
    let mut i: usize = 0;
    while i < devices.len()
        invariant
            i <= devices.len(),
            copy.len() == i,
            forall|j: int| 0 <= j < i ==> (#[trigger] copy[j])@ == devices[j]@,
        decreases devices.len() - i,
    {
        copy.push(devices[i].clone());
        i += 1;
    }
    assert(switch_views(copy@) =~= switch_views(devices@));
    copy
}

/// Copies a list of routers, one by one.
pub fn clone_routers(devices: &Vec<Router>) -> (copy: Vec<Router>)
    ensures
        router_views(copy@) == router_views(devices@),
{
    let mut copy: Vec<Router> = Vec::new();
    let mut i: usize = 0;
    while i < devices.len()
        invariant
            i <= devices.len(),
            copy.len() == i,
            forall|j: int| 0 <= j < i ==> (#[trigger] copy[j])@ == devices[j]@,
        decreases devices.len() - i,
    {
        copy.push(devices[i].clone());
        i += 1;
    }
    assert(router_views(copy@) =~= router_views(devices@));
    copy
}

/// Copies a list of firewalls, one by one.
pub fn clone_firewalls(devices: &Vec<Firewall>) -> (copy: Vec<Firewall>)
    ensures
        firewall_views(copy@) == firewall_views(devices@),
{
    let mut copy: Vec<Firewall> = Vec::new();
    let mut i: usize = 0;
    while i < devices.len()
        invariant
            i <= devices.len(),
            copy.len() == i,
            forall|j: int| 0 <= j < i ==> (#[trigger] copy[j])@ == devices[j]@,
        decreases devices.len() - i,
    {
        copy.push(devices[i].clone());
        i += 1;
    }
    assert(firewall_views(copy@) =~= firewall_views(devices@));
    copy
}

/// Mathematical content of a [`DataCenterNetwork`].
pub struct DataCenterNetworkView {
    pub name: Seq<char>,
    pub network_type: NetworkType,
    pub switches: Seq<SwitchView>,
    pub routers: Seq<RouterView>,
    pub firewalls: Seq<FirewallView>,
    pub links: Seq<LinkView>,
    pub topology: NetworkTopology,
}

impl DataCenterNetworkView {
    /// The devices in node order, as the graph builder reads them.
    pub open spec fn devices(self) -> Seq<DevicePorts> {
        devices_of(self.switches, self.routers, self.firewalls)
    }

    /// The connectivity graph of the network, anomalous links left out.
    pub open spec fn graph(self) -> GraphView {
        graph_of(self.devices(), self.links)
    }

    /// The anomalies among the links, in the order of the links.
    pub open spec fn anomalies(self) -> Seq<GraphError> {
        anomalies_of(self.devices(), self.links)
    }

    /// The topology that the devices and links implement.
    pub open spec fn resolved_topology(self) -> NetworkTopology {
        topology_of(self.graph())
    }
}

/// The devices of one network plane and the links between their ports.
///
/// The network owns its links. The topology is derived from devices and
/// links whenever it is asked for; the label the network records is either
/// `Undefined` or the topology of its present devices and links.
#[derive(Debug, PartialEq, Eq)]
pub struct DataCenterNetwork {
    name: String,
    network_type: NetworkType,
    switches: Vec<Switch>,
    routers: Vec<Router>,
    firewalls: Vec<Firewall>,
    links: Vec<Link>,
    topology: NetworkTopology,
}

impl View for DataCenterNetwork {
    type V = DataCenterNetworkView;

    closed spec fn view(&self) -> DataCenterNetworkView {
        DataCenterNetworkView {
            name: self.name@,
            network_type: self.network_type,
            switches: switch_views(self.switches@),
            routers: router_views(self.routers@),
            firewalls: firewall_views(self.firewalls@),
            links: link_views(self.links@),
            topology: self.topology,
        }
    }
}

impl Clone for DataCenterNetwork {
    fn clone(&self) -> (copy: DataCenterNetwork)
        ensures
            copy@ == self@,
    {
        proof {
            use_type_invariant(self);
        }
        DataCenterNetwork {
            name: self.name.clone(),
            network_type: self.network_type,
            switches: clone_switches(&self.switches),
            routers: clone_routers(&self.routers),
            firewalls: clone_firewalls(&self.firewalls),
            links: clone_links(&self.links),
            topology: self.topology,
        }
    }
}

impl DataCenterNetwork {
    #[verifier::type_invariant]
    spec fn inv(&self) -> bool {
        self.topology == NetworkTopology::Undefined || self.topology == self@.resolved_topology()
    }

    /// A network of the given devices, without links; the recorded
    /// topology is `Undefined`.
    pub fn new(
        name: String,
        network_type: NetworkType,
        switches: Vec<Switch>,
        routers: Vec<Router>,
        firewalls: Vec<Firewall>,
    ) -> (network: DataCenterNetwork)
        ensures
            network@ == (DataCenterNetworkView {
                name: name@,
                network_type,
                switches: switch_views(switches@),
                routers: router_views(routers@),
                firewalls: firewall_views(firewalls@),
                links: Seq::empty(),
                topology: NetworkTopology::Undefined,
            }),
    {
        let network = DataCenterNetwork {
            name,
            network_type,
            switches,
            routers,
            firewalls,
            links: Vec::new(),
            topology: NetworkTopology::Undefined,
        };
        assert(link_views(network.links@) =~= Seq::empty());
        network
    }

    /// A network of the given devices and links that records a topology where
    /// `recorded` holds one. The label it records is then the topology that
    /// its devices and links implement, whatever label `recorded` holds: a
    /// network never records a label that its devices and links do not
    /// bear out.
    pub fn restore(
        name: String,
        network_type: NetworkType,
        switches: Vec<Switch>,
        routers: Vec<Router>,
        firewalls: Vec<Firewall>,
        links: Vec<Link>,
        recorded: NetworkTopology,
    ) -> (network: DataCenterNetwork)
        ensures
            network@.name == name@,
            network@.network_type == network_type,
            network@.switches == switch_views(switches@),
            network@.routers == router_views(routers@),
            network@.firewalls == firewall_views(firewalls@),
            network@.links == link_views(links@),
            network@.topology == if recorded == NetworkTopology::Undefined {
                NetworkTopology::Undefined
            } else {
                network@.resolved_topology()
            },
    {
        let mut network = DataCenterNetwork {
            name,
            network_type,
            switches,
            routers,
            firewalls,
            links,
            topology: NetworkTopology::Undefined,
        };
        if recorded != NetworkTopology::Undefined {
            let _ = network.refresh_topology();
        }
        network
    }

    /// Replaces the links of the network. The recorded topology goes back
    /// to `Undefined`.
    pub fn set_links(&mut self, links: Vec<Link>)
        ensures
            final(self)@ == (DataCenterNetworkView {
                links: link_views(links@),
                topology: NetworkTopology::Undefined,
                ..old(self)@
            }),
    {
        self.topology = NetworkTopology::Undefined;
        self.links = links;
    }

    /// Derives the topology from the present devices and links. Anomalous
    /// links are left out of the graph. Nothing is recorded or changed.
    pub fn get_topology(&self) -> (label: NetworkTopology)
        ensures
            label == self@.resolved_topology(),
            self@.switches.len() == 0 && self@.routers.len() == 0 && self@.firewalls.len() == 0
                ==> label == NetworkTopology::Undefined,
            self@.links.len() == 0 ==> label == NetworkTopology::Undefined,
            self@.graph().is_fat_tree() ==> label == NetworkTopology::FatTree,
            (exists|root: int| self@.graph().is_star(root)) && !self@.graph().is_fat_tree()
                ==> label == NetworkTopology::Tree,
    {
        proof {
            if self@.switches.len() == 0 && self@.routers.len() == 0 && self@.firewalls.len() == 0 {
                lemma_empty_network_is_undefined(self@);
            }
            if self@.links.len() == 0 {
                lemma_unlinked_network_is_undefined(self@);
            }
        }
        let (graph, _) = ConnectivityGraph::build_tolerant(
            &self.switches,
            &self.routers,
            &self.firewalls,
            &self.links,
        );
        classify(&graph)
    }

    /// Derives the topology and reports the anomalous links beside it.
    pub fn get_topology_with_anomalies(&self) -> (out: (NetworkTopology, Vec<GraphError>))
        ensures
            out.0 == self@.resolved_topology(),
            out.1@ == self@.anomalies(),
    {
        let (graph, anomalies) = ConnectivityGraph::build_tolerant(
            &self.switches,
            &self.routers,
            &self.firewalls,
            &self.links,
        );
        (classify(&graph), anomalies)
    }

    /// The connectivity graph of the network, or the first anomalous link.
    pub fn graph(&self) -> (out: Result<ConnectivityGraph, GraphError>)
        ensures
            match out {
                Ok(graph) => self@.anomalies().len() == 0 && graph@ == self@.graph(),
                Err(error) => self@.anomalies().len() > 0 && error == self@.anomalies()[0],
            },
    {
        ConnectivityGraph::build(&self.switches, &self.routers, &self.firewalls, &self.links)
    }

    /// Derives the topology and records it.
    pub fn refresh_topology(&mut self) -> (label: NetworkTopology)
        ensures
            label == old(self)@.resolved_topology(),
            final(self)@ == (DataCenterNetworkView { topology: label, ..old(self)@ }),
    {
        let label = self.get_topology();
        self.topology = label;
        label
    }

    /// The recorded topology: `Undefined`, or the topology of the present
    /// devices and links.
    pub fn topology(&self) -> (label: NetworkTopology)
        ensures
            label == self@.topology,
            label == NetworkTopology::Undefined || label == self@.resolved_topology(),
    {
        proof {
            use_type_invariant(self);
        }
        self.topology
    }

    pub fn name(&self) -> (s: &String)
        ensures
            s@ == self@.name,
    {
        &self.name
    }

    pub fn network_type(&self) -> (value: NetworkType)
        ensures
            value == self@.network_type,
    {
        self.network_type
    }

    pub fn switches(&self) -> (devices: &Vec<Switch>)
        ensures
            switch_views(devices@) == self@.switches,
    {
        &self.switches
    }

    pub fn routers(&self) -> (devices: &Vec<Router>)
        ensures
            router_views(devices@) == self@.routers,
    {
        &self.routers
    }

    pub fn firewalls(&self) -> (devices: &Vec<Firewall>)
        ensures
            firewall_views(devices@) == self@.firewalls,
    {
        &self.firewalls
    }

    pub fn links(&self) -> (links: &Vec<Link>)
        ensures
            link_views(links@) == self@.links,
    {
        &self.links
    }
}

/// Resolves the topology of a fabric of switches from the way the links
/// connect them, and reports the anomalous links beside it. A link with a
/// port that no switch lists, or with both ports on one switch, is left out
/// of the graph that is classified and stands in the report.
pub fn resolve_network_topo(switches: Vec<Switch>, links: Vec<Link>) -> (out: (
    NetworkTopology,
    Vec<GraphError>,
))
    ensures
        out.0 == topology_of(
            graph_of(
                devices_of(switch_views(switches@), Seq::empty(), Seq::empty()),
                link_views(links@),
            ),
        ),
        out.1@ == anomalies_of(
            devices_of(switch_views(switches@), Seq::empty(), Seq::empty()),
            link_views(links@),
        ),
{
    let routers: Vec<Router> = Vec::new();
    let firewalls: Vec<Firewall> = Vec::new();
    assert(router_views(routers@) =~= Seq::empty());
    assert(firewall_views(firewalls@) =~= Seq::empty());
    let (graph, anomalies) = ConnectivityGraph::build_tolerant(
        &switches,
        &routers,
        &firewalls,
        &links,
    );
    (classify(&graph), anomalies)
}

} // verus!
