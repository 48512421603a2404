//! Laws of the model: what holds of every link, graph and network.

use vstd::prelude::*;

use crate::model::graph::{
    anomalies_of, edges_of, graph_of, has_owner, is_owner, owner, resolve_link, DevicePorts, Edge,
    EdgeClass, GraphView, LinkResolution, PortRole,
};
use crate::model::network::{DataCenterNetworkView, NetworkTopology, SwitchType};
use crate::model::osi_layers::LinkView;
use crate::model::status::DeviceStatus;
use crate::model::topology::{
    count_rising, lemma_linked_symmetric, lemma_reaches_extend, lemma_reaches_itself,
    lemma_reaches_symmetric, lemma_reaches_transitive, lemma_uplink_exists, topology_of,
};

verus! {

impl GraphView {
    /// A layered fabric: three tiers of switches, all present; every access
    /// switch wires `access_uplinks` uplink ports to distribution switches,
    /// every distribution switch `distribution_uplinks` uplink ports to
    /// core switches, and there is no other edge; every distribution and
    /// core switch is wired to from the tier below, in a port of any role.
    pub open spec fn is_layered_fabric(self, access_uplinks: nat, distribution_uplinks: nat) -> bool {
        &&& self.all_switches()
        &&& self.has_switch(SwitchType::Access)
        &&& self.has_switch(SwitchType::Distribution)
        &&& self.has_switch(SwitchType::Core)
        &&& forall|k: int|
            0 <= k < self.edges.len() ==> self.rises(
                #[trigger] self.edges[k],
                SwitchType::Access,
                SwitchType::Distribution,
            ) || self.rises(self.edges[k], SwitchType::Distribution, SwitchType::Core)
        &&& access_uplinks >= 1
        &&& distribution_uplinks >= 1
        &&& forall|a: int|
            self.has_node(a) && self.is_switch(a, SwitchType::Access) ==> #[trigger] self.uplinks(a)
                == access_uplinks
        &&& forall|a: int|
            self.has_node(a) && self.is_switch(a, SwitchType::Distribution)
                ==> #[trigger] self.uplinks(a) == distribution_uplinks
        &&& forall|a: int|
            self.has_node(a) && !self.is_switch(a, SwitchType::Access)
                ==> #[trigger] self.fed_from_below(a)
    }

    /// A star of switches: at least two switches, every switch but `root`
    /// linked to `root`, as many edges as there are leaves, and every edge
    /// at `root`.
    pub open spec fn is_star(self, root: int) -> bool {
        &&& self.nodes.len() >= 2
        &&& self.has_node(root)
        &&& self.all_switches()
        &&& forall|a: int| self.has_node(a) && a != root ==> #[trigger] self.linked(a, root)
        &&& self.edges.len() == self.nodes.len() - 1
        &&& forall|k: int| 0 <= k < self.edges.len() ==> (#[trigger] self.edges[k]).touches(root)
    }
}

/// A link is up exactly when both of its ports are up: a port that is down
/// or degraded takes the link down.
pub proof fn lemma_link_up_iff_both_ports_up(link: LinkView)
    ensures
        link.is_up() <==> link.left.is_up() && link.right.is_up(),
        link.left.status != DeviceStatus::Up || link.right.status != DeviceStatus::Up
            ==> !link.is_up(),
        link.left.status == DeviceStatus::Up && link.right.status == DeviceStatus::Up
            ==> link.is_up(),
{
}

/// No link is dropped in silence: each link of a network is either an edge
/// of its graph or an entry in the list of anomalies.
pub proof fn lemma_every_link_is_accounted_for(devices: Seq<DevicePorts>, links: Seq<LinkView>)
    ensures
        edges_of(devices, links).len() + anomalies_of(devices, links).len() == links.len(),
    decreases links.len(),
{
    if links.len() > 0 {
        lemma_every_link_is_accounted_for(devices, links.drop_last());
    }
}

/// A link whose two ports are found on two different devices is an edge
/// between those devices.
pub proof fn lemma_resolved_link_joins_its_owners(devices: Seq<DevicePorts>, link: LinkView)
    requires
        devices.len() <= usize::MAX,
    ensures
        resolve_link(devices, link) matches LinkResolution::Connects(e) ==> {
            &&& is_owner(devices, link.left.serial_number, e.left as int)
            &&& is_owner(devices, link.right.serial_number, e.right as int)
            &&& graph_of(devices, Seq::empty()).edge_ok(e)
        },
{
    let l = link.left.serial_number;
    let r = link.right.serial_number;
    if has_owner(devices, l) && has_owner(devices, r) {
        assert(is_owner(devices, l, owner(devices, l)));
        assert(is_owner(devices, r, owner(devices, r)));
    }
}

/// The graph of a network is well formed: every edge joins two different
/// devices of the network, so it has neither a self-loop nor a dangling
/// end.
pub proof fn lemma_graph_is_well_formed(devices: Seq<DevicePorts>, links: Seq<LinkView>)
    requires
        devices.len() <= usize::MAX,
    ensures
        graph_of(devices, links).wf(),
    decreases links.len(),
{
    if links.len() > 0 {
        lemma_graph_is_well_formed(devices, links.drop_last());
        lemma_resolved_link_joins_its_owners(devices, links.last());
        let before = graph_of(devices, links.drop_last());
        let g = graph_of(devices, links);
        assert forall|k: int| 0 <= k < g.edges.len() implies g.edge_ok(#[trigger] g.edges[k]) by {
            if k < before.edges.len() {
                assert(before.edge_ok(before.edges[k]));
            }
        }
    }
}

/// A graph without edges matches no pattern.
pub proof fn lemma_no_edges_is_undefined(g: GraphView)
    requires
        g.edges.len() == 0,
    ensures
        topology_of(g) == NetworkTopology::Undefined,
{
    if g.is_fat_tree() {
        let a = choose|a: int| g.has_node(a) && #[trigger] g.is_switch(a, SwitchType::Access);
        assert(g.uplinks(a) >= 1);
    }
    lemma_no_edges_no_clos(g, SwitchType::Access, SwitchType::Distribution);
    lemma_no_edges_no_clos(g, SwitchType::Access, SwitchType::Core);
    lemma_no_edges_no_clos(g, SwitchType::Distribution, SwitchType::Core);
    if g.has_groups() {
        let (a, b) = choose|a: int, b: int|
            g.has_node(a) && g.has_node(b) && !#[trigger] g.same_cell(a, b);
        assert(g.has_peer(a));
    }
}

proof fn lemma_no_edges_no_clos(g: GraphView, lo: SwitchType, hi: SwitchType)
    requires
        g.edges.len() == 0,
    ensures
        !g.is_clos(lo, hi),
{
    if g.is_clos(lo, hi) {
        let (a, a2) = choose|a: int, b: int|
            a != b && g.has_node(a) && g.has_node(b) && #[trigger] g.is_switch(a, lo)
                && #[trigger] g.is_switch(b, lo);
        let (b, b2) = choose|a: int, b: int|
            a != b && g.has_node(a) && g.has_node(b) && #[trigger] g.is_switch(a, hi)
                && #[trigger] g.is_switch(b, hi);
        assert(g.linked(a, b));
    }
}

/// Without devices no link gives an edge.
pub proof fn lemma_no_devices_no_edges(devices: Seq<DevicePorts>, links: Seq<LinkView>)
    requires
        devices.len() == 0,
    ensures
        edges_of(devices, links).len() == 0,
    decreases links.len(),
{
    if links.len() > 0 {
        lemma_no_devices_no_edges(devices, links.drop_last());
        assert(!has_owner(devices, links.last().left.serial_number));
    }
}

/// A network without devices is `Undefined`, whatever links it declares.
pub proof fn lemma_empty_network_is_undefined(network: DataCenterNetworkView)
    requires
        network.switches.len() == 0,
        network.routers.len() == 0,
        network.firewalls.len() == 0,
    ensures
        network.resolved_topology() == NetworkTopology::Undefined,
{
    lemma_no_devices_no_edges(network.devices(), network.links);
    lemma_no_edges_is_undefined(network.graph());
}

/// A network without links is `Undefined`, whatever devices it holds.
pub proof fn lemma_unlinked_network_is_undefined(network: DataCenterNetworkView)
    requires
        network.links.len() == 0,
    ensures
        network.resolved_topology() == NetworkTopology::Undefined,
{
    lemma_no_edges_is_undefined(network.graph());
}

/// The topology of a network depends on its devices and links alone:
/// asking twice, or asking after the recorded label has changed, gives the
/// same label.
pub proof fn lemma_topology_depends_on_devices_and_links(
    first: DataCenterNetworkView,
    second: DataCenterNetworkView,
)
    requires
        first.switches == second.switches,
        first.routers == second.routers,
        first.firewalls == second.firewalls,
        first.links == second.links,
    ensures
        first.resolved_topology() == second.resolved_topology(),
{
}

/// A layered fabric has the conditions of the fat tree.
pub proof fn lemma_layered_fabric_is_fat_tree(
    g: GraphView,
    access_uplinks: nat,
    distribution_uplinks: nat,
)
    requires
        g.is_layered_fabric(access_uplinks, distribution_uplinks),
    ensures
        g.is_fat_tree(),
        topology_of(g) == NetworkTopology::FatTree,
{
    assert forall|a: int|
        g.has_node(a) && !g.is_switch(a, SwitchType::Core) implies #[trigger] g.uplinks(a)
        >= 1 by {
        assert(g.nodes[a] is Switch);
        assert(g.is_switch(a, SwitchType::Access) || g.is_switch(a, SwitchType::Distribution));
    }
}

/// The fat tree is tried before the tree: a graph that has the conditions
/// of both is a fat tree.
pub proof fn lemma_fat_tree_before_tree(g: GraphView)
    requires
        g.is_fat_tree(),
        g.is_tree(),
    ensures
        topology_of(g) == NetworkTopology::FatTree,
{
}

/// The smallest fat tree is a chain of an access, a distribution and a core
/// switch, each link leaving the lower switch through an uplink port and
/// ending above in a port of any role. The chain has the conditions of the
/// tree as well, and is a fat tree all the same.
pub proof fn lemma_minimal_chain_is_fat_tree(g: GraphView, lower_port: PortRole, upper_port: PortRole)
    requires
        g.nodes.len() == 3,
        g.is_switch(0, SwitchType::Access),
        g.is_switch(1, SwitchType::Distribution),
        g.is_switch(2, SwitchType::Core),
        g.edges == seq![
            (Edge { left: 0, left_role: PortRole::Uplink, right: 1, right_role: lower_port }),
            (Edge { left: 1, left_role: PortRole::Uplink, right: 2, right_role: upper_port }),
        ],
    ensures
        g.is_fat_tree(),
        g.is_tree(),
        topology_of(g) == NetworkTopology::FatTree,
{
    let lower = g.edges[0];
    let upper = g.edges[1];
    assert(g.edges.drop_last() =~= seq![lower]);
    assert(seq![lower].drop_last() =~= Seq::<Edge>::empty());
    assert forall|a: int|
        #[trigger] count_rising(g, g.edges, a) == (if g.rises_from(lower, a) {
            1nat
        } else {
            0nat
        }) + (if g.rises_from(upper, a) {
            1nat
        } else {
            0nat
        }) by {
        reveal_with_fuel(count_rising, 3);
    }
    assert(g.is_switch(0, SwitchType::Access) && g.has_node(0));
    assert(g.is_switch(1, SwitchType::Distribution) && g.has_node(1));
    assert(g.is_switch(2, SwitchType::Core) && g.has_node(2));
    assert(g.rises(lower, SwitchType::Access, SwitchType::Distribution));
    assert(g.rises(upper, SwitchType::Distribution, SwitchType::Core));
    assert(g.rises_from(lower, 0) && !g.rises_from(upper, 0));
    assert(g.rises_from(upper, 1) && !g.rises_from(lower, 1));
    assert(g.uplinks(0) == 1);
    assert(g.uplinks(1) == 1);
    assert(g.rises_into(lower, 1));
    assert(g.rises_into(upper, 2));
    assert(g.fed_from_below(1));
    assert(g.fed_from_below(2));
    assert(g.is_fat_tree());
    assert(lower.joins(0, 1) && lower.passes(None));
    assert(upper.joins(1, 2) && upper.passes(None));
    assert(g.linked(0, 1));
    assert(g.linked(1, 2));
    lemma_reaches_itself(g, 0);
    lemma_reaches_itself(g, 1);
    lemma_reaches_itself(g, 2);
    lemma_reaches_extend(g, 0, 0, 1);
    lemma_reaches_extend(g, 1, 1, 2);
    lemma_reaches_transitive(g, 0, 1, 2);
    lemma_reaches_symmetric(g, 0, 1);
    lemma_reaches_symmetric(g, 1, 2);
    lemma_reaches_symmetric(g, 0, 2);
}

proof fn lemma_star_no_clos(g: GraphView, root: int, lo: SwitchType, hi: SwitchType)
    requires
        g.is_star(root),
        lo != hi,
    ensures
        !g.is_clos(lo, hi),
{
    if g.is_clos(lo, hi) {
        let (a1, a2) = choose|a: int, b: int|
            a != b && g.has_node(a) && g.has_node(b) && #[trigger] g.is_switch(a, lo)
                && #[trigger] g.is_switch(b, lo);
        let (b1, b2) = choose|a: int, b: int|
            a != b && g.has_node(a) && g.has_node(b) && #[trigger] g.is_switch(a, hi)
                && #[trigger] g.is_switch(b, hi);
        assert(g.linked(a1, b1) && g.linked(a2, b2) && g.linked(a1, b2) && g.linked(a2, b1));
        lemma_star_link_at_root(g, root, a1, b1, None);
        lemma_star_link_at_root(g, root, a2, b2, None);
        lemma_star_link_at_root(g, root, a1, b2, None);
        lemma_star_link_at_root(g, root, a2, b1, None);
    }
}

/// In a star, one end of every link is the root.
proof fn lemma_star_link_at_root(
    g: GraphView,
    root: int,
    a: int,
    b: int,
    filter: Option<EdgeClass>,
)
    requires
        g.is_star(root),
        g.linked_in(a, b, filter),
    ensures
        a == root || b == root,
{
    let k = choose|k: int|
        0 <= k < g.edges.len() && (#[trigger] g.edges[k]).joins(a, b) && g.edges[k].passes(filter);
    assert(g.edges[k].touches(root));
}

/// A star of switches is a tree, unless it has the conditions of the fat
/// tree: a distribution switch at the root, with access and core switches
/// around it, is tried as a fat tree first.
pub proof fn lemma_star_is_tree(g: GraphView, root: int)
    requires
        g.wf(),
        g.is_star(root),
        !g.is_fat_tree(),
    ensures
        g.is_tree(),
        topology_of(g) == NetworkTopology::Tree,
{
    lemma_star_no_clos(g, root, SwitchType::Access, SwitchType::Distribution);
    lemma_star_no_clos(g, root, SwitchType::Access, SwitchType::Core);
    lemma_star_no_clos(g, root, SwitchType::Distribution, SwitchType::Core);
    if g.has_groups() {
        let (a, b) = choose|a: int, b: int|
            g.has_node(a) && g.has_node(b) && !#[trigger] g.same_cell(a, b);
        assert(g.has_peer(a));
        assert(g.has_peer(b));
        let pa = choose|p: int| #[trigger] g.linked_by(a, p, EdgeClass::Local);
        let pb = choose|p: int| #[trigger] g.linked_by(b, p, EdgeClass::Local);
        lemma_star_link_at_root(g, root, a, pa, Some(EdgeClass::Local));
        lemma_star_link_at_root(g, root, b, pb, Some(EdgeClass::Local));
        lemma_linked_symmetric(g, b, pb, Some(EdgeClass::Local));
        lemma_linked_symmetric(g, a, pa, Some(EdgeClass::Local));
        if a != root && b != root {
            assert(g.linked_by(a, root, EdgeClass::Local));
            assert(g.linked_by(root, b, EdgeClass::Local));
        }
        assert(false);
    }
    if g.is_dcell() {
        let k = choose|k: int|
            0 <= k < g.edges.len() && (#[trigger] g.edges[k]).spec_class() == EdgeClass::Rising;
        let e = g.edges[k];
        assert(g.edge_ok(e));
        assert(e.touches(root));
        let leaf = if e.left == root {
            e.right as int
        } else {
            e.left as int
        };
        assert(g.has_peer(leaf));
        let p = choose|p: int| #[trigger] g.linked_by(leaf, p, EdgeClass::Local);
        lemma_star_link_at_root(g, root, leaf, p, Some(EdgeClass::Local));
        lemma_linked_symmetric(g, leaf, root, Some(EdgeClass::Local));
        assert(g.same_cell(e.left as int, e.right as int));
        assert(false);
    }
    assert forall|a: int, b: int| g.has_node(a) && g.has_node(b) implies #[trigger] g.reaches(
        a,
        b,
    ) by {
        lemma_star_reaches_root(g, root, a);
        lemma_star_reaches_root(g, root, b);
        lemma_reaches_symmetric(g, b, root);
        lemma_reaches_transitive(g, a, root, b);
    }
}

/// A star is a fat tree only around a distribution switch: a star of
/// switches whose root is an access or a core switch is a tree.
pub proof fn lemma_star_around_access_or_core_is_tree(g: GraphView, root: int)
    requires
        g.wf(),
        g.is_star(root),
        !g.is_switch(root, SwitchType::Distribution),
    ensures
        !g.is_fat_tree(),
        topology_of(g) == NetworkTopology::Tree,
{
    if g.is_fat_tree() {
        let d = choose|d: int| g.has_node(d) && #[trigger] g.is_switch(d, SwitchType::Distribution);
        assert(g.uplinks(d) >= 1);
        assert(g.fed_from_below(d));
        lemma_uplink_exists(g, g.edges, d);
        let up = choose|k: int| 0 <= k < g.edges.len() && g.rises_from(#[trigger] g.edges[k], d);
        let down = choose|k: int| 0 <= k < g.edges.len() && g.rises_into(#[trigger] g.edges[k], d);
        assert(g.edges[up].touches(root));
        assert(g.edges[down].touches(root));
        assert(g.edge_ok(g.edges[up]));
        assert(g.edge_ok(g.edges[down]));
        assert(g.is_switch(root, SwitchType::Core));
        assert(g.is_switch(root, SwitchType::Access));
    }
    lemma_star_is_tree(g, root);
}

proof fn lemma_star_reaches_root(g: GraphView, root: int, a: int)
    requires
        g.is_star(root),
        g.has_node(a),
    ensures
        g.reaches(a, root),
{
    lemma_reaches_itself(g, a);
    if a != root {
        lemma_reaches_extend(g, a, a, root);
    }
}

} // verus!
