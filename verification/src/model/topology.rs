//! Classification of a connectivity graph.
//!
//! Each canonical topology is described by the conditions a graph must meet
//! to pass for it. The patterns are tried in a fixed order, the most specific
//! first, and the first one whose conditions hold gives the label. A graph
//! that meets none of them is `Undefined`.
//!
//! Portland and Hedera are control planes on a fat tree, and OSA, c-Through
//! and Helios are told by their ability to reconfigure at run time: neither
//! shows in the connectivity, so none of these labels is ever given. BCube,
//! MDCube and FiConn wire servers into the fabric, and servers are not part
//! of the graph: a recursive fabric of switches is a DCell.

use vstd::prelude::*;

use crate::model::graph::{
    is_adjacency, ConnectivityGraph, Edge, EdgeClass, GraphView, NodeKind, PortRole,
};
use crate::model::laws::{lemma_no_edges_is_undefined, lemma_star_is_tree};
use crate::model::network::{NetworkTopology, SwitchType};

verus! {

impl GraphView {
    /// Node `a` is a switch of the given tier.
    pub open spec fn is_switch(self, a: int, role: SwitchType) -> bool {
        self.nodes[a] matches NodeKind::Switch { role: r, .. } && r == role
    }

    pub open spec fn all_switches(self) -> bool {
        forall|a: int| self.has_node(a) ==> (#[trigger] self.nodes[a]) is Switch
    }

    pub open spec fn has_switch(self, role: SwitchType) -> bool {
        exists|a: int| self.has_node(a) && #[trigger] self.is_switch(a, role)
    }

    pub open spec fn has_two_switches(self, role: SwitchType) -> bool {
        exists|a: int, b: int|
            a != b && self.has_node(a) && self.has_node(b) && #[trigger] self.is_switch(a, role)
                && #[trigger] self.is_switch(b, role)
    }

    /// The edge leaves a switch of tier `lo` through an uplink port and
    /// ends at a switch of tier `hi`, in a port of any role.
    pub open spec fn rises(self, e: Edge, lo: SwitchType, hi: SwitchType) -> bool {
        ||| (self.is_switch(e.left as int, lo) && e.left_role == PortRole::Uplink
            && self.is_switch(e.right as int, hi))
        ||| (self.is_switch(e.right as int, lo) && e.right_role == PortRole::Uplink
            && self.is_switch(e.left as int, hi))
    }

    /// `b` is a switch of the tier next above that of the switch `a`.
    pub open spec fn next_above(self, a: int, b: int) -> bool {
        ||| (self.is_switch(a, SwitchType::Access) && self.is_switch(b, SwitchType::Distribution))
        ||| (self.is_switch(a, SwitchType::Distribution) && self.is_switch(b, SwitchType::Core))
    }

    /// The edge is an uplink of node `a`: it leaves `a` through an uplink
    /// port and ends at a switch of the next tier above.
    pub open spec fn rises_from(self, e: Edge, a: int) -> bool {
        ||| (e.left == a && e.left_role == PortRole::Uplink && self.next_above(a, e.right as int))
        ||| (e.right == a && e.right_role == PortRole::Uplink && self.next_above(a, e.left as int))
    }

    /// The edge ends at node `a` and is an uplink of its other end.
    pub open spec fn rises_into(self, e: Edge, a: int) -> bool {
        ||| (e.left == a && self.rises_from(e, e.right as int))
        ||| (e.right == a && self.rises_from(e, e.left as int))
    }

    /// The number of uplinks of node `a`.
    pub open spec fn uplinks(self, a: int) -> nat {
        count_rising(self, self.edges, a)
    }

    /// Node `a` is linked to from the tier below: it is the upper end of an
    /// uplink.
    pub open spec fn fed_from_below(self, a: int) -> bool {
        exists|k: int| 0 <= k < self.edges.len() && self.rises_into(#[trigger] self.edges[k], a)
    }

    /// All switches of one tier have the same number of uplinks.
    pub open spec fn uniform_uplinks(self, role: SwitchType) -> bool {
        forall|a: int, b: int|
            self.has_node(a) && self.has_node(b) && self.is_switch(a, role) && self.is_switch(
                b,
                role,
            ) ==> #[trigger] self.uplinks(a) == #[trigger] self.uplinks(b)
    }

    /// The fat tree: three tiers of switches, all present; every edge is an
    /// uplink from an access to a distribution switch or from a
    /// distribution to a core switch, whatever port it ends in above;
    /// within a tier every switch has the same number of uplinks; every
    /// switch below the core has an uplink and every switch above the
    /// access tier is linked to from the tier below.
    pub open spec fn is_fat_tree(self) -> bool {
        &&& self.all_switches()
        &&& self.has_switch(SwitchType::Access)
        &&& self.has_switch(SwitchType::Distribution)
        &&& self.has_switch(SwitchType::Core)
        &&& forall|k: int|
            0 <= k < self.edges.len() ==> self.rises(
                #[trigger] self.edges[k],
                SwitchType::Access,
                SwitchType::Distribution,
            ) || self.rises(self.edges[k], SwitchType::Distribution, SwitchType::Core)
        &&& self.uniform_uplinks(SwitchType::Access)
        &&& self.uniform_uplinks(SwitchType::Distribution)
        &&& forall|a: int|
            self.has_node(a) && !self.is_switch(a, SwitchType::Core) ==> #[trigger] self.uplinks(a)
                >= 1
        &&& forall|a: int|
            self.has_node(a) && !self.is_switch(a, SwitchType::Access)
                ==> #[trigger] self.fed_from_below(a)
    }
}

/// The number of edges among `edges` that are uplinks of node `a` in the
/// graph `g`.
pub open spec fn count_rising(g: GraphView, edges: Seq<Edge>, a: int) -> nat
    decreases edges.len(),
{
    if edges.len() == 0 {
        0
    } else {
        count_rising(g, edges.drop_last(), a) + if g.rises_from(edges.last(), a) {
            1nat
        } else {
            0nat
        }
    }
}

proof fn lemma_count_rising_push(g: GraphView, edges: Seq<Edge>, e: Edge, a: int)
    ensures
        count_rising(g, edges.push(e), a) == count_rising(g, edges, a) + if g.rises_from(e, a) {
            1nat
        } else {
            0nat
        },
{
    assert(edges.push(e).drop_last() =~= edges);
}

proof fn lemma_count_rising_bound(g: GraphView, edges: Seq<Edge>, a: int)
    ensures
        count_rising(g, edges, a) <= edges.len(),
    decreases edges.len(),
{
    if edges.len() > 0 {
        lemma_count_rising_bound(g, edges.drop_last(), a);
    }
}

/// A node that has an uplink is the lower end of some edge.
pub proof fn lemma_uplink_exists(g: GraphView, edges: Seq<Edge>, a: int)
    requires
        count_rising(g, edges, a) >= 1,
    ensures
        exists|k: int| 0 <= k < edges.len() && g.rises_from(#[trigger] edges[k], a),
    decreases edges.len(),
{
    if edges.len() > 0 {
        if g.rises_from(edges.last(), a) {
            assert(g.rises_from(edges[edges.len() - 1], a));
        } else {
            lemma_uplink_exists(g, edges.drop_last(), a);
            let k = choose|k: int|
                0 <= k < edges.drop_last().len() && g.rises_from(#[trigger] edges.drop_last()[k], a);
            assert(g.rises_from(edges[k], a));
        }
    }
}

impl GraphView {
    /// A two-tier Clos: every node is a switch of tier `lo` or of tier
    /// `hi`, each tier has at least two switches, every edge leaves a
    /// switch of `lo` through an uplink port for a switch of `hi`, and
    /// every switch of `lo` is linked to every switch of `hi`. How many
    /// uplinks a switch has is left open.
    pub open spec fn is_clos(self, lo: SwitchType, hi: SwitchType) -> bool {
        &&& forall|a: int|
            self.has_node(a) ==> #[trigger] self.is_switch(a, lo) || self.is_switch(a, hi)
        &&& self.has_two_switches(lo)
        &&& self.has_two_switches(hi)
        &&& forall|k: int| 0 <= k < self.edges.len() ==> self.rises(#[trigger] self.edges[k], lo, hi)
        &&& forall|a: int, b: int|
            self.has_node(a) && self.has_node(b) && self.is_switch(a, lo) && self.is_switch(b, hi)
                ==> #[trigger] self.linked(a, b)
    }

    /// VL2: a two-tier Clos on two of the three switch tiers.
    pub open spec fn is_vl2(self) -> bool {
        ||| self.is_clos(SwitchType::Access, SwitchType::Distribution)
        ||| self.is_clos(SwitchType::Access, SwitchType::Core)
        ||| self.is_clos(SwitchType::Distribution, SwitchType::Core)
    }
}

impl GraphView {
    /// `a` and `b` are in one cell: they are the same node, or a local
    /// link runs between them.
    pub open spec fn same_cell(self, a: int, b: int) -> bool {
        a == b || self.linked_by(a, b, EdgeClass::Local)
    }

    /// Every cell is fully connected inside: two nodes with a local link
    /// to a common third have a local link to each other.
    pub open spec fn cells_complete(self) -> bool {
        forall|a: int, b: int, c: int|
            a != c && #[trigger] self.linked_by(a, b, EdgeClass::Local) && #[trigger] self.linked_by(
                b,
                c,
                EdgeClass::Local,
            ) ==> self.linked_by(a, c, EdgeClass::Local)
    }

    /// Node `a` has a local link to another node.
    pub open spec fn has_peer(self, a: int) -> bool {
        exists|b: int| #[trigger] self.linked_by(a, b, EdgeClass::Local)
    }

    /// The local links part the nodes into fully connected cells of at
    /// least two nodes each.
    pub open spec fn has_cells(self) -> bool {
        &&& self.cells_complete()
        &&& forall|a: int| self.has_node(a) ==> #[trigger] self.has_peer(a)
    }
}

impl GraphView {
    /// No edge is of the given class.
    pub open spec fn without(self, class: EdgeClass) -> bool {
        forall|k: int| 0 <= k < self.edges.len() ==> (#[trigger] self.edges[k]).spec_class() != class
    }

    /// Some edge is of the given class.
    pub open spec fn with_some(self, class: EdgeClass) -> bool {
        exists|k: int| 0 <= k < self.edges.len() && (#[trigger] self.edges[k]).spec_class() == class
    }

    /// Every edge of the given class runs between two different cells.
    pub open spec fn crossing(self, class: EdgeClass) -> bool {
        forall|k: int|
            0 <= k < self.edges.len() && (#[trigger] self.edges[k]).spec_class() == class
                ==> !self.same_cell(self.edges[k].left as int, self.edges[k].right as int)
    }

    /// There are at least two cells.
    pub open spec fn several_cells(self) -> bool {
        exists|a: int, b: int| self.has_node(a) && self.has_node(b) && !#[trigger] self.same_cell(a, b)
    }

    pub open spec fn no_firewalls(self) -> bool {
        forall|a: int| self.has_node(a) ==> !((#[trigger] self.nodes[a]) is Firewall)
    }

    /// Groups of fully interconnected switches and routers: local links
    /// form at least two complete groups of two or more devices, every
    /// other link is a global link between two groups, and no firewall
    /// takes part.
    pub open spec fn has_groups(self) -> bool {
        &&& self.no_firewalls()
        &&& self.without(EdgeClass::Rising)
        &&& self.has_cells()
        &&& self.several_cells()
        &&& self.crossing(EdgeClass::Global)
    }

    /// The edge runs between the cell of `a` and the cell of `b`.
    pub open spec fn bridges(self, e: Edge, a: int, b: int) -> bool {
        ||| (self.same_cell(e.left as int, a) && self.same_cell(e.right as int, b))
        ||| (self.same_cell(e.right as int, a) && self.same_cell(e.left as int, b))
    }

    /// A global link runs between the group of `a` and the group of `b`.
    pub open spec fn groups_linked(self, a: int, b: int) -> bool {
        exists|k: int|
            0 <= k < self.edges.len() && (#[trigger] self.edges[k]).spec_class()
                == EdgeClass::Global && self.bridges(self.edges[k], a, b)
    }

    /// Every two groups have a global link between them.
    pub open spec fn all_groups_linked(self) -> bool {
        forall|a: int, b: int|
            self.has_node(a) && self.has_node(b) && !self.same_cell(a, b)
                ==> #[trigger] self.groups_linked(a, b)
    }

    /// The groups of `a` and `b` both have a global link to one third group.
    pub open spec fn groups_bridged(self, a: int, b: int) -> bool {
        exists|c: int|
            self.has_node(c) && #[trigger] self.groups_linked(a, c) && #[trigger] self.groups_linked(
                c,
                b,
            )
    }

    /// Every two groups are at most two global links apart.
    pub open spec fn groups_near(self) -> bool {
        forall|a: int, b: int|
            self.has_node(a) && self.has_node(b) && !self.same_cell(a, b)
                ==> #[trigger] self.groups_linked(a, b) || self.groups_bridged(a, b)
    }

    /// The cell of `a` holds a switch of the given tier.
    pub open spec fn cell_has_switch(self, a: int, role: SwitchType) -> bool {
        exists|b: int| self.has_node(b) && self.same_cell(a, b) && #[trigger] self.is_switch(b, role)
    }

    /// A spine switch is a switch above the access tier.
    pub open spec fn is_spine(self, a: int) -> bool {
        self.is_switch(a, SwitchType::Distribution) || self.is_switch(a, SwitchType::Core)
    }

    /// The cell of `a` holds a leaf, which is an access switch, and a spine.
    pub open spec fn cell_has_leaf_and_spine(self, a: int) -> bool {
        &&& self.cell_has_switch(a, SwitchType::Access)
        &&& self.cell_has_switch(a, SwitchType::Distribution) || self.cell_has_switch(
            a,
            SwitchType::Core,
        )
    }

    /// Every device is a switch, every group holds a leaf and a spine, and
    /// global links run from spine to spine.
    pub open spec fn leaf_spine(self) -> bool {
        &&& self.all_switches()
        &&& forall|a: int| self.has_node(a) ==> #[trigger] self.cell_has_leaf_and_spine(a)
        &&& forall|k: int|
            0 <= k < self.edges.len() && (#[trigger] self.edges[k]).spec_class()
                == EdgeClass::Global ==> self.is_spine(self.edges[k].left as int) && self.is_spine(
                self.edges[k].right as int,
            )
    }

    /// DragonFly+: groups with a global link between every two of them,
    /// each split into leaf and spine switches.
    pub open spec fn is_dragonfly_plus(self) -> bool {
        self.has_groups() && self.all_groups_linked() && self.leaf_spine()
    }

    /// DragonFly: groups with a global link between every two of them.
    pub open spec fn is_dragonfly(self) -> bool {
        self.has_groups() && self.all_groups_linked()
    }

    /// Slingshot: groups joined as in a flattened butterfly, where not
    /// every two groups have a link between them, but every two are at
    /// most two links apart.
    pub open spec fn is_slingshot(self) -> bool {
        self.has_groups() && !self.all_groups_linked() && self.groups_near()
    }

    /// The label of the DragonFly family that the graph passes for, the
    /// most specific first.
    pub open spec fn dragonfly_label(self) -> Option<NetworkTopology> {
        if self.is_dragonfly_plus() {
            Some(NetworkTopology::DragonFlyPlus)
        } else if self.is_dragonfly() {
            Some(NetworkTopology::DragonFly)
        } else if self.is_slingshot() {
            Some(NetworkTopology::Slingshot)
        } else {
            None
        }
    }
}

impl GraphView {
    /// No two rising links leave the same cell: a cell wires upward
    /// through at most one port.
    pub open spec fn one_uplink_per_cell(self) -> bool {
        forall|j: int, k: int|
            0 <= j < self.edges.len() && 0 <= k < self.edges.len() && j != k && (
            #[trigger] self.edges[j]).spec_class() == EdgeClass::Rising && (
            #[trigger] self.edges[k]).spec_class() == EdgeClass::Rising ==> !self.same_cell(
                self.edges[j].low_end(),
                self.edges[k].low_end(),
            )
    }

    /// DCell: a recursive fabric of switches. Local links form complete
    /// cells of two or more switches; every other link rises from one cell
    /// into another, there is at least one such link, and no cell has more
    /// than one.
    pub open spec fn is_dcell(self) -> bool {
        &&& self.all_switches()
        &&& self.without(EdgeClass::Global)
        &&& self.with_some(EdgeClass::Rising)
        &&& self.has_cells()
        &&& self.crossing(EdgeClass::Rising)
        &&& self.one_uplink_per_cell()
    }
}

impl GraphView {
    /// `path` is a walk: a sequence of nodes in which each is linked to
    /// the next.
    pub open spec fn is_walk(self, path: Seq<int>) -> bool {
        &&& path.len() >= 1
        &&& forall|i: int| 0 <= i < path.len() ==> self.has_node(#[trigger] path[i])
        &&& forall|i: int| 0 <= i < path.len() - 1 ==> self.linked(#[trigger] path[i], path[i + 1])
    }

    /// A walk leads from `a` to `b`.
    pub open spec fn reaches(self, a: int, b: int) -> bool {
        exists|path: Seq<int>| #[trigger] self.is_walk(path) && path[0] == a && path.last() == b
    }

    /// A walk leads from every node to every other.
    pub open spec fn connected(self) -> bool {
        forall|a: int, b: int| self.has_node(a) && self.has_node(b) ==> #[trigger] self.reaches(a, b)
    }

    /// Tree: at least two nodes, connected, with one edge less than there
    /// are nodes. Such a graph has no cycle, so every choice of a root
    /// gives a rooted tree without links between siblings.
    pub open spec fn is_tree(self) -> bool {
        &&& self.nodes.len() >= 2
        &&& self.edges.len() == self.nodes.len() - 1
        &&& self.connected()
    }
}

/// The label of a connectivity graph: that of the first pattern, in the
/// order fat tree, VL2, DragonFly family, DCell, tree, whose conditions the
/// graph meets, and `Undefined` where it meets none.
pub open spec fn topology_of(g: GraphView) -> NetworkTopology {
    if g.is_fat_tree() {
        NetworkTopology::FatTree
    } else if g.is_vl2() {
        NetworkTopology::VL2
    } else if let Some(label) = g.dragonfly_label() {
        label
    } else if g.is_dcell() {
        NetworkTopology::DCell
    } else if g.is_tree() {
        NetworkTopology::Tree
    } else {
        NetworkTopology::Undefined
    }
}

/// The number of entries that are false.
spec fn count_false(s: Seq<bool>) -> nat
    decreases s.len(),
{
    if s.len() == 0 {
        0
    } else {
        count_false(s.drop_last()) + if s.last() {
            0nat
        } else {
            1nat
        }
    }
}

proof fn lemma_count_false_update(s: Seq<bool>, i: int)
    requires
        0 <= i < s.len(),
        !s[i],
    ensures
        count_false(s.update(i, true)) + 1 == count_false(s),
    decreases s.len(),
{
    if i == s.len() - 1 {
        assert(s.update(i, true).drop_last() =~= s.drop_last());
    } else {
        lemma_count_false_update(s.drop_last(), i);
        assert(s.update(i, true).drop_last() =~= s.drop_last().update(i, true));
    }
}

/// A node reaches itself.
pub proof fn lemma_reaches_itself(g: GraphView, a: int)
    requires
        g.has_node(a),
    ensures
        g.reaches(a, a),
{
    let path = seq![a];
    assert(g.is_walk(path));
    assert(path[0] == a && path.last() == a);
}

/// A walk goes on along a link.
pub proof fn lemma_reaches_extend(g: GraphView, a: int, b: int, c: int)
    requires
        g.reaches(a, b),
        g.linked(b, c),
        g.has_node(c),
    ensures
        g.reaches(a, c),
{
    let path = choose|path: Seq<int>| #[trigger] g.is_walk(path) && path[0] == a && path.last() == b;
    let longer = path.push(c);
    assert forall|i: int| 0 <= i < longer.len() - 1 implies g.linked(
        #[trigger] longer[i],
        longer[i + 1],
    ) by {
        if i < path.len() - 1 {
            assert(g.linked(path[i], path[i + 1]));
        }
    }
    assert(g.is_walk(longer));
    assert(longer[0] == a && longer.last() == c);
}

/// Walks can be walked backwards.
pub proof fn lemma_reaches_symmetric(g: GraphView, a: int, b: int)
    requires
        g.reaches(a, b),
    ensures
        g.reaches(b, a),
{
    let path = choose|path: Seq<int>| #[trigger] g.is_walk(path) && path[0] == a && path.last() == b;
    let n = path.len() as int;
    let back = Seq::new(path.len(), |i: int| path[n - 1 - i]);
    assert forall|i: int| 0 <= i < back.len() - 1 implies g.linked(#[trigger] back[i], back[i + 1]) by {
        let j = n - 2 - i;
        assert(g.linked(path[j], path[j + 1]));
        lemma_linked_symmetric(g, path[j], path[j + 1], None);
    }
    assert(g.is_walk(back));
    assert(back[0] == b && back.last() == a);
}

/// Two walks that meet make one.
pub proof fn lemma_reaches_transitive(g: GraphView, a: int, b: int, c: int)
    requires
        g.reaches(a, b),
        g.reaches(b, c),
    ensures
        g.reaches(a, c),
{
    let first = choose|path: Seq<int>| #[trigger] g.is_walk(path) && path[0] == a && path.last() == b;
    let second = choose|path: Seq<int>| #[trigger] g.is_walk(path) && path[0] == b && path.last() == c;
    let whole = first + second.subrange(1, second.len() as int);
    assert forall|i: int| 0 <= i < whole.len() - 1 implies g.linked(#[trigger] whole[i], whole[i + 1]) by {
        if i < first.len() - 1 {
            assert(g.linked(first[i], first[i + 1]));
        } else {
            let j = i - first.len() + 1;
            assert(g.linked(second[j], second[j + 1]));
        }
    }
    assert forall|i: int| 0 <= i < whole.len() implies g.has_node(#[trigger] whole[i]) by {
        if i >= first.len() {
            assert(g.has_node(second[i - first.len() + 1]));
        }
    }
    assert(g.is_walk(whole));
    assert(whole[0] == a && whole.last() == c);
}

/// Where marks are the same at both ends of every edge, a walk that
/// starts at a marked node stays on marked nodes.
proof fn lemma_marks_closed(g: GraphView, marks: Seq<bool>, path: Seq<int>, i: int)
    requires
        g.is_walk(path),
        marks.len() == g.nodes.len(),
        g.wf(),
        marks[path[0]],
        forall|k: int|
            0 <= k < g.edges.len() ==> marks[(#[trigger] g.edges[k]).left as int]
                == marks[g.edges[k].right as int],
        0 <= i < path.len(),
    ensures
        marks[path[i]],
    decreases i,
{
    if i > 0 {
        lemma_marks_closed(g, marks, path, i - 1);
        assert(g.linked(path[i - 1], path[i - 1 + 1]));
        let k = choose|k: int|
            0 <= k < g.edges.len() && (#[trigger] g.edges[k]).joins(path[i - 1], path[i])
                && g.edges[k].passes(None);
        assert(marks[g.edges[k].left as int] == marks[g.edges[k].right as int]);
    }
}

/// `rep` names a member of each node's cell, the same for all nodes of a
/// cell and another for each cell.
spec fn is_cell_map(rep: Seq<usize>, g: GraphView) -> bool {
    &&& rep.len() == g.nodes.len()
    &&& forall|a: int| 0 <= a < rep.len() ==> #[trigger] rep[a] < rep.len()
    &&& forall|a: int, b: int|
        0 <= a < rep.len() && 0 <= b < rep.len() ==> (#[trigger] rep[a] == #[trigger] rep[b])
            == g.same_cell(a, b)
}

/// `rep` names, for each node below `upto`, the least node of its cell.
spec fn is_least_member(rep: Seq<usize>, g: GraphView, upto: int) -> bool {
    forall|a: int|
        0 <= a < upto ==> {
            &&& #[trigger] rep[a] <= a
            &&& g.same_cell(a, rep[a] as int)
            &&& forall|b: int| 0 <= b < rep[a] ==> !#[trigger] g.same_cell(a, b)
        }
}

/// Links run both ways.
pub proof fn lemma_linked_symmetric(g: GraphView, a: int, b: int, filter: Option<EdgeClass>)
    ensures
        g.linked_in(a, b, filter) == g.linked_in(b, a, filter),
{
    if g.linked_in(a, b, filter) {
        let k = choose|k: int|
            0 <= k < g.edges.len() && (#[trigger] g.edges[k]).joins(a, b) && g.edges[k].passes(
                filter,
            );
        assert(g.edges[k].joins(b, a));
    }
    if g.linked_in(b, a, filter) {
        let k = choose|k: int|
            0 <= k < g.edges.len() && (#[trigger] g.edges[k]).joins(b, a) && g.edges[k].passes(
                filter,
            );
        assert(g.edges[k].joins(a, b));
    }
}

/// A link joins two different nodes of the graph.
pub proof fn lemma_linked_nodes(g: GraphView, a: int, b: int, filter: Option<EdgeClass>)
    requires
        g.wf(),
        g.linked_in(a, b, filter),
    ensures
        g.has_node(a),
        g.has_node(b),
        a != b,
{
    let k = choose|k: int|
        0 <= k < g.edges.len() && (#[trigger] g.edges[k]).joins(a, b) && g.edges[k].passes(filter);
    assert(g.edge_ok(g.edges[k]));
}

/// In fully connected cells, a node of `b`'s cell other than `a` that `a`
/// is in one cell with shares the cell of `b` with `a`.
proof fn lemma_cell_shared(g: GraphView, a: int, b: int, r: int)
    requires
        g.cells_complete(),
        g.same_cell(a, b),
        g.same_cell(a, r),
    ensures
        g.same_cell(b, r),
{
    lemma_linked_symmetric(g, a, b, Some(EdgeClass::Local));
    if a != b && a != r && b != r {
        assert(g.linked_by(b, a, EdgeClass::Local));
        assert(g.linked_by(a, r, EdgeClass::Local));
    }
}

/// Where the least members of two nodes' cells do not tell whether the
/// nodes are linked locally, some cell is not fully connected.
proof fn lemma_cells_broken(g: GraphView, rep: Seq<usize>, a: int, b: int)
    requires
        is_least_member(rep, g, rep.len() as int),
        0 <= a < rep.len(),
        0 <= b < rep.len(),
        a != b,
        g.linked_by(a, b, EdgeClass::Local) != (rep[a] == rep[b]),
    ensures
        !g.cells_complete(),
{
    if g.cells_complete() {
        let ra = rep[a] as int;
        let rb = rep[b] as int;
        assert(g.same_cell(a, ra));
        assert(g.same_cell(b, rb));
        lemma_linked_symmetric(g, a, b, Some(EdgeClass::Local));
        if g.linked_by(a, b, EdgeClass::Local) {
            if ra < rb {
                lemma_cell_shared(g, a, b, ra);
                assert(!g.same_cell(b, ra));
            } else {
                lemma_cell_shared(g, b, a, rb);
                assert(!g.same_cell(a, rb));
            }
        } else {
            lemma_linked_symmetric(g, a, ra, Some(EdgeClass::Local));
            lemma_cell_shared(g, ra, a, b);
        }
    }
}

fn is_switch_of(g: &ConnectivityGraph, a: usize, role: SwitchType) -> (yes: bool)
    requires
        a < g@.nodes.len(),
    ensures
        yes == g@.is_switch(a as int, role),
{
    match g.kind(a) {
        NodeKind::Switch { role: r, .. } => r == role,
        _ => false,
    }
}

fn all_switches(g: &ConnectivityGraph) -> (yes: bool)
    ensures
        yes == g@.all_switches(),
{
    let n = g.node_count();
    let mut a: usize = 0;
    while a < n
        invariant
            a <= n,
            n == g@.nodes.len(),
            forall|i: int| 0 <= i < a ==> (#[trigger] g@.nodes[i]) is Switch,
        decreases n - a,
    {
        match g.kind(a) {
            NodeKind::Switch { .. } => {},
            _ => {
                return false;
            },
        }
        a += 1;
    }
    true
}

/// The first switch of the given tier at or after node `from`.
fn next_switch(g: &ConnectivityGraph, role: SwitchType, from: usize) -> (found: Option<usize>)
    ensures
        match found {
            Some(a) => from <= a < g@.nodes.len() && g@.is_switch(a as int, role) && forall|i: int|
                from <= i < a ==> !#[trigger] g@.is_switch(i, role),
            None => forall|i: int|
                from <= i < g@.nodes.len() ==> !#[trigger] g@.is_switch(i, role),
        },
{
    let n = g.node_count();
    let mut a: usize = from;
    while a < n
        invariant
            from <= a,
            n == g@.nodes.len(),
            forall|i: int| from <= i < a ==> !#[trigger] g@.is_switch(i, role),
        decreases n - a,
    {
        if is_switch_of(g, a, role) {
            return Some(a);
        }
        a += 1;
    }
    None
}

fn rises(g: &ConnectivityGraph, e: Edge, lo: SwitchType, hi: SwitchType) -> (yes: bool)
    requires
        g@.edge_ok(e),
    ensures
        yes == g@.rises(e, lo, hi),
{
    (is_switch_of(g, e.left, lo) && e.left_role == PortRole::Uplink && is_switch_of(g, e.right, hi))
        || (is_switch_of(g, e.right, lo) && e.right_role == PortRole::Uplink && is_switch_of(
        g,
        e.left,
        hi,
    ))
}

/// Tells whether a link that leaves node `from` through a port of role
/// `role` for node `to` is an uplink of `from`.
fn leaves_up(g: &ConnectivityGraph, from: usize, role: PortRole, to: usize) -> (yes: bool)
    requires
        from < g@.nodes.len(),
        to < g@.nodes.len(),
    ensures
        yes == (role == PortRole::Uplink && g@.next_above(from as int, to as int)),
{
    role == PortRole::Uplink && ((is_switch_of(g, from, SwitchType::Access) && is_switch_of(
        g,
        to,
        SwitchType::Distribution,
    )) || (is_switch_of(g, from, SwitchType::Distribution) && is_switch_of(
        g,
        to,
        SwitchType::Core,
    )))
}

/// Counts the uplinks of every node, and tells of every node whether it is
/// linked to from the tier below.
fn tier_wiring(g: &ConnectivityGraph) -> (out: (Vec<usize>, Vec<bool>))
    ensures
        out.0.len() == g@.nodes.len(),
        out.1.len() == g@.nodes.len(),
        forall|a: int| 0 <= a < g@.nodes.len() ==> (#[trigger] out.0[a]) == g@.uplinks(a),
        forall|a: int| 0 <= a < g@.nodes.len() ==> (#[trigger] out.1[a]) == g@.fed_from_below(a),
{
    let n = g.node_count();
    let mut ups: Vec<usize> = Vec::new();
    let mut fed: Vec<bool> = Vec::new();
    let mut a: usize = 0;
    while a < n
        invariant
            a <= n,
            ups.len() == a,
            fed.len() == a,
            forall|i: int| 0 <= i < a ==> (#[trigger] ups[i]) == 0,
            forall|i: int| 0 <= i < a ==> !(#[trigger] fed[i]),
        decreases n - a,
    {
        ups.push(0);
        fed.push(false);
        a += 1;
    }
    let m = g.edge_count();
    let mut k: usize = 0;
    assert(g@.edges.take(0) =~= Seq::<Edge>::empty());
    while k < m
        invariant
            k <= m,
            m == g@.edges.len(),
            n == g@.nodes.len(),
            ups.len() == n,
            fed.len() == n,
            forall|i: int|
                0 <= i < n ==> (#[trigger] ups[i]) == count_rising(g@, g@.edges.take(k as int), i),
            forall|i: int|
                0 <= i < n ==> (#[trigger] fed[i]) == (exists|j: int|
                    0 <= j < k && g@.rises_into(#[trigger] g@.edges[j], i)),
        decreases m - k,
    {
        let e = g.edge(k);
        proof {
            assert(g@.edges.take(k + 1) =~= g@.edges.take(k as int).push(e));
            assert forall|i: int|
                count_rising(g@, g@.edges.take(k + 1), i) == #[trigger] count_rising(
                    g@,
                    g@.edges.take(k as int),
                    i,
                ) + if g@.rises_from(e, i) {
                    1nat
                } else {
                    0nat
                } by {
                lemma_count_rising_push(g@, g@.edges.take(k as int), e, i);
            }
            lemma_count_rising_bound(g@, g@.edges.take(k as int), e.left as int);
            lemma_count_rising_bound(g@, g@.edges.take(k as int), e.right as int);
        }
        if leaves_up(g, e.left, e.left_role, e.right) {
            let count = ups[e.left];
            ups.set(e.left, count + 1);
            fed.set(e.right, true);
        }
        if leaves_up(g, e.right, e.right_role, e.left) {
            let count = ups[e.right];
            ups.set(e.right, count + 1);
            fed.set(e.left, true);
        }
        k += 1;
    }
    assert(g@.edges.take(m as int) =~= g@.edges);
    (ups, fed)
}

/// Every switch of the tier has as many uplinks as the first one.
fn uniform_uplinks(g: &ConnectivityGraph, role: SwitchType, ups: &Vec<usize>) -> (yes: bool)
    requires
        ups.len() == g@.nodes.len(),
        forall|a: int| 0 <= a < g@.nodes.len() ==> (#[trigger] ups[a]) == g@.uplinks(a),
    ensures
        yes == g@.uniform_uplinks(role),
{
    let n = g.node_count();
    match next_switch(g, role, 0) {
        None => true,
        Some(first) => {
            let expected = ups[first];
            let mut a: usize = first;
            while a < n
                invariant
                    first <= a,
                    n == g@.nodes.len(),
                    first < n,
                    ups.len() == n,
                    forall|i: int| 0 <= i < n ==> (#[trigger] ups[i]) == g@.uplinks(i),
                    g@.is_switch(first as int, role),
                    expected == g@.uplinks(first as int),
                    forall|i: int| 0 <= i < first ==> !#[trigger] g@.is_switch(i, role),
                    forall|i: int|
                        first <= i < a && g@.is_switch(i, role) ==> #[trigger] g@.uplinks(i)
                            == expected,
                decreases n - a,
            {
                if is_switch_of(g, a, role) && ups[a] != expected {
                    assert(ups[a as int] == g@.uplinks(a as int));
                    return false;
                }
                assert(ups[a as int] == g@.uplinks(a as int));
                a += 1;
            }
            true
        },
    }
}

/// Tells whether the graph has the conditions of the fat tree.
pub fn is_fat_tree(g: &ConnectivityGraph) -> (yes: bool)
    ensures
        yes == g@.is_fat_tree(),
{
    if !all_switches(g) {
        return false;
    }
    if next_switch(g, SwitchType::Access, 0).is_none() || next_switch(
        g,
        SwitchType::Distribution,
        0,
    ).is_none() || next_switch(g, SwitchType::Core, 0).is_none() {
        return false;
    }
    let m = g.edge_count();
    let mut k: usize = 0;
    while k < m
        invariant
            k <= m,
            m == g@.edges.len(),
            forall|j: int|
                0 <= j < k ==> g@.rises(
                    #[trigger] g@.edges[j],
                    SwitchType::Access,
                    SwitchType::Distribution,
                ) || g@.rises(g@.edges[j], SwitchType::Distribution, SwitchType::Core),
        decreases m - k,
    {
        let e = g.edge(k);
        if !rises(g, e, SwitchType::Access, SwitchType::Distribution) && !rises(
            g,
            e,
            SwitchType::Distribution,
            SwitchType::Core,
        ) {
            return false;
        }
        k += 1;
    }
    let (ups, fed) = tier_wiring(g);
    if !uniform_uplinks(g, SwitchType::Access, &ups) || !uniform_uplinks(
        g,
        SwitchType::Distribution,
        &ups,
    ) {
        return false;
    }
    let n = g.node_count();
    let mut a: usize = 0;
    while a < n
        invariant
            a <= n,
            n == g@.nodes.len(),
            ups.len() == n,
            fed.len() == n,
            forall|i: int| 0 <= i < n ==> (#[trigger] ups[i]) == g@.uplinks(i),
            forall|i: int| 0 <= i < n ==> (#[trigger] fed[i]) == g@.fed_from_below(i),
            forall|i: int|
                0 <= i < a && !g@.is_switch(i, SwitchType::Core) ==> #[trigger] g@.uplinks(i) >= 1,
            forall|i: int|
                0 <= i < a && !g@.is_switch(i, SwitchType::Access) ==> #[trigger] g@.fed_from_below(
                    i,
                ),
        decreases n - a,
    {
        assert(ups[a as int] == g@.uplinks(a as int));
        assert(fed[a as int] == g@.fed_from_below(a as int));
        if !is_switch_of(g, a, SwitchType::Core) && ups[a] == 0 {
            return false;
        }
        if !is_switch_of(g, a, SwitchType::Access) && !fed[a] {
            return false;
        }
        a += 1;
    }
    true
}

fn has_two_switches(g: &ConnectivityGraph, role: SwitchType) -> (yes: bool)
    ensures
        yes == g@.has_two_switches(role),
{
    let n = g.node_count();
    match next_switch(g, role, 0) {
        None => false,
        Some(first) => {
            assert(first < n);
            let second = next_switch(g, role, first + 1);
            proof {
                if second is None {
                    assert forall|a: int, b: int|
                        a != b && g@.has_node(a) && g@.has_node(b) && #[trigger] g@.is_switch(
                            a,
                            role,
                        ) && #[trigger] g@.is_switch(b, role) implies false by {
                        assert(a == first);
                        assert(b == first);
                    }
                }
            }
            second.is_some()
        },
    }
}

/// Tells whether the graph is a two-tier Clos on the tiers `lo` and `hi`.
pub fn is_clos(g: &ConnectivityGraph, lo: SwitchType, hi: SwitchType) -> (yes: bool)
    ensures
        yes == g@.is_clos(lo, hi),
{
    let n = g.node_count();
    let mut a: usize = 0;
    while a < n
        invariant
            a <= n,
            n == g@.nodes.len(),
            forall|i: int| 0 <= i < a ==> #[trigger] g@.is_switch(i, lo) || g@.is_switch(i, hi),
        decreases n - a,
    {
        if !is_switch_of(g, a, lo) && !is_switch_of(g, a, hi) {
            return false;
        }
        a += 1;
    }
    if !has_two_switches(g, lo) || !has_two_switches(g, hi) {
        return false;
    }
    let m = g.edge_count();
    let mut k: usize = 0;
    while k < m
        invariant
            k <= m,
            m == g@.edges.len(),
            forall|j: int| 0 <= j < k ==> g@.rises(#[trigger] g@.edges[j], lo, hi),
        decreases m - k,
    {
        let e = g.edge(k);
        if !rises(g, e, lo, hi) {
            return false;
        }
        k += 1;
    }
    let linked = g.adjacency(None);
    let mut a: usize = 0;
    while a < n
        invariant
            a <= n,
            n == g@.nodes.len(),
            is_adjacency(linked@, g@, None),
            forall|i: int, j: int|
                0 <= i < a && g@.has_node(j) && g@.is_switch(i, lo) && g@.is_switch(j, hi)
                    ==> #[trigger] g@.linked(i, j),
        decreases n - a,
    {
        if is_switch_of(g, a, lo) {
            let mut b: usize = 0;
            while b < n
                invariant
                    b <= n,
                    a < n,
                    n == g@.nodes.len(),
                    g@.is_switch(a as int, lo),
                    is_adjacency(linked@, g@, None),
                    forall|j: int|
                        0 <= j < b && g@.is_switch(j, hi) ==> #[trigger] g@.linked(a as int, j),
                decreases n - b,
            {
                if is_switch_of(g, b, hi) && !linked[a][b] {
                    assert(linked@[a as int][b as int] == g@.linked(a as int, b as int));
                    return false;
                }
                b += 1;
            }
        }
        a += 1;
    }
    true
}

/// Names the least member of each node's cell, where the local links part
/// the nodes into fully connected cells of at least two nodes.
fn cells(g: &ConnectivityGraph, local: &Vec<Vec<bool>>) -> (found: Option<Vec<usize>>)
    requires
        is_adjacency(local@, g@, Some(EdgeClass::Local)),
    ensures
        match found {
            Some(rep) => g@.has_cells() && is_cell_map(rep@, g@),
            None => !g@.has_cells(),
        },
{
    let n = g.node_count();
    let mut rep: Vec<usize> = Vec::new();
    let mut a: usize = 0;
    while a < n
        invariant
            a <= n,
            n == g@.nodes.len(),
            rep.len() == a,
            is_adjacency(local@, g@, Some(EdgeClass::Local)),
            is_least_member(rep@, g@, a as int),
        decreases n - a,
    {
        let mut b: usize = 0;
        while b < a && !local[a][b]
            invariant
                b <= a < n,
                n == g@.nodes.len(),
                is_adjacency(local@, g@, Some(EdgeClass::Local)),
                forall|j: int| 0 <= j < b ==> !#[trigger] g@.same_cell(a as int, j),
            decreases a - b,
        {
            assert(local@[a as int][b as int] == g@.linked_by(a as int, b as int, EdgeClass::Local));
            b += 1;
        }
        assert(g@.same_cell(a as int, b as int)) by {
            if b < a {
                assert(local@[a as int][b as int] == g@.linked_by(
                    a as int,
                    b as int,
                    EdgeClass::Local,
                ));
            }
        }
        rep.push(b);
        a += 1;
    }
    let mut a: usize = 0;
    while a < n
        invariant
            a <= n,
            n == g@.nodes.len(),
            rep.len() == n,
            is_adjacency(local@, g@, Some(EdgeClass::Local)),
            is_least_member(rep@, g@, n as int),
            forall|i: int, j: int|
                0 <= i < a && 0 <= j < n && i != j ==> (#[trigger] rep[i] == #[trigger] rep[j])
                    == g@.linked_by(i, j, EdgeClass::Local),
        decreases n - a,
    {
        let mut b: usize = 0;
        while b < n
            invariant
                b <= n,
                a < n,
                n == g@.nodes.len(),
                rep.len() == n,
                is_adjacency(local@, g@, Some(EdgeClass::Local)),
                is_least_member(rep@, g@, n as int),
                forall|j: int|
                    0 <= j < b && a != j ==> (rep[a as int] == #[trigger] rep[j]) == g@.linked_by(
                        a as int,
                        j,
                        EdgeClass::Local,
                    ),
            decreases n - b,
        {
            assert(local@[a as int][b as int] == g@.linked_by(a as int, b as int, EdgeClass::Local));
            if a != b && local[a][b] != (rep[a] == rep[b]) {
                proof {
                    lemma_cells_broken(g@, rep@, a as int, b as int);
                }
                return None;
            }
            b += 1;
        }
        a += 1;
    }
    proof {
        assert forall|x: int, y: int, z: int|
            x != z && #[trigger] g@.linked_by(x, y, EdgeClass::Local) && #[trigger] g@.linked_by(
                y,
                z,
                EdgeClass::Local,
            ) implies g@.linked_by(x, z, EdgeClass::Local) by {
            lemma_linked_nodes(g@, x, y, Some(EdgeClass::Local));
            lemma_linked_nodes(g@, y, z, Some(EdgeClass::Local));
            assert(rep[x] == rep[y]);
            assert(rep[y] == rep[z]);
        }
    }
    let mut a: usize = 0;
    while a < n
        invariant
            a <= n,
            n == g@.nodes.len(),
            g@.wf(),
            is_adjacency(local@, g@, Some(EdgeClass::Local)),
            forall|i: int| 0 <= i < a ==> #[trigger] g@.has_peer(i),
        decreases n - a,
    {
        let mut b: usize = 0;
        while b < n && !local[a][b]
            invariant
                b <= n,
                a < n,
                n == g@.nodes.len(),
                is_adjacency(local@, g@, Some(EdgeClass::Local)),
                forall|j: int| 0 <= j < b ==> !#[trigger] g@.linked_by(a as int, j, EdgeClass::Local),
            decreases n - b,
        {
            assert(local@[a as int][b as int] == g@.linked_by(a as int, b as int, EdgeClass::Local));
            b += 1;
        }
        if b == n {
            proof {
                if g@.has_peer(a as int) {
                    let peer = choose|peer: int|
                        #[trigger] g@.linked_by(a as int, peer, EdgeClass::Local);
                    lemma_linked_nodes(g@, a as int, peer, Some(EdgeClass::Local));
                }
            }
            return None;
        }
        assert(local@[a as int][b as int] == g@.linked_by(a as int, b as int, EdgeClass::Local));
        a += 1;
    }
    Some(rep)
}

fn without(g: &ConnectivityGraph, class: EdgeClass) -> (yes: bool)
    ensures
        yes == g@.without(class),
{
    let m = g.edge_count();
    let mut k: usize = 0;
    while k < m
        invariant
            k <= m,
            m == g@.edges.len(),
            forall|j: int| 0 <= j < k ==> (#[trigger] g@.edges[j]).spec_class() != class,
        decreases m - k,
    {
        if g.edge(k).class() == class {
            return false;
        }
        k += 1;
    }
    true
}

fn crossing(g: &ConnectivityGraph, rep: &Vec<usize>, class: EdgeClass) -> (yes: bool)
    requires
        is_cell_map(rep@, g@),
    ensures
        yes == g@.crossing(class),
{
    let m = g.edge_count();
    let mut k: usize = 0;
    while k < m
        invariant
            k <= m,
            m == g@.edges.len(),
            is_cell_map(rep@, g@),
            forall|j: int|
                0 <= j < k && (#[trigger] g@.edges[j]).spec_class() == class ==> !g@.same_cell(
                    g@.edges[j].left as int,
                    g@.edges[j].right as int,
                ),
        decreases m - k,
    {
        let e = g.edge(k);
        if e.class() == class && rep[e.left] == rep[e.right] {
            return false;
        }
        k += 1;
    }
    true
}

fn several_cells(g: &ConnectivityGraph, rep: &Vec<usize>) -> (yes: bool)
    requires
        is_cell_map(rep@, g@),
    ensures
        yes == g@.several_cells(),
{
    let n = g.node_count();
    let mut a: usize = 0;
    while a < n
        invariant
            a <= n,
            n == g@.nodes.len(),
            is_cell_map(rep@, g@),
            forall|i: int| 0 <= i < a ==> #[trigger] rep[i] == rep[0],
        decreases n - a,
    {
        if rep[a] != rep[0] {
            assert(!g@.same_cell(a as int, 0));
            return true;
        }
        a += 1;
    }
    proof {
        assert forall|x: int, y: int| g@.has_node(x) && g@.has_node(y) implies #[trigger] g@.same_cell(
            x,
            y,
        ) by {
            assert(rep[x] == rep[0]);
            assert(rep[y] == rep[0]);
        }
    }
    false
}

/// `m` tells of every two cells, by the members that stand for them,
/// whether a global link runs between them.
spec fn is_group_matrix(m: Seq<Vec<bool>>, rep: Seq<usize>, g: GraphView) -> bool {
    &&& m.len() == g.nodes.len()
    &&& forall|a: int| 0 <= a < m.len() ==> (#[trigger] m[a]).len() == g.nodes.len()
    &&& forall|a: int, b: int|
        0 <= a < m.len() && 0 <= b < m.len() ==> m[rep[a] as int][rep[b] as int]
            == #[trigger] g.groups_linked(a, b)
}

fn group_links(g: &ConnectivityGraph, rep: &Vec<usize>) -> (m: Vec<Vec<bool>>)
    requires
        is_cell_map(rep@, g@),
    ensures
        is_group_matrix(m@, rep@, g@),
{
    let n = g.node_count();
    let mut m: Vec<Vec<bool>> = Vec::new();
    let mut a: usize = 0;
    while a < n
        invariant
            a <= n,
            m.len() == a,
            forall|i: int| 0 <= i < a ==> (#[trigger] m[i]).len() == n,
            forall|i: int, j: int| 0 <= i < a && 0 <= j < n ==> !(#[trigger] m[i][j]),
        decreases n - a,
    {
        let mut row: Vec<bool> = Vec::new();
        let mut b: usize = 0;
        while b < n
            invariant
                b <= n,
                row.len() == b,
                forall|j: int| 0 <= j < b ==> !(#[trigger] row[j]),
            decreases n - b,
        {
            row.push(false);
            b += 1;
        }
        m.push(row);
        a += 1;
    }
    let count = g.edge_count();
    let mut k: usize = 0;
    while k < count
        invariant
            k <= count,
            count == g@.edges.len(),
            n == g@.nodes.len(),
            g@.wf(),
            is_cell_map(rep@, g@),
            m.len() == n,
            forall|i: int| 0 <= i < n ==> (#[trigger] m[i]).len() == n,
            forall|i: int, j: int|
                0 <= i < n && 0 <= j < n ==> (#[trigger] m[i][j]) == (exists|t: int|
                    0 <= t < k && (#[trigger] g@.edges[t]).spec_class() == EdgeClass::Global && ((
                    rep[g@.edges[t].left as int] == i && rep[g@.edges[t].right as int] == j) || (
                    rep[g@.edges[t].right as int] == i && rep[g@.edges[t].left as int] == j))),
        decreases count - k,
    {
        let e = g.edge(k);
        if e.class() == EdgeClass::Global {
            let x = rep[e.left];
            let y = rep[e.right];
            m[x][y] = true;
            m[y][x] = true;
        }
        k += 1;
    }
    proof {
        assert forall|a: int, b: int| 0 <= a < n && 0 <= b < n implies m[rep[a] as int][rep[b] as int]
            == #[trigger] g@.groups_linked(a, b) by {
            let x = rep[a] as int;
            let y = rep[b] as int;
            if m[x][y] {
                let t = choose|t: int|
                    0 <= t < count && (#[trigger] g@.edges[t]).spec_class() == EdgeClass::Global && ((
                    rep[g@.edges[t].left as int] == x && rep[g@.edges[t].right as int] == y) || (
                    rep[g@.edges[t].right as int] == x && rep[g@.edges[t].left as int] == y));
                assert(g@.edge_ok(g@.edges[t]));
                assert(g@.bridges(g@.edges[t], a, b));
            }
            if g@.groups_linked(a, b) {
                let t = choose|t: int|
                    0 <= t < g@.edges.len() && (#[trigger] g@.edges[t]).spec_class()
                        == EdgeClass::Global && g@.bridges(g@.edges[t], a, b);
                assert(g@.edge_ok(g@.edges[t]));
                assert((rep[g@.edges[t].left as int] == x && rep[g@.edges[t].right as int] == y) || (
                rep[g@.edges[t].right as int] == x && rep[g@.edges[t].left as int] == y));
            }
        }
    }
    m
}

fn all_groups_linked(g: &ConnectivityGraph, rep: &Vec<usize>, links: &Vec<Vec<bool>>) -> (yes: bool)
    requires
        is_cell_map(rep@, g@),
        is_group_matrix(links@, rep@, g@),
    ensures
        yes == g@.all_groups_linked(),
{
    let n = g.node_count();
    let mut a: usize = 0;
    while a < n
        invariant
            a <= n,
            n == g@.nodes.len(),
            is_cell_map(rep@, g@),
            is_group_matrix(links@, rep@, g@),
            forall|i: int, j: int|
                0 <= i < a && 0 <= j < n && !g@.same_cell(i, j) ==> #[trigger] g@.groups_linked(i, j),
        decreases n - a,
    {
        let mut b: usize = 0;
        while b < n
            invariant
                b <= n,
                a < n,
                n == g@.nodes.len(),
                is_cell_map(rep@, g@),
                is_group_matrix(links@, rep@, g@),
                forall|j: int|
                    0 <= j < b && !g@.same_cell(a as int, j) ==> #[trigger] g@.groups_linked(
                        a as int,
                        j,
                    ),
            decreases n - b,
        {
            assert(links@[rep[a as int] as int][rep[b as int] as int] == g@.groups_linked(
                a as int,
                b as int,
            ));
            if rep[a] != rep[b] && !links[rep[a]][rep[b]] {
                return false;
            }
            b += 1;
        }
        a += 1;
    }
    true
}

fn groups_near(g: &ConnectivityGraph, rep: &Vec<usize>, links: &Vec<Vec<bool>>) -> (yes: bool)
    requires
        is_cell_map(rep@, g@),
        is_group_matrix(links@, rep@, g@),
    ensures
        yes == g@.groups_near(),
{
    let n = g.node_count();
    let mut a: usize = 0;
    while a < n
        invariant
            a <= n,
            n == g@.nodes.len(),
            is_cell_map(rep@, g@),
            is_group_matrix(links@, rep@, g@),
            forall|i: int, j: int|
                0 <= i < a && 0 <= j < n && !g@.same_cell(i, j) ==> #[trigger] g@.groups_linked(i, j)
                    || g@.groups_bridged(i, j),
        decreases n - a,
    {
        let mut b: usize = 0;
        while b < n
            invariant
                b <= n,
                a < n,
                n == g@.nodes.len(),
                is_cell_map(rep@, g@),
                is_group_matrix(links@, rep@, g@),
                forall|j: int|
                    0 <= j < b && !g@.same_cell(a as int, j) ==> #[trigger] g@.groups_linked(
                        a as int,
                        j,
                    ) || g@.groups_bridged(a as int, j),
            decreases n - b,
        {
            assert(links@[rep[a as int] as int][rep[b as int] as int] == g@.groups_linked(
                a as int,
                b as int,
            ));
            if rep[a] != rep[b] && !links[rep[a]][rep[b]] {
                let mut c: usize = 0;
                let mut bridged = false;
                while c < n && !bridged
                    invariant
                        c <= n,
                        a < n,
                        b < n,
                        n == g@.nodes.len(),
                        is_cell_map(rep@, g@),
                        is_group_matrix(links@, rep@, g@),
                        bridged ==> g@.groups_bridged(a as int, b as int),
                        !bridged ==> forall|i: int|
                            0 <= i < c ==> !(#[trigger] g@.groups_linked(a as int, i)
                                && g@.groups_linked(i, b as int)),
                    decreases n - c + if bridged { 0int } else { 1int },
                {
                    assert(links@[rep[a as int] as int][rep[c as int] as int] == g@.groups_linked(
                        a as int,
                        c as int,
                    ));
                    assert(links@[rep[c as int] as int][rep[b as int] as int] == g@.groups_linked(
                        c as int,
                        b as int,
                    ));
                    if links[rep[a]][rep[c]] && links[rep[c]][rep[b]] {
                        bridged = true;
                    } else {
                        c += 1;
                    }
                }
                if !bridged {
                    proof {
                        if g@.groups_bridged(a as int, b as int) {
                            let via = choose|via: int|
                                g@.has_node(via) && #[trigger] g@.groups_linked(a as int, via)
                                    && #[trigger] g@.groups_linked(via, b as int);
                            assert(!(g@.groups_linked(a as int, via) && g@.groups_linked(
                                via,
                                b as int,
                            )));
                        }
                    }
                    return false;
                }
            }
            b += 1;
        }
        a += 1;
    }
    true
}

/// Tells of every cell, by the member that stands for it, whether it
/// holds a switch of the given tier.
fn cells_with(g: &ConnectivityGraph, rep: &Vec<usize>, role: SwitchType) -> (flags: Vec<bool>)
    requires
        is_cell_map(rep@, g@),
    ensures
        flags.len() == g@.nodes.len(),
        forall|a: int|
            0 <= a < flags.len() ==> flags[rep[a] as int] == #[trigger] g@.cell_has_switch(a, role),
{
    let n = g.node_count();
    let mut flags: Vec<bool> = Vec::new();
    let mut a: usize = 0;
    while a < n
        invariant
            a <= n,
            flags.len() == a,
            forall|i: int| 0 <= i < a ==> !(#[trigger] flags[i]),
        decreases n - a,
    {
        flags.push(false);
        a += 1;
    }
    let mut b: usize = 0;
    while b < n
        invariant
            b <= n,
            n == g@.nodes.len(),
            flags.len() == n,
            is_cell_map(rep@, g@),
            forall|x: int|
                0 <= x < n ==> (#[trigger] flags[x]) == (exists|j: int|
                    0 <= j < b && rep[j] == x && #[trigger] g@.is_switch(j, role)),
        decreases n - b,
    {
        if is_switch_of(g, b, role) {
            flags.set(rep[b], true);
        }
        b += 1;
    }
    proof {
        assert forall|a: int| 0 <= a < n implies flags[rep[a] as int] == #[trigger] g@.cell_has_switch(
            a,
            role,
        ) by {
            let x = rep[a] as int;
            if flags[x] {
                let j = choose|j: int| 0 <= j < n && rep[j] == x && #[trigger] g@.is_switch(j, role);
                assert(g@.same_cell(a, j));
            }
            if g@.cell_has_switch(a, role) {
                let j = choose|j: int|
                    g@.has_node(j) && g@.same_cell(a, j) && #[trigger] g@.is_switch(j, role);
                assert(rep[j] == x);
            }
        }
    }
    flags
}

fn leaf_spine(g: &ConnectivityGraph, rep: &Vec<usize>) -> (yes: bool)
    requires
        is_cell_map(rep@, g@),
    ensures
        yes == g@.leaf_spine(),
{
    if !all_switches(g) {
        return false;
    }
    let access = cells_with(g, rep, SwitchType::Access);
    let distribution = cells_with(g, rep, SwitchType::Distribution);
    let core = cells_with(g, rep, SwitchType::Core);
    let n = g.node_count();
    let mut a: usize = 0;
    while a < n
        invariant
            a <= n,
            n == g@.nodes.len(),
            is_cell_map(rep@, g@),
            access.len() == n,
            distribution.len() == n,
            core.len() == n,
            forall|i: int|
                0 <= i < n ==> access[rep[i] as int] == #[trigger] g@.cell_has_switch(
                    i,
                    SwitchType::Access,
                ),
            forall|i: int|
                0 <= i < n ==> distribution[rep[i] as int] == #[trigger] g@.cell_has_switch(
                    i,
                    SwitchType::Distribution,
                ),
            forall|i: int|
                0 <= i < n ==> core[rep[i] as int] == #[trigger] g@.cell_has_switch(
                    i,
                    SwitchType::Core,
                ),
            forall|i: int| 0 <= i < a ==> #[trigger] g@.cell_has_leaf_and_spine(i),
        decreases n - a,
    {
        let x = rep[a];
        assert(access[x as int] == g@.cell_has_switch(a as int, SwitchType::Access));
        assert(distribution[x as int] == g@.cell_has_switch(a as int, SwitchType::Distribution));
        assert(core[x as int] == g@.cell_has_switch(a as int, SwitchType::Core));
        if !(access[x] && (distribution[x] || core[x])) {
            assert(!g@.cell_has_leaf_and_spine(a as int));
            return false;
        }
        a += 1;
    }
    let m = g.edge_count();
    let mut k: usize = 0;
    while k < m
        invariant
            k <= m,
            m == g@.edges.len(),
            forall|j: int|
                0 <= j < k && (#[trigger] g@.edges[j]).spec_class() == EdgeClass::Global
                    ==> g@.is_spine(g@.edges[j].left as int) && g@.is_spine(
                    g@.edges[j].right as int,
                ),
        decreases m - k,
    {
        let e = g.edge(k);
        if e.class() == EdgeClass::Global {
            let left = is_switch_of(g, e.left, SwitchType::Distribution) || is_switch_of(
                g,
                e.left,
                SwitchType::Core,
            );
            let right = is_switch_of(g, e.right, SwitchType::Distribution) || is_switch_of(
                g,
                e.right,
                SwitchType::Core,
            );
            if !left || !right {
                return false;
            }
        }
        k += 1;
    }
    true
}

fn no_firewalls(g: &ConnectivityGraph) -> (yes: bool)
    ensures
        yes == g@.no_firewalls(),
{
    let n = g.node_count();
    let mut a: usize = 0;
    while a < n
        invariant
            a <= n,
            n == g@.nodes.len(),
            forall|i: int| 0 <= i < a ==> !((#[trigger] g@.nodes[i]) is Firewall),
        decreases n - a,
    {
        match g.kind(a) {
            NodeKind::Firewall => {
                return false;
            },
            _ => {},
        }
        a += 1;
    }
    true
}

/// The label of the DragonFly family that the graph passes for, where it
/// passes for one.
pub fn dragonfly_label(g: &ConnectivityGraph) -> (label: Option<NetworkTopology>)
    ensures
        label == g@.dragonfly_label(),
{
    if !no_firewalls(g) || !without(g, EdgeClass::Rising) {
        return None;
    }
    let local = g.adjacency(Some(EdgeClass::Local));
    match cells(g, &local) {
        None => None,
        Some(rep) => {
            if !several_cells(g, &rep) || !crossing(g, &rep, EdgeClass::Global) {
                return None;
            }
            let links = group_links(g, &rep);
            if all_groups_linked(g, &rep, &links) {
                if leaf_spine(g, &rep) {
                    Some(NetworkTopology::DragonFlyPlus)
                } else {
                    Some(NetworkTopology::DragonFly)
                }
            } else if groups_near(g, &rep, &links) {
                Some(NetworkTopology::Slingshot)
            } else {
                None
            }
        },
    }
}

fn with_some(g: &ConnectivityGraph, class: EdgeClass) -> (yes: bool)
    ensures
        yes == g@.with_some(class),
{
    let m = g.edge_count();
    let mut k: usize = 0;
    while k < m
        invariant
            k <= m,
            m == g@.edges.len(),
            forall|j: int| 0 <= j < k ==> (#[trigger] g@.edges[j]).spec_class() != class,
        decreases m - k,
    {
        if g.edge(k).class() == class {
            return true;
        }
        k += 1;
    }
    false
}

fn low_end(e: &Edge) -> (a: usize)
    ensures
        a == e.low_end(),
{
    match e.left_role {
        PortRole::Lan => e.right,
        _ => e.left,
    }
}

fn one_uplink_per_cell(g: &ConnectivityGraph, rep: &Vec<usize>) -> (yes: bool)
    requires
        is_cell_map(rep@, g@),
    ensures
        yes == g@.one_uplink_per_cell(),
{
    let n = g.node_count();
    let mut used: Vec<bool> = Vec::new();
    let mut a: usize = 0;
    while a < n
        invariant
            a <= n,
            used.len() == a,
            forall|i: int| 0 <= i < a ==> !(#[trigger] used[i]),
        decreases n - a,
    {
        used.push(false);
        a += 1;
    }
    let m = g.edge_count();
    let mut k: usize = 0;
    while k < m
        invariant
            k <= m,
            m == g@.edges.len(),
            n == g@.nodes.len(),
            used.len() == n,
            g@.wf(),
            is_cell_map(rep@, g@),
            forall|x: int|
                0 <= x < n ==> (#[trigger] used[x]) == (exists|j: int|
                    0 <= j < k && (#[trigger] g@.edges[j]).spec_class() == EdgeClass::Rising
                        && rep[g@.edges[j].low_end()] == x),
            forall|i: int, j: int|
                0 <= i < k && 0 <= j < k && i != j && (#[trigger] g@.edges[i]).spec_class()
                    == EdgeClass::Rising && (#[trigger] g@.edges[j]).spec_class()
                    == EdgeClass::Rising ==> !g@.same_cell(
                    g@.edges[i].low_end(),
                    g@.edges[j].low_end(),
                ),
        decreases m - k,
    {
        let e = g.edge(k);
        if e.class() == EdgeClass::Rising {
            let x = rep[low_end(&e)];
            if used[x] {
                proof {
                    let j = choose|j: int|
                        0 <= j < k && (#[trigger] g@.edges[j]).spec_class() == EdgeClass::Rising
                            && rep[g@.edges[j].low_end()] == x;
                    assert(g@.edge_ok(g@.edges[j]));
                    assert(g@.same_cell(g@.edges[j].low_end(), g@.edges[k as int].low_end()));
                }
                return false;
            }
            proof {
                assert forall|i: int|
                    0 <= i < k && (#[trigger] g@.edges[i]).spec_class()
                        == EdgeClass::Rising implies !g@.same_cell(
                    g@.edges[i].low_end(),
                    e.low_end(),
                ) && !g@.same_cell(e.low_end(), g@.edges[i].low_end()) by {
                    assert(g@.edge_ok(g@.edges[i]));
                    assert(rep[g@.edges[i].low_end()] != x);
                }
            }
            used.set(x, true);
        }
        k += 1;
    }
    true
}

/// Tells whether the graph has the conditions of the DCell.
pub fn is_dcell(g: &ConnectivityGraph) -> (yes: bool)
    ensures
        yes == g@.is_dcell(),
{
    if !all_switches(g) || !without(g, EdgeClass::Global) || !with_some(g, EdgeClass::Rising) {
        return false;
    }
    let local = g.adjacency(Some(EdgeClass::Local));
    match cells(g, &local) {
        None => false,
        Some(rep) => crossing(g, &rep, EdgeClass::Rising) && one_uplink_per_cell(g, &rep),
    }
}

/// Tells whether the graph is connected. Marks the nodes that node 0
/// reaches, pass by pass over the edges until a pass marks nothing new, and
/// tells whether every node is marked.
pub fn is_connected(g: &ConnectivityGraph) -> (yes: bool)
    ensures
        yes == g@.connected(),
{
    let n = g.node_count();
    let m = g.edge_count();
    if n == 0 {
        return true;
    }
    let mut marks: Vec<bool> = Vec::new();
    let mut a: usize = 0;
    while a < n
        invariant
            a <= n,
            marks.len() == a,
            forall|i: int| 0 <= i < a ==> !(#[trigger] marks[i]),
        decreases n - a,
    {
        marks.push(false);
        a += 1;
    }
    marks.set(0, true);
    proof {
        lemma_reaches_itself(g@, 0);
    }
    loop
        invariant_except_break
            n == g@.nodes.len(),
            m == g@.edges.len(),
            n > 0,
            g@.wf(),
            marks.len() == n,
            marks[0],
            forall|i: int| 0 <= i < n && #[trigger] marks[i] ==> g@.reaches(0, i),
        ensures
            n == g@.nodes.len(),
            n > 0,
            g@.wf(),
            marks.len() == n,
            marks[0],
            forall|i: int| 0 <= i < n && #[trigger] marks[i] ==> g@.reaches(0, i),
            forall|k: int|
                0 <= k < g@.edges.len() ==> marks[(#[trigger] g@.edges[k]).left as int]
                    == marks[g@.edges[k].right as int],
        decreases count_false(marks@),
    {
        let ghost start = marks@;
        let mut changed = false;
        let mut k: usize = 0;
        while k < m
            invariant
                k <= m,
                n == g@.nodes.len(),
                m == g@.edges.len(),
                n > 0,
                g@.wf(),
                marks.len() == n,
                marks[0],
                forall|i: int| 0 <= i < n && #[trigger] marks[i] ==> g@.reaches(0, i),
                changed ==> count_false(marks@) < count_false(start),
                !changed ==> marks@ == start && forall|j: int|
                    0 <= j < k ==> marks[(#[trigger] g@.edges[j]).left as int]
                        == marks[g@.edges[j].right as int],
            decreases m - k,
        {
            let e = g.edge(k);
            if marks[e.left] != marks[e.right] {
                proof {
                    assert(g@.edges[k as int].joins(e.left as int, e.right as int));
                    assert(g@.edges[k as int].passes(None));
                    assert(g@.linked(e.left as int, e.right as int));
                    lemma_linked_symmetric(g@, e.left as int, e.right as int, None);
                    if marks[e.left as int] {
                        lemma_reaches_extend(g@, 0, e.left as int, e.right as int);
                        lemma_count_false_update(marks@, e.right as int);
                    } else {
                        lemma_reaches_extend(g@, 0, e.right as int, e.left as int);
                        lemma_count_false_update(marks@, e.left as int);
                    }
                }
                if marks[e.left] {
                    marks.set(e.right, true);
                } else {
                    marks.set(e.left, true);
                }
                changed = true;
            }
            k += 1;
        }
        if !changed {
            break;
        }
    }
    let mut a: usize = 0;
    while a < n
        invariant
            a <= n,
            n == g@.nodes.len(),
            n > 0,
            g@.wf(),
            marks.len() == n,
            marks[0],
            forall|i: int| 0 <= i < n && #[trigger] marks[i] ==> g@.reaches(0, i),
            forall|k: int|
                0 <= k < g@.edges.len() ==> marks[(#[trigger] g@.edges[k]).left as int]
                    == marks[g@.edges[k].right as int],
            forall|i: int| 0 <= i < a ==> #[trigger] marks[i],
        decreases n - a,
    {
        if !marks[a] {
            proof {
                if g@.reaches(0, a as int) {
                    let path = choose|path: Seq<int>|
                        #[trigger] g@.is_walk(path) && path[0] == 0 && path.last() == a;
                    lemma_marks_closed(g@, marks@, path, path.len() - 1);
                }
                assert(g@.has_node(0));
            }
            return false;
        }
        a += 1;
    }
    proof {
        assert forall|x: int, y: int| g@.has_node(x) && g@.has_node(y) implies #[trigger] g@.reaches(
            x,
            y,
        ) by {
            assert(marks[x] && marks[y]);
            lemma_reaches_symmetric(g@, 0, x);
            lemma_reaches_transitive(g@, x, 0, y);
        }
    }
    true
}

/// Tells whether the graph has the conditions of the tree.
pub fn is_tree(g: &ConnectivityGraph) -> (yes: bool)
    ensures
        yes == g@.is_tree(),
{
    let n = g.node_count();
    n >= 2 && g.edge_count() == n - 1 && is_connected(g)
}

/// Tells whether the graph has the conditions of VL2.
pub fn is_vl2(g: &ConnectivityGraph) -> (yes: bool)
    ensures
        yes == g@.is_vl2(),
{
    is_clos(g, SwitchType::Access, SwitchType::Distribution) || is_clos(
        g,
        SwitchType::Access,
        SwitchType::Core,
    ) || is_clos(g, SwitchType::Distribution, SwitchType::Core)
}

/// Classifies a connectivity graph. The graph is only read; a graph that
/// matches no pattern is `Undefined`.
pub fn classify(g: &ConnectivityGraph) -> (label: NetworkTopology)
    ensures
        label == topology_of(g@),
        g@.edges.len() == 0 ==> label == NetworkTopology::Undefined,
        g@.is_fat_tree() ==> label == NetworkTopology::FatTree,
        (exists|root: int| g@.is_star(root)) && !g@.is_fat_tree() ==> label
            == NetworkTopology::Tree,
{
    if g.node_count() == 0 || g.edge_count() == 0 {
        proof {
            if g@.edges.len() > 0 {
                assert(g@.edge_ok(g@.edges[0]));
            }
            lemma_no_edges_is_undefined(g@);
        }
        return NetworkTopology::Undefined;
    }
    proof {
        if (exists|root: int| g@.is_star(root)) && !g@.is_fat_tree() {
            let root = choose|root: int| g@.is_star(root);
            lemma_star_is_tree(g@, root);
        }
    }
    if is_fat_tree(g) {
        return NetworkTopology::FatTree;
    }
    if is_vl2(g) {
        return NetworkTopology::VL2;
    }
    if let Some(label) = dragonfly_label(g) {
        return label;
    }
    if is_dcell(g) {
        return NetworkTopology::DCell;
    }
    if is_tree(g) {
        return NetworkTopology::Tree;
    }
    NetworkTopology::Undefined
}

} // verus!
