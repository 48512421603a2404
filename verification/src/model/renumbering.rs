//! The topology does not depend on how the nodes of a graph are numbered,
//! nor on the order in which the devices of a network are listed.

use vstd::prelude::*;

use crate::model::graph::{
    anomalies_of, edges_of, graph_of, has_owner, is_owner, lemma_owner_is, owner, resolve_link,
    DevicePorts, Edge, EdgeClass, GraphView, LinkResolution,
};
use crate::model::laws::lemma_graph_is_well_formed;
use crate::model::network::{DataCenterNetworkView, SwitchType, SwitchView};
use crate::model::osi_layers::LinkView;
use crate::model::topology::{count_rising, lemma_linked_nodes, topology_of};

verus! {

/// `f` is the edge `e` with its ends renumbered by `to`.
pub open spec fn carried(e: Edge, f: Edge, to: Seq<int>) -> bool {
    &&& f.left as int == to[e.left as int]
    &&& f.right as int == to[e.right as int]
    &&& f.left_role == e.left_role
    &&& f.right_role == e.right_role
}

/// `h` is the graph `g` with its nodes renumbered: node `a` of `g` is node
/// `to[a]` of `h`, `back` undoes `to`, and the edges keep their order.
pub open spec fn renumbers(g: GraphView, h: GraphView, to: Seq<int>, back: Seq<int>) -> bool {
    &&& to.len() == g.nodes.len()
    &&& back.len() == g.nodes.len()
    &&& h.nodes.len() == g.nodes.len()
    &&& h.edges.len() == g.edges.len()
    &&& forall|a: int|
        0 <= a < to.len() ==> 0 <= #[trigger] to[a] < to.len() && back[to[a]] == a
            && h.nodes[to[a]] == g.nodes[a]
    &&& forall|b: int| 0 <= b < back.len() ==> 0 <= #[trigger] back[b] < back.len() && to[back[b]] == b
    &&& forall|k: int|
        #![trigger g.edges[k]]
        #![trigger h.edges[k]]
        0 <= k < g.edges.len() ==> carried(g.edges[k], h.edges[k], to)
}

/// Each of two well-formed graphs is the other with its nodes renumbered.
pub open spec fn alike(g: GraphView, h: GraphView, to: Seq<int>, back: Seq<int>) -> bool {
    &&& g.wf()
    &&& h.wf()
    &&& renumbers(g, h, to, back)
    &&& renumbers(h, g, back, to)
}

/// Renumbering keeps a graph well formed, and can be undone.
pub proof fn lemma_renumbering_turns(g: GraphView, h: GraphView, to: Seq<int>, back: Seq<int>)
    requires
        g.wf(),
        renumbers(g, h, to, back),
    ensures
        alike(g, h, to, back),
        alike(h, g, back, to),
{
    assert forall|k: int| 0 <= k < h.edges.len() implies h.edge_ok(#[trigger] h.edges[k]) by {
        let e = g.edges[k];
        assert(g.edge_ok(e));
        assert(carried(e, h.edges[k], to));
        assert(back[to[e.left as int]] == e.left);
        assert(back[to[e.right as int]] == e.right);
        assert(h.nodes[to[e.left as int]] == g.nodes[e.left as int]);
        assert(h.nodes[to[e.right as int]] == g.nodes[e.right as int]);
    }
    assert forall|b: int| 0 <= b < back.len() implies 0 <= #[trigger] back[b] < back.len()
        && to[back[b]] == b && g.nodes[back[b]] == h.nodes[b] by {
        assert(h.nodes[to[back[b]]] == g.nodes[back[b]]);
    }
    assert forall|k: int|
        #![trigger g.edges[k]]
        #![trigger h.edges[k]]
        0 <= k < h.edges.len() implies carried(h.edges[k], g.edges[k], back) by {
        let e = g.edges[k];
        assert(g.edge_ok(e));
        assert(carried(e, h.edges[k], to));
        assert(back[to[e.left as int]] == e.left);
        assert(back[to[e.right as int]] == e.right);
    }
}

proof fn lemma_linked_carries(
    g: GraphView,
    h: GraphView,
    to: Seq<int>,
    back: Seq<int>,
    a: int,
    b: int,
    filter: Option<EdgeClass>,
)
    requires
        alike(g, h, to, back),
        g.linked_in(a, b, filter),
    ensures
        g.has_node(a),
        g.has_node(b),
        a != b,
        h.linked_in(to[a], to[b], filter),
{
    lemma_linked_nodes(g, a, b, filter);
    let k = choose|k: int|
        0 <= k < g.edges.len() && (#[trigger] g.edges[k]).joins(a, b) && g.edges[k].passes(filter);
    assert(carried(g.edges[k], h.edges[k], to));
    assert(h.edges[k].joins(to[a], to[b]));
    assert(h.edges[k].passes(filter));
}

proof fn lemma_linked_same(
    g: GraphView,
    h: GraphView,
    to: Seq<int>,
    back: Seq<int>,
    a: int,
    b: int,
    filter: Option<EdgeClass>,
)
    requires
        alike(g, h, to, back),
        g.has_node(a),
        g.has_node(b),
    ensures
        g.linked_in(a, b, filter) == h.linked_in(to[a], to[b], filter),
{
    if g.linked_in(a, b, filter) {
        lemma_linked_carries(g, h, to, back, a, b, filter);
    }
    if h.linked_in(to[a], to[b], filter) {
        lemma_linked_carries(h, g, back, to, to[a], to[b], filter);
        assert(back[to[a]] == a && back[to[b]] == b);
    }
}

proof fn lemma_same_cell(g: GraphView, h: GraphView, to: Seq<int>, back: Seq<int>, a: int, b: int)
    requires
        alike(g, h, to, back),
        g.has_node(a),
        g.has_node(b),
    ensures
        g.same_cell(a, b) == h.same_cell(to[a], to[b]),
{
    lemma_linked_same(g, h, to, back, a, b, Some(EdgeClass::Local));
    assert(back[to[a]] == a && back[to[b]] == b);
}

proof fn lemma_rises_from_same(
    g: GraphView,
    h: GraphView,
    to: Seq<int>,
    back: Seq<int>,
    k: int,
    a: int,
)
    requires
        alike(g, h, to, back),
        0 <= k < g.edges.len(),
        g.has_node(a),
    ensures
        h.rises_from(h.edges[k], to[a]) == g.rises_from(g.edges[k], a),
        h.rises_into(h.edges[k], to[a]) == g.rises_into(g.edges[k], a),
{
    let e = g.edges[k];
    assert(g.edge_ok(e));
    assert(carried(e, h.edges[k], to));
    assert(back[to[a]] == a);
    assert(back[to[e.left as int]] == e.left);
    assert(back[to[e.right as int]] == e.right);
    assert(h.nodes[to[a]] == g.nodes[a]);
    assert(h.nodes[to[e.left as int]] == g.nodes[e.left as int]);
    assert(h.nodes[to[e.right as int]] == g.nodes[e.right as int]);
}

proof fn lemma_count_rising_same(
    g: GraphView,
    h: GraphView,
    to: Seq<int>,
    back: Seq<int>,
    k: int,
    a: int,
)
    requires
        alike(g, h, to, back),
        0 <= k <= g.edges.len(),
        g.has_node(a),
    ensures
        count_rising(h, h.edges.take(k), to[a]) == count_rising(g, g.edges.take(k), a),
    decreases k,
{
    if k > 0 {
        lemma_count_rising_same(g, h, to, back, k - 1, a);
        lemma_rises_from_same(g, h, to, back, k - 1, a);
        assert(g.edges.take(k).drop_last() =~= g.edges.take(k - 1));
        assert(h.edges.take(k).drop_last() =~= h.edges.take(k - 1));
    }
}

proof fn lemma_uplinks_same(g: GraphView, h: GraphView, to: Seq<int>, back: Seq<int>, a: int)
    requires
        alike(g, h, to, back),
        g.has_node(a),
    ensures
        h.uplinks(to[a]) == g.uplinks(a),
        g.fed_from_below(a) ==> h.fed_from_below(to[a]),
        h.is_switch(to[a], SwitchType::Access) == g.is_switch(a, SwitchType::Access),
        h.is_switch(to[a], SwitchType::Distribution) == g.is_switch(a, SwitchType::Distribution),
        h.is_switch(to[a], SwitchType::Core) == g.is_switch(a, SwitchType::Core),
        h.nodes[to[a]] == g.nodes[a],
        h.has_node(to[a]),
        back[to[a]] == a,
{
    lemma_count_rising_same(g, h, to, back, g.edges.len() as int, a);
    assert(g.edges.take(g.edges.len() as int) =~= g.edges);
    assert(h.edges.take(h.edges.len() as int) =~= h.edges);
    if g.fed_from_below(a) {
        let k = choose|k: int| 0 <= k < g.edges.len() && g.rises_into(#[trigger] g.edges[k], a);
        lemma_rises_from_same(g, h, to, back, k, a);
    }
}

proof fn lemma_rises_same(
    g: GraphView,
    h: GraphView,
    to: Seq<int>,
    back: Seq<int>,
    k: int,
    lo: SwitchType,
    hi: SwitchType,
)
    requires
        alike(g, h, to, back),
        0 <= k < g.edges.len(),
    ensures
        h.rises(h.edges[k], lo, hi) == g.rises(g.edges[k], lo, hi),
        h.edges[k].spec_class() == g.edges[k].spec_class(),
{
    let e = g.edges[k];
    assert(g.edge_ok(e));
    assert(carried(e, h.edges[k], to));
    assert(h.nodes[to[e.left as int]] == g.nodes[e.left as int]);
    assert(h.nodes[to[e.right as int]] == g.nodes[e.right as int]);
}

proof fn lemma_fat_tree_carries(g: GraphView, h: GraphView, to: Seq<int>, back: Seq<int>)
    requires
        alike(g, h, to, back),
        g.is_fat_tree(),
    ensures
        h.is_fat_tree(),
{
    lemma_kinds_carry(g, h, to, back);
    assert forall|k: int| 0 <= k < h.edges.len() implies h.rises(
        #[trigger] h.edges[k],
        SwitchType::Access,
        SwitchType::Distribution,
    ) || h.rises(h.edges[k], SwitchType::Distribution, SwitchType::Core) by {
        lemma_rises_same(g, h, to, back, k, SwitchType::Access, SwitchType::Distribution);
        lemma_rises_same(g, h, to, back, k, SwitchType::Distribution, SwitchType::Core);
        assert(g.rises(g.edges[k], SwitchType::Access, SwitchType::Distribution) || g.rises(
            g.edges[k],
            SwitchType::Distribution,
            SwitchType::Core,
        ));
    }
    assert forall|b: int| h.has_node(b) implies #[trigger] h.uplinks(b) == g.uplinks(back[b]) && (
    g.fed_from_below(back[b]) ==> h.fed_from_below(b)) by {
        lemma_uplinks_same(g, h, to, back, back[b]);
    }
    assert forall|b: int, c: int|
        h.has_node(b) && h.has_node(c) && h.is_switch(b, SwitchType::Access) && h.is_switch(
            c,
            SwitchType::Access,
        ) implies #[trigger] h.uplinks(b) == #[trigger] h.uplinks(c) by {
        assert(g.uplinks(back[b]) == g.uplinks(back[c]));
    }
    assert forall|b: int, c: int|
        h.has_node(b) && h.has_node(c) && h.is_switch(b, SwitchType::Distribution) && h.is_switch(
            c,
            SwitchType::Distribution,
        ) implies #[trigger] h.uplinks(b) == #[trigger] h.uplinks(c) by {
        assert(g.uplinks(back[b]) == g.uplinks(back[c]));
    }
    assert forall|b: int|
        h.has_node(b) && !h.is_switch(b, SwitchType::Core) implies #[trigger] h.uplinks(b)
        >= 1 by {
        assert(g.uplinks(back[b]) >= 1);
    }
    assert forall|b: int|
        h.has_node(b) && !h.is_switch(b, SwitchType::Access) implies #[trigger] h.fed_from_below(
        b,
    ) by {
        assert(g.fed_from_below(back[b]));
    }
}

/// The kinds of the nodes go with the nodes.
proof fn lemma_kinds_carry(g: GraphView, h: GraphView, to: Seq<int>, back: Seq<int>)
    requires
        alike(g, h, to, back),
    ensures
        forall|b: int| h.has_node(b) ==> g.has_node(#[trigger] back[b]) && g.nodes[back[b]] == h.nodes[b],
        forall|role: SwitchType| g.has_switch(role) ==> h.has_switch(role),
        forall|role: SwitchType| g.has_two_switches(role) ==> h.has_two_switches(role),
        g.all_switches() ==> h.all_switches(),
        g.no_firewalls() ==> h.no_firewalls(),
{
    assert forall|role: SwitchType| g.has_switch(role) implies h.has_switch(role) by {
        let a = choose|a: int| g.has_node(a) && #[trigger] g.is_switch(a, role);
        assert(h.nodes[to[a]] == g.nodes[a]);
        assert(h.has_node(to[a]) && h.is_switch(to[a], role));
    }
    assert forall|role: SwitchType| g.has_two_switches(role) implies h.has_two_switches(role) by {
        let (a, b) = choose|a: int, b: int|
            a != b && g.has_node(a) && g.has_node(b) && #[trigger] g.is_switch(a, role)
                && #[trigger] g.is_switch(b, role);
        assert(h.nodes[to[a]] == g.nodes[a]);
        assert(h.nodes[to[b]] == g.nodes[b]);
        assert(back[to[a]] == a && back[to[b]] == b);
        assert(to[a] != to[b] && h.has_node(to[a]) && h.has_node(to[b]) && h.is_switch(to[a], role)
            && h.is_switch(to[b], role));
    }
    if g.all_switches() {
        assert forall|b: int| h.has_node(b) implies (#[trigger] h.nodes[b]) is Switch by {
            assert(g.nodes[back[b]] == h.nodes[b]);
        }
    }
    if g.no_firewalls() {
        assert forall|b: int| h.has_node(b) implies !((#[trigger] h.nodes[b]) is Firewall) by {
            assert(g.nodes[back[b]] == h.nodes[b]);
        }
    }
}

proof fn lemma_clos_carries(
    g: GraphView,
    h: GraphView,
    to: Seq<int>,
    back: Seq<int>,
    lo: SwitchType,
    hi: SwitchType,
)
    requires
        alike(g, h, to, back),
        g.is_clos(lo, hi),
    ensures
        h.is_clos(lo, hi),
{
    lemma_kinds_carry(g, h, to, back);
    assert forall|b: int| h.has_node(b) implies #[trigger] h.is_switch(b, lo) || h.is_switch(
        b,
        hi,
    ) by {
        assert(g.nodes[back[b]] == h.nodes[b]);
        assert(g.is_switch(back[b], lo) || g.is_switch(back[b], hi));
    }
    assert forall|k: int| 0 <= k < h.edges.len() implies h.rises(#[trigger] h.edges[k], lo, hi) by {
        lemma_rises_same(g, h, to, back, k, lo, hi);
        assert(g.rises(g.edges[k], lo, hi));
    }
    assert forall|b: int, c: int|
        h.has_node(b) && h.has_node(c) && h.is_switch(b, lo) && h.is_switch(
            c,
            hi,
        ) implies #[trigger] h.linked(b, c) by {
        assert(g.nodes[back[b]] == h.nodes[b]);
        assert(g.nodes[back[c]] == h.nodes[c]);
        assert(g.linked(back[b], back[c]));
        lemma_linked_same(g, h, to, back, back[b], back[c], None);
    }
}

proof fn lemma_cells_carry(g: GraphView, h: GraphView, to: Seq<int>, back: Seq<int>)
    requires
        alike(g, h, to, back),
    ensures
        forall|b: int, c: int|
            h.has_node(b) && h.has_node(c) ==> #[trigger] h.same_cell(b, c) == g.same_cell(
                back[b],
                back[c],
            ),
        g.has_cells() ==> h.has_cells(),
        g.several_cells() ==> h.several_cells(),
        forall|class: EdgeClass| g.without(class) ==> h.without(class),
        forall|class: EdgeClass| g.with_some(class) ==> h.with_some(class),
        forall|class: EdgeClass| g.crossing(class) ==> h.crossing(class),
{
    assert forall|b: int, c: int| h.has_node(b) && h.has_node(c) implies #[trigger] h.same_cell(
        b,
        c,
    ) == g.same_cell(back[b], back[c]) by {
        lemma_same_cell(g, h, to, back, back[b], back[c]);
    }
    if g.has_cells() {
        assert forall|a: int, b: int, c: int|
            a != c && #[trigger] h.linked_by(a, b, EdgeClass::Local) && #[trigger] h.linked_by(
                b,
                c,
                EdgeClass::Local,
            ) implies h.linked_by(a, c, EdgeClass::Local) by {
            lemma_linked_carries(h, g, back, to, a, b, Some(EdgeClass::Local));
            lemma_linked_carries(h, g, back, to, b, c, Some(EdgeClass::Local));
            assert(to[back[a]] == a && to[back[c]] == c);
            assert(g.linked_by(back[a], back[b], EdgeClass::Local));
            assert(g.linked_by(back[b], back[c], EdgeClass::Local));
            assert(g.linked_by(back[a], back[c], EdgeClass::Local));
            lemma_linked_carries(g, h, to, back, back[a], back[c], Some(EdgeClass::Local));
        }
        assert forall|b: int| h.has_node(b) implies #[trigger] h.has_peer(b) by {
            assert(g.has_peer(back[b]));
            let p = choose|p: int| #[trigger] g.linked_by(back[b], p, EdgeClass::Local);
            lemma_linked_carries(g, h, to, back, back[b], p, Some(EdgeClass::Local));
            assert(h.linked_by(b, to[p], EdgeClass::Local));
        }
    }
    if g.several_cells() {
        let (a, b) = choose|a: int, b: int|
            g.has_node(a) && g.has_node(b) && !#[trigger] g.same_cell(a, b);
        lemma_same_cell(g, h, to, back, a, b);
        assert(h.has_node(to[a]) && h.has_node(to[b]) && !h.same_cell(to[a], to[b]));
    }
    assert forall|class: EdgeClass| g.without(class) implies h.without(class) by {
        assert forall|k: int| 0 <= k < h.edges.len() implies (#[trigger] h.edges[k]).spec_class()
            != class by {
            lemma_rises_same(g, h, to, back, k, SwitchType::Access, SwitchType::Core);
            assert(g.edges[k].spec_class() != class);
        }
    }
    assert forall|class: EdgeClass| g.with_some(class) implies h.with_some(class) by {
        let k = choose|k: int|
            0 <= k < g.edges.len() && (#[trigger] g.edges[k]).spec_class() == class;
        lemma_rises_same(g, h, to, back, k, SwitchType::Access, SwitchType::Core);
        assert(h.edges[k].spec_class() == class);
    }
    assert forall|class: EdgeClass| g.crossing(class) implies h.crossing(class) by {
        assert forall|k: int|
            0 <= k < h.edges.len() && (#[trigger] h.edges[k]).spec_class() == class implies !h.same_cell(
            h.edges[k].left as int,
            h.edges[k].right as int,
        ) by {
            lemma_rises_same(g, h, to, back, k, SwitchType::Access, SwitchType::Core);
            let e = g.edges[k];
            assert(g.edge_ok(e));
            assert(carried(e, h.edges[k], to));
            assert(!g.same_cell(e.left as int, e.right as int));
            lemma_same_cell(g, h, to, back, e.left as int, e.right as int);
        }
    }
}

proof fn lemma_groups_linked_carries(
    g: GraphView,
    h: GraphView,
    to: Seq<int>,
    back: Seq<int>,
    a: int,
    b: int,
)
    requires
        alike(g, h, to, back),
        g.has_node(a),
        g.has_node(b),
        g.groups_linked(a, b),
    ensures
        h.groups_linked(to[a], to[b]),
{
    let k = choose|k: int|
        0 <= k < g.edges.len() && (#[trigger] g.edges[k]).spec_class() == EdgeClass::Global
            && g.bridges(g.edges[k], a, b);
    let e = g.edges[k];
    assert(g.edge_ok(e));
    assert(carried(e, h.edges[k], to));
    lemma_rises_same(g, h, to, back, k, SwitchType::Access, SwitchType::Core);
    lemma_same_cell(g, h, to, back, e.left as int, a);
    lemma_same_cell(g, h, to, back, e.right as int, b);
    lemma_same_cell(g, h, to, back, e.right as int, a);
    lemma_same_cell(g, h, to, back, e.left as int, b);
    assert(h.bridges(h.edges[k], to[a], to[b]));
}

proof fn lemma_groups_carry(g: GraphView, h: GraphView, to: Seq<int>, back: Seq<int>)
    requires
        alike(g, h, to, back),
    ensures
        g.all_groups_linked() ==> h.all_groups_linked(),
        g.groups_near() ==> h.groups_near(),
        g.leaf_spine() ==> h.leaf_spine(),
        g.one_uplink_per_cell() ==> h.one_uplink_per_cell(),
{
    lemma_cells_carry(g, h, to, back);
    lemma_kinds_carry(g, h, to, back);
    if g.all_groups_linked() {
        assert forall|b: int, c: int|
            h.has_node(b) && h.has_node(c) && !h.same_cell(b, c) implies #[trigger] h.groups_linked(
            b,
            c,
        ) by {
            assert(h.same_cell(b, c) == g.same_cell(back[b], back[c]));
            assert(g.groups_linked(back[b], back[c]));
            lemma_groups_linked_carries(g, h, to, back, back[b], back[c]);
        }
    }
    if g.groups_near() {
        assert forall|b: int, c: int|
            h.has_node(b) && h.has_node(c) && !h.same_cell(b, c) implies #[trigger] h.groups_linked(
            b,
            c,
        ) || h.groups_bridged(b, c) by {
            assert(h.same_cell(b, c) == g.same_cell(back[b], back[c]));
            assert(g.groups_linked(back[b], back[c]) || g.groups_bridged(back[b], back[c]));
            if g.groups_linked(back[b], back[c]) {
                lemma_groups_linked_carries(g, h, to, back, back[b], back[c]);
            } else {
                let via = choose|via: int|
                    g.has_node(via) && #[trigger] g.groups_linked(back[b], via)
                        && #[trigger] g.groups_linked(via, back[c]);
                lemma_groups_linked_carries(g, h, to, back, back[b], via);
                lemma_groups_linked_carries(g, h, to, back, via, back[c]);
                assert(h.has_node(to[via]) && h.groups_linked(b, to[via]) && h.groups_linked(
                    to[via],
                    c,
                ));
            }
        }
    }
    if g.leaf_spine() {
        assert forall|b: int| h.has_node(b) implies #[trigger] h.cell_has_leaf_and_spine(b) by {
            assert(g.cell_has_leaf_and_spine(back[b]));
            lemma_cell_has_switch_carries(g, h, to, back, back[b], SwitchType::Access);
            lemma_cell_has_switch_carries(g, h, to, back, back[b], SwitchType::Distribution);
            lemma_cell_has_switch_carries(g, h, to, back, back[b], SwitchType::Core);
        }
        assert forall|k: int|
            0 <= k < h.edges.len() && (#[trigger] h.edges[k]).spec_class()
                == EdgeClass::Global implies h.is_spine(h.edges[k].left as int) && h.is_spine(
            h.edges[k].right as int,
        ) by {
            lemma_rises_same(g, h, to, back, k, SwitchType::Access, SwitchType::Core);
            let e = g.edges[k];
            assert(g.edge_ok(e));
            assert(carried(e, h.edges[k], to));
            assert(g.is_spine(e.left as int) && g.is_spine(e.right as int));
            assert(h.nodes[to[e.left as int]] == g.nodes[e.left as int]);
            assert(h.nodes[to[e.right as int]] == g.nodes[e.right as int]);
        }
    }
    if g.one_uplink_per_cell() {
        assert forall|j: int, k: int|
            0 <= j < h.edges.len() && 0 <= k < h.edges.len() && j != k && (
            #[trigger] h.edges[j]).spec_class() == EdgeClass::Rising && (
            #[trigger] h.edges[k]).spec_class() == EdgeClass::Rising implies !h.same_cell(
            h.edges[j].low_end(),
            h.edges[k].low_end(),
        ) by {
            lemma_rises_same(g, h, to, back, j, SwitchType::Access, SwitchType::Core);
            lemma_rises_same(g, h, to, back, k, SwitchType::Access, SwitchType::Core);
            let e = g.edges[j];
            let f = g.edges[k];
            assert(g.edge_ok(e) && g.edge_ok(f));
            assert(carried(e, h.edges[j], to) && carried(f, h.edges[k], to));
            assert(!g.same_cell(e.low_end(), f.low_end()));
            lemma_same_cell(g, h, to, back, e.low_end(), f.low_end());
        }
    }
}

proof fn lemma_cell_has_switch_carries(
    g: GraphView,
    h: GraphView,
    to: Seq<int>,
    back: Seq<int>,
    a: int,
    role: SwitchType,
)
    requires
        alike(g, h, to, back),
        g.has_node(a),
    ensures
        g.cell_has_switch(a, role) ==> h.cell_has_switch(to[a], role),
{
    if g.cell_has_switch(a, role) {
        let b = choose|b: int| g.has_node(b) && g.same_cell(a, b) && #[trigger] g.is_switch(b, role);
        lemma_same_cell(g, h, to, back, a, b);
        assert(h.nodes[to[b]] == g.nodes[b]);
        assert(h.has_node(to[b]) && h.same_cell(to[a], to[b]) && h.is_switch(to[b], role));
    }
}

proof fn lemma_reaches_carries(g: GraphView, h: GraphView, to: Seq<int>, back: Seq<int>, a: int, b: int)
    requires
        alike(g, h, to, back),
        g.reaches(a, b),
    ensures
        h.reaches(to[a], to[b]),
{
    let path = choose|path: Seq<int>| #[trigger] g.is_walk(path) && path[0] == a && path.last() == b;
    let moved = Seq::new(path.len(), |i: int| to[path[i]]);
    assert forall|i: int| 0 <= i < moved.len() implies h.has_node(#[trigger] moved[i]) by {
        assert(g.has_node(path[i]));
    }
    assert forall|i: int| 0 <= i < moved.len() - 1 implies h.linked(#[trigger] moved[i], moved[i + 1]) by {
        assert(g.linked(path[i], path[i + 1]));
        lemma_linked_carries(g, h, to, back, path[i], path[i + 1], None);
    }
    assert(h.is_walk(moved));
    assert(moved[0] == to[a] && moved.last() == to[b]);
}

proof fn lemma_tree_carries(g: GraphView, h: GraphView, to: Seq<int>, back: Seq<int>)
    requires
        alike(g, h, to, back),
        g.is_tree(),
    ensures
        h.is_tree(),
{
    assert forall|b: int, c: int| h.has_node(b) && h.has_node(c) implies #[trigger] h.reaches(
        b,
        c,
    ) by {
        assert(g.reaches(back[b], back[c]));
        lemma_reaches_carries(g, h, to, back, back[b], back[c]);
    }
}

/// What carries from a graph to the same graph renumbered.
proof fn lemma_patterns_carry(g: GraphView, h: GraphView, to: Seq<int>, back: Seq<int>)
    requires
        alike(g, h, to, back),
    ensures
        g.is_fat_tree() ==> h.is_fat_tree(),
        g.is_vl2() ==> h.is_vl2(),
        g.has_groups() ==> h.has_groups(),
        g.all_groups_linked() ==> h.all_groups_linked(),
        g.groups_near() ==> h.groups_near(),
        g.leaf_spine() ==> h.leaf_spine(),
        g.is_dcell() ==> h.is_dcell(),
        g.is_tree() ==> h.is_tree(),
{
    if g.is_fat_tree() {
        lemma_fat_tree_carries(g, h, to, back);
    }
    if g.is_clos(SwitchType::Access, SwitchType::Distribution) {
        lemma_clos_carries(g, h, to, back, SwitchType::Access, SwitchType::Distribution);
    }
    if g.is_clos(SwitchType::Access, SwitchType::Core) {
        lemma_clos_carries(g, h, to, back, SwitchType::Access, SwitchType::Core);
    }
    if g.is_clos(SwitchType::Distribution, SwitchType::Core) {
        lemma_clos_carries(g, h, to, back, SwitchType::Distribution, SwitchType::Core);
    }
    lemma_kinds_carry(g, h, to, back);
    lemma_cells_carry(g, h, to, back);
    lemma_groups_carry(g, h, to, back);
    if g.is_tree() {
        lemma_tree_carries(g, h, to, back);
    }
}

/// The label of a graph does not depend on how its nodes are numbered:
/// a graph and the same graph with its nodes renumbered, the edges in the
/// same order, have the same topology.
pub proof fn lemma_renumbering_keeps_topology(
    g: GraphView,
    h: GraphView,
    to: Seq<int>,
    back: Seq<int>,
)
    requires
        g.wf(),
        renumbers(g, h, to, back),
    ensures
        topology_of(h) == topology_of(g),
{
    lemma_renumbering_turns(g, h, to, back);
    lemma_patterns_carry(g, h, to, back);
    lemma_patterns_carry(h, g, back, to);
}

/// `moved` lists the devices `devices` in another order: device `a` of
/// `devices` is device `to[a]` of `moved`, and `back` undoes `to`.
pub open spec fn reorders(
    devices: Seq<DevicePorts>,
    moved: Seq<DevicePorts>,
    to: Seq<int>,
    back: Seq<int>,
) -> bool {
    &&& to.len() == devices.len()
    &&& back.len() == devices.len()
    &&& moved.len() == devices.len()
    &&& forall|a: int|
        0 <= a < to.len() ==> 0 <= #[trigger] to[a] < to.len() && back[to[a]] == a && moved[to[a]]
            == devices[a]
    &&& forall|b: int| 0 <= b < back.len() ==> 0 <= #[trigger] back[b] < back.len() && to[back[b]] == b
}

/// No two devices list a port with the same serial number.
pub open spec fn ports_are_unique(devices: Seq<DevicePorts>) -> bool {
    forall|i: int, j: int, serial: Seq<char>|
        0 <= i < devices.len() && 0 <= j < devices.len() && i != j && #[trigger] devices[i].owns(
            serial,
        ) ==> !#[trigger] devices[j].owns(serial)
}

/// Where no port is listed twice, the device that lists a port is its owner.
proof fn lemma_only_lister_owns(devices: Seq<DevicePorts>, serial: Seq<char>, i: int)
    requires
        ports_are_unique(devices),
        0 <= i < devices.len(),
        devices[i].owns(serial),
    ensures
        is_owner(devices, serial, i),
        has_owner(devices, serial),
        owner(devices, serial) == i,
{
    assert forall|j: int| 0 <= j < i implies !(#[trigger] devices[j]).owns(serial) by {
        if devices[j].owns(serial) {
            assert(devices[i].owns(serial));
        }
    }
    lemma_owner_is(devices, serial, i);
}

proof fn lemma_owner_moves(
    devices: Seq<DevicePorts>,
    moved: Seq<DevicePorts>,
    to: Seq<int>,
    back: Seq<int>,
    serial: Seq<char>,
)
    requires
        reorders(devices, moved, to, back),
        ports_are_unique(devices),
    ensures
        has_owner(moved, serial) == has_owner(devices, serial),
        has_owner(devices, serial) ==> {
            &&& 0 <= owner(devices, serial) < devices.len()
            &&& owner(moved, serial) == to[owner(devices, serial)]
            &&& moved[owner(moved, serial)] == devices[owner(devices, serial)]
        },
{
    if has_owner(devices, serial) {
        let i = owner(devices, serial);
        assert(is_owner(devices, serial, i));
        assert(moved[to[i]] == devices[i]);
        assert forall|j: int| 0 <= j < to[i] implies !(#[trigger] moved[j]).owns(serial) by {
            assert(moved[to[back[j]]] == devices[back[j]]);
            if devices[back[j]].owns(serial) {
                assert(back[to[i]] == i);
                assert(devices[i].owns(serial));
                assert(back[j] != i);
            }
        }
        lemma_owner_is(moved, serial, to[i]);
    }
    if has_owner(moved, serial) {
        let j = owner(moved, serial);
        assert(is_owner(moved, serial, j));
        assert(moved[to[back[j]]] == devices[back[j]]);
        lemma_only_lister_owns(devices, serial, back[j]);
    }
}

proof fn lemma_edges_move(
    devices: Seq<DevicePorts>,
    moved: Seq<DevicePorts>,
    to: Seq<int>,
    back: Seq<int>,
    links: Seq<LinkView>,
)
    requires
        devices.len() <= usize::MAX,
        reorders(devices, moved, to, back),
        ports_are_unique(devices),
    ensures
        anomalies_of(moved, links) == anomalies_of(devices, links),
        edges_of(moved, links).len() == edges_of(devices, links).len(),
        forall|k: int|
            #![trigger edges_of(devices, links)[k]]
            #![trigger edges_of(moved, links)[k]]
            0 <= k < edges_of(devices, links).len() ==> carried(
                edges_of(devices, links)[k],
                edges_of(moved, links)[k],
                to,
            ),
    decreases links.len(),
{
    if links.len() > 0 {
        lemma_edges_move(devices, moved, to, back, links.drop_last());
        let link = links.last();
        lemma_owner_moves(devices, moved, to, back, link.left.serial_number);
        lemma_owner_moves(devices, moved, to, back, link.right.serial_number);
        let l = link.left.serial_number;
        let r = link.right.serial_number;
        if has_owner(devices, l) && has_owner(devices, r) {
            let a = owner(devices, l);
            let b = owner(devices, r);
            assert(back[to[a]] == a && back[to[b]] == b);
            assert((a == b) == (to[a] == to[b]));
            if a != b {
                let e = resolve_link(devices, link)->Connects_0;
                let f = resolve_link(moved, link)->Connects_0;
                assert(carried(e, f, to));
                let before_d = edges_of(devices, links.drop_last());
                let before_m = edges_of(moved, links.drop_last());
                assert(edges_of(devices, links) == before_d.push(e));
                assert(edges_of(moved, links) == before_m.push(f));
                assert forall|k: int|
                    #![trigger edges_of(devices, links)[k]]
                    #![trigger edges_of(moved, links)[k]]
                    0 <= k < edges_of(devices, links).len() implies carried(
                    edges_of(devices, links)[k],
                    edges_of(moved, links)[k],
                    to,
                ) by {
                    if k < before_d.len() {
                        assert(carried(before_d[k], before_m[k], to));
                    }
                }
            }
        }
    }
}

/// The topology of a network does not depend on the order in which its
/// devices are listed, as long as no two devices list the same port; nor
/// do the anomalies among its links.
pub proof fn lemma_device_order_keeps_topology(
    devices: Seq<DevicePorts>,
    moved: Seq<DevicePorts>,
    to: Seq<int>,
    back: Seq<int>,
    links: Seq<LinkView>,
)
    requires
        devices.len() <= usize::MAX,
        reorders(devices, moved, to, back),
        ports_are_unique(devices),
    ensures
        topology_of(graph_of(moved, links)) == topology_of(graph_of(devices, links)),
        anomalies_of(moved, links) == anomalies_of(devices, links),
{
    lemma_edges_move(devices, moved, to, back, links);
    lemma_graph_is_well_formed(devices, links);
    let g = graph_of(devices, links);
    let h = graph_of(moved, links);
    assert forall|a: int| 0 <= a < to.len() implies 0 <= #[trigger] to[a] < to.len() && back[to[a]]
        == a && h.nodes[to[a]] == g.nodes[a] by {
        assert(moved[to[a]] == devices[a]);
    }
    assert(renumbers(g, h, to, back));
    lemma_renumbering_keeps_topology(g, h, to, back);
}

/// `moved` lists the switches `switches` in another order: switch `a` of
/// `switches` is switch `to[a]` of `moved`, and `back` undoes `to`.
pub open spec fn reorders_switches(
    switches: Seq<SwitchView>,
    moved: Seq<SwitchView>,
    to: Seq<int>,
    back: Seq<int>,
) -> bool {
    &&& to.len() == switches.len()
    &&& back.len() == switches.len()
    &&& moved.len() == switches.len()
    &&& forall|a: int|
        0 <= a < to.len() ==> 0 <= #[trigger] to[a] < to.len() && back[to[a]] == a && moved[to[a]]
            == switches[a]
    &&& forall|b: int| 0 <= b < back.len() ==> 0 <= #[trigger] back[b] < back.len() && to[back[b]] == b
}

/// The topology of a network does not change when its switches are listed
/// in another order, as long as no two devices list the same port.
pub proof fn lemma_switch_order_keeps_topology(
    first: DataCenterNetworkView,
    second: DataCenterNetworkView,
    to: Seq<int>,
    back: Seq<int>,
)
    requires
        first.devices().len() <= usize::MAX,
        reorders_switches(first.switches, second.switches, to, back),
        second.routers == first.routers,
        second.firewalls == first.firewalls,
        second.links == first.links,
        ports_are_unique(first.devices()),
    ensures
        second.resolved_topology() == first.resolved_topology(),
        second.anomalies() == first.anomalies(),
{
    let count = first.switches.len() as int;
    let all = first.devices().len() as int;
    let whole_to = Seq::new(all as nat, |i: int| if i < count { to[i] } else { i });
    let whole_back = Seq::new(all as nat, |i: int| if i < count { back[i] } else { i });
    let devices = first.devices();
    let moved = second.devices();
    assert(moved.len() == devices.len());
    assert forall|a: int| 0 <= a < whole_to.len() implies 0 <= #[trigger] whole_to[a]
        < whole_to.len() && whole_back[whole_to[a]] == a && moved[whole_to[a]] == devices[a] by {
        if a < count {
            assert(0 <= to[a] < count && back[to[a]] == a);
            assert(second.switches[to[a]] == first.switches[a]);
        }
    }
    assert forall|b: int| 0 <= b < whole_back.len() implies 0 <= #[trigger] whole_back[b]
        < whole_back.len() && whole_to[whole_back[b]] == b by {
        if b < count {
            assert(0 <= back[b] < count && to[back[b]] == b);
        }
    }
    assert(reorders(devices, moved, whole_to, whole_back));
    lemma_device_order_keeps_topology(devices, moved, whole_to, whole_back, first.links);
}

} // verus!
