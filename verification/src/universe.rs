//! The universe map: zones joined by links, generated a section at a time

use vstd::prelude::*;

use bevy_turborand::prelude::GlobalRng;
use petgraph::graph::{NodeIndex, UnGraph};
use petgraph::visit::EdgeRef;

use crate::rng::{rng_pick, rng_usize_in};

verus! {

/// A `petgraph` undirected graph of zones. Each zone is stored as its depth
/// (the layer it was generated in) and the scene handle id set for it, if any.
#[verifier::external_body]
pub struct ZoneGraph {
    graph: UnGraph<(usize, Option<u64>), ()>,
}

/// The zones of a [`ZoneGraph`], in node index order.
pub uninterp spec fn zone_weights(g: ZoneGraph) -> Seq<(usize, Option<u64>)>;

/// The links of a [`ZoneGraph`] as (source, target) node indices, in edge index order.
pub uninterp spec fn zone_links(g: ZoneGraph) -> Seq<(u32, u32)>;

/// The links in `links` that have `node` as an endpoint.
pub open spec fn incident(links: Seq<(u32, u32)>, node: u32) -> Seq<(u32, u32)> {
    links.filter(|l: (u32, u32)| l.0 == node || l.1 == node)
}

impl ZoneGraph {
    /// `Graph::new_undirected`: a graph without zones or links.
    #[verifier::external_body]
    pub(crate) fn new() -> (r: ZoneGraph)
        ensures
            zone_weights(r) == Seq::<(usize, Option<u64>)>::empty(),
            zone_links(r) == Seq::<(u32, u32)>::empty(),
    {
        ZoneGraph { graph: UnGraph::new_undirected() }
    }

    /// `Graph::node_count`: how many zones there are.
    #[verifier::external_body]
    pub(crate) fn zone_count(&self) -> (r: usize)
        ensures
            r == zone_weights(*self).len(),
    {
        self.graph.node_count()
    }

    /// `Graph::edge_count`: how many links there are.
    #[verifier::external_body]
    pub(crate) fn link_count(&self) -> (r: usize)
        ensures
            r == zone_links(*self).len(),
    {
        self.graph.edge_count()
    }

    /// `Graph::add_node`: a new zone at `depth` without a scene, under the next
    /// node index. The graph panics when its `u32` indices run out, which the
    /// `requires` rules out.
    #[verifier::external_body]
    pub(crate) fn add_zone(&mut self, depth: usize) -> (r: u32)
        requires
            zone_weights(*old(self)).len() < u32::MAX,
        ensures
            r == zone_weights(*old(self)).len(),
            zone_weights(*final(self)) == zone_weights(*old(self)).push((depth, None::<u64>)),
            zone_links(*final(self)) == zone_links(*old(self)),
    {
        self.graph.add_node((depth, None)).index() as u32
    }

    /// `Graph::add_edge`: a new link between zones `a` and `b`, under the next
    /// edge index. The graph panics when a zone does not exist or its `u32`
    /// edge indices run out, which the `requires` rules out.
    #[verifier::external_body]
    pub(crate) fn add_link(&mut self, a: u32, b: u32)
        requires
            a < zone_weights(*old(self)).len(),
            b < zone_weights(*old(self)).len(),
            zone_links(*old(self)).len() < u32::MAX,
        ensures
            zone_links(*final(self)) == zone_links(*old(self)).push((a, b)),
            zone_weights(*final(self)) == zone_weights(*old(self)),
    {
        self.graph.add_edge(NodeIndex::new(a as usize), NodeIndex::new(b as usize), ());
    }

    /// `Graph::node_weight`: the depth and scene of zone `node`, if it exists.
    #[verifier::external_body]
    pub(crate) fn zone(&self, node: u32) -> (r: Option<(usize, Option<u64>)>)
        ensures
            node < zone_weights(*self).len() ==> r == Some(zone_weights(*self)[node as int]),
            node >= zone_weights(*self).len() ==> r is None,
    {
        self.graph.node_weight(NodeIndex::new(node as usize)).copied()
    }

    /// `Graph::index_mut`: set the scene of zone `node`. The graph panics when
    /// the zone does not exist, which the `requires` rules out.
    #[verifier::external_body]
    pub(crate) fn set_scene(&mut self, node: u32, scene: u64)
        requires
            node < zone_weights(*old(self)).len(),
        ensures
            zone_weights(*final(self)) == zone_weights(*old(self)).update(
                node as int,
                (zone_weights(*old(self))[node as int].0, Some(scene)),
            ),
            zone_links(*final(self)) == zone_links(*old(self)),
    {
        self.graph[NodeIndex::new(node as usize)].1 = Some(scene);
    }

    /// `Graph::edges` with `Graph::edge_endpoints`: the endpoints of every link
    /// that has `node` as an endpoint, each link once, in the graph's own order.
    #[verifier::external_body]
    pub(crate) fn links_of(&self, node: u32) -> (r: Vec<(u32, u32)>)
        ensures
            r@.to_multiset() == incident(zone_links(*self), node).to_multiset(),
    {
        let mut out = Vec::new();
        for edge in self.graph.edges(NodeIndex::new(node as usize)) {
            let (a, b) = self.graph.edge_endpoints(edge.id()).unwrap();
            out.push((a.index() as u32, b.index() as u32));
        }
        out
    }
}

/// Each zone after `start` is at the depth of the zone before it or one
/// deeper.
pub open spec fn steps_down(zones: Seq<(usize, Option<u64>)>, start: int, i: int) -> bool {
    zones[i].0 == zones[i - 1].0 || zones[i].0 == zones[i - 1].0 + 1
}

/// The zones from `start` on form the layers of a section: the first at
/// depth 0, each later one at the depth of the one before or one deeper, and
/// none with a scene yet.
pub open spec fn layered(zones: Seq<(usize, Option<u64>)>, start: int) -> bool {
    &&& 0 <= start < zones.len()
    &&& zones[start] == (0usize, None::<u64>)
    &&& forall|i: int| start < i < zones.len() ==> #[trigger] steps_down(zones, start, i)
    &&& forall|i: int| start <= i < zones.len() ==> (#[trigger] zones[i]).1 is None
}

/// Zone `i` has a link from a zone of the section from `start` on, in the
/// layer just above it.
pub open spec fn has_parent(
    zones: Seq<(usize, Option<u64>)>,
    links: Seq<(u32, u32)>,
    start: int,
    i: int,
) -> bool {
    exists|k: int|
        0 <= k < links.len() && #[trigger] links[k].1 == i && start <= links[k].0 < zones.len()
            && zones[links[k].0 as int].0 + 1 == zones[i].0
}

/// Every zone of the section from `start` on, but its first, is linked from
/// a zone in the layer above.
pub open spec fn linked_from_above(
    zones: Seq<(usize, Option<u64>)>,
    links: Seq<(u32, u32)>,
    start: int,
) -> bool {
    forall|i: int| start < i < zones.len() ==> #[trigger] has_parent(zones, links, start, i)
}

/// A link made by generating a section from zone `start` on: it joins a zone
/// of the section to one in the next layer, or an end of the earlier
/// universe, among `ends`, to the section's first zone.
pub open spec fn section_link(
    zones: Seq<(usize, Option<u64>)>,
    l: (u32, u32),
    start: int,
    ends: Seq<u32>,
) -> bool {
    ||| start <= l.0 < zones.len() && start <= l.1 < zones.len() && zones[l.1 as int].0
        == zones[l.0 as int].0 + 1
    ||| l.1 == start && ends.contains(l.0)
}

/// `ends` lists, in increasing order, exactly the zones from `start` on at
/// depth `depth`.
pub open spec fn lists_layer(
    ends: Seq<u32>,
    zones: Seq<(usize, Option<u64>)>,
    start: int,
    depth: usize,
) -> bool {
    &&& forall|j: int|
        0 <= j < ends.len() ==> start <= #[trigger] ends[j] < zones.len() && zones[ends[j] as int].0
            == depth
    &&& forall|i: int|
        start <= i < zones.len() && (#[trigger] zones[i]).0 == depth ==> ends.contains(i as u32)
    &&& forall|a: int, b: int| 0 <= a < b < ends.len() ==> ends[a] < ends[b]
}

/// A path allowed more steps is still a path.
proof fn lemma_reachable_more_steps(links: Seq<(u32, u32)>, from: int, to: int, n: nat, m: nat)
    requires
        n <= m,
        reachable(links, from, to, n),
    ensures
        reachable(links, from, to, m),
    decreases n,
{
    if from != to {
        let k = choose|k: int|
            0 <= k < links.len() && #[trigger] links[k].1 == to && reachable(
                links,
                from,
                links[k].0 as int,
                (n - 1) as nat,
            );
        lemma_reachable_more_steps(links, from, links[k].0 as int, (n - 1) as nat, (m - 1) as nat);
    }
}

/// A path along some links is a path along any links that begin with them.
proof fn lemma_reachable_extend(
    links: Seq<(u32, u32)>,
    more: Seq<(u32, u32)>,
    from: int,
    to: int,
    n: nat,
)
    requires
        links.len() <= more.len(),
        forall|k: int| 0 <= k < links.len() ==> #[trigger] more[k] == links[k],
        reachable(links, from, to, n),
    ensures
        reachable(more, from, to, n),
    decreases n,
{
    if from != to {
        let k = choose|k: int|
            0 <= k < links.len() && #[trigger] links[k].1 == to && reachable(
                links,
                from,
                links[k].0 as int,
                (n - 1) as nat,
            );
        lemma_reachable_extend(links, more, from, links[k].0 as int, (n - 1) as nat);
        assert(more[k].1 == to);
    }
}

/// Two paths, the second starting where the first ends, make one.
proof fn lemma_reachable_chain(
    links: Seq<(u32, u32)>,
    a: int,
    b: int,
    c: int,
    n: nat,
    m: nat,
)
    requires
        reachable(links, a, b, n),
        reachable(links, b, c, m),
    ensures
        reachable(links, a, c, n + m),
    decreases m,
{
    if b == c {
        lemma_reachable_more_steps(links, a, c, n, n + m);
    } else if a != c {
        let k = choose|k: int|
            0 <= k < links.len() && #[trigger] links[k].1 == c && reachable(
                links,
                b,
                links[k].0 as int,
                (m - 1) as nat,
            );
        lemma_reachable_chain(links, a, b, links[k].0 as int, n, (m - 1) as nat);
        assert(links[k].1 == c);
        assert((n + m - 1) as nat == n + (m - 1) as nat);
    }
}

/// A zone of a section is at most as deep as its distance from the first.
proof fn lemma_depth_within(zones: Seq<(usize, Option<u64>)>, start: int, i: int)
    requires
        layered(zones, start),
        start <= i < zones.len(),
    ensures
        zones[i].0 <= i - start,
    decreases i - start,
{
    if i > start {
        assert(steps_down(zones, start, i));
        lemma_depth_within(zones, start, i - 1);
    }
}

/// Every zone of the first `count` can be reached from zone `root` within
/// `count` links.
pub open spec fn connected(links: Seq<(u32, u32)>, count: int, root: int) -> bool {
    forall|i: int| 0 <= i < count ==> #[trigger] reachable(links, root, i, count as nat)
}

/// A universe every zone of which can be reached from its first zone stays
/// so when a section of more than one layer is attached after its end, as
/// [`Universe::generate_section`] does; so does an empty universe that gets
/// its first section. (A section of a single layer is not attached, so a
/// universe with zones does not stay connected when it gets one.)
pub proof fn lemma_attached_section_connected(
    old_zones: Seq<(usize, Option<u64>)>,
    old_links: Seq<(u32, u32)>,
    old_ends: Seq<u32>,
    zones: Seq<(usize, Option<u64>)>,
    links: Seq<(u32, u32)>,
)
    requires
        connected(old_links, old_zones.len() as int, 0),
        old_zones.len() > 0 ==> old_ends.len() > 0,
        forall|j: int| 0 <= j < old_ends.len() ==> #[trigger] old_ends[j] < old_zones.len(),
        old_zones.len() < zones.len() <= u32::MAX,
        links.len() >= old_links.len(),
        forall|k: int| 0 <= k < old_links.len() ==> #[trigger] links[k] == old_links[k],
        layered(zones, old_zones.len() as int),
        linked_from_above(zones, links, old_zones.len() as int),
        old_zones.len() > 0 ==> zones.last().0 > 0,
        zones.last().0 > 0 ==> forall|j: int|
            0 <= j < old_ends.len() ==> links.contains(
                (#[trigger] old_ends[j], old_zones.len() as u32),
            ),
    ensures
        connected(links, zones.len() as int, 0),
{
    let n0 = old_zones.len() as int;
    let total = zones.len() as int;
    assert forall|i: int| 0 <= i < total implies #[trigger] reachable(links, 0, i, total as nat) by {
        if i < n0 {
            assert(reachable(old_links, 0, i, n0 as nat));
            lemma_reachable_extend(old_links, links, 0, i, n0 as nat);
            lemma_reachable_more_steps(links, 0, i, n0 as nat, total as nat);
        } else {
            lemma_section_connected(zones, links, n0, i);
            lemma_depth_within(zones, n0, i);
            let depth = zones[i].0 as nat;
            if n0 == 0 {
                lemma_reachable_more_steps(links, 0, i, depth, total as nat);
            } else {
                let e = old_ends[0];
                assert(links.contains((e, n0 as u32)));
                let k = choose|k: int| 0 <= k < links.len() && links[k] == (e, n0 as u32);
                assert(reachable(old_links, 0, e as int, n0 as nat));
                lemma_reachable_extend(old_links, links, 0, e as int, n0 as nat);
                assert(links[k].1 == n0);
                assert(reachable(links, 0, n0, (n0 + 1) as nat));
                lemma_reachable_chain(links, 0, n0, i, (n0 + 1) as nat, depth);
                lemma_reachable_more_steps(links, 0, i, (n0 + 1 + depth) as nat, total as nat);
            }
        }
    }
}

/// Where layer `d` of a section ends: where the next layer starts, or at
/// `total` for the last layer.
pub open spec fn layer_end(starts: Seq<int>, d: int, total: int) -> int {
    if d + 1 < starts.len() {
        starts[d + 1]
    } else {
        total
    }
}

/// `starts` gives where each layer of the section from `starts[0]` on
/// begins: every zone from `starts[d]` up to where the layer ends is at depth
/// `d`, the first layer is a single zone, and every later layer holds at
/// least `min` and at most `max` zones.
pub open spec fn layers_sized(
    zones: Seq<(usize, Option<u64>)>,
    starts: Seq<int>,
    min: nat,
    max: nat,
) -> bool {
    &&& starts.len() >= 1
    &&& layer_end(starts, 0, zones.len() as int) == starts[0] + 1
    &&& forall|d: int|
        0 <= d < starts.len() ==> starts[d] < #[trigger] layer_end(starts, d, zones.len() as int)
    &&& forall|d: int|
        1 <= d < starts.len() ==> min <= #[trigger] layer_end(starts, d, zones.len() as int)
            - starts[d] <= max
    &&& forall|d: int, i: int|
        0 <= d < starts.len() && starts[d] <= i < layer_end(starts, d, zones.len() as int) ==> (
        #[trigger] zones[i]).0 == d && #[trigger] starts[d] >= 0
    &&& layer_end(starts, starts.len() - 1, zones.len() as int) == zones.len()
}

/// Adding a layer of `count` zones at depth `made` after the `made` layers
/// of a section keeps its layers sized.
proof fn lemma_layers_push(
    before: Seq<(usize, Option<u64>)>,
    after: Seq<(usize, Option<u64>)>,
    starts: Seq<int>,
    count: int,
    min: nat,
    max: nat,
)
    requires
        layers_sized(before, starts, min, max),
        after.len() == before.len() + count,
        forall|i: int| 0 <= i < before.len() ==> #[trigger] after[i] == before[i],
        forall|i: int| before.len() <= i < after.len() ==> (#[trigger] after[i]).0 == starts.len(),
        min <= count <= max,
        count >= 1,
    ensures
        layers_sized(after, starts.push(before.len() as int), min, max),
{
    let zb = before.len() as int;
    let made = starts.len() as int;
    let s2 = starts.push(zb);
    let total = after.len() as int;
    assert forall|d: int| 0 <= d < made implies #[trigger] layer_end(s2, d, total) == layer_end(
        starts,
        d,
        zb,
    ) by {
        if d + 1 < made {
            assert(s2[d + 1] == starts[d + 1]);
        } else {
            assert(s2[d + 1] == zb);
        }
    }
    assert(layer_end(s2, made, total) == total);
    assert forall|d: int| 0 <= d < s2.len() implies s2[d] < #[trigger] layer_end(s2, d, total) by {
        if d < made {
            assert(s2[d] == starts[d]);
            assert(starts[d] < layer_end(starts, d, zb));
        }
    }
    assert forall|d: int| 1 <= d < s2.len() implies min <= #[trigger] layer_end(s2, d, total) - s2[d]
        <= max by {
        if d < made {
            assert(s2[d] == starts[d]);
            assert(min <= layer_end(starts, d, zb) - starts[d] <= max);
        }
    }
    assert forall|d: int, i: int|
        0 <= d < s2.len() && s2[d] <= i < layer_end(s2, d, total) implies (#[trigger] after[i]).0 == d
            && #[trigger] s2[d] >= 0 by {
        if d < made {
            assert(s2[d] == starts[d]);
            assert(layer_end(s2, d, total) == layer_end(starts, d, zb));
            assert(i < zb) by {
                assert(layer_end(starts, d, zb) <= zb) by {
                    if d + 1 < made {
                        assert(starts[d + 1] < layer_end(starts, d + 1, zb));
                        // layer ends never pass the section's end
                        lemma_layer_ends_within(starts, zb, d + 1);
                    }
                }
            }
            assert(before[i].0 == d);
            assert(starts[d] >= 0);
        } else {
            assert(s2[d] == zb);
        }
    }
}

/// Every layer of a sized section ends within the section.
proof fn lemma_layer_ends_within(starts: Seq<int>, total: int, d: int)
    requires
        0 <= d < starts.len(),
        forall|e: int| 0 <= e < starts.len() ==> starts[e] < #[trigger] layer_end(starts, e, total),
    ensures
        layer_end(starts, d, total) <= total,
    decreases starts.len() - d,
{
    if d + 1 < starts.len() {
        assert(starts[d + 1] < layer_end(starts, d + 1, total));
        lemma_layer_ends_within(starts, total, d + 1);
    }
}

/// The most zones a layer can get when `max` is the most drawn for it: a
/// layer always gets at least one.
pub open spec fn layer_cap(max: usize) -> nat {
    if max < 1 {
        1
    } else {
        max as nat
    }
}

/// The end of link `l` that is not `node` (or `node`, for a link to itself).
pub open spec fn other_end(l: (u32, u32), node: u32) -> u32 {
    if l.0 == node {
        l.1
    } else {
        l.0
    }
}

/// Zone `to` can be reached from zone `from` by following at most `steps`
/// links, each from its first endpoint to its second.
pub open spec fn reachable(links: Seq<(u32, u32)>, from: int, to: int, steps: nat) -> bool
    decreases steps,
{
    if from == to {
        true
    } else if steps == 0 {
        false
    } else {
        exists|k: int|
            0 <= k < links.len() && #[trigger] links[k].1 == to && reachable(
                links,
                from,
                links[k].0 as int,
                (steps - 1) as nat,
            )
    }
}

/// Every zone of a generated section can be reached from the section's first
/// zone by following its links down, one link per layer.
pub proof fn lemma_section_connected(
    zones: Seq<(usize, Option<u64>)>,
    links: Seq<(u32, u32)>,
    start: int,
    i: int,
)
    requires
        layered(zones, start),
        linked_from_above(zones, links, start),
        start <= i < zones.len(),
    ensures
        reachable(links, start, i, zones[i].0 as nat),
    decreases zones[i].0,
{
    if i != start {
        assert(has_parent(zones, links, start, i));
        let k = choose|k: int|
            0 <= k < links.len() && #[trigger] links[k].1 == i && start <= links[k].0 < zones.len()
                && zones[links[k].0 as int].0 + 1 == zones[i].0;
        lemma_section_connected(zones, links, start, links[k].0 as int);
    }
}

/// How many zones the first `k` entries of `layers` hold, each entry giving
/// one layer of a section, a zone per element.
pub open spec fn layers_size(layers: Seq<Seq<u32>>, k: int) -> int
    decreases k,
{
    if k <= 0 {
        0
    } else {
        layers_size(layers, k - 1) + layers[k - 1].len()
    }
}

/// The index of the first zone of layer `d` of `layers`, at depth `d + 1`,
/// in a section whose first zone is `n0`.
pub open spec fn layer_start(n0: int, layers: Seq<Seq<u32>>, d: int) -> int {
    n0 + 1 + layers_size(layers, d)
}

/// The index of the first zone of the layer above layer `d`: the section's
/// first zone when `d` is 0.
pub open spec fn parent_start(n0: int, layers: Seq<Seq<u32>>, d: int) -> int {
    if d == 0 {
        n0
    } else {
        layer_start(n0, layers, d - 1)
    }
}

/// `layers` can shape a section whose first zone is `n0`: every layer has a
/// zone, and each element, the parent of one zone of its layer, is a zone of
/// the layer above.
pub open spec fn valid_layers(n0: int, layers: Seq<Seq<u32>>) -> bool {
    &&& forall|d: int| 0 <= d < layers.len() ==> (#[trigger] layers[d]).len() > 0
    &&& forall|d: int, j: int|
        0 <= d < layers.len() && 0 <= j < layers[d].len() ==> parent_start(n0, layers, d)
            <= #[trigger] layers[d][j] < layer_start(n0, layers, d)
}

/// The zones of a section with the first `k` layers of `layers`: its first
/// zone at depth 0, then the zones of layer `d` at depth `d + 1`, none with a
/// scene.
pub open spec fn section_zones(layers: Seq<Seq<u32>>, k: int) -> Seq<(usize, Option<u64>)>
    decreases k,
{
    if k <= 0 {
        seq![(0usize, None::<u64>)]
    } else {
        section_zones(layers, k - 1) + Seq::new(
            layers[k - 1].len(),
            |i: int| (k as usize, None::<u64>),
        )
    }
}

/// The links of a section with the first `k` layers of `layers`, whose first
/// zone is `n0`: layer by layer, one from each zone's parent to the zone.
pub open spec fn section_links(n0: int, layers: Seq<Seq<u32>>, k: int) -> Seq<(u32, u32)>
    decreases k,
{
    if k <= 0 {
        Seq::empty()
    } else {
        section_links(n0, layers, k - 1) + Seq::new(
            layers[k - 1].len(),
            |j: int| (layers[k - 1][j], (layer_start(n0, layers, k - 1) + j) as u32),
        )
    }
}

/// The zones of layer `d` of a section whose first zone is `n0`, in order.
pub open spec fn layer_zones(n0: int, layers: Seq<Seq<u32>>, d: int) -> Seq<u32> {
    Seq::new(layers[d].len(), |j: int| (layer_start(n0, layers, d) + j) as u32)
}

/// Where each layer of a section whose first zone is `n0` begins: the first
/// zone, then the first zone of each of `layers`.
pub open spec fn section_starts(n0: int, layers: Seq<Seq<u32>>) -> Seq<int> {
    seq![n0] + Seq::new(layers.len(), |d: int| layer_start(n0, layers, d))
}

/// Each layer of a section holds as many zones as it was given parents: the
/// section has its first zone and one zone per element of `layers`, and the
/// zones of layer `d`, at depth `d + 1`, are exactly those from
/// `1 + layers_size(layers, d)` on, `layers[d].len()` of them.
pub proof fn lemma_layer_sizes_follow_draws(layers: Seq<Seq<u32>>, k: int)
    requires
        0 <= k <= layers.len(),
    ensures
        section_zones(layers, k).len() == 1 + layers_size(layers, k),
        section_zones(layers, k)[0] == (0usize, None::<u64>),
        forall|d: int, j: int|
            0 <= d < k && 0 <= j < layers[d].len() ==> #[trigger] section_zones(layers, k)[1
                + layers_size(layers, d) + j] == ((d + 1) as usize, None::<u64>),
    decreases k,
{
    if k > 0 {
        lemma_layer_sizes_follow_draws(layers, k - 1);
        let before = section_zones(layers, k - 1);
        let all = section_zones(layers, k);
        lemma_layers_size_grows(layers, 0, k - 1);
        assert(all == before + Seq::new(layers[k - 1].len(), |i: int| (k as usize, None::<u64>)));
        assert(all[0] == before[0]);
        assert forall|d: int, j: int|
            0 <= d < k && 0 <= j < layers[d].len() implies #[trigger] all[1 + layers_size(layers, d)
            + j] == ((d + 1) as usize, None::<u64>) by {
            lemma_layers_size_grows(layers, 0, d);
            if d < k - 1 {
                lemma_layers_size_grows(layers, d + 1, k - 1);
                assert(layers_size(layers, d + 1) == layers_size(layers, d) + layers[d].len());
                assert(before.len() == 1 + layers_size(layers, k - 1));
                assert(1 + layers_size(layers, d) + j < before.len());
                assert(all[1 + layers_size(layers, d) + j] == before[1 + layers_size(layers, d) + j]);
            }
        }
    }
}

/// The size of each layer does not change when later layers are added or
/// changed.
proof fn lemma_layers_size_prefix(a: Seq<Seq<u32>>, b: Seq<Seq<u32>>, k: int)
    requires
        0 <= k <= a.len(),
        k <= b.len(),
        forall|d: int| 0 <= d < k ==> #[trigger] a[d].len() == b[d].len(),
    ensures
        layers_size(a, k) == layers_size(b, k),
    decreases k,
{
    if k > 0 {
        lemma_layers_size_prefix(a, b, k - 1);
    }
}

/// More layers hold at least as many zones.
proof fn lemma_layers_size_grows(layers: Seq<Seq<u32>>, a: int, b: int)
    requires
        0 <= a <= b,
    ensures
        layers_size(layers, a) <= layers_size(layers, b),
    decreases b - a,
{
    if a < b {
        lemma_layers_size_grows(layers, a, b - 1);
    }
}

/// Layer `d` of a section, from where it starts to where the next one does,
/// holds as many zones as `layers[d - 1]` has elements.
proof fn lemma_section_layer_sizes(n0: int, layers: Seq<Seq<u32>>, total: int)
    requires
        total == n0 + 1 + layers_size(layers, layers.len() as int),
    ensures
        forall|d: int|
            1 <= d <= layers.len() ==> #[trigger] layer_end(section_starts(n0, layers), d, total)
                - section_starts(n0, layers)[d] == layers[d - 1].len(),
{
    let s = section_starts(n0, layers);
    assert forall|d: int| 1 <= d <= layers.len() implies #[trigger] layer_end(s, d, total) - s[d]
        == layers[d - 1].len() by {
        assert(s[d] == layer_start(n0, layers, d - 1));
        if d + 1 < s.len() {
            assert(s[d + 1] == layer_start(n0, layers, d));
        }
    }
}

/// The graph of zones, with the zones at the far end of the generated map,
/// to which the next section is attached.
pub struct Universe {
    graph: ZoneGraph,
    end: Vec<u32>,
}

impl Universe {
    /// Every link and end names an existing zone, and the zone and link counts
    /// fit the graph's `u32` indices.
    #[verifier::type_invariant]
    spec fn well_formed(self) -> bool {
        &&& zone_weights(self.graph).len() <= u32::MAX
        &&& zone_links(self.graph).len() <= u32::MAX
        &&& forall|j: int| 0 <= j < self.end@.len() ==> #[trigger] self.end@[j] < zone_weights(self.graph).len()
        &&& forall|k: int|
            0 <= k < zone_links(self.graph).len() ==> (#[trigger] zone_links(self.graph)[k]).0
                < zone_weights(self.graph).len() && zone_links(self.graph)[k].1 < zone_weights(
                self.graph,
            ).len()
    }

    /// Each zone by node index: its depth and its scene handle id, if any
    pub closed spec fn zones(self) -> Seq<(usize, Option<u64>)> {
        zone_weights(self.graph)
    }

    /// Each link by edge index, as (source, target) zone indices
    pub closed spec fn links(self) -> Seq<(u32, u32)> {
        zone_links(self.graph)
    }

    /// The zones at the far end of the map
    pub closed spec fn ends(self) -> Seq<u32> {
        self.end@
    }

    /// An empty universe
    pub fn new() -> (r: Self)
        ensures
            r.zones() == Seq::<(usize, Option<u64>)>::empty(),
            r.links() == Seq::<(u32, u32)>::empty(),
            r.ends() == Seq::<u32>::empty(),
    {
        Universe { graph: ZoneGraph::new(), end: Vec::new() }
    }

    /// How many zones there are
    pub fn zone_count(&self) -> (r: usize)
        ensures
            r == self.zones().len(),
    {
        self.graph.zone_count()
    }

    /// How many links there are
    pub fn link_count(&self) -> (r: usize)
        ensures
            r == self.links().len(),
    {
        self.graph.link_count()
    }

    /// The depth and scene of zone `node`, if it exists
    pub fn zone(&self, node: u32) -> (r: Option<(usize, Option<u64>)>)
        ensures
            node < self.zones().len() ==> r == Some(self.zones()[node as int]),
            node >= self.zones().len() ==> r is None,
    {
        self.graph.zone(node)
    }

    /// The zones at the far end of the map
    pub fn end(&self) -> (r: Vec<u32>)
        ensures
            r@ == self.ends(),
    {
        self.end.clone()
    }

    /// Whether zone `node` exists and has no scene yet, so that it can be
    /// generated
    pub fn zone_is_open(&self, node: u32) -> (r: bool)
        ensures
            r <==> node < self.zones().len() && self.zones()[node as int].1 is None,
    {
        match self.graph.zone(node) {
            Some(zone) => zone.1.is_none(),
            None => false,
        }
    }

    /// The zones that the gates of zone `node` lead to: for each link of the
    /// zone, in the graph's own order, its other end.
    pub fn gate_destinations(&self, node: u32) -> (r: Vec<u32>)
        ensures
            exists|pairs: Seq<(u32, u32)>|
                #![trigger pairs.to_multiset()]
                pairs.to_multiset() == incident(self.links(), node).to_multiset() && r@
                    == pairs.map_values(|l: (u32, u32)| other_end(l, node)),
    {
        let pairs = self.graph.links_of(node);
        let mut out: Vec<u32> = Vec::new();
        let mut i: usize = 0;
        while i < pairs.len()
            invariant
                0 <= i <= pairs@.len(),
                out@ == pairs@.take(i as int).map_values(|l: (u32, u32)| other_end(l, node)),
            decreases pairs@.len() - i,
        {
            let (a, b) = pairs[i];
            let destination = if a == node {
                b
            } else {
                a
            };
            out.push(destination);
            proof {
                assert(pairs@.take(i + 1) =~= pairs@.take(i as int).push(pairs@[i as int]));
                assert(pairs@.take(i + 1).map_values(|l: (u32, u32)| other_end(l, node))
                    =~= pairs@.take(i as int).map_values(|l: (u32, u32)| other_end(l, node)).push(
                    destination,
                ));
            }
            i = i + 1;
        }
        proof {
            assert(pairs@.take(pairs@.len() as int) =~= pairs@);
        }
        out
    }

    /// Set the scene of zone `node`, which must exist and have none yet
    pub fn set_scene(&mut self, node: u32, scene: u64)
        requires
            node < old(self).zones().len(),
            old(self).zones()[node as int].1 is None,
        ensures
            final(self).zones() == old(self).zones().update(
                node as int,
                (old(self).zones()[node as int].0, Some(scene)),
            ),
            final(self).links() == old(self).links(),
            final(self).ends() == old(self).ends(),
    {
        proof {
            use_type_invariant(&*self);
        }
        let mut end: Vec<u32> = Vec::new();
        std::mem::swap(&mut end, &mut self.end);
        let mut graph = ZoneGraph::new();
        std::mem::swap(&mut graph, &mut self.graph);
        graph.set_scene(node, scene);
        self.graph = graph;
        self.end = end;
    }

    /// Add a section shaped by `layers` after the current zones, and return
    /// its first zone.
    ///
    /// The section's first zone is at depth 0; each entry of `layers` adds a
    /// layer one deeper, with a zone for each of its elements, linked from
    /// the zone that the element names. When `layers` is not empty, every
    /// current end is linked to the first zone and the last layer becomes the
    /// new end; otherwise the links and the end stay as they are.
    #[verifier::rlimit(60)]
    #[verifier::spinoff_prover]
    pub fn build_section(&mut self, layers: &Vec<Vec<u32>>) -> (first: u32)
        requires
            valid_layers(old(self).zones().len() as int, layers.deep_view()),
            old(self).zones().len() + 1 + layers_size(layers.deep_view(), layers.len() as int)
                <= u32::MAX,
            old(self).links().len() + layers_size(layers.deep_view(), layers.len() as int) + old(
                self,
            ).ends().len() <= u32::MAX,
        ensures
            first == old(self).zones().len(),
            builds_section(*old(self), *final(self), layers.deep_view()),
            final(self).zones().len() == first + 1 + layers_size(
                layers.deep_view(),
                layers.len() as int,
            ),
            layered(final(self).zones(), first as int),
            linked_from_above(final(self).zones(), final(self).links(), first as int),
            forall|k: int|
                old(self).links().len() <= k < final(self).links().len() ==> #[trigger] section_link(
                    final(self).zones(),
                    final(self).links()[k],
                    first as int,
                    old(self).ends(),
                ),
            final(self).zones().last().0 == layers.len(),
            layers_sized(
                final(self).zones(),
                section_starts(first as int, layers.deep_view()),
                1,
                u32::MAX as nat,
            ),
            layers.len() > 0 ==> lists_layer(
                final(self).ends(),
                final(self).zones(),
                first as int,
                layers.len(),
            ),
            layers.len() > 0 ==> forall|j: int|
                0 <= j < old(self).ends().len() ==> final(self).links().contains(
                    (#[trigger] old(self).ends()[j], first),
                ),
    {
        proof {
            use_type_invariant(&*self);
        }
        let ghost n0 = self.zones().len() as int;
        let ghost l0 = self.links().len() as int;
        let ghost zones0 = self.zones();
        let ghost links0 = self.links();
        let ghost ends0 = self.ends();
        let ghost ls = layers.deep_view();
        let ghost total = layers_size(ls, ls.len() as int);
        let ghost max = u32::MAX as nat;
        proof {
            lemma_layers_size_grows(ls, 0, ls.len() as int);
            assert forall|d: int| 0 <= d < ls.len() implies #[trigger] ls[d] == layers@[d]@ by {
                assert(layers@[d].deep_view() =~= layers@[d]@);
            }
        }
        // Work on the graph and end outside of `self`, leaving it empty meanwhile
        let mut end: Vec<u32> = Vec::new();
        std::mem::swap(&mut end, &mut self.end);
        let mut graph = ZoneGraph::new();
        std::mem::swap(&mut graph, &mut self.graph);
        // The first layer is a single zone
        let first = graph.add_zone(0);
        let mut previous: Vec<u32> = Vec::new();
        previous.push(first);
        let ghost mut starts: Seq<int> = seq![n0];
        proof {
            assert(zone_links(graph) =~= links0);
            assert(zone_weights(graph) =~= zones0 + section_zones(ls, 0));
            assert(zone_links(graph) =~= links0 + section_links(n0, ls, 0));
            assert(layers_sized(zone_weights(graph), starts, 1, max));
            assert(starts =~= section_starts(n0, ls).take(1));
            assert forall|i: int|
                n0 <= i < zone_weights(graph).len() && (#[trigger] zone_weights(graph)[i]).0 == 0usize
                implies previous@.contains(i as u32) by {
                assert(previous@[0] == i as u32);
            }
        }
        let mut made: usize = 0;
        while made < layers.len()
            invariant
                n0 == zones0.len(),
                l0 == links0.len(),
                ls == layers.deep_view(),
                forall|d: int| 0 <= d < ls.len() ==> #[trigger] ls[d] == layers@[d]@,
                valid_layers(n0, ls),
                total == layers_size(ls, ls.len() as int),
                max == u32::MAX as nat,
                n0 + 1 + total <= u32::MAX,
                l0 + total + ends0.len() <= u32::MAX,
                0 <= made <= ls.len(),
                starts == section_starts(n0, ls).take(made + 1),
                layers_sized(zone_weights(graph), starts, 1, max),
                first == n0,
                end@ == ends0,
                forall|j: int| 0 <= j < ends0.len() ==> #[trigger] ends0[j] < n0,
                zone_weights(graph) == zones0 + section_zones(ls, made as int),
                zone_links(graph) == links0 + section_links(n0, ls, made as int),
                zone_weights(graph).len() == n0 + 1 + layers_size(ls, made as int),
                zone_links(graph).len() == l0 + layers_size(ls, made as int),
                forall|i: int| 0 <= i < n0 ==> #[trigger] zone_weights(graph)[i] == zones0[i],
                forall|k: int| 0 <= k < l0 ==> #[trigger] zone_links(graph)[k] == links0[k],
                layered(zone_weights(graph), n0),
                zone_weights(graph).last().0 == made,
                forall|i: int|
                    n0 <= i < zone_weights(graph).len() ==> (#[trigger] zone_weights(graph)[i]).0
                        <= made,
                linked_from_above(zone_weights(graph), zone_links(graph), n0),
                forall|k: int|
                    l0 <= k < zone_links(graph).len() ==> #[trigger] section_link(
                        zone_weights(graph),
                        zone_links(graph)[k],
                        n0,
                        ends0,
                    ),
                forall|k: int|
                    0 <= k < zone_links(graph).len() ==> (#[trigger] zone_links(graph)[k]).0
                        < zone_weights(graph).len() && zone_links(graph)[k].1 < zone_weights(
                        graph,
                    ).len(),
                previous@.len() > 0,
                lists_layer(previous@, zone_weights(graph), n0, made as usize),
                previous@.len() == layer_start(n0, ls, made as int) - parent_start(
                    n0,
                    ls,
                    made as int,
                ),
                forall|t: int|
                    0 <= t < previous@.len() ==> #[trigger] previous@[t] == parent_start(
                        n0,
                        ls,
                        made as int,
                    ) + t,
            decreases ls.len() - made,
        {
            // the depth of the layer added now
            let z = made + 1;
            let picks: &Vec<u32> = &layers[made];
            let count = picks.len();
            let ghost zones_before = zone_weights(graph);
            let ghost links_before = zone_links(graph);
            let ghost zb = zones_before.len() as int;
            let ghost lb = links_before.len() as int;
            let ghost pstart = parent_start(n0, ls, made as int);
            proof {
                assert(ls[made as int] == picks@);
                assert(layers_size(ls, z as int) == layers_size(ls, made as int) + count);
                lemma_layers_size_grows(ls, z as int, ls.len() as int);
                assert(count > 0);
                assert forall|t: int| 0 <= t < count implies pstart <= #[trigger] picks@[t] < zb by {
                    assert(ls[made as int][t] == picks@[t]);
                }
            }
            let mut nodes: Vec<u32> = Vec::new();
            let mut j: usize = 0;
            while j < count
                invariant
                    z == made + 1,
                    zb == zones_before.len(),
                    lb == links_before.len(),
                    zb >= n0 + 1,
                    0 <= j <= count,
                    count == picks@.len(),
                    zb + count <= u32::MAX,
                    lb + count <= u32::MAX,
                    count <= max,
                    max == u32::MAX as nat,
                    forall|t: int| 0 <= t < count ==> pstart <= #[trigger] picks@[t] < zb,
                    previous@.len() == zb - pstart,
                    forall|t: int| 0 <= t < previous@.len() ==> #[trigger] previous@[t] == pstart + t,
                    zone_weights(graph).len() == zb + j,
                    forall|i: int| 0 <= i < zb ==> #[trigger] zone_weights(graph)[i] == zones_before[i],
                    forall|i: int|
                        zb <= i < zb + j ==> #[trigger] zone_weights(graph)[i] == (
                            z as usize,
                            None::<u64>,
                        ),
                    zone_links(graph).len() == lb + j,
                    forall|k: int| 0 <= k < lb ==> #[trigger] zone_links(graph)[k] == links_before[k],
                    forall|k: int|
                        lb <= k < lb + j ==> #[trigger] zone_links(graph)[k] == (
                            picks@[k - lb],
                            (zb + (k - lb)) as u32,
                        ) && previous@.contains(zone_links(graph)[k].0),
                    nodes@.len() == j,
                    forall|t: int| 0 <= t < j ==> #[trigger] nodes@[t] == zb + t,
                decreases count - j,
            {
                let ghost zw_prev = zone_weights(graph);
                let ghost lk_prev = zone_links(graph);
                let node = graph.add_zone(z);
                let prev = picks[j];
                proof {
                    let t = prev - pstart;
                    assert(previous@[t] == prev);
                }
                graph.add_link(prev, node);
                nodes.push(node);
                proof {
                    assert(zone_weights(graph) == zw_prev.push((z as usize, None::<u64>)));
                    assert(zone_links(graph) == lk_prev.push((prev, node)));
                    assert(zone_links(graph)[lb + j] == (prev, node));
                    assert(node == zb + j);
                    assert(previous@.contains(prev));
                }
                j = j + 1;
            }
            proof {
                let zs = zone_weights(graph);
                let lk = zone_links(graph);
                // exactly the zones and links of one more layer
                assert(zs =~= zones0 + section_zones(ls, z as int)) by {
                    assert(section_zones(ls, z as int) == section_zones(ls, made as int) + Seq::new(
                        count as nat,
                        |i: int| (z as usize, None::<u64>),
                    ));
                    assert forall|i: int| 0 <= i < zs.len() implies #[trigger] zs[i] == (zones0
                        + section_zones(ls, z as int))[i] by {
                        if i < zb {
                            assert(zs[i] == zones_before[i]);
                        }
                    }
                }
                assert(lk =~= links0 + section_links(n0, ls, z as int)) by {
                    assert(layer_start(n0, ls, made as int) == zb);
                    assert(section_links(n0, ls, z as int) == section_links(n0, ls, made as int)
                        + Seq::new(
                        count as nat,
                        |j: int| (ls[made as int][j], (layer_start(n0, ls, made as int) + j) as u32),
                    ));
                    assert forall|k: int| 0 <= k < lk.len() implies #[trigger] lk[k] == (links0
                        + section_links(n0, ls, z as int))[k] by {
                        if k < lb {
                            assert(lk[k] == links_before[k]);
                        } else {
                            assert(lk[k] == (picks@[k - lb], (zb + (k - lb)) as u32));
                            assert(ls[made as int][k - lb] == picks@[k - lb]);
                        }
                    }
                }
                assert forall|i: int| 0 <= i < n0 implies #[trigger] zs[i] == zones0[i] by {
                    assert(zs[i] == zones_before[i]);
                }
                assert forall|k: int| 0 <= k < l0 implies #[trigger] lk[k] == links0[k] by {
                    assert(lk[k] == links_before[k]);
                }
                // the zones keep forming layers
                assert forall|i: int| n0 < i < zs.len() implies #[trigger] steps_down(zs, n0, i) by {
                    if i < zb {
                        assert(steps_down(zones_before, n0, i));
                    } else if i > zb {
                    } else {
                        assert(zones_before.last() == zones_before[zb - 1]);
                    }
                }
                assert forall|i: int| n0 <= i < zs.len() implies (#[trigger] zs[i]).1 is None by {
                    if i < zb {
                        assert(zones_before[i].1 is None);
                    }
                }
                assert(zs[n0] == zones_before[n0]);
                assert forall|i: int| n0 <= i < zs.len() implies (#[trigger] zs[i]).0 <= z by {
                    if i < zb {
                        assert(zones_before[i].0 <= made);
                    }
                }
                // each new zone hangs from one of the layer before
                assert forall|i: int| n0 < i < zs.len() implies #[trigger] has_parent(zs, lk, n0, i) by {
                    if i < zb {
                        assert(has_parent(zones_before, links_before, n0, i));
                        let k = choose|k: int|
                            0 <= k < links_before.len() && #[trigger] links_before[k].1 == i && n0
                                <= links_before[k].0 < zones_before.len() && zones_before[links_before[k].0 as int].0
                                + 1 == zones_before[i].0;
                        assert(lk[k] == links_before[k]);
                        assert(zs[links_before[k].0 as int] == zones_before[links_before[k].0 as int]);
                    } else {
                        let k = lb + (i - zb);
                        assert(lk[k].1 == i);
                        let p = lk[k].0;
                        assert(previous@.contains(p));
                        let t = choose|t: int| 0 <= t < previous@.len() && previous@[t] == p;
                        assert(n0 <= previous@[t] < zones_before.len());
                        assert(zones_before[previous@[t] as int].0 == made);
                        assert(zs[p as int] == zones_before[p as int]);
                    }
                }
                assert forall|k: int| l0 <= k < lk.len() implies #[trigger] section_link(zs, lk[k], n0, ends0) by {
                    if k < lb {
                        assert(section_link(zones_before, links_before[k], n0, ends0));
                        let l = links_before[k];
                        if n0 <= l.0 < zones_before.len() && n0 <= l.1 < zones_before.len() {
                            assert(zs[l.0 as int] == zones_before[l.0 as int]);
                            assert(zs[l.1 as int] == zones_before[l.1 as int]);
                        }
                    } else {
                        let p = lk[k].0;
                        assert(previous@.contains(p));
                        let t = choose|t: int| 0 <= t < previous@.len() && previous@[t] == p;
                        assert(zones_before[previous@[t] as int].0 == made);
                        assert(zs[p as int] == zones_before[p as int]);
                    }
                }
                assert forall|k: int| 0 <= k < lk.len() implies (#[trigger] lk[k]).0 < zs.len() && lk[k].1 < zs.len() by {
                    if k < lb {
                        assert(lk[k] == links_before[k]);
                    } else {
                        let p = lk[k].0;
                        assert(previous@.contains(p));
                        let t = choose|t: int| 0 <= t < previous@.len() && previous@[t] == p;
                    }
                }
                // the new layer is listed in order
                assert forall|i: int| n0 <= i < zs.len() && (#[trigger] zs[i]).0 == z as usize
                    implies nodes@.contains(i as u32) by {
                    if i < zb {
                        assert(zones_before[i].0 <= made);
                    } else {
                        assert(nodes@[i - zb] == i as u32);
                    }
                }
                assert(zs.last() == zs[zs.len() - 1]);
            }
            proof {
                lemma_layers_push(zones_before, zone_weights(graph), starts, count as int, 1, max);
                starts = starts.push(zb);
                assert(section_starts(n0, ls)[z as int] == layer_start(n0, ls, made as int));
                assert(starts =~= section_starts(n0, ls).take(z + 1));
            }
            previous = nodes;
            made = z;
        }
        if layers.len() > 0 {
            // Attach the new section after the current end
            let ghost links_before = zone_links(graph);
            let ghost zones_at_attach = zone_weights(graph);
            let ghost lb = links_before.len() as int;
            let mut i: usize = 0;
            while i < end.len()
                invariant
                    lb == links_before.len(),
                    0 <= i <= end@.len(),
                    end@ == ends0,
                    lb + ends0.len() <= u32::MAX,
                    first == n0,
                    forall|j: int| 0 <= j < ends0.len() ==> #[trigger] ends0[j] < n0,
                    n0 < zone_weights(graph).len(),
                    zone_weights(graph) == zones_at_attach,
                    zone_links(graph).len() == lb + i,
                    forall|k: int| 0 <= k < lb ==> #[trigger] zone_links(graph)[k] == links_before[k],
                    forall|k: int| lb <= k < lb + i ==> #[trigger] zone_links(graph)[k] == (ends0[k - lb], first),
                decreases end@.len() - i,
            {
                let ghost lk_prev = zone_links(graph);
                graph.add_link(end[i], first);
                proof {
                    assert(zone_links(graph) == lk_prev.push((ends0[i as int], first)));
                    assert(zone_links(graph)[lb + i] == (ends0[i as int], first));
                }
                i = i + 1;
            }
            proof {
                let zs = zone_weights(graph);
                let lk = zone_links(graph);
                assert(lk =~= links_before + ends0.map_values(|e: u32| (e, n0 as u32))) by {
                    assert forall|k: int| 0 <= k < lk.len() implies #[trigger] lk[k] == (
                    links_before + ends0.map_values(|e: u32| (e, n0 as u32)))[k] by {
                        if k >= lb {
                            assert(lk[lb + (k - lb)] == (ends0[k - lb], first));
                        }
                    }
                }
                assert forall|k: int| 0 <= k < l0 implies #[trigger] lk[k] == links0[k] by {
                    assert(lk[k] == links_before[k]);
                }
                assert forall|i: int| n0 < i < zs.len() implies #[trigger] has_parent(zs, lk, n0, i) by {
                    assert(has_parent(zones_at_attach, links_before, n0, i));
                    let k = choose|k: int|
                        0 <= k < links_before.len() && #[trigger] links_before[k].1 == i && n0
                            <= links_before[k].0 < zs.len() && zs[links_before[k].0 as int].0 + 1
                            == zs[i].0;
                    assert(lk[k] == links_before[k]);
                }
                assert forall|k: int| l0 <= k < lk.len() implies #[trigger] section_link(zs, lk[k], n0, ends0) by {
                    if k < lb {
                        assert(lk[k] == links_before[k]);
                        assert(section_link(zs, links_before[k], n0, ends0));
                    } else {
                        assert(lk[lb + (k - lb)] == (ends0[k - lb], first));
                        assert(ends0.contains(ends0[k - lb]));
                    }
                }
                assert forall|k: int| 0 <= k < lk.len() implies (#[trigger] lk[k]).0 < zs.len() && lk[k].1 < zs.len() by {
                    if k < lb {
                        assert(lk[k] == links_before[k]);
                    } else {
                        assert(lk[lb + (k - lb)] == (ends0[k - lb], first));
                    }
                }
                assert forall|j: int| 0 <= j < ends0.len() implies lk.contains((#[trigger] ends0[j], first)) by {
                    assert(lk[lb + j] == (ends0[j], first));
                }
                assert(parent_start(n0, ls, ls.len() as int) == layer_start(n0, ls, ls.len() - 1));
                assert(previous@ =~= layer_zones(n0, ls, ls.len() - 1));
            }
            end = previous;
        } else {
            proof {
                assert(zone_links(graph) =~= links0 + section_links(n0, ls, 0) + Seq::<(u32, u32)>::empty());
            }
        }
        proof {
            assert(zone_weights(graph).subrange(0, n0) =~= zones0);
            assert(zone_links(graph).subrange(0, l0) =~= links0);
            assert(starts =~= section_starts(n0, ls));
        }
        self.graph = graph;
        self.end = end;
        first
    }

    /// Generate a new section of the map and attach it after the current end.
    ///
    /// The number of layers is drawn from `length.0..=length.1`. The first
    /// layer is a single zone at depth 0, whose index is returned; each later
    /// layer gets a number of zones drawn from
    /// `nodes_per_layer.0..=nodes_per_layer.1`, but at least one, each linked
    /// from a zone of the layer before drawn at random. The section is then
    /// built as [`Universe::build_section`] builds it from those draws. When
    /// no layer is drawn nothing changes and `None` is returned.
    #[verifier::rlimit(60)]
    #[verifier::spinoff_prover]
    pub fn generate_section(
        &mut self,
        rng: &mut GlobalRng,
        length: (usize, usize),
        nodes_per_layer: (usize, usize),
    ) -> (first: Option<u32>)
        requires
            length.0 <= length.1,
            length.1 >= 2 ==> nodes_per_layer.0 <= nodes_per_layer.1,
            old(self).zones().len() + 1 + (length.1 - 1) * layer_cap(nodes_per_layer.1)
                <= u32::MAX,
            old(self).links().len() + (length.1 - 1) * layer_cap(nodes_per_layer.1) + old(
                self,
            ).ends().len() <= u32::MAX,
        ensures
            final(self).zones().subrange(0, old(self).zones().len() as int) == old(self).zones(),
            final(self).links().subrange(0, old(self).links().len() as int) == old(self).links(),
            first is None ==> length.0 == 0 && final(self).zones() == old(self).zones()
                && final(self).links() == old(self).links() && final(self).ends() == old(
                self,
            ).ends(),
            first matches Some(f) ==> exists|layers: Seq<Seq<u32>>|
                #![trigger builds_section(*old(self), *final(self), layers)]
                drawn_layers(layers, length, nodes_per_layer) && valid_layers(f as int, layers)
                    && builds_section(*old(self), *final(self), layers),
            first matches Some(f) ==> {
                let n0 = old(self).zones().len() as int;
                let zones = final(self).zones();
                let links = final(self).links();
                let depth = zones.last().0;
                &&& f == n0
                &&& layered(zones, n0)
                &&& linked_from_above(zones, links, n0)
                &&& forall|k: int|
                    old(self).links().len() <= k < links.len() ==> #[trigger] section_link(
                        zones,
                        links[k],
                        n0,
                        old(self).ends(),
                    )
                &&& length.0 <= depth + 1 <= length.1
                &&& exists|starts: Seq<int>|
                    #![trigger layers_sized(zones, starts, layer_cap(nodes_per_layer.0), layer_cap(nodes_per_layer.1))]
                    layers_sized(
                        zones,
                        starts,
                        layer_cap(nodes_per_layer.0),
                        layer_cap(nodes_per_layer.1),
                    ) && starts.len() == depth + 1 && starts[0] == n0
                &&& depth == 0 ==> final(self).ends() == old(self).ends() && links.len() == old(
                    self,
                ).links().len()
                &&& depth > 0 ==> lists_layer(final(self).ends(), zones, n0, depth)
                &&& depth > 0 ==> forall|j: int|
                    0 <= j < old(self).ends().len() ==> links.contains(
                        (#[trigger] old(self).ends()[j], f),
                    )
            },
    {
        proof {
            use_type_invariant(&*self);
        }
        let ghost n0 = self.zones().len() as int;
        let ghost cap = layer_cap(nodes_per_layer.1);
        let ghost low = layer_cap(nodes_per_layer.0);
        let len = rng_usize_in(rng, length.0, length.1);
        if len == 0 {
            return None;
        }
        let base = self.graph.zone_count();
        let mut layers: Vec<Vec<u32>> = Vec::new();
        // The layer above the one drawn next: its first zone and its size
        let mut above: u32 = base as u32;
        let mut above_count: usize = 1;
        let mut made: usize = 1;
        proof {
            assert(layers.deep_view() =~= Seq::<Seq<u32>>::empty());
            assert(0 * cap == 0) by (nonlinear_arith);
        }
        while made < len
            invariant
                n0 == self.zones().len(),
                n0 == base,
                cap == layer_cap(nodes_per_layer.1),
                low == layer_cap(nodes_per_layer.0),
                1 <= made <= len,
                1 <= len <= length.1,
                len >= 2 ==> nodes_per_layer.0 <= nodes_per_layer.1,
                n0 + 1 + (length.1 - 1) * cap <= u32::MAX,
                layers.deep_view().len() == made - 1,
                valid_layers(n0, layers.deep_view()),
                forall|d: int|
                    0 <= d < layers.deep_view().len() ==> low <= (
                    #[trigger] layers.deep_view()[d]).len() <= cap,
                layers_size(layers.deep_view(), made - 1) <= (made - 1) * cap,
                above == parent_start(n0, layers.deep_view(), made - 1),
                above_count == layer_start(n0, layers.deep_view(), made - 1) - above,
                above_count >= 1,
            decreases len - made,
        {
            let ghost before = layers.deep_view();
            let ghost d = before.len() as int;
            let drawn = rng_usize_in(rng, nodes_per_layer.0, nodes_per_layer.1);
            let count = if drawn < 1 {
                1
            } else {
                drawn
            };
            proof {
                assert(low <= count <= cap);
                assert((made - 1) * cap + cap == made * cap) by (nonlinear_arith);
                assert(made * cap <= (length.1 - 1) * cap) by (nonlinear_arith)
                    requires
                        made <= length.1 - 1,
                        cap >= 1,
                ;
                assert(layer_start(n0, before, d) == above + above_count);
            }
            // the zones of the layer above, in order
            let mut previous: Vec<u32> = Vec::new();
            let mut t: usize = 0;
            while t < above_count
                invariant
                    0 <= t <= above_count,
                    above + above_count <= u32::MAX,
                    previous@.len() == t,
                    forall|s: int| 0 <= s < t ==> #[trigger] previous@[s] == above + s,
                decreases above_count - t,
            {
                previous.push(above + t as u32);
                t = t + 1;
            }
            let mut picks: Vec<u32> = Vec::new();
            let mut j: usize = 0;
            while j < count
                invariant
                    0 <= j <= count,
                    above_count >= 1,
                    previous@.len() == above_count,
                    forall|s: int| 0 <= s < above_count ==> #[trigger] previous@[s] == above + s,
                    picks@.len() == j,
                    forall|s: int| 0 <= s < j ==> above <= #[trigger] picks@[s] < above + above_count,
                decreases count - j,
            {
                let parent = rng_pick(rng, &previous).unwrap();
                proof {
                    let s = choose|s: int| 0 <= s < previous@.len() && previous@[s] == parent;
                    assert(previous@[s] == above + s);
                }
                picks.push(parent);
                j = j + 1;
            }
            let ghost drawn_picks = picks@;
            layers.push(picks);
            proof {
                let after = layers.deep_view();
                assert(after =~= before.push(drawn_picks)) by {
                    assert(after[d] =~= drawn_picks);
                }
                assert forall|e: int| 0 <= e <= d implies layers_size(after, e) == layers_size(
                    before,
                    e,
                ) by {
                    lemma_layers_size_prefix(after, before, e);
                }
                assert(layers_size(after, d + 1) == layers_size(before, d) + count);
                assert forall|e: int| 0 <= e < after.len() implies (#[trigger] after[e]).len() > 0 by {
                    if e < d {
                        assert(after[e] == before[e]);
                    }
                }
                assert forall|e: int, i: int|
                    0 <= e < after.len() && 0 <= i < after[e].len() implies parent_start(n0, after, e)
                    <= #[trigger] after[e][i] < layer_start(n0, after, e) by {
                    if e < d {
                        assert(after[e] == before[e]);
                        assert(before[e][i] == after[e][i]);
                    } else {
                        assert(after[e][i] == drawn_picks[i]);
                    }
                }
                assert forall|e: int| 0 <= e < after.len() implies low <= (#[trigger] after[e]).len()
                    <= cap by {
                    if e < d {
                        assert(after[e] == before[e]);
                    }
                }
            }
            above = above + above_count as u32;
            above_count = count;
            made = made + 1;
        }
        let ghost ls = layers.deep_view();
        proof {
            assert((len - 1) * cap <= (length.1 - 1) * cap) by (nonlinear_arith)
                requires
                    len <= length.1,
                    cap >= 1,
            ;
        }
        let f = self.build_section(&layers);
        proof {
            let zones = self.zones();
            let total = zones.len() as int;
            let starts = section_starts(n0, ls);
            lemma_section_layer_sizes(n0, ls, total);
            assert forall|e: int| 1 <= e < starts.len() implies low <= #[trigger] layer_end(
                starts,
                e,
                total,
            ) - starts[e] <= cap by {
                assert(layer_end(starts, e, total) - starts[e] == ls[e - 1].len());
            }
            assert(layers_sized(zones, starts, low, cap));
            assert(drawn_layers(ls, length, nodes_per_layer));
        }
        Some(f)
    }
}

/// `after` is `before` with the section that `layers` shapes added after its
/// zones: the section's zones come after the zones of `before`, and its links
/// after the links of `before`, followed, when `layers` is not empty, by a
/// link from each end of `before` to the section's first zone; the last layer
/// is then the new end.
pub open spec fn builds_section(before: Universe, after: Universe, layers: Seq<Seq<u32>>) -> bool {
    let n0 = before.zones().len() as int;
    let k = layers.len() as int;
    &&& after.zones() == before.zones() + section_zones(layers, k)
    &&& after.links() == before.links() + section_links(n0, layers, k) + (if k > 0 {
        before.ends().map_values(|e: u32| (e, n0 as u32))
    } else {
        Seq::empty()
    })
    &&& after.ends() == (if k > 0 {
        layer_zones(n0, layers, k - 1)
    } else {
        before.ends()
    })
}

/// `layers` could come out of the draws of [`Universe::generate_section`]:
/// with the first zone, they make a number of layers in
/// `length.0..=length.1`, and each has a number of zones in
/// `nodes_per_layer.0..=nodes_per_layer.1`, but at least one.
pub open spec fn drawn_layers(
    layers: Seq<Seq<u32>>,
    length: (usize, usize),
    nodes_per_layer: (usize, usize),
) -> bool {
    &&& length.0 <= layers.len() + 1 <= length.1
    &&& forall|d: int|
        0 <= d < layers.len() ==> layer_cap(nodes_per_layer.0) <= (#[trigger] layers[d]).len()
            <= layer_cap(nodes_per_layer.1)
}

} // verus!
