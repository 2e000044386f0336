//! Storage topology model: block-class nodes, their relations, and the
//! bookkeeping the monitor does on a discovered inventory.
use vstd::prelude::*;
use vstd::string::*;

use crate::text::{has_prefix, starts_with};

verus! {

#[derive(Debug, Clone, Copy, PartialEq, Eq, Structural)]
pub enum StorageKind {
    ScsiLike,
    Nvme,
    Mmc,
    MdRaid,
    DeviceMapper,
    Virtual,
    Other,
}

#[derive(Debug, Clone, Copy, PartialEq, Eq, Structural)]
pub enum Materialization {
    BlockDevice,
    Partition,
    Stacked,
    Virtual,
    Unknown,
}

#[derive(Debug, Clone, Copy, PartialEq, Eq, Structural)]
pub enum IdentityScope {
    KernelObject,
    BlockDevice,
}

#[derive(Debug, Clone, Copy, PartialEq, Eq, Structural)]
pub enum IdentitySource {
    ClassName,
    DevNumber,
    DiskSequence,
}

#[derive(Debug, Clone, Copy, PartialEq, Eq, Structural)]
pub enum Confidence {
    High,
    Medium,
    Low,
}

#[derive(Debug, Clone, PartialEq, Eq)]
pub struct IdentityClaim {
    pub value: String,
    pub scope: IdentityScope,
    pub source: IdentitySource,
    pub confidence: Confidence,
}

/// Kernel identity of one incarnation of a block device.
#[derive(Debug, Clone, Copy, PartialEq, Eq)]
pub struct Generation {
    pub diskseq: Option<u64>,
    pub dev_t: Option<(u32, u32)>,
}

impl Default for Generation {
    /// A generation with neither a disk sequence number nor a device number.
    fn default() -> (g: Generation)
        ensures
            g.diskseq is None,
            g.dev_t is None,
    {
        Generation { diskseq: None, dev_t: None }
    }
}

impl Generation {

    /// Whether two generations are the same incarnation.
    pub fn same_as(&self, other: &Generation) -> (r: bool)
        ensures
            r == (*self == *other),
    {
        let seq_same = match (self.diskseq, other.diskseq) {
            (Some(a), Some(b)) => a == b,
            (None, None) => true,
            _ => false,
        };
        let dev_same = match (self.dev_t, other.dev_t) {
            (Some((a, b)), Some((c, d))) => a == c && b == d,
            (None, None) => true,
            _ => false,
        };
        seq_same && dev_same
    }
}

#[derive(Debug, Clone, PartialEq, Eq)]
pub struct StorageNode {
    pub id: String,
    pub name: String,
    pub kind: StorageKind,
    pub materialization: Materialization,
    pub removable: Option<bool>,
    pub identities: Vec<IdentityClaim>,
    pub generation: Generation,
}

#[derive(Debug, Clone, Copy, PartialEq, Eq, Hash, Structural)]
pub enum StorageEdgeKind {
    ContainsPartition,
    BackedBy,
    MemberOf,
}

#[derive(Debug, Clone, PartialEq, Eq)]
pub struct StorageEdge {
    pub from: String,
    pub to: String,
    pub kind: StorageEdgeKind,
}

#[derive(Debug, Clone, PartialEq, Eq)]
pub enum GraphViolation {
    DuplicateNode(String),
    DanglingEdge { from: String, to: String },
    PartitionContainsNode(String),
}

/// A graph violation with its names taken as text.
pub enum GraphViolationView {
    DuplicateNode(Seq<char>),
    DanglingEdge { from: Seq<char>, to: Seq<char> },
    PartitionContainsNode(Seq<char>),
}

impl View for GraphViolation {
    type V = GraphViolationView;

    open spec fn view(&self) -> GraphViolationView {
        match self {
            GraphViolation::DuplicateNode(id) => GraphViolationView::DuplicateNode(id@),
            GraphViolation::DanglingEdge { from, to } => GraphViolationView::DanglingEdge {
                from: from@,
                to: to@,
            },
            GraphViolation::PartitionContainsNode(id) => GraphViolationView::PartitionContainsNode(
                id@,
            ),
        }
    }
}

#[derive(Debug, Clone)]
pub struct StorageInventory {
    pub nodes: Vec<StorageNode>,
    pub edges: Vec<StorageEdge>,
    pub partial: bool,
}

#[derive(Debug, Clone, PartialEq, Eq)]
pub struct ThroughputSubject {
    pub name: String,
    pub dev_t: Option<(u32, u32)>,
    pub diskseq: Option<u64>,
}

/// The text of each string of `v`.
pub open spec fn string_views(v: Seq<String>) -> Seq<Seq<char>> {
    Seq::new(v.len(), |i: int| v[i]@)
}

/// Number of nodes of `nodes` that satisfy `p`.
pub open spec fn count_nodes(nodes: Seq<StorageNode>, p: spec_fn(StorageNode) -> bool) -> nat
    decreases nodes.len(),
{
    if nodes.len() == 0 {
        0
    } else {
        count_nodes(nodes.drop_last(), p) + if p(nodes.last()) {
            1nat
        } else {
            0nat
        }
    }
}

pub open spec fn is_whole_of_kind(kind: StorageKind) -> spec_fn(StorageNode) -> bool {
    |n: StorageNode| n.kind == kind && n.materialization != Materialization::Partition
}

pub open spec fn is_partition() -> spec_fn(StorageNode) -> bool {
    |n: StorageNode| n.materialization == Materialization::Partition
}

pub open spec fn is_virtual() -> spec_fn(StorageNode) -> bool {
    |n: StorageNode| n.materialization == Materialization::Virtual
}

pub open spec fn is_whole_block() -> spec_fn(StorageNode) -> bool {
    |n: StorageNode|
        n.materialization != Materialization::Partition && n.materialization
            != Materialization::Virtual
}

pub open spec fn is_removable() -> spec_fn(StorageNode) -> bool {
    |n: StorageNode| n.removable == Some(true)
}

/// Names of the whole block devices of `nodes`, in order.
pub open spec fn whole_names(nodes: Seq<StorageNode>) -> Seq<Seq<char>>
    decreases nodes.len(),
{
    if nodes.len() == 0 {
        Seq::empty()
    } else {
        let prior = whole_names(nodes.drop_last());
        if nodes.last().materialization == Materialization::BlockDevice {
            prior.push(nodes.last().name@)
        } else {
            prior
        }
    }
}

/// The whole block-device nodes of `nodes`, in order.
pub open spec fn block_device_nodes(nodes: Seq<StorageNode>) -> Seq<StorageNode>
    decreases nodes.len(),
{
    if nodes.len() == 0 {
        Seq::empty()
    } else {
        let prior = block_device_nodes(nodes.drop_last());
        if nodes.last().materialization == Materialization::BlockDevice {
            prior.push(nodes.last())
        } else {
            prior
        }
    }
}

/// Whether `t` is the throughput subject of node `n`: its name and the
/// generation it had when discovered.
pub open spec fn subject_of_node(t: ThroughputSubject, n: StorageNode) -> bool {
    t.name@ == n.name@ && t.dev_t == n.generation.dev_t && t.diskseq == n.generation.diskseq
}

/// The generation of the last node of `nodes` whose id is `id`, if any.
pub open spec fn last_generation(nodes: Seq<StorageNode>, id: Seq<char>) -> Option<Generation>
    decreases nodes.len(),
{
    if nodes.len() == 0 {
        None
    } else if nodes.last().id@ == id {
        Some(nodes.last().generation)
    } else {
        last_generation(nodes.drop_last(), id)
    }
}

/// Names of the nodes of `next` whose id is known in `current` under another
/// generation, in the order of `next`.
pub open spec fn replaced_names(current: Seq<StorageNode>, next: Seq<StorageNode>) -> Seq<
    Seq<char>,
>
    decreases next.len(),
{
    if next.len() == 0 {
        Seq::empty()
    } else {
        let prior = replaced_names(current, next.drop_last());
        let node = next.last();
        if last_generation(current, node.id@) matches Some(g) && g != node.generation {
            prior.push(node.name@)
        } else {
            prior
        }
    }
}

/// One step along an edge of the topology.
pub open spec fn edge_step(edges: Seq<StorageEdge>, a: Seq<char>, b: Seq<char>) -> bool {
    exists|i: int| 0 <= i < edges.len() && #[trigger] edges[i].from@ == a && edges[i].to@ == b
}

/// `p` is a walk along edges from `p[0]` to `p.last()`.
pub open spec fn is_walk(edges: Seq<StorageEdge>, p: Seq<Seq<char>>) -> bool {
    &&& p.len() >= 1
    &&& forall|k: int| 0 <= k < p.len() - 1 ==> edge_step(edges, #[trigger] p[k], p[k + 1])
}

/// `to` can be reached from `from` by following zero or more edges.
pub open spec fn reachable(edges: Seq<StorageEdge>, from: Seq<char>, to: Seq<char>) -> bool {
    exists|p: Seq<Seq<char>>| #[trigger] is_walk(edges, p) && p[0] == from && p.last() == to
}

/// Ids of the first `n` nodes.
pub open spec fn node_ids(nodes: Seq<StorageNode>) -> Seq<Seq<char>> {
    Seq::new(nodes.len(), |i: int| nodes[i].id@)
}

/// Index of a node whose id equals an earlier node's id, scanning in order.
pub open spec fn has_duplicate_before(nodes: Seq<StorageNode>, i: int) -> bool {
    exists|j: int| 0 <= j < i && nodes[j].id@ == nodes[i].id@
}

/// The first structural violation of a topology, if any: duplicate node
/// ids first, then the edges in order.
pub open spec fn first_violation(nodes: Seq<StorageNode>, edges: Seq<StorageEdge>) -> Option<
    GraphViolationView,
> {
    if exists|i: int| 0 <= i < nodes.len() && has_duplicate_before(nodes, i) {
        let i = choose|i: int|
            0 <= i < nodes.len() && has_duplicate_before(nodes, i) && forall|k: int|
                0 <= k < i ==> !has_duplicate_before(nodes, k);
        Some(GraphViolationView::DuplicateNode(nodes[i].id@))
    } else {
        first_edge_violation(nodes, edges, 0)
    }
}

/// The first violation among the edges from index `e` on.
pub open spec fn first_edge_violation(
    nodes: Seq<StorageNode>,
    edges: Seq<StorageEdge>,
    e: int,
) -> Option<GraphViolationView>
    decreases edges.len() - e,
{
    if e < 0 || e >= edges.len() {
        None
    } else {
        let edge = edges[e];
        let ids = node_ids(nodes);
        if !ids.contains(edge.from@) || !ids.contains(edge.to@) {
            Some(GraphViolationView::DanglingEdge { from: edge.from@, to: edge.to@ })
        } else {
            let from = nodes[node_with_id(nodes, edge.from@)];
            if from.materialization == Materialization::Partition && edge.kind
                == StorageEdgeKind::ContainsPartition {
                Some(GraphViolationView::PartitionContainsNode(from.id@))
            } else {
                first_edge_violation(nodes, edges, e + 1)
            }
        }
    }
}

/// Index of a node whose id is `id`.
pub open spec fn node_with_id(nodes: Seq<StorageNode>, id: Seq<char>) -> int {
    choose|k: int| 0 <= k < nodes.len() && nodes[k].id@ == id
}

/// Number of edges whose target is not in `visited`.
pub open spec fn unvisited_targets(edges: Seq<StorageEdge>, visited: Seq<Seq<char>>) -> nat
    decreases edges.len(),
{
    if edges.len() == 0 {
        0
    } else {
        unvisited_targets(edges.drop_last(), visited) + if visited.contains(edges.last().to@) {
            0nat
        } else {
            1nat
        }
    }
}

proof fn lemma_unvisited_shrinks(edges: Seq<StorageEdge>, visited: Seq<Seq<char>>, x: Seq<char>)
    ensures
        unvisited_targets(edges, visited.push(x)) <= unvisited_targets(edges, visited),
        !visited.contains(x) && (exists|i: int| 0 <= i < edges.len() && edges[i].to@ == x)
            ==> unvisited_targets(edges, visited.push(x)) < unvisited_targets(edges, visited),
    decreases edges.len(),
{
    if edges.len() > 0 {
        let rest = edges.drop_last();
        lemma_unvisited_shrinks(rest, visited, x);
        assert forall|y: Seq<char>| visited.contains(y) implies visited.push(x).contains(y) by {
            let k = choose|k: int| 0 <= k < visited.len() && visited[k] == y;
            assert(visited.push(x)[k] == y);
        }
        assert(visited.push(x)[visited.len() as int] == x);
        if !visited.contains(x) && (exists|i: int| 0 <= i < edges.len() && edges[i].to@ == x) {
            let i = choose|i: int| 0 <= i < edges.len() && edges[i].to@ == x;
            if i < edges.len() - 1 {
                assert(rest[i] == edges[i]);
            }
        }
    }
}

proof fn lemma_walk_extend(edges: Seq<StorageEdge>, p: Seq<Seq<char>>, j: int)
    requires
        is_walk(edges, p),
        0 <= j < edges.len(),
        edges[j].from@ == p.last(),
    ensures
        is_walk(edges, p.push(edges[j].to@)),
        p.push(edges[j].to@)[0] == p[0],
{
    let q = p.push(edges[j].to@);
    assert forall|k: int| 0 <= k < q.len() - 1 implies edge_step(edges, #[trigger] q[k], q[k + 1]) by {
        if k < p.len() - 1 {
            assert(q[k] == p[k] && q[k + 1] == p[k + 1]);
        } else {
            assert(q[k] == p.last());
            assert(edges[j].from@ == q[k] && edges[j].to@ == q[k + 1]);
        }
    }
}

proof fn lemma_closed_contains_reachable(
    edges: Seq<StorageEdge>,
    visited: Seq<Seq<char>>,
    p: Seq<Seq<char>>,
    k: int,
)
    requires
        is_walk(edges, p),
        visited.contains(p[0]),
        0 <= k < p.len(),
        forall|i: int|
            0 <= i < edges.len() && visited.contains(#[trigger] edges[i].from@) ==> visited.contains(
                edges[i].to@,
            ),
    ensures
        visited.contains(p[k]),
    decreases k,
{
    if k > 0 {
        lemma_closed_contains_reachable(edges, visited, p, k - 1);
        assert(edge_step(edges, p[k - 1], p[k]));
        let i = choose|i: int|
            0 <= i < edges.len() && #[trigger] edges[i].from@ == p[k - 1] && edges[i].to@ == p[k];
    }
}

fn contains_text(v: &Vec<String>, s: &String) -> (r: bool)
    ensures
        r == string_views(v@).contains(s@),
{
    let mut i: usize = 0;
    while i < v.len()
        invariant
            i <= v@.len(),
            forall|k: int| 0 <= k < i ==> v@[k]@ != s@,
        decreases v@.len() - i,
    {
        if v[i] == *s {
            assert(string_views(v@)[i as int] == s@);
            return true;
        }
        i = i + 1;
    }
    proof {
        if string_views(v@).contains(s@) {
            let k = choose|k: int| 0 <= k < string_views(v@).len() && string_views(v@)[k] == s@;
            assert(v@[k]@ == s@);
        }
    }
    false
}

impl Default for StorageInventory {
    /// An empty, complete inventory.
    fn default() -> (r: StorageInventory)
        ensures
            r.nodes@.len() == 0,
            r.edges@.len() == 0,
            !r.partial,
    {
        StorageInventory { nodes: Vec::new(), edges: Vec::new(), partial: false }
    }
}

impl StorageInventory {

    /// Names (in the order of `next`) of the devices of `next` that `self`
    /// knows under the same id but another generation: replaced incarnations.
    pub fn replaced_device_names(&self, next: &StorageInventory) -> (r: Vec<String>)
        ensures
            string_views(r@) == replaced_names(self.nodes@, next.nodes@),
    {
        let mut result: Vec<String> = Vec::new();
        let mut i: usize = 0;
        while i < next.nodes.len()
            invariant
                i <= next.nodes@.len(),
                string_views(result@) == replaced_names(self.nodes@, next.nodes@.take(i as int)),
            decreases next.nodes@.len() - i,
        {
            let node = &next.nodes[i];
            let current = self.last_generation_of(&node.id);
            assert(next.nodes@.take(i + 1).drop_last() =~= next.nodes@.take(i as int));
            match current {
                Some(generation) => {
                    if !generation.same_as(&node.generation) {
                        result.push(node.name.clone());
                    }
                },
                None => {},
            }
            assert(string_views(result@) =~= replaced_names(
                self.nodes@,
                next.nodes@.take(i + 1),
            ));
            i = i + 1;
        }
        assert(next.nodes@.take(next.nodes@.len() as int) =~= next.nodes@);
        result
    }

    fn last_generation_of(&self, id: &String) -> (r: Option<Generation>)
        ensures
            r == last_generation(self.nodes@, id@),
    {
        let mut found: Option<Generation> = None;
        let mut i: usize = 0;
        while i < self.nodes.len()
            invariant
                i <= self.nodes@.len(),
                found == last_generation(self.nodes@.take(i as int), id@),
            decreases self.nodes@.len() - i,
        {
            assert(self.nodes@.take(i + 1).drop_last() =~= self.nodes@.take(i as int));
            if self.nodes[i].id == *id {
                found = Some(self.nodes[i].generation);
            }
            i = i + 1;
        }
        assert(self.nodes@.take(self.nodes@.len() as int) =~= self.nodes@);
        found
    }

    /// Atomically publish a newly discovered topology generation. A completely
    /// empty partial snapshot means discovery itself failed, so the last
    /// known graph is kept and marked partial instead of reporting every
    /// device gone.
    pub fn reconcile(&mut self, next: StorageInventory)
        ensures
            (next.partial && next.nodes@.len() == 0 && old(self).nodes@.len() != 0) ==> (
            final(self).nodes@ == old(self).nodes@ && final(self).edges@ == old(self).edges@
                && final(self).partial),
            !(next.partial && next.nodes@.len() == 0 && old(self).nodes@.len() != 0) ==> *final(self) == next,
    {
        if next.partial && next.nodes.len() == 0 && self.nodes.len() != 0 {
            self.partial = true;
            return ;
        }
        *self = next;
    }

    fn count_matching(&self, kind: StorageKind, selector: u8) -> (r: usize)
        requires
            selector < 5,
        ensures
            r == count_nodes(
                self.nodes@,
                if selector == 0 {
                    is_whole_of_kind(kind)
                } else if selector == 1 {
                    is_partition()
                } else if selector == 2 {
                    is_virtual()
                } else if selector == 3 {
                    is_whole_block()
                } else {
                    is_removable()
                },
            ),
    {
        let ghost p = if selector == 0 {
            is_whole_of_kind(kind)
        } else if selector == 1 {
            is_partition()
        } else if selector == 2 {
            is_virtual()
        } else if selector == 3 {
            is_whole_block()
        } else {
            is_removable()
        };
        let mut count: usize = 0;
        let mut i: usize = 0;
        while i < self.nodes.len()
            invariant
                i <= self.nodes@.len(),
                count <= i,
                count == count_nodes(self.nodes@.take(i as int), p),
                selector < 5,
                p == (if selector == 0 {
                    is_whole_of_kind(kind)
                } else if selector == 1 {
                    is_partition()
                } else if selector == 2 {
                    is_virtual()
                } else if selector == 3 {
                    is_whole_block()
                } else {
                    is_removable()
                }),
            decreases self.nodes@.len() - i,
        {
            let node = &self.nodes[i];
            let m = node.materialization;
            let hit = if selector == 0 {
                node.kind == kind && m != Materialization::Partition
            } else if selector == 1 {
                m == Materialization::Partition
            } else if selector == 2 {
                m == Materialization::Virtual
            } else if selector == 3 {
                m != Materialization::Partition && m != Materialization::Virtual
            } else {
                node.removable == Some(true)
            };
            assert(self.nodes@.take(i + 1).drop_last() =~= self.nodes@.take(i as int));
            assert(hit == p(self.nodes@[i as int]));
            if hit {
                count = count + 1;
            }
            i = i + 1;
        }
        assert(self.nodes@.take(self.nodes@.len() as int) =~= self.nodes@);
        count
    }

    /// Whole (non-partition) nodes of the given protocol kind.
    pub fn count_whole_kind(&self, kind: StorageKind) -> (r: usize)
        ensures
            r == count_nodes(self.nodes@, is_whole_of_kind(kind)),
    {
        self.count_matching(kind, 0)
    }

    /// Partition nodes.
    pub fn partition_count(&self) -> (r: usize)
        ensures
            r == count_nodes(self.nodes@, is_partition()),
    {
        self.count_matching(StorageKind::Other, 1)
    }

    /// Virtual nodes.
    pub fn virtual_count(&self) -> (r: usize)
        ensures
            r == count_nodes(self.nodes@, is_virtual()),
    {
        self.count_matching(StorageKind::Other, 2)
    }

    /// Nodes that are neither partitions nor virtual.
    pub fn whole_block_count(&self) -> (r: usize)
        ensures
            r == count_nodes(self.nodes@, is_whole_block()),
    {
        self.count_matching(StorageKind::Other, 3)
    }

    /// Nodes known to be removable.
    pub fn removable_count(&self) -> (r: usize)
        ensures
            r == count_nodes(self.nodes@, is_removable()),
    {
        self.count_matching(StorageKind::Other, 4)
    }

    /// Names of the whole block devices, in inventory order.
    pub fn whole_device_names(&self) -> (r: Vec<String>)
        ensures
            string_views(r@) == whole_names(self.nodes@),
    {
        let mut names: Vec<String> = Vec::new();
        let mut i: usize = 0;
        while i < self.nodes.len()
            invariant
                i <= self.nodes@.len(),
                string_views(names@) == whole_names(self.nodes@.take(i as int)),
            decreases self.nodes@.len() - i,
        {
            assert(self.nodes@.take(i + 1).drop_last() =~= self.nodes@.take(i as int));
            if self.nodes[i].materialization == Materialization::BlockDevice {
                names.push(self.nodes[i].name.clone());
            }
            assert(string_views(names@) =~= whole_names(self.nodes@.take(i + 1)));
            i = i + 1;
        }
        assert(self.nodes@.take(self.nodes@.len() as int) =~= self.nodes@);
        names
    }

    /// The throughput subject of every whole block device, in inventory order:
    /// its name with the generation it had when discovered.
    pub fn throughput_subjects(&self) -> (r: Vec<ThroughputSubject>)
        ensures
            string_views(Seq::new(r@.len(), |k: int| r@[k].name)) == whole_names(self.nodes@),
            r@.len() == block_device_nodes(self.nodes@).len(),
            forall|k: int|
                0 <= k < r@.len() ==> subject_of_node(
                    #[trigger] r@[k],
                    block_device_nodes(self.nodes@)[k],
                ),
    {
        let mut subjects: Vec<ThroughputSubject> = Vec::new();
        let mut i: usize = 0;
        while i < self.nodes.len()
            invariant
                i <= self.nodes@.len(),
                string_views(Seq::new(subjects@.len(), |k: int| subjects@[k].name)) == whole_names(
                    self.nodes@.take(i as int),
                ),
                subjects@.len() == block_device_nodes(self.nodes@.take(i as int)).len(),
                forall|k: int|
                    0 <= k < subjects@.len() ==> subject_of_node(
                        #[trigger] subjects@[k],
                        block_device_nodes(self.nodes@.take(i as int))[k],
                    ),
            decreases self.nodes@.len() - i,
        {
            assert(self.nodes@.take(i + 1).drop_last() =~= self.nodes@.take(i as int));
            let node = &self.nodes[i];
            if node.materialization == Materialization::BlockDevice {
                subjects.push(
                    ThroughputSubject {
                        name: node.name.clone(),
                        dev_t: node.generation.dev_t,
                        diskseq: node.generation.diskseq,
                    },
                );
            }
            assert(string_views(Seq::new(subjects@.len(), |k: int| subjects@[k].name))
                =~= whole_names(self.nodes@.take(i + 1)));
            i = i + 1;
        }
        assert(self.nodes@.take(self.nodes@.len() as int) =~= self.nodes@);
        subjects
    }

    /// Every name reachable from `start` along edges (including `start`),
    /// each once. Terminates on cyclic graphs.
    pub fn reachable_from(&self, start: &str) -> (r: Vec<String>)
        ensures
            forall|x: Seq<char>|
                string_views(r@).contains(x) <==> reachable(self.edges@, start@, x),
            forall|i: int, j: int|
                0 <= i < j < r@.len() ==> #[trigger] r@[i]@ != #[trigger] r@[j]@,
    {
        let edges = &self.edges;
        let mut visited: Vec<String> = Vec::new();
        visited.push(String::from_str(start));
        proof {
            let p = seq![start@];
            assert(is_walk(edges@, p));
            assert(string_views(visited@) =~= seq![start@]);
            assert(string_views(visited@)[0] == start@);
            assert(reachable(edges@, start@, start@));
        }
        let mut changed = true;
        while changed
            invariant
                string_views(visited@).contains(start@),
                forall|x: Seq<char>| #[trigger]
                    string_views(visited@).contains(x) ==> reachable(edges@, start@, x),
                forall|i: int, j: int|
                    0 <= i < j < visited@.len() ==> #[trigger] visited@[i]@
                        != #[trigger] visited@[j]@,
                !changed ==> forall|i: int|
                    0 <= i < edges@.len() && string_views(visited@).contains(
                        #[trigger] edges@[i].from@,
                    ) ==> string_views(visited@).contains(edges@[i].to@),
            decreases unvisited_targets(edges@, string_views(visited@)) + if changed {
                1nat
            } else {
                0nat
            },
        {
            let ghost at_start = string_views(visited@);
            let mut added = false;
            let mut j: usize = 0;
            while j < edges.len()
                invariant
                    j <= edges@.len(),
                    string_views(visited@).contains(start@),
                    forall|x: Seq<char>| #[trigger]
                        string_views(visited@).contains(x) ==> reachable(edges@, start@, x),
                    forall|i: int, k: int|
                        0 <= i < k < visited@.len() ==> #[trigger] visited@[i]@
                            != #[trigger] visited@[k]@,
                    !added ==> string_views(visited@) == at_start,
                    !added ==> forall|i: int|
                        0 <= i < j && string_views(visited@).contains(#[trigger] edges@[i].from@)
                            ==> string_views(visited@).contains(edges@[i].to@),
                    added ==> unvisited_targets(edges@, string_views(visited@)) < unvisited_targets(
                        edges@,
                        at_start,
                    ),
                    !added ==> unvisited_targets(edges@, string_views(visited@)) == unvisited_targets(
                        edges@,
                        at_start,
                    ),
                decreases edges@.len() - j,
            {
                let edge = &edges[j];
                let from_seen = contains_text(&visited, &edge.from);
                let to_seen = contains_text(&visited, &edge.to);
                if from_seen && !to_seen {
                    let ghost before = string_views(visited@);
                    let ghost w = choose|p: Seq<Seq<char>>| #[trigger]
                        is_walk(edges@, p) && p[0] == start@ && p.last() == edges@[j as int].from@;
                    let ghost q = w.push(edges@[j as int].to@);
                    proof {
                        lemma_walk_extend(edges@, w, j as int);
                        assert(is_walk(edges@, q) && q[0] == start@ && q.last() == edges@[j as int].to@);
                        assert(reachable(edges@, start@, edges@[j as int].to@));
                        lemma_unvisited_shrinks(edges@, before, edges@[j as int].to@);
                    }
                    visited.push(edge.to.clone());
                    proof {
                        assert(string_views(visited@) =~= before.push(edges@[j as int].to@));
                        assert forall|x: Seq<char>| #[trigger]
                            string_views(visited@).contains(x) implies reachable(edges@, start@, x) by {
                            if x != edges@[j as int].to@ {
                                let k = choose|k: int|
                                    0 <= k < string_views(visited@).len() && string_views(visited@)[k] == x;
                                assert(before[k] == x);
                                assert(before.contains(x));
                            }
                        }
                        let sv = string_views(visited@);
                        let k0 = choose|k: int| 0 <= k < before.len() && before[k] == start@;
                        assert(sv[k0] == start@);
                        assert forall|a: int, b: int|
                            0 <= a < b < visited@.len() implies #[trigger] visited@[a]@
                            != #[trigger] visited@[b]@ by {
                            if b == visited@.len() - 1 {
                                assert(before[a] == visited@[a]@);
                            }
                        }
                    }
                    added = true;
                } else {
                    proof {
                        if !added && string_views(visited@).contains(edges@[j as int].from@) {
                            assert(to_seen);
                        }
                    }
                }
                j = j + 1;
            }
            changed = added;
        }
        proof {
            assert forall|x: Seq<char>| reachable(edges@, start@, x) implies string_views(
                visited@,
            ).contains(x) by {
                let p = choose|p: Seq<Seq<char>>| #[trigger]
                    is_walk(edges@, p) && p[0] == start@ && p.last() == x;
                lemma_closed_contains_reachable(edges@, string_views(visited@), p, p.len() - 1);
            }
        }
        visited
    }

    /// Checks that node ids are unique, that every edge joins two known
    /// nodes, and that no partition is said to contain another node.
    pub fn validate(&self) -> (r: Result<(), GraphViolation>)
        ensures
            r is Ok <==> first_violation(self.nodes@, self.edges@) is None,
            r matches Err(v) ==> first_violation(self.nodes@, self.edges@) == Some(v@),
    {
        let mut ids: Vec<String> = Vec::new();
        let mut i: usize = 0;
        while i < self.nodes.len()
            invariant
                i <= self.nodes@.len(),
                string_views(ids@) =~= node_ids(self.nodes@.take(i as int)),
                forall|k: int| 0 <= k < i ==> !has_duplicate_before(self.nodes@, k),
            decreases self.nodes@.len() - i,
        {
            let id = &self.nodes[i].id;
            if contains_text(&ids, id) {
                proof {
                    let j = choose|j: int|
                        0 <= j < string_views(ids@).len() && string_views(ids@)[j] == id@;
                    assert(self.nodes@[j].id@ == id@);
                    assert(has_duplicate_before(self.nodes@, i as int));
                    assert(0 <= i < self.nodes@.len() && has_duplicate_before(self.nodes@, i as int)
                        && forall|k: int| 0 <= k < i ==> !has_duplicate_before(self.nodes@, k));
                    let c = choose|c: int|
                        0 <= c < self.nodes@.len() && has_duplicate_before(self.nodes@, c)
                            && forall|k: int| 0 <= k < c ==> !has_duplicate_before(self.nodes@, k);
                    assert(c == i);
                }
                return Err(GraphViolation::DuplicateNode(id.clone()));
            }
            proof {
                assert forall|j: int| 0 <= j < i implies self.nodes@[j].id@ != self.nodes@[i as int].id@ by {
                    assert(string_views(ids@)[j] == self.nodes@[j].id@);
                }
            }
            let ghost before = ids@;
            ids.push(id.clone());
            proof {
                assert(ids@ == before.push(*id));
                assert forall|k: int| 0 <= k < i + 1 implies string_views(ids@)[k] == node_ids(
                    self.nodes@.take(i + 1),
                )[k] by {
                    if k < i {
                        assert(string_views(before)[k] == node_ids(self.nodes@.take(i as int))[k]);
                    }
                }
                assert(string_views(ids@) =~= node_ids(self.nodes@.take(i + 1)));
            }
            i = i + 1;
        }
        assert(self.nodes@.take(self.nodes@.len() as int) =~= self.nodes@);
        assert(string_views(ids@) =~= node_ids(self.nodes@));
        let mut e: usize = 0;
        while e < self.edges.len()
            invariant
                e <= self.edges@.len(),
                string_views(ids@) == node_ids(self.nodes@),
                ids@.len() == self.nodes@.len(),
                forall|k: int| 0 <= k < self.nodes@.len() ==> !has_duplicate_before(self.nodes@, k),
                first_violation(self.nodes@, self.edges@) == first_edge_violation(
                    self.nodes@,
                    self.edges@,
                    e as int,
                ),
            decreases self.edges@.len() - e,
        {
            let edge = &self.edges[e];
            let from_index = index_of_text(&ids, &edge.from);
            let to_index = index_of_text(&ids, &edge.to);
            match (from_index, to_index) {
                (Some(f), Some(t)) => {
                    proof {
                        assert(string_views(ids@)[f as int] == self.nodes@[f as int].id@);
                        assert(node_ids(self.nodes@)[f as int] == edge.from@);
                        assert(node_ids(self.nodes@)[t as int] == edge.to@);
                        lemma_unique_choice(self.nodes@, f as int, edge.from@);
                        assert(node_ids(self.nodes@).contains(edge.from@));
                        assert(node_ids(self.nodes@).contains(edge.to@));
                    }
                    let from = &self.nodes[f];
                    if from.materialization == Materialization::Partition && edge.kind
                        == StorageEdgeKind::ContainsPartition {
                        assert(first_edge_violation(self.nodes@, self.edges@, e as int) == Some(
                            GraphViolationView::PartitionContainsNode(from.id@),
                        ));
                        return Err(GraphViolation::PartitionContainsNode(from.id.clone()));
                    }
                    assert(first_edge_violation(self.nodes@, self.edges@, e as int)
                        == first_edge_violation(self.nodes@, self.edges@, e + 1));
                },
                _ => {
                    return Err(
                        GraphViolation::DanglingEdge { from: edge.from.clone(), to: edge.to.clone() },
                    );
                },
            }
            e = e + 1;
        }
        let mut n: usize = 0;
        while n < self.nodes.len()
            invariant
                n <= self.nodes@.len(),
            decreases self.nodes@.len() - n,
        {
            let _ = self.reachable_from(self.nodes[n].id.as_str());
            n = n + 1;
        }
        Ok(())
    }
}

proof fn lemma_unique_choice(nodes: Seq<StorageNode>, f: int, id: Seq<char>)
    requires
        0 <= f < nodes.len(),
        nodes[f].id@ == id,
        forall|k: int| 0 <= k < nodes.len() ==> !has_duplicate_before(nodes, k),
    ensures
        node_with_id(nodes, id) == f,
{
    let g = node_with_id(nodes, id);
    if g != f {
        if g < f {
            assert(has_duplicate_before(nodes, f));
        } else {
            assert(has_duplicate_before(nodes, g));
        }
    }
}

fn index_of_text(v: &Vec<String>, s: &String) -> (r: Option<usize>)
    ensures
        r is None <==> !string_views(v@).contains(s@),
        r matches Some(i) ==> i < v@.len() && v@[i as int]@ == s@,
{
    let mut i: usize = 0;
    while i < v.len()
        invariant
            i <= v@.len(),
            forall|k: int| 0 <= k < i ==> v@[k]@ != s@,
        decreases v@.len() - i,
    {
        if v[i] == *s {
            assert(string_views(v@)[i as int] == s@);
            return Some(i);
        }
        i = i + 1;
    }
    proof {
        if string_views(v@).contains(s@) {
            let k = choose|k: int| 0 <= k < string_views(v@).len() && string_views(v@)[k] == s@;
            assert(v@[k]@ == s@);
        }
    }
    None
}

/// Protocol kind suggested by a block-class name.
pub open spec fn kind_of_name(name: Seq<char>) -> StorageKind {
    if has_prefix(name, "nvme"@) {
        StorageKind::Nvme
    } else if has_prefix(name, "mmcblk"@) {
        StorageKind::Mmc
    } else if has_prefix(name, "md"@) {
        StorageKind::MdRaid
    } else if has_prefix(name, "dm-"@) {
        StorageKind::DeviceMapper
    } else if has_prefix(name, "sd"@) || has_prefix(name, "hd"@) {
        StorageKind::ScsiLike
    } else if has_prefix(name, "loop"@) || has_prefix(name, "ram"@) || has_prefix(name, "zram"@)
        || has_prefix(name, "nbd"@) || has_prefix(name, "vd"@) || has_prefix(name, "xvd"@)
        || has_prefix(name, "ublk"@) {
        StorageKind::Virtual
    } else {
        StorageKind::Other
    }
}

/// Protocol kind suggested by a block-class name. Names say nothing about
/// the physical medium.
pub fn classify(name: &str) -> (k: StorageKind)
    ensures
        k == kind_of_name(name@),
{
    if starts_with(name, "nvme") {
        StorageKind::Nvme
    } else if starts_with(name, "mmcblk") {
        StorageKind::Mmc
    } else if starts_with(name, "md") {
        StorageKind::MdRaid
    } else if starts_with(name, "dm-") {
        StorageKind::DeviceMapper
    } else if starts_with(name, "sd") || starts_with(name, "hd") {
        StorageKind::ScsiLike
    } else if starts_with(name, "loop") || starts_with(name, "ram") || starts_with(name, "zram")
        || starts_with(name, "nbd") || starts_with(name, "vd") || starts_with(name, "xvd")
        || starts_with(name, "ublk") {
        StorageKind::Virtual
    } else {
        StorageKind::Other
    }
}

} // verus!
