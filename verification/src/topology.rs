//! Building the graph of a subscription from its description: a vertex
//! for each node, and an edge for each two ids that follow one another on
//! a path.

use vstd::prelude::*;
use crate::config::{all_known, distinct_upto, ids_of, ids_on, known, Config, Node};
use crate::graph::{lemma_connected, Graph, GraphError, GraphView, VertexView};
use crate::ids::IdMint;
use crate::queue::EdgeState;

verus! {

/// The vertices of a graph are live and have the names `ids`, in order.
pub open spec fn spelled(g: GraphView, ids: Seq<Seq<char>>) -> bool {
    &&& g.vertices.len() == ids.len()
    &&& forall|w: int|
        0 <= w < ids.len() ==> (#[trigger] g.vertices[w]).name == ids[w] && g.vertices[w].live()
}

/// The vertices of a graph have the ids from `first` on, one after
/// another.
pub open spec fn numbered(g: GraphView, first: u64) -> bool {
    forall|w: int| 0 <= w < g.vertices.len() ==> (#[trigger] g.vertices[w]).id == first + w
}

/// The graph without edges that has a new vertex for each of `nodes`, in
/// order, the first with the id `first` and each next with the next id.
pub open spec fn populated(nodes: Seq<Node>, first: u64) -> GraphView
    decreases nodes.len(),
{
    if nodes.len() == 0 {
        GraphView { vertices: Seq::empty(), edges: Seq::empty() }
    } else {
        populated(nodes.drop_last(), first).added(
            (first + nodes.len() - 1) as u64,
            nodes.last().id@,
            nodes.last().engine_type.0@,
            0,
            0,
        )
    }
}

impl GraphView {
    /// The graph with a new edge for each two names that follow one
    /// another on `path`, from the vertex of the first name to the vertex
    /// of the second.
    pub open spec fn chained(self, path: Seq<Seq<char>>) -> GraphView
        decreases path.len(),
    {
        if path.len() < 2 {
            self
        } else {
            let g = self.chained(path.drop_last());
            g.connected(g.position(path[path.len() - 2]), g.position(path.last()))
        }
    }

    /// The graph with the edges of each of `paths`, one path after
    /// another.
    pub open spec fn linked(self, paths: Seq<Seq<Seq<char>>>) -> GraphView
        decreases paths.len(),
    {
        if paths.len() == 0 {
            self
        } else {
            self.linked(paths.drop_last()).chained(paths.last())
        }
    }
}

/// In a graph whose vertices are spelled `ids`, a name among `ids` is the
/// name of a live vertex.
proof fn lemma_spelled_has(g: GraphView, ids: Seq<Seq<char>>, name: Seq<char>)
    requires
        spelled(g, ids),
        known(ids, name),
    ensures
        g.has(name),
{
    let n = choose|n: int| 0 <= n < ids.len() && ids[n] == name;
    assert(g.named(n, name));
}

/// Adds the edges of one path.
fn chain(g: &mut Graph, path: &Vec<String>, Ghost(ids): Ghost<Seq<Seq<char>>>, Ghost(first): Ghost<u64>)
    requires
        old(g).wf(),
        spelled(old(g)@, ids),
        numbered(old(g)@, first),
        forall|k: int| 0 <= k < path@.len() ==> known(ids, (#[trigger] path@[k])@),
    ensures
        final(g).wf(),
        spelled(final(g)@, ids),
        numbered(final(g)@, first),
        final(g)@ == old(g)@.chained(path@.map_values(|s: String| s@)),
{
    let ghost names = path@.map_values(|s: String| s@);
    if path.len() < 2 {
        return ;
    }
    proof {
        lemma_spelled_has(g@, ids, path@[0]@);
        assert(names.take(1).len() < 2);
    }
    let mut prev = match g.position(&path[0]) {
        Some(w) => w,
        None => {
            proof {
                assert(false);
            }
            return ;
        },
    };
    let mut k: usize = 1;
    while k < path.len()
        invariant
            1 <= k <= path.len(),
            names == path@.map_values(|s: String| s@),
            g.wf(),
            spelled(g@, ids),
            numbered(g@, first),
            forall|i: int| 0 <= i < path@.len() ==> known(ids, (#[trigger] path@[i])@),
            g@ == old(g)@.chained(names.take(k as int)),
            g@.named(prev as int, names[k - 1]),
            g@.position(names[k - 1]) == prev,
        decreases path.len() - k,
    {
        proof {
            lemma_spelled_has(g@, ids, path@[k as int]@);
        }
        let cur = match g.position(&path[k]) {
            Some(w) => w,
            None => {
                proof {
                    assert(false);
                }
                return ;
            },
        };
        let ghost before = g@;
        g.connect(prev, cur);
        // The length is a machine number: this bounds the arena.
        let _bound = g.edges().len();
        proof {
            lemma_connected(before, prev as int, cur as int);
            let step = names.take(k + 1);
            assert(step.drop_last() =~= names.take(k as int));
            assert(step.last() == names[k as int]);
            assert(step[step.len() - 2] == names[k - 1]);
            assert(names[k as int] == path@[k as int]@);
            assert(g@ == old(g)@.chained(step));
            assert(before.has(names[k as int]));
            assert(g@.position(names[k as int]) == cur);
            assert(g@.vertices[cur as int].name == before.vertices[cur as int].name);
            assert(g@.vertices[cur as int].state == before.vertices[cur as int].state);
            assert forall|w: int| 0 <= w < ids.len() implies (#[trigger] g@.vertices[w]).name
                == ids[w] && g@.vertices[w].live() by {
                assert(before.vertices[w].name == ids[w]);
            }
            assert forall|w: int| 0 <= w < g@.vertices.len() implies (#[trigger] g@.vertices[w]).id
                == first + w by {
                assert(before.vertices[w].id == first + w);
            }
        }
        prev = cur;
        k += 1;
    }
    proof {
        assert(names.take(names.len() as int) =~= names);
    }
}

/// Adds the edges of each of `paths`.
fn link(g: &mut Graph, paths: &Vec<Vec<String>>, Ghost(ids): Ghost<Seq<Seq<char>>>, Ghost(first): Ghost<u64>)
    requires
        old(g).wf(),
        spelled(old(g)@, ids),
        numbered(old(g)@, first),
        all_known(ids, ids_on(paths@)),
    ensures
        final(g).wf(),
        spelled(final(g)@, ids),
        numbered(final(g)@, first),
        final(g)@ == old(g)@.linked(ids_on(paths@)),
{
    let ghost all = ids_on(paths@);
    let mut p: usize = 0;
    assert(all.take(0) =~= Seq::<Seq<Seq<char>>>::empty());
    while p < paths.len()
        invariant
            p <= paths.len(),
            all == ids_on(paths@),
            all_known(ids, all),
            g.wf(),
            spelled(g@, ids),
            numbered(g@, first),
            g@ == old(g)@.linked(all.take(p as int)),
        decreases paths.len() - p,
    {
        proof {
            assert(all[p as int] == paths@[p as int]@.map_values(|s: String| s@));
            assert forall|k: int| 0 <= k < paths@[p as int]@.len() implies known(
                ids,
                (#[trigger] paths@[p as int]@[k])@,
            ) by {
                assert(all[p as int][k] == paths@[p as int]@[k]@);
                assert(crate::config::before(p as int, k, all.len() as int, 0));
            }
            assert(all.take(p + 1).drop_last() =~= all.take(p as int));
            assert(all.take(p + 1).last() == all[p as int]);
        }
        chain(g, &paths[p], Ghost(ids), Ghost(first));
        p += 1;
    }
    proof {
        assert(all.take(all.len() as int) =~= all);
    }
}

/// Builds the graph that `config` describes.
///
/// Each node becomes a new vertex without slots, with the next engine id
/// of `mint`. Then each two ids that follow one another on a path are
/// connected by a new edge, the paths of the sending direction before
/// those of the receiving direction. A description that is not sound is
/// refused, and so is one with more nodes than ids are left.
pub fn from_config(config: &Config, mint: &mut IdMint) -> (res: Result<Graph, GraphError>)
    ensures
        old(mint).issued().subset_of(final(mint).issued()),
        match res {
            Ok(g) => {
                &&& config.valid()
                &&& g.wf()
                &&& g@ == populated(config.node@, old(mint).peek()).linked(
                    ids_on(config.edges.egress@),
                ).linked(ids_on(config.edges.ingress@))
                &&& final(mint).peek() == old(mint).peek() + config.node@.len()
                &&& g@.vertices.len() == config.node@.len()
                &&& numbered(g@, old(mint).peek())
            },
            Err(GraphError::Invalid(e)) => !config.valid() && final(mint).peek() == old(mint).peek(),
            Err(GraphError::OutOfIds) => config.valid() && old(mint).peek() + config.node@.len()
                > u64::MAX,
            Err(_) => false,
        },
{
    match config.validate() {
        Ok(()) => {},
        Err(e) => {
            return Err(GraphError::Invalid(e));
        },
    }
    let ghost ids = ids_of(config.node@);
    let ghost first = mint.peek();
    let mut g = Graph::new();
    let mut i: usize = 0;
    proof {
        assert(config.node@.take(0) =~= Seq::<Node>::empty());
        assert(g@ == populated(config.node@.take(0), first)) by {
            assert(g@.vertices =~= Seq::<VertexView>::empty());
            assert(g@.edges =~= Seq::<EdgeState>::empty());
        }
    }
    while i < config.node.len()
        invariant
            i <= config.node.len(),
            ids == ids_of(config.node@),
            distinct_upto(ids, ids.len() as int),
            config.valid(),
            first == old(mint).peek(),
            mint.peek() == first + i,
            old(mint).issued().subset_of(mint.issued()),
            g.wf(),
            g@ == populated(config.node@.take(i as int), first),
            g@.edges.len() == 0,
            spelled(g@, ids.take(i as int)),
            forall|w: int| 0 <= w < i ==> (#[trigger] g@.vertices[w]).id == first + w,
        decreases config.node.len() - i,
    {
        let id = match mint.mint() {
            Some(id) => id,
            None => {
                return Err(GraphError::OutOfIds);
            },
        };
        let node = &config.node[i];
        proof {
            assert(ids[i as int] == node.id@);
            if g@.has(node.id@) {
                let w = choose|w: int| g@.named(w, node.id@);
                assert(ids.take(i as int)[w] == ids[w]);
                assert(ids[w] != ids[i as int]);
            }
            assert(config.node@.take(i + 1).drop_last() =~= config.node@.take(i as int));
            assert(config.node@.take(i + 1).last() == *node);
        }
        let ghost before = g@;
        g.add_engine(id, node.id.clone(), node.engine_type.0.clone(), 0, 0);
        proof {
            assert(g@.edges =~= before.edges);
            assert forall|w: int| 0 <= w < i + 1 implies (#[trigger] g@.vertices[w]).name
                == ids.take(i + 1)[w] && g@.vertices[w].live() && g@.vertices[w].id == first
                + w by {
                if w < i {
                    assert(g@.vertices[w] == before.vertices[w]);
                    assert(ids.take(i as int)[w] == ids[w]);
                }
            }
        }
        i += 1;
    }
    proof {
        assert(config.node@.take(config.node@.len() as int) =~= config.node@);
        assert(ids.take(ids.len() as int) =~= ids);
    }
    link(&mut g, &config.edges.egress, Ghost(ids), Ghost(first));
    link(&mut g, &config.edges.ingress, Ghost(ids), Ghost(first));
    Ok(g)
}

} // verus!
