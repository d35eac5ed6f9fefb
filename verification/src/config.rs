//! The daemon's configuration: the plugins to load, the control socket,
//! and the graph of engines that serves each subscription.

use vstd::prelude::*;
use crate::interface::EngineType;

verus! {

/// An engine of the graph.
#[derive(Clone, Debug)]
pub struct Node {
    pub id: String,
    pub engine_type: EngineType,
}

/// The edges of the graph, as paths of node ids: consecutive ids of a path
/// are connected, in the sending direction for `egress` and in the
/// receiving direction for `ingress`.
#[derive(Clone, Debug)]
pub struct Edges {
    pub egress: Vec<Vec<String>>,
    pub ingress: Vec<Vec<String>>,
}

/// Where the daemon listens for control requests.
#[derive(Clone, Debug)]
pub struct Control {
    pub prefix: String,
    pub path: String,
}

/// Settings of the RDMA transport.
#[derive(Clone, Debug)]
pub struct RdmaTransportConfig {
    pub prefix: String,
    pub engine_basename: String,
    pub datapath_wq_depth: usize,
    pub datapath_cq_depth: usize,
    pub command_max_interval_ms: u32,
}

/// The daemon's configuration.
#[derive(Clone, Debug)]
pub struct Config {
    pub log_env: String,
    pub default_log_level: String,
    pub modules: Vec<String>,
    pub control: Control,
    pub transport_rdma: Option<RdmaTransportConfig>,
    pub node: Vec<Node>,
    pub edges: Edges,
}

/// Which list of paths an id was found in.
#[derive(Clone, Copy, Debug, PartialEq, Eq, Structural, Hash)]
pub enum Direction {
    Egress,
    Ingress,
}

/// Why a configuration is refused.
#[derive(Clone, Copy, Debug, PartialEq, Eq, Structural, Hash)]
pub enum ConfigError {
    /// The node of this index has the id of an earlier node.
    DuplicateNode(usize),
    /// The id at position `hop` of path `path` is the id of no node.
    UnknownNode { direction: Direction, path: usize, hop: usize },
}

/// The ids of `nodes`, in order.
pub open spec fn ids_of(nodes: Seq<Node>) -> Seq<Seq<char>> {
    nodes.map_values(|n: Node| n.id@)
}

/// The ids of `paths`, path by path.
pub open spec fn ids_on(paths: Seq<Vec<String>>) -> Seq<Seq<Seq<char>>> {
    paths.map_values(|p: Vec<String>| p@.map_values(|s: String| s@))
}

/// Whether the first `n` ids are pairwise different.
pub open spec fn distinct_upto(ids: Seq<Seq<char>>, n: int) -> bool {
    forall|a: int, b: int| 0 <= a < b < n ==> ids[a] != ids[b]
}

/// Whether `id` is among `ids`.
pub open spec fn known(ids: Seq<Seq<char>>, id: Seq<char>) -> bool {
    exists|n: int| 0 <= n < ids.len() && ids[n] == id
}

/// Whether position (`path`, `hop`) comes before (`p`, `h`).
pub open spec fn before(path: int, hop: int, p: int, h: int) -> bool {
    path < p || (path == p && hop < h)
}

/// Whether every id of `paths` that comes before position (`p`, `h`) is
/// among `ids`.
pub open spec fn known_upto(ids: Seq<Seq<char>>, paths: Seq<Seq<Seq<char>>>, p: int, h: int) -> bool {
    forall|path: int, hop: int|
        0 <= path < paths.len() && 0 <= hop < paths[path].len() && before(path, hop, p, h)
            ==> known(ids, #[trigger] paths[path][hop])
}

/// Whether every id of `paths` is among `ids`.
pub open spec fn all_known(ids: Seq<Seq<char>>, paths: Seq<Seq<Seq<char>>>) -> bool {
    known_upto(ids, paths, paths.len() as int, 0)
}

/// Whether (`p`, `h`) is the first position of `paths` whose id is not
/// among `ids`.
pub open spec fn first_unknown(
    ids: Seq<Seq<char>>,
    paths: Seq<Seq<Seq<char>>>,
    p: int,
    h: int,
) -> bool {
    &&& 0 <= p < paths.len()
    &&& 0 <= h < paths[p].len()
    &&& !known(ids, paths[p][h])
    &&& known_upto(ids, paths, p, h)
}

/// Index of the node with id `id`, if there is one.
fn position(nodes: &Vec<Node>, id: &String) -> (res: Option<usize>)
    ensures
        match res {
            Some(n) => n < nodes.len() && nodes@[n as int].id@ == id@,
            None => !known(ids_of(nodes@), id@),
        },
{
    let mut n: usize = 0;
    while n < nodes.len()
        invariant
            n <= nodes.len(),
            forall|k: int| 0 <= k < n ==> (#[trigger] nodes@[k]).id@ != id@,
        decreases nodes.len() - n,
    {
        if nodes[n].id == *id {
            return Some(n);
        }
        n += 1;
    }
    proof {
        assert forall|k: int| 0 <= k < ids_of(nodes@).len() implies ids_of(nodes@)[k] != id@ by {
            assert(ids_of(nodes@)[k] == nodes@[k].id@);
        }
    }
    None
}

/// The first position of `paths` whose id no node has, if there is one.
fn find_unknown(nodes: &Vec<Node>, paths: &Vec<Vec<String>>) -> (res: Option<(usize, usize)>)
    ensures
        match res {
            Some((p, h)) => first_unknown(ids_of(nodes@), ids_on(paths@), p as int, h as int),
            None => all_known(ids_of(nodes@), ids_on(paths@)),
        },
{
    let ghost ids = ids_of(nodes@);
    let ghost all = ids_on(paths@);
    let mut p: usize = 0;
    while p < paths.len()
        invariant
            p <= paths.len(),
            ids == ids_of(nodes@),
            all == ids_on(paths@),
            known_upto(ids, all, p as int, 0),
        decreases paths.len() - p,
    {
        let path = &paths[p];
        let mut h: usize = 0;
        while h < path.len()
            invariant
                p < paths.len(),
                h <= path.len(),
                path == &paths@[p as int],
                ids == ids_of(nodes@),
                all == ids_on(paths@),
                known_upto(ids, all, p as int, h as int),
            decreases path.len() - h,
        {
            proof {
                assert(all[p as int] == path@.map_values(|s: String| s@));
                assert(all[p as int][h as int] == path@[h as int]@);
            }
            match position(nodes, &path[h]) {
                Some(n) => {
                    proof {
                        assert(ids[n as int] == nodes@[n as int].id@);
                        assert(known(ids, all[p as int][h as int]));
                    }
                },
                None => {
                    return Some((p, h));
                },
            }
            h += 1;
        }
        proof {
            assert(all[p as int].len() == path@.len());
            assert forall|path: int, hop: int|
                0 <= path < all.len() && 0 <= hop < all[path].len() && before(
                    path,
                    hop,
                    p + 1,
                    0,
                ) implies known(ids, #[trigger] all[path][hop]) by {
                assert(before(path, hop, p as int, h as int));
            }
        }
        p += 1;
    }
    None
}

impl Config {
    /// Whether the description of the graph is sound: the ids of the nodes
    /// are pairwise different, and every id of an edge path is the id of a
    /// node.
    pub open spec fn valid(&self) -> bool {
        let ids = ids_of(self.node@);
        &&& distinct_upto(ids, ids.len() as int)
        &&& all_known(ids, ids_on(self.edges.egress@))
        &&& all_known(ids, ids_on(self.edges.ingress@))
    }

    /// Checks the description of the graph.
    ///
    /// The first node that repeats an earlier id is reported; if there is
    /// none, the first id of an edge path that no node has, the paths of
    /// the sending direction before those of the receiving direction.
    pub fn validate(&self) -> (res: Result<(), ConfigError>)
        ensures
            res is Ok <==> self.valid(),
            res matches Err(ConfigError::DuplicateNode(j)) ==> {
                let ids = ids_of(self.node@);
                &&& j < ids.len()
                &&& distinct_upto(ids, j as int)
                &&& exists|i: int| 0 <= i < j && ids[i] == ids[j as int]
            },
            res matches Err(ConfigError::UnknownNode { direction, path, hop }) ==> {
                let ids = ids_of(self.node@);
                &&& distinct_upto(ids, ids.len() as int)
                &&& match direction {
                    Direction::Egress => first_unknown(
                        ids,
                        ids_on(self.edges.egress@),
                        path as int,
                        hop as int,
                    ),
                    Direction::Ingress => all_known(ids, ids_on(self.edges.egress@))
                        && first_unknown(ids, ids_on(self.edges.ingress@), path as int, hop as int),
                }
            },
    {
        let ghost ids = ids_of(self.node@);
        let mut j: usize = 0;
        while j < self.node.len()
            invariant
                j <= self.node.len(),
                ids == ids_of(self.node@),
                distinct_upto(ids, j as int),
            decreases self.node.len() - j,
        {
            let mut i: usize = 0;
            while i < j
                invariant
                    i <= j < self.node.len(),
                    ids == ids_of(self.node@),
                    distinct_upto(ids, j as int),
                    forall|k: int| 0 <= k < i ==> ids[k] != ids[j as int],
                decreases j - i,
            {
                proof {
                    assert(ids[i as int] == self.node@[i as int].id@);
                    assert(ids[j as int] == self.node@[j as int].id@);
                }
                if self.node[i].id == self.node[j].id {
                    return Err(ConfigError::DuplicateNode(j));
                }
                i += 1;
            }
            j += 1;
        }
        match find_unknown(&self.node, &self.edges.egress) {
            Some((path, hop)) => {
                return Err(ConfigError::UnknownNode { direction: Direction::Egress, path, hop });
            },
            None => {},
        }
        match find_unknown(&self.node, &self.edges.ingress) {
            Some((path, hop)) => {
                return Err(ConfigError::UnknownNode { direction: Direction::Ingress, path, hop });
            },
            None => {},
        }
        Ok(())
    }
}

} // verus!
