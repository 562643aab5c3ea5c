//! Data structures that describe a whole game to be visualized.

use crate::ledger::{is_recorded, History, OwnershipLedger};
use vstd::prelude::*;

verus! {

/// A single planet of the cluster.
#[derive(Clone, Copy, Debug, PartialEq, Eq)]
pub struct Planet {
    pub id: i32,
    /// Position in cluster space.
    pub position: (i32, i32),
}

/// An inferred proximity edge between two planets. The pair is unordered.
#[derive(Clone, Copy, Debug, PartialEq, Eq)]
pub struct Connection {
    pub id_a: i32,
    pub id_b: i32,
}

impl Connection {
    /// Whether this connection is the unordered pair `{a, b}`.
    pub open spec fn joins_spec(&self, a: i32, b: i32) -> bool {
        (self.id_a == a && self.id_b == b) || (self.id_a == b && self.id_b == a)
    }

    /// Whether this connection is the unordered pair `{a, b}`.
    #[verifier::when_used_as_spec(joins_spec)]
    pub fn joins(&self, a: i32, b: i32) -> (r: bool)
        ensures
            r == self.joins_spec(a, b),
    {
        (self.id_a == a && self.id_b == b) || (self.id_a == b && self.id_b == a)
    }
}

/// A cluster full of planets.
#[derive(Debug, PartialEq, Eq)]
pub struct Cluster {
    /// Width and height of the cluster.
    pub dimensions: (i32, i32),
    pub planets: Vec<Planet>,
    pub connections: Vec<Connection>,
}

/// The x coordinates of the planets, in order.
pub open spec fn planet_xs(planets: Seq<Planet>) -> Seq<int> {
    planets.map_values(|p: Planet| p.position.0 as int)
}

/// The y coordinates of the planets, in order.
pub open spec fn planet_ys(planets: Seq<Planet>) -> Seq<int> {
    planets.map_values(|p: Planet| p.position.1 as int)
}

/// No planet id occurs twice.
pub open spec fn distinct_planet_ids(planets: Seq<Planet>) -> bool {
    forall|i: int, j: int| 0 <= i < j < planets.len() ==> planets[i].id != planets[j].id
}

/// Whether a planet with this id is among the planets.
pub open spec fn has_planet(planets: Seq<Planet>, id: i32) -> bool {
    exists|i: int| 0 <= i < planets.len() && #[trigger] planets[i].id == id
}

/// Every connection refers to planets of the list.
pub open spec fn connections_refer_to(planets: Seq<Planet>, connections: Seq<Connection>) -> bool {
    forall|k: int|
        0 <= k < connections.len() ==> has_planet(planets, (#[trigger] connections[k]).id_a)
            && has_planet(planets, connections[k].id_b)
}

/// Every connection joins two different planets of the list, and no pair
/// is connected twice, in either direction.
pub open spec fn valid_connections(planets: Seq<Planet>, connections: Seq<Connection>) -> bool {
    &&& connections_refer_to(planets, connections)
    &&& forall|k: int| 0 <= k < connections.len() ==> (#[trigger] connections[k]).id_a != connections[k].id_b
    &&& forall|k: int, l: int|
        0 <= k < l < connections.len() ==> !(#[trigger] connections[k]).joins_spec(
            (#[trigger] connections[l]).id_a,
            connections[l].id_b,
        )
}

/// What a [`Cluster`] holds, with its lists as sequences.
pub struct ClusterView {
    pub dimensions: (i32, i32),
    pub planets: Seq<Planet>,
    pub connections: Seq<Connection>,
}

impl View for Cluster {
    type V = ClusterView;

    open spec fn view(&self) -> ClusterView {
        ClusterView {
            dimensions: self.dimensions,
            planets: self.planets@,
            connections: self.connections@,
        }
    }
}

impl Cluster {
    /// The planet ids are distinct and the connections are valid among them.
    pub open spec fn wf(&self) -> bool {
        distinct_planet_ids(self.planets@) && valid_connections(self.planets@, self.connections@)
    }
}

impl Clone for Cluster {
    fn clone(&self) -> (r: Self)
        ensures
            r@ == self@,
    {
        Cluster {
            dimensions: (self.dimensions.0, self.dimensions.1),
            planets: self.planets.clone(),
            connections: self.connections.clone(),
        }
    }
}

/// All that is needed to visualize a whole game. It is not changed once the
/// fetch loop has ended.
#[derive(Debug, PartialEq, Eq)]
pub struct Game {
    pub num_turns: i32,
    pub cluster: Cluster,
    /// For each planet, the owner of the planet on each turn.
    pub planet_to_owners: OwnershipLedger,
}

/// What a [`Game`] holds: the cluster's lists as sequences, the ledger as a
/// map from planet id to turn to owner id.
pub struct GameView {
    pub num_turns: i32,
    pub cluster: ClusterView,
    pub planet_to_owners: History,
}

impl View for Game {
    type V = GameView;

    open spec fn view(&self) -> GameView {
        GameView {
            num_turns: self.num_turns,
            cluster: self.cluster@,
            planet_to_owners: self.planet_to_owners@,
        }
    }
}

impl Game {
    /// The cluster is well formed, and owners are recorded only for the
    /// turns 1 to `num_turns`.
    pub open spec fn wf(&self) -> bool {
        &&& self.cluster.wf()
        &&& forall|planet: i32, turn: i32| #[trigger]
            is_recorded(self.planet_to_owners@, planet, turn) ==> 1 <= turn <= self.num_turns
    }
}

} // verus!
