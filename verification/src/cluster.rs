//! The cluster builder: from the first turn's planet records to a normalized
//! layout with inferred adjacency.

use crate::snapshot::{xs, ys, RawPlanet, TurnSnapshot};
use crate::state::{
    connections_refer_to, distinct_planet_ids, has_planet, planet_xs, planet_ys,
    valid_connections, Cluster,
    ClusterView, Connection, Planet,
};
use vstd::prelude::*;

verus! {

/// How a cluster is built from a snapshot.
#[derive(Clone, Copy, Debug, PartialEq, Eq)]
pub struct ClusterConfig {
    /// Move the planets so that the smallest x and the smallest y are 0,
    /// and take the bounding box as the dimensions.
    pub normalize: bool,
    /// Connect every pair of planets that lie close enough.
    pub infer_connections: bool,
    /// The square of the largest distance that still connects two planets.
    /// Positions are integers, so a real threshold `t` connects exactly the
    /// pairs whose squared distance is at most `floor(t * t)`.
    pub connection_threshold_sq: u64,
    /// Dimensions to use when `normalize` is off; without them the
    /// dimensions that the snapshot declares are taken.
    pub declared_dimensions: Option<(i32, i32)>,
}

/// The square of the default connection threshold, 81.
pub const DEFAULT_CONNECTION_THRESHOLD_SQ: u64 = 6561;

impl Default for ClusterConfig {
    fn default() -> (c: Self)
        ensures
            c.normalize,
            c.infer_connections,
            c.connection_threshold_sq == 81 * 81,
            c.declared_dimensions is None,
    {
        ClusterConfig {
            normalize: true,
            infer_connections: true,
            connection_threshold_sq: DEFAULT_CONNECTION_THRESHOLD_SQ,
            declared_dimensions: None,
        }
    }
}

/// The corner of the bounding box with the smallest coordinates;
/// `(0, 0)` where there is no record.
pub open spec fn origin(records: Seq<RawPlanet>) -> (int, int) {
    (xs(records).min(), ys(records).min())
}

/// Width and height of the bounding box; `(0, 0)` where there is no record.
pub open spec fn extent(records: Seq<RawPlanet>) -> (int, int) {
    (xs(records).max() - xs(records).min(), ys(records).max() - ys(records).min())
}

/// Whether the bounding box is small enough for normalized positions and
/// dimensions to be held in 32 bits.
pub open spec fn extent_fits(records: Seq<RawPlanet>) -> bool {
    extent(records).0 <= i32::MAX && extent(records).1 <= i32::MAX
}

/// The planets of the cluster built from `records`: the same ids in the same
/// order, each position moved by the origin where `normalize` is set.
pub open spec fn placed(records: Seq<RawPlanet>, normalize: bool) -> Seq<Planet> {
    Seq::new(
        records.len(),
        |i: int|
            Planet {
                id: records[i].id,
                position: if normalize {
                    (
                        (records[i].position.0 - origin(records).0) as i32,
                        (records[i].position.1 - origin(records).1) as i32,
                    )
                } else {
                    records[i].position
                },
            },
    )
}

/// The dimensions of the cluster built from `snapshot`. Without planets they
/// are `(0, 0)`, whatever the configuration declares.
pub open spec fn dimensions_of(snapshot: TurnSnapshot, config: ClusterConfig) -> (i32, i32) {
    if snapshot.planets@.len() == 0 {
        (0i32, 0i32)
    } else if config.normalize {
        (extent(snapshot.planets@).0 as i32, extent(snapshot.planets@).1 as i32)
    } else {
        match config.declared_dimensions {
            Some(d) => d,
            None => snapshot.declared_dimensions,
        }
    }
}

/// The square of the Euclidean distance between two planets.
pub open spec fn distance_sq(a: Planet, b: Planet) -> int {
    let dx = a.position.0 - b.position.0;
    let dy = a.position.1 - b.position.1;
    dx * dx + dy * dy
}

/// Whether two planets lie within the threshold of each other; the boundary
/// is inclusive.
pub open spec fn near(a: Planet, b: Planet, threshold_sq: u64) -> bool {
    distance_sq(a, b) <= threshold_sq
}

/// The near pairs `(i, j)` with first index `i` and `i < j < hi`, by
/// increasing `j`.
pub open spec fn near_pairs_in_row(planets: Seq<Planet>, threshold_sq: u64, i: int, hi: int) -> Seq<
    (int, int),
>
    decreases hi - i,
{
    if hi <= i + 1 {
        Seq::empty()
    } else {
        let rest = near_pairs_in_row(planets, threshold_sq, i, hi - 1);
        if near(planets[i], planets[hi - 1], threshold_sq) {
            rest.push((i, hi - 1))
        } else {
            rest
        }
    }
}

/// The near pairs whose first index is below `rows`, row after row.
pub open spec fn near_pairs_upto(planets: Seq<Planet>, threshold_sq: u64, rows: int) -> Seq<
    (int, int),
>
    decreases rows,
{
    if rows <= 0 {
        Seq::empty()
    } else {
        near_pairs_upto(planets, threshold_sq, rows - 1) + near_pairs_in_row(
            planets,
            threshold_sq,
            rows - 1,
            planets.len() as int,
        )
    }
}

/// All index pairs `(i, j)`, `i < j`, of planets that lie within the
/// threshold of each other, in input order: by `i`, then by `j`.
pub open spec fn near_pairs(planets: Seq<Planet>, threshold_sq: u64) -> Seq<(int, int)> {
    near_pairs_upto(planets, threshold_sq, planets.len() as int)
}

/// Whether `a` comes before `b` when pairs are ordered by their first index,
/// then by their second.
pub open spec fn pair_before(a: (int, int), b: (int, int)) -> bool {
    a.0 < b.0 || (a.0 == b.0 && a.1 < b.1)
}

/// The connection between the planets at the two indices.
pub open spec fn connection_of(planets: Seq<Planet>, pair: (int, int)) -> Connection {
    Connection { id_a: planets[pair.0].id, id_b: planets[pair.1].id }
}

/// The connections inferred among `planets`: one for each near pair, in the
/// order of the pairs.
pub open spec fn inferred_connections(planets: Seq<Planet>, threshold_sq: u64) -> Seq<Connection> {
    near_pairs(planets, threshold_sq).map_values(|pair: (int, int)| connection_of(planets, pair))
}

/// The cluster of a snapshot: the planets placed, the dimensions, and the
/// connections inferred among the placed planets where the configuration
/// asks for them.
pub open spec fn cluster_of(snapshot: TurnSnapshot, config: ClusterConfig) -> ClusterView {
    let planets = placed(snapshot.planets@, config.normalize);
    ClusterView {
        dimensions: dimensions_of(snapshot, config),
        planets,
        connections: if config.infer_connections {
            inferred_connections(planets, config.connection_threshold_sq)
        } else {
            Seq::empty()
        },
    }
}

/// The bounding box of a nonempty list of records.
struct Bounds {
    min_x: i32,
    max_x: i32,
    min_y: i32,
    max_y: i32,
}

/// Computes the bounding box in a single pass.
fn bounding_box(records: &Vec<RawPlanet>) -> (b: Bounds)
    requires
        records@.len() > 0,
    ensures
        b.min_x == xs(records@).min(),
        b.max_x == xs(records@).max(),
        b.min_y == ys(records@).min(),
        b.max_y == ys(records@).max(),
{
    let first = records[0];
    let mut b = Bounds {
        min_x: first.position.0,
        max_x: first.position.0,
        min_y: first.position.1,
        max_y: first.position.1,
    };
    let n = records.len();
    let ghost sx = xs(records@);
    let ghost sy = ys(records@);
    let ghost mut at_min_x = 0int;
    let ghost mut at_max_x = 0int;
    let ghost mut at_min_y = 0int;
    let ghost mut at_max_y = 0int;
    let mut i: usize = 1;
    while i < n
        invariant
            1 <= i <= n,
            n == records@.len(),
            sx == xs(records@),
            sy == ys(records@),
            forall|j: int| 0 <= j < i ==> b.min_x <= #[trigger] sx[j] && sx[j] <= b.max_x,
            forall|j: int| 0 <= j < i ==> b.min_y <= #[trigger] sy[j] && sy[j] <= b.max_y,
            0 <= at_min_x < i && sx[at_min_x] == b.min_x,
            0 <= at_max_x < i && sx[at_max_x] == b.max_x,
            0 <= at_min_y < i && sy[at_min_y] == b.min_y,
            0 <= at_max_y < i && sy[at_max_y] == b.max_y,
        decreases n - i,
    {
        let (x, y) = records[i].position;
        if x < b.min_x {
            b.min_x = x;
            proof {
                at_min_x = i as int;
            }
        }
        if x > b.max_x {
            b.max_x = x;
            proof {
                at_max_x = i as int;
            }
        }
        if y < b.min_y {
            b.min_y = y;
            proof {
                at_min_y = i as int;
            }
        }
        if y > b.max_y {
            b.max_y = y;
            proof {
                at_max_y = i as int;
            }
        }
        i += 1;
    }
    proof {
        sx.min_ensures();
        sx.max_ensures();
        sy.min_ensures();
        sy.max_ensures();
    }
    b
}

/// Decides whether the planets of a snapshot can be normalized.
pub fn can_normalize(snapshot: &TurnSnapshot) -> (r: bool)
    ensures
        r == extent_fits(snapshot.planets@),
{
    if snapshot.planets.len() == 0 {
        return true;
    }
    let b = bounding_box(&snapshot.planets);
    b.max_x as i64 - b.min_x as i64 <= i32::MAX as i64 && b.max_y as i64 - b.min_y as i64
        <= i32::MAX as i64
}

/// Decides whether two planets lie within the threshold of each other.
pub fn is_near(a: &Planet, b: &Planet, threshold_sq: u64) -> (r: bool)
    ensures
        r == near(*a, *b, threshold_sq),
{
    let dx: i128 = a.position.0 as i128 - b.position.0 as i128;
    let dy: i128 = a.position.1 as i128 - b.position.1 as i128;
    assert(dx * dx <= 0x1_0000_0000 * 0x1_0000_0000 && dx * dx >= 0) by (nonlinear_arith)
        requires
            -0x1_0000_0000 < dx < 0x1_0000_0000,
    ;
    assert(dy * dy <= 0x1_0000_0000 * 0x1_0000_0000 && dy * dy >= 0) by (nonlinear_arith)
        requires
            -0x1_0000_0000 < dy < 0x1_0000_0000,
    ;
    dx * dx + dy * dy <= threshold_sq as i128
}

/// Connects every pair of planets within the threshold, in input order.
pub fn infer_connections(planets: &Vec<Planet>, threshold_sq: u64) -> (connections: Vec<
    Connection,
>)
    ensures
        connections@ == inferred_connections(planets@, threshold_sq),
{
    let n = planets.len();
    let mut connections: Vec<Connection> = Vec::new();
    let ghost mut pairs: Seq<(int, int)> = Seq::empty();
    let mut i1: usize = 0;
    while i1 < n
        invariant
            0 <= i1 <= n,
            n == planets@.len(),
            pairs == near_pairs_upto(planets@, threshold_sq, i1 as int),
            connections@.len() == pairs.len(),
            forall|k: int|
                0 <= k < pairs.len() ==> connections@[k] == connection_of(planets@, pairs[k]),
        decreases n - i1,
    {
        let ghost before = pairs;
        let mut i2: usize = i1 + 1;
        while i2 < n
            invariant
                0 <= i1 < i2 <= n,
                n == planets@.len(),
                before == near_pairs_upto(planets@, threshold_sq, i1 as int),
                pairs == before + near_pairs_in_row(planets@, threshold_sq, i1 as int, i2 as int),
                connections@.len() == pairs.len(),
                forall|k: int|
                    0 <= k < pairs.len() ==> connections@[k] == connection_of(planets@, pairs[k]),
            decreases n - i2,
        {
            let p1 = planets[i1];
            let p2 = planets[i2];
            if is_near(&p1, &p2, threshold_sq) {
                connections.push(Connection { id_a: p1.id, id_b: p2.id });
                proof {
                    pairs = pairs.push((i1 as int, i2 as int));
                }
            }
            i2 += 1;
        }
        i1 += 1;
    }
    connections
}

/// Builds the cluster of a snapshot.
///
/// The planets keep their ids and their order. With `normalize` set they are
/// moved so that the smallest x and the smallest y become 0, and the
/// dimensions are those of the bounding box; otherwise positions stay as they
/// are and the dimensions are the declared ones. A snapshot without planets
/// gives dimensions `(0, 0)`. With `infer_connections` set, every pair of
/// planets within the threshold is connected, in input order.
pub fn build_cluster(snapshot: &TurnSnapshot, config: &ClusterConfig) -> (cluster: Cluster)
    requires
        config.normalize ==> extent_fits(snapshot.planets@),
    ensures
        cluster@ == cluster_of(*snapshot, *config),
        config.normalize && snapshot.planets@.len() > 0 ==> planet_xs(cluster.planets@).min() == 0
            && planet_ys(cluster.planets@).min() == 0,
        connections_refer_to(cluster.planets@, cluster.connections@),
        crate::snapshot::distinct_ids(snapshot.planets@) ==> cluster.wf(),
{
    let records = &snapshot.planets;
    let n = records.len();
    let shift = config.normalize && n > 0;
    let (origin_x, origin_y, width, height) = if shift {
        let b = bounding_box(records);
        (b.min_x, b.min_y, b.max_x - b.min_x, b.max_y - b.min_y)
    } else {
        (0, 0, 0, 0)
    };
    let mut planets: Vec<Planet> = Vec::new();
    let mut i: usize = 0;
    while i < n
        invariant
            0 <= i <= n,
            n == records@.len(),
            planets@.len() == i,
            shift == (config.normalize && n > 0),
            shift ==> origin_x == origin(records@).0 && origin_y == origin(records@).1
                && extent_fits(records@),
            forall|j: int| 0 <= j < i ==> planets@[j] == placed(records@, config.normalize)[j],
        decreases n - i,
    {
        let r = records[i];
        let position = if shift {
            proof {
                let sx = xs(records@);
                let sy = ys(records@);
                sx.min_ensures();
                sx.max_ensures();
                sy.min_ensures();
                sy.max_ensures();
                assert(sx[i as int] == r.position.0);
                assert(sy[i as int] == r.position.1);
            }
            (r.position.0 - origin_x, r.position.1 - origin_y)
        } else {
            r.position
        };
        planets.push(Planet { id: r.id, position });
        i += 1;
    }
    assert(planets@ =~= placed(records@, config.normalize));
    let mut connections: Vec<Connection> = Vec::new();
    if config.infer_connections {
        connections = infer_connections(&planets, config.connection_threshold_sq);
    }
    let dimensions = if n == 0 {
        (0, 0)
    } else if config.normalize {
        (width, height)
    } else {
        match config.declared_dimensions {
            Some(d) => d,
            None => snapshot.declared_dimensions,
        }
    };
    proof {
        if shift {
            lemma_normalized_min(records@);
        }
        if config.infer_connections {
            lemma_inferred_connections_refer(planets@, config.connection_threshold_sq);
        }
        if crate::snapshot::distinct_ids(records@) {
            if config.infer_connections {
                lemma_inferred_connections_valid(planets@, config.connection_threshold_sq);
            }
        }
    }
    Cluster { dimensions, planets, connections }
}

/// Builds the cluster of a snapshot where that can be done: `None` where
/// the planets are to be normalized and their bounding box is too wide for
/// 32-bit positions.
pub fn try_build_cluster(snapshot: &TurnSnapshot, config: &ClusterConfig) -> (cluster: Option<
    Cluster,
>)
    ensures
        match cluster {
            Some(c) => (config.normalize ==> extent_fits(snapshot.planets@)) && c@ == cluster_of(
                *snapshot,
                *config,
            ),
            None => config.normalize && !extent_fits(snapshot.planets@),
        },
{
    if config.normalize && !can_normalize(snapshot) {
        None
    } else {
        Some(build_cluster(snapshot, config))
    }
}

/// After normalization the smallest x and the smallest y are 0.
pub proof fn lemma_normalized_min(records: Seq<RawPlanet>)
    requires
        records.len() > 0,
        extent_fits(records),
    ensures
        planet_xs(placed(records, true)).min() == 0,
        planet_ys(placed(records, true)).min() == 0,
{
    let sx = xs(records);
    let sy = ys(records);
    sx.min_ensures();
    sx.max_ensures();
    sy.min_ensures();
    sy.max_ensures();
    let px = planet_xs(placed(records, true));
    let py = planet_ys(placed(records, true));
    assert forall|i: int| 0 <= i < records.len() implies #[trigger] px[i] == sx[i] - sx.min() by {
        assert(sx.min() <= sx[i] <= sx.max());
    }
    assert forall|i: int| 0 <= i < records.len() implies #[trigger] py[i] == sy[i] - sy.min() by {
        assert(sy.min() <= sy[i] <= sy.max());
    }
    let kx = choose|k: int| 0 <= k < sx.len() && sx[k] == sx.min();
    let ky = choose|k: int| 0 <= k < sy.len() && sy[k] == sy.min();
    assert(px[kx] == 0);
    assert(py[ky] == 0);
    px.min_ensures();
    py.min_ensures();
    let mx = choose|k: int| 0 <= k < px.len() && px[k] == px.min();
    let my = choose|k: int| 0 <= k < py.len() && py[k] == py.min();
    assert(px[mx] == sx[mx] - sx.min() && sx[mx] >= sx.min());
    assert(py[my] == sy[my] - sy.min() && sy[my] >= sy.min());
}

/// Every pair of a row is a near pair `(i, j)` with `i < j < hi`, the pairs
/// come by increasing `j`, and no near pair of the row is missing.
proof fn lemma_row(planets: Seq<Planet>, threshold_sq: u64, i: int, hi: int)
    ensures
        forall|k: int|
            0 <= k < near_pairs_in_row(planets, threshold_sq, i, hi).len() ==> {
                let p = #[trigger] near_pairs_in_row(planets, threshold_sq, i, hi)[k];
                p.0 == i && i < p.1 < hi && near(planets[i], planets[p.1], threshold_sq)
            },
        forall|k: int, l: int|
            0 <= k < l < near_pairs_in_row(planets, threshold_sq, i, hi).len() ==> (
            #[trigger] near_pairs_in_row(planets, threshold_sq, i, hi)[k]).1 < (
            #[trigger] near_pairs_in_row(planets, threshold_sq, i, hi)[l]).1,
        forall|j: int|
            i < j < hi && near(planets[i], planets[j], threshold_sq) ==> near_pairs_in_row(
                planets,
                threshold_sq,
                i,
                hi,
            ).contains((i, j)),
    decreases hi - i,
{
    if hi > i + 1 {
        lemma_row(planets, threshold_sq, i, hi - 1);
        let rest = near_pairs_in_row(planets, threshold_sq, i, hi - 1);
        let row = near_pairs_in_row(planets, threshold_sq, i, hi);
        assert forall|j: int|
            i < j < hi && near(planets[i], planets[j], threshold_sq) implies row.contains(
            (i, j),
        ) by {
            if j < hi - 1 {
                let k = choose|k: int| 0 <= k < rest.len() && rest[k] == (i, j);
                assert(row[k] == (i, j));
            } else {
                assert(row[row.len() - 1] == (i, j));
            }
        }
    }
}

/// The pairs below `rows` are near pairs `(i, j)` with `i < rows` and
/// `i < j`, they come in order, and none is missing.
proof fn lemma_rows(planets: Seq<Planet>, threshold_sq: u64, rows: int)
    requires
        rows <= planets.len(),
    ensures
        forall|k: int|
            0 <= k < near_pairs_upto(planets, threshold_sq, rows).len() ==> {
                let p = #[trigger] near_pairs_upto(planets, threshold_sq, rows)[k];
                0 <= p.0 < rows && p.0 < p.1 < planets.len() && near(
                    planets[p.0],
                    planets[p.1],
                    threshold_sq,
                )
            },
        forall|k: int, l: int|
            0 <= k < l < near_pairs_upto(planets, threshold_sq, rows).len() ==> pair_before(
                #[trigger] near_pairs_upto(planets, threshold_sq, rows)[k],
                #[trigger] near_pairs_upto(planets, threshold_sq, rows)[l],
            ),
        forall|i: int, j: int|
            0 <= i < rows && i < j < planets.len() && near(planets[i], planets[j], threshold_sq)
                ==> near_pairs_upto(planets, threshold_sq, rows).contains((i, j)),
    decreases rows,
{
    if rows > 0 {
        lemma_rows(planets, threshold_sq, rows - 1);
        lemma_row(planets, threshold_sq, rows - 1, planets.len() as int);
        let before = near_pairs_upto(planets, threshold_sq, rows - 1);
        let row = near_pairs_in_row(planets, threshold_sq, rows - 1, planets.len() as int);
        let all = near_pairs_upto(planets, threshold_sq, rows);
        assert forall|k: int| 0 <= k < all.len() implies {
            let p = #[trigger] all[k];
            0 <= p.0 < rows && p.0 < p.1 < planets.len() && near(
                planets[p.0],
                planets[p.1],
                threshold_sq,
            )
        } by {}
        assert forall|k: int, l: int| 0 <= k < l < all.len() implies pair_before(
            #[trigger] all[k],
            #[trigger] all[l],
        ) by {}
        assert forall|i: int, j: int|
            0 <= i < rows && i < j < planets.len() && near(
                planets[i],
                planets[j],
                threshold_sq,
            ) implies all.contains((i, j)) by {
            if i < rows - 1 {
                let k = choose|k: int| 0 <= k < before.len() && before[k] == (i, j);
                assert(all[k] == (i, j));
            } else {
                let k = choose|k: int| 0 <= k < row.len() && row[k] == (i, j);
                assert(all[before.len() + k] == (i, j));
            }
        }
    }
}

/// The near pairs are sound: each is a pair `i < j` of indices of planets
/// that lie within the threshold of each other.
pub proof fn lemma_near_pairs_sound(planets: Seq<Planet>, threshold_sq: u64, k: int)
    requires
        0 <= k < near_pairs(planets, threshold_sq).len(),
    ensures
        ({
            let p = near_pairs(planets, threshold_sq)[k];
            0 <= p.0 < p.1 < planets.len() && near(planets[p.0], planets[p.1], threshold_sq)
        }),
{
    lemma_rows(planets, threshold_sq, planets.len() as int);
}

/// The near pairs are complete: a pair `i < j` is among them exactly when
/// the two planets lie within the threshold of each other.
pub proof fn lemma_near_pair_iff_near(planets: Seq<Planet>, threshold_sq: u64, i: int, j: int)
    requires
        0 <= i < j < planets.len(),
    ensures
        near_pairs(planets, threshold_sq).contains((i, j)) <==> near(
            planets[i],
            planets[j],
            threshold_sq,
        ),
{
    lemma_rows(planets, threshold_sq, planets.len() as int);
    let pairs = near_pairs(planets, threshold_sq);
    if pairs.contains((i, j)) {
        let k = choose|k: int| 0 <= k < pairs.len() && pairs[k] == (i, j);
        assert(pairs[k] == (i, j));
    }
}

/// The near pairs come in input order, so none occurs twice.
pub proof fn lemma_near_pairs_ordered(planets: Seq<Planet>, threshold_sq: u64, k: int, l: int)
    requires
        0 <= k < l < near_pairs(planets, threshold_sq).len(),
    ensures
        pair_before(near_pairs(planets, threshold_sq)[k], near_pairs(planets, threshold_sq)[l]),
{
    lemma_rows(planets, threshold_sq, planets.len() as int);
}

/// Among planets with distinct ids, two planets are connected exactly when
/// their distance is at most the threshold: a pair at the threshold is
/// connected, a pair beyond it is not.
pub proof fn lemma_connected_iff_near(planets: Seq<Planet>, threshold_sq: u64, i: int, j: int)
    requires
        distinct_planet_ids(planets),
        0 <= i < j < planets.len(),
    ensures
        inferred_connections(planets, threshold_sq).contains(connection_of(planets, (i, j)))
            <==> distance_sq(planets[i], planets[j]) <= threshold_sq,
{
    lemma_rows(planets, threshold_sq, planets.len() as int);
    let pairs = near_pairs(planets, threshold_sq);
    let conns = inferred_connections(planets, threshold_sq);
    let c = connection_of(planets, (i, j));
    if conns.contains(c) {
        let k = choose|k: int| 0 <= k < conns.len() && conns[k] == c;
        let p = pairs[k];
        assert(p.0 == i) by {}
        assert(p.1 == j) by {}
    }
    if near(planets[i], planets[j], threshold_sq) {
        let k = choose|k: int| 0 <= k < pairs.len() && pairs[k] == (i, j);
        assert(conns[k] == c);
    }
}


/// Every inferred connection refers to planets of the list.
pub proof fn lemma_inferred_connections_refer(planets: Seq<Planet>, threshold_sq: u64)
    ensures
        connections_refer_to(planets, inferred_connections(planets, threshold_sq)),
{
    lemma_rows(planets, threshold_sq, planets.len() as int);
    let pairs = near_pairs(planets, threshold_sq);
    let conns = inferred_connections(planets, threshold_sq);
    assert forall|k: int| 0 <= k < conns.len() implies has_planet(
        planets,
        (#[trigger] conns[k]).id_a,
    ) && has_planet(planets, conns[k].id_b) by {
        let p = pairs[k];
        assert(planets[p.0].id == conns[k].id_a);
        assert(planets[p.1].id == conns[k].id_b);
    }
}

/// Among planets with distinct ids the inferred connections are valid: each
/// joins two different planets, and no pair is connected twice.
pub proof fn lemma_inferred_connections_valid(planets: Seq<Planet>, threshold_sq: u64)
    requires
        distinct_planet_ids(planets),
    ensures
        valid_connections(planets, inferred_connections(planets, threshold_sq)),
{
    lemma_rows(planets, threshold_sq, planets.len() as int);
    lemma_inferred_connections_refer(planets, threshold_sq);
    let pairs = near_pairs(planets, threshold_sq);
    let conns = inferred_connections(planets, threshold_sq);
    assert forall|k: int| 0 <= k < conns.len() implies (#[trigger] conns[k]).id_a
        != conns[k].id_b by {
        let p = pairs[k];
        assert(conns[k] == connection_of(planets, p));
    }
    assert forall|k: int, l: int| 0 <= k < l < conns.len() implies !(#[trigger] conns[k]).joins_spec(
        (#[trigger] conns[l]).id_a,
        conns[l].id_b,
    ) by {
        let p = pairs[k];
        let q = pairs[l];
        assert(conns[k] == connection_of(planets, p));
        assert(conns[l] == connection_of(planets, q));
        assert(pair_before(p, q));
    }
}

} // verus!
