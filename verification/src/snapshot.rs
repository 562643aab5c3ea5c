//! The raw payload of one turn, as handed over by the snapshot fetcher.

use vstd::prelude::*;

verus! {

/// One planet record of a turn snapshot.
#[derive(Clone, Copy, Debug, PartialEq, Eq)]
pub struct RawPlanet {
    pub id: i32,
    /// Absolute position, as the data source reports it.
    pub position: (i32, i32),
    /// The owner that the data source declares for this turn.
    pub owner_id: i32,
}

/// One turn's raw payload.
#[derive(Debug, PartialEq, Eq)]
pub struct TurnSnapshot {
    pub planets: Vec<RawPlanet>,
    /// The cluster size that the data source declares.
    pub declared_dimensions: (i32, i32),
}

/// The x coordinates of the records, in input order.
pub open spec fn xs(records: Seq<RawPlanet>) -> Seq<int> {
    records.map_values(|r: RawPlanet| r.position.0 as int)
}

/// The y coordinates of the records, in input order.
pub open spec fn ys(records: Seq<RawPlanet>) -> Seq<int> {
    records.map_values(|r: RawPlanet| r.position.1 as int)
}

/// No planet id occurs twice among the records.
pub open spec fn distinct_ids(records: Seq<RawPlanet>) -> bool {
    forall|i: int, j: int| 0 <= i < j < records.len() ==> records[i].id != records[j].id
}

} // verus!
