//! The ownership ledger: who owned which planet on which turn.

use crate::snapshot::{RawPlanet, TurnSnapshot};
use std::collections::BTreeMap;
use vstd::prelude::*;

verus! {

/// The owner id of a planet that nobody owns.
pub const NEUTRAL_OWNER: i32 = 0;

/// What a lookup returns where nothing was recorded. The value is reserved:
/// it is the id of no owner.
pub const UNKNOWN_OWNER: i32 = -1;

/// How an observation enters the ledger.
#[derive(Clone, Copy, Debug, PartialEq, Eq)]
pub enum LedgerMode {
    /// Only the observer's own planets are recorded as owned. Any other
    /// planet is recorded as neutral, unless the turn already has an entry
    /// for it: the entry says "not mine", not who the owner is.
    PlayerPerspective { observer: i32 },
    /// The declared owner is recorded as it is.
    Omniscient,
}

/// For each planet, the owner on each turn for which one was recorded.
#[derive(Debug, PartialEq, Eq)]
pub struct OwnershipLedger {
    pub owners: BTreeMap<i32, BTreeMap<i32, i32>>,
}

/// The mathematical content of a ledger: planet id to turn to owner id.
pub type History = Map<i32, Map<i32, i32>>;

/// The turns recorded for a planet; none where the planet is unknown.
pub open spec fn turns_of(history: History, planet: i32) -> Map<i32, i32> {
    if history.contains_key(planet) {
        history[planet]
    } else {
        Map::empty()
    }
}

/// Whether an owner is recorded for the planet on the turn.
pub open spec fn is_recorded(history: History, planet: i32, turn: i32) -> bool {
    turns_of(history, planet).contains_key(turn)
}

/// The owner of the planet on the turn, or the unknown sentinel where none
/// is recorded.
pub open spec fn owner_in(history: History, planet: i32, turn: i32) -> i32 {
    if is_recorded(history, planet, turn) {
        turns_of(history, planet)[turn]
    } else {
        UNKNOWN_OWNER
    }
}

/// The ledger after one observation of `planet` with declared owner `owner`
/// on `turn`.
pub open spec fn record_one(
    history: History,
    turn: i32,
    planet: i32,
    owner: i32,
    mode: LedgerMode,
) -> History {
    let turns = turns_of(history, planet);
    let recorded = match mode {
        LedgerMode::Omniscient => turns.insert(turn, owner),
        LedgerMode::PlayerPerspective { observer } => if owner == observer {
            turns.insert(turn, observer)
        } else if !turns.contains_key(turn) {
            turns.insert(turn, NEUTRAL_OWNER)
        } else {
            turns
        },
    };
    history.insert(planet, recorded)
}

/// The ledger after the observations of one turn, taken in order.
pub open spec fn record_all(
    history: History,
    turn: i32,
    observations: Seq<(i32, i32)>,
    mode: LedgerMode,
) -> History
    decreases observations.len(),
{
    if observations.len() == 0 {
        history
    } else {
        let last = observations.last();
        record_one(record_all(history, turn, observations.drop_last(), mode), turn, last.0, last.1, mode)
    }
}

/// The observations that a snapshot holds: planet id and declared owner of
/// each record, in order.
pub open spec fn observations_of(records: Seq<RawPlanet>) -> Seq<(i32, i32)> {
    records.map_values(|r: RawPlanet| (r.id, r.owner_id))
}

impl View for OwnershipLedger {
    type V = History;

    open spec fn view(&self) -> History {
        self.owners@.map_values(|turns: BTreeMap<i32, i32>| turns@)
    }
}

impl OwnershipLedger {
    /// A ledger in which nothing is recorded.
    pub fn new() -> (ledger: Self)
        ensures
            ledger@ == History::empty(),
    {
        let ledger = OwnershipLedger { owners: BTreeMap::new() };
        ledger
    }

    /// The owner of `planet` on `turn`, or [`UNKNOWN_OWNER`] where none was
    /// recorded. Never fails.
    pub fn owner_at(&self, planet: i32, turn: i32) -> (owner: i32)
        ensures
            owner == owner_in(self@, planet, turn),
    {
        match self.owners.get(&planet) {
            Some(turns) => match turns.get(&turn) {
                Some(owner) => *owner,
                None => UNKNOWN_OWNER,
            },
            None => UNKNOWN_OWNER,
        }
    }

    /// Records one observation.
    fn record(&mut self, turn: i32, planet: i32, owner: i32, mode: LedgerMode)
        ensures
            final(self)@ == record_one(old(self)@, turn, planet, owner, mode),
    {
        let mut turns = match self.owners.remove(&planet) {
            Some(turns) => turns,
            None => BTreeMap::new(),
        };
        match mode {
            LedgerMode::Omniscient => {
                turns.insert(turn, owner);
            },
            LedgerMode::PlayerPerspective { observer } => {
                if owner == observer {
                    turns.insert(turn, observer);
                } else if !turns.contains_key(&turn) {
                    turns.insert(turn, NEUTRAL_OWNER);
                }
            },
        }
        self.owners.insert(planet, turns);
    }

    /// Records the observations of one turn: for each, planet id and
    /// declared owner. A planet seen for the first time gets its own map of
    /// turns.
    pub fn record_turn(&mut self, turn: i32, observations: &Vec<(i32, i32)>, mode: LedgerMode)
        ensures
            final(self)@ == record_all(old(self)@, turn, observations@, mode),
    {
        let n = observations.len();
        let mut i: usize = 0;
        while i < n
            invariant
                0 <= i <= n,
                n == observations@.len(),
                self@ == record_all(old(self)@, turn, observations@.take(i as int), mode),
            decreases n - i,
        {
            let (planet, owner) = observations[i];
            assert(observations@.take(i + 1).drop_last() =~= observations@.take(i as int));
            self.record(turn, planet, owner, mode);
            i += 1;
        }
        assert(observations@.take(n as int) =~= observations@);
    }
}

/// Adds the owners of the snapshot's planets for the given turn, as the
/// player `player_id` sees them.
pub fn add_owners(
    ledger: &mut OwnershipLedger,
    snapshot: &TurnSnapshot,
    player_id: i32,
    turn: i32,
)
    ensures
        final(ledger)@ == record_all(
            old(ledger)@,
            turn,
            observations_of(snapshot.planets@),
            LedgerMode::PlayerPerspective { observer: player_id },
        ),
{
    let observations = observe(snapshot);
    ledger.record_turn(turn, &observations, LedgerMode::PlayerPerspective { observer: player_id });
}

/// Lists planet id and declared owner of each record of a snapshot.
pub fn observe(snapshot: &TurnSnapshot) -> (observations: Vec<(i32, i32)>)
    ensures
        observations@ == observations_of(snapshot.planets@),
{
    let n = snapshot.planets.len();
    let mut observations: Vec<(i32, i32)> = Vec::new();
    let mut i: usize = 0;
    while i < n
        invariant
            0 <= i <= n,
            n == snapshot.planets@.len(),
            observations@ == observations_of(snapshot.planets@).take(i as int),
        decreases n - i,
    {
        let r = snapshot.planets[i];
        observations.push((r.id, r.owner_id));
        i += 1;
    }
    observations
}

/// Whether some observation is about `planet`.
pub open spec fn observes(observations: Seq<(i32, i32)>, planet: i32) -> bool {
    exists|j: int| 0 <= j < observations.len() && (#[trigger] observations[j]).0 == planet
}

/// Recording a turn leaves every other turn, and every planet that is not
/// observed, as it was.
pub proof fn lemma_record_all_frame(
    history: History,
    turn: i32,
    observations: Seq<(i32, i32)>,
    mode: LedgerMode,
    planet: i32,
    t: i32,
)
    requires
        t != turn || !observes(observations, planet),
    ensures
        is_recorded(record_all(history, turn, observations, mode), planet, t) == is_recorded(
            history,
            planet,
            t,
        ),
        owner_in(record_all(history, turn, observations, mode), planet, t) == owner_in(
            history,
            planet,
            t,
        ),
    decreases observations.len(),
{
    if observations.len() > 0 {
        let rest = observations.drop_last();
        if !observes(observations, planet) {
            assert forall|j: int| 0 <= j < rest.len() implies (#[trigger] rest[j]).0 != planet by {}
        }
        lemma_record_all_frame(history, turn, rest, mode, planet, t);
    }
}

/// The ledger only grows: what is recorded stays recorded.
pub proof fn lemma_record_all_grows(
    history: History,
    turn: i32,
    observations: Seq<(i32, i32)>,
    mode: LedgerMode,
    planet: i32,
    t: i32,
)
    requires
        is_recorded(history, planet, t),
    ensures
        is_recorded(record_all(history, turn, observations, mode), planet, t),
{
    if t == turn && observes(observations, planet) {
        lemma_record_all_records(history, turn, observations, mode, planet);
    } else {
        lemma_record_all_frame(history, turn, observations, mode, planet, t);
    }
}

/// After a turn is recorded, every observed planet has an owner on it.
pub proof fn lemma_record_all_records(
    history: History,
    turn: i32,
    observations: Seq<(i32, i32)>,
    mode: LedgerMode,
    planet: i32,
)
    requires
        observes(observations, planet),
    ensures
        is_recorded(record_all(history, turn, observations, mode), planet, turn),
    decreases observations.len(),
{
    let rest = observations.drop_last();
    if observations.last().0 != planet {
        let j = choose|j: int| 0 <= j < observations.len() && (#[trigger] observations[j]).0 == planet;
        assert(rest[j].0 == planet);
        lemma_record_all_records(history, turn, rest, mode, planet);
    }
}

/// In omniscient mode a planet's owner on the recorded turn is the one that
/// its last observation declares.
pub proof fn lemma_record_all_omniscient(
    history: History,
    turn: i32,
    observations: Seq<(i32, i32)>,
    j: int,
)
    requires
        0 <= j < observations.len(),
        forall|k: int| j < k < observations.len() ==> (#[trigger] observations[k]).0 != observations[j].0,
    ensures
        owner_in(
            record_all(history, turn, observations, LedgerMode::Omniscient),
            observations[j].0,
            turn,
        ) == observations[j].1,
    decreases observations.len(),
{
    let rest = observations.drop_last();
    if j < observations.len() - 1 {
        assert forall|k: int| j < k < rest.len() implies (#[trigger] rest[k]).0 != rest[j].0 by {}
        lemma_record_all_omniscient(history, turn, rest, j);
    }
}

/// In player-perspective mode an observed planet belongs to the observer on
/// the recorded turn if some observation says so; otherwise it keeps the
/// owner that the turn already had for it, and is neutral where it had none.
pub proof fn lemma_record_all_player(
    history: History,
    turn: i32,
    observations: Seq<(i32, i32)>,
    observer: i32,
    planet: i32,
)
    requires
        observes(observations, planet),
    ensures
        owner_in(
            record_all(history, turn, observations, LedgerMode::PlayerPerspective { observer }),
            planet,
            turn,
        ) == if observations.contains((planet, observer)) {
            observer
        } else if is_recorded(history, planet, turn) {
            owner_in(history, planet, turn)
        } else {
            NEUTRAL_OWNER
        },
    decreases observations.len(),
{
    let mode = LedgerMode::PlayerPerspective { observer };
    let rest = observations.drop_last();
    let last = observations.last();
    assert(observations =~= rest.push(last));
    assert(observations.contains((planet, observer)) <==> rest.contains((planet, observer)) || last
        == (planet, observer)) by {
        if rest.contains((planet, observer)) {
            let k = choose|k: int| 0 <= k < rest.len() && rest[k] == (planet, observer);
            assert(observations[k] == (planet, observer));
        }
        if observations.contains((planet, observer)) {
            let k = choose|k: int|
                0 <= k < observations.len() && observations[k] == (planet, observer);
            if k < rest.len() {
                assert(rest[k] == (planet, observer));
            }
        }
        if last == (planet, observer) {
            assert(observations[observations.len() - 1] == (planet, observer));
        }
    }
    if observes(rest, planet) {
        lemma_record_all_player(history, turn, rest, observer, planet);
        lemma_record_all_records(history, turn, rest, mode, planet);
    } else {
        lemma_record_all_frame(history, turn, rest, mode, planet, turn);
        assert(last.0 == planet) by {
            let j = choose|j: int|
                0 <= j < observations.len() && (#[trigger] observations[j]).0 == planet;
            if j < rest.len() {
                assert(rest[j].0 == planet);
            }
        }
        assert(!rest.contains((planet, observer))) by {
            if rest.contains((planet, observer)) {
                let k = choose|k: int| 0 <= k < rest.len() && rest[k] == (planet, observer);
                assert(rest[k].0 == planet);
            }
        }
    }
}

/// Whether the unknown sentinel is stored nowhere.
pub open spec fn stores_no_sentinel(history: History) -> bool {
    forall|planet: i32, turn: i32| #[trigger]
        is_recorded(history, planet, turn) ==> turns_of(history, planet)[turn] != UNKNOWN_OWNER
}

/// The unknown sentinel is never stored, as long as no observation declares
/// it as an owner: a lookup then returns it only for what was not recorded.
pub proof fn lemma_record_all_stores_no_sentinel(
    history: History,
    turn: i32,
    observations: Seq<(i32, i32)>,
    mode: LedgerMode,
)
    requires
        stores_no_sentinel(history),
        forall|j: int| 0 <= j < observations.len() ==> (#[trigger] observations[j]).1 != UNKNOWN_OWNER,
    ensures
        stores_no_sentinel(record_all(history, turn, observations, mode)),
        forall|planet: i32, t: i32|
            owner_in(record_all(history, turn, observations, mode), planet, t) == UNKNOWN_OWNER
                <==> !is_recorded(record_all(history, turn, observations, mode), planet, t),
    decreases observations.len(),
{
    if observations.len() > 0 {
        let rest = observations.drop_last();
        assert forall|j: int| 0 <= j < rest.len() implies (#[trigger] rest[j]).1
            != UNKNOWN_OWNER by {
            assert(observations[j].1 != UNKNOWN_OWNER);
        }
        lemma_record_all_stores_no_sentinel(history, turn, rest, mode);
        let before = record_all(history, turn, rest, mode);
        let last = observations.last();
        assert(observations[observations.len() - 1].1 != UNKNOWN_OWNER);
        let after = record_one(before, turn, last.0, last.1, mode);
        assert forall|planet: i32, t: i32| #[trigger] is_recorded(after, planet, t) implies turns_of(
            after,
            planet,
        )[t] != UNKNOWN_OWNER by {
            if planet != last.0 || t != turn {
                assert(is_recorded(before, planet, t));
                assert(turns_of(after, planet)[t] == turns_of(before, planet)[t]);
            } else if is_recorded(before, planet, t) {
                assert(turns_of(before, planet)[t] != UNKNOWN_OWNER);
            }
        }
    }
    let result = record_all(history, turn, observations, mode);
    assert forall|planet: i32, t: i32| owner_in(result, planet, t) == UNKNOWN_OWNER implies !is_recorded(
        result,
        planet,
        t,
    ) by {
        if is_recorded(result, planet, t) {
            assert(turns_of(result, planet)[t] != UNKNOWN_OWNER);
        }
    }
}

/// One call of `record_turn`.
pub struct TurnRecord {
    pub turn: i32,
    pub observations: Seq<(i32, i32)>,
    pub mode: LedgerMode,
}

/// The content of a ledger that started empty and took the calls in order.
pub open spec fn replay(calls: Seq<TurnRecord>) -> History
    decreases calls.len(),
{
    if calls.len() == 0 {
        History::empty()
    } else {
        let call = calls.last();
        record_all(replay(calls.drop_last()), call.turn, call.observations, call.mode)
    }
}

/// Whether some call recorded `turn` with an observation of `planet`.
pub open spec fn was_passed(calls: Seq<TurnRecord>, planet: i32, turn: i32) -> bool {
    exists|k: int|
        0 <= k < calls.len() && (#[trigger] calls[k]).turn == turn && observes(
            calls[k].observations,
            planet,
        )
}

/// A planet has an owner on a turn exactly when the pair was passed to some
/// call; for every other pair the lookup gives the unknown sentinel.
pub proof fn lemma_unknown_unless_recorded(calls: Seq<TurnRecord>, planet: i32, turn: i32)
    ensures
        is_recorded(replay(calls), planet, turn) <==> was_passed(calls, planet, turn),
        !was_passed(calls, planet, turn) ==> owner_in(replay(calls), planet, turn)
            == UNKNOWN_OWNER,
    decreases calls.len(),
{
    if calls.len() > 0 {
        let rest = calls.drop_last();
        let call = calls.last();
        lemma_unknown_unless_recorded(rest, planet, turn);
        if call.turn == turn && observes(call.observations, planet) {
            lemma_record_all_records(replay(rest), turn, call.observations, call.mode, planet);
            assert(calls[calls.len() - 1].turn == turn);
        } else {
            lemma_record_all_frame(
                replay(rest),
                call.turn,
                call.observations,
                call.mode,
                planet,
                turn,
            );
            if was_passed(rest, planet, turn) {
                let k = choose|k: int|
                    0 <= k < rest.len() && (#[trigger] rest[k]).turn == turn && observes(
                        rest[k].observations,
                        planet,
                    );
                assert(calls[k].turn == turn && observes(calls[k].observations, planet));
            }
            if was_passed(calls, planet, turn) {
                let k = choose|k: int|
                    0 <= k < calls.len() && (#[trigger] calls[k]).turn == turn && observes(
                        calls[k].observations,
                        planet,
                    );
                assert(k < rest.len());
                assert(rest[k].turn == turn && observes(rest[k].observations, planet));
            }
        }
    }
}

} // verus!
