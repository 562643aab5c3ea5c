//! The fetch loop's decisions: what each fetched turn adds to the game that
//! is being rebuilt, and when the loop ends.

use crate::cluster::{cluster_of, extent_fits, try_build_cluster, ClusterConfig};
use crate::ledger::{
    is_recorded, lemma_record_all_frame, observations_of, observe, record_all, replay, History,
    LedgerMode, OwnershipLedger, TurnRecord,
};
use crate::snapshot::TurnSnapshot;
use crate::state::{Cluster, ClusterView, Game, GameView};
use vstd::prelude::*;

verus! {

/// Why a turn could not be fetched.
#[derive(Debug, PartialEq, Eq)]
pub struct FetchError {
    pub reason: String,
}

/// What the fetch loop is told after an attempt to fetch a turn.
#[derive(Debug, PartialEq, Eq)]
pub enum FetchOutcome {
    /// The turn was fetched.
    Continue(TurnSnapshot),
    /// There are no further turns.
    Stop,
}

/// The default policy: a fetched turn continues the loop, and any failure
/// ends it. A failure is never retried, so a passing error cannot be told
/// from the end of the game.
pub fn default_policy(result: Result<TurnSnapshot, FetchError>) -> (outcome: FetchOutcome)
    ensures
        outcome == match result {
            Ok(snapshot) => FetchOutcome::Continue(snapshot),
            Err(_) => FetchOutcome::Stop,
        },
{
    match result {
        Ok(snapshot) => FetchOutcome::Continue(snapshot),
        Err(_) => FetchOutcome::Stop,
    }
}

/// What the fetch loop is to do next.
#[derive(Clone, Copy, Debug, PartialEq, Eq)]
pub enum NextAction {
    /// Fetch this turn and hand the outcome to the builder.
    Fetch { turn: i32 },
    /// End the loop and finish the game.
    Finish,
}

/// The single writer of a game that is being rebuilt. It is handed through
/// the fetch loop and moved into the frozen game at the end.
#[derive(Debug)]
pub struct GameBuilder {
    config: ClusterConfig,
    mode: LedgerMode,
    cluster: Option<Cluster>,
    ledger: OwnershipLedger,
    last_turn: i32,
}

/// What a [`GameBuilder`] holds.
pub struct BuilderView {
    pub config: ClusterConfig,
    pub mode: LedgerMode,
    /// The cluster of the first turn, once that turn was recorded.
    pub cluster: Option<ClusterView>,
    pub history: History,
    /// The last turn that was recorded; 0 before the first.
    pub last_turn: int,
}

/// A builder that has recorded nothing yet.
pub open spec fn fresh(config: ClusterConfig, mode: LedgerMode) -> BuilderView {
    BuilderView { config, mode, cluster: None, history: History::empty(), last_turn: 0 }
}

/// Whether the builder takes a snapshot as its next turn: the turn number
/// must fit, and the first snapshot must be one that the cluster can be
/// built from.
pub open spec fn accepts(builder: BuilderView, snapshot: TurnSnapshot) -> bool {
    &&& builder.last_turn < i32::MAX
    &&& builder.cluster is None && builder.config.normalize ==> extent_fits(snapshot.planets@)
}

/// The builder after an outcome. A snapshot that it accepts is recorded as
/// the turn after the last one, and the first such snapshot also gives the
/// cluster. Anything else leaves the builder as it is.
pub open spec fn absorbed(builder: BuilderView, outcome: FetchOutcome) -> BuilderView {
    match outcome {
        FetchOutcome::Continue(snapshot) if accepts(builder, snapshot) => BuilderView {
            config: builder.config,
            mode: builder.mode,
            cluster: match builder.cluster {
                Some(cluster) => Some(cluster),
                None => Some(cluster_of(snapshot, builder.config)),
            },
            history: record_all(
                builder.history,
                (builder.last_turn + 1) as i32,
                observations_of(snapshot.planets@),
                builder.mode,
            ),
            last_turn: builder.last_turn + 1,
        },
        _ => builder,
    }
}

/// What the loop does after an outcome: it fetches the turn after the one
/// just recorded, and finishes where nothing was recorded or no further
/// turn number exists.
pub open spec fn action_after(builder: BuilderView, outcome: FetchOutcome) -> NextAction {
    match outcome {
        FetchOutcome::Continue(snapshot) if accepts(builder, snapshot) && builder.last_turn + 2
            <= i32::MAX => NextAction::Fetch { turn: (builder.last_turn + 2) as i32 },
        _ => NextAction::Finish,
    }
}

/// The game that a builder gives when the loop has ended: the recorded
/// history with the cluster of the first turn. The number of turns is the
/// last recorded turn less the adjustment.
pub open spec fn finished(builder: BuilderView, turn_adjustment: u8) -> Option<GameView> {
    match builder.cluster {
        Some(cluster) => Some(
            GameView {
                num_turns: (builder.last_turn - turn_adjustment) as i32,
                cluster,
                planet_to_owners: builder.history,
            },
        ),
        None => None,
    }
}

impl View for GameBuilder {
    type V = BuilderView;

    closed spec fn view(&self) -> BuilderView {
        BuilderView {
            config: self.config,
            mode: self.mode,
            cluster: match self.cluster {
                Some(cluster) => Some(cluster@),
                None => None,
            },
            history: self.ledger@,
            last_turn: self.last_turn as int,
        }
    }
}

impl GameBuilder {
    #[verifier::type_invariant]
    spec fn inv(self) -> bool {
        &&& 0 <= self.last_turn
        &&& self.cluster is None ==> self.last_turn == 0
        &&& forall|planet: i32, turn: i32| #[trigger]
            is_recorded(self.ledger@, planet, turn) ==> 1 <= turn <= self.last_turn
    }

    /// A builder that has recorded nothing yet. The loop starts by fetching
    /// turn 1.
    pub fn new(config: ClusterConfig, mode: LedgerMode) -> (builder: Self)
        ensures
            builder@ == fresh(config, mode),
    {
        GameBuilder { config, mode, cluster: None, ledger: OwnershipLedger::new(), last_turn: 0 }
    }

    /// The action that starts the loop.
    pub fn first_action() -> (action: NextAction)
        ensures
            action == (NextAction::Fetch { turn: 1 }),
    {
        NextAction::Fetch { turn: 1 }
    }

    /// The last turn that was recorded; 0 before the first.
    pub fn last_turn(&self) -> (turn: i32)
        ensures
            turn == self@.last_turn,
    {
        self.last_turn
    }

    /// Takes the outcome of a fetch and says what the loop is to do next.
    pub fn absorb(&mut self, outcome: FetchOutcome) -> (action: NextAction)
        ensures
            final(self)@ == absorbed(old(self)@, outcome),
            action == action_after(old(self)@, outcome),
    {
        proof {
            use_type_invariant(&*self);
        }
        let snapshot = match outcome {
            FetchOutcome::Continue(snapshot) => snapshot,
            FetchOutcome::Stop => {
                return NextAction::Finish;
            },
        };
        if self.last_turn == i32::MAX {
            return NextAction::Finish;
        }
        if self.cluster.is_none() {
            match try_build_cluster(&snapshot, &self.config) {
                Some(cluster) => {
                    self.cluster = Some(cluster);
                },
                None => {
                    return NextAction::Finish;
                },
            }
        }
        let turn = self.last_turn + 1;
        let observations = observe(&snapshot);
        self.last_turn = turn;
        // The ledger is taken out while it is written to, and put back.
        let mut ledger = OwnershipLedger::new();
        std::mem::swap(&mut self.ledger, &mut ledger);
        let ghost before = ledger@;
        ledger.record_turn(turn, &observations, self.mode);
        proof {
            assert forall|planet: i32, t: i32| #[trigger]
                is_recorded(ledger@, planet, t) implies 1 <= t <= turn by {
                if t != turn {
                    lemma_record_all_frame(before, turn, observations@, self.mode, planet, t);
                }
            }
        }
        std::mem::swap(&mut self.ledger, &mut ledger);
        if turn == i32::MAX {
            NextAction::Finish
        } else {
            NextAction::Fetch { turn: turn + 1 }
        }
    }

    /// Ends the loop and freezes the game. `turn_adjustment` is how many of
    /// the last recorded turns are not counted as turns of the game. `None`
    /// where no turn was recorded at all.
    pub fn finish(self, turn_adjustment: u8) -> (game: Option<Game>)
        ensures
            match game {
                Some(g) => Some(g@) == finished(self@, turn_adjustment),
                None => finished(self@, turn_adjustment) is None,
            },
            game matches Some(g) ==> forall|planet: i32, turn: i32| #[trigger]
                is_recorded(g.planet_to_owners@, planet, turn) ==> 1 <= turn <= g.num_turns
                    + turn_adjustment,
    {
        proof {
            use_type_invariant(&self);
        }
        let num_turns = self.last_turn - turn_adjustment as i32;
        match self.cluster {
            Some(cluster) => Some(Game { num_turns, cluster, planet_to_owners: self.ledger }),
            None => None,
        }
    }
}

/// The builder after a run of fetched turns, each handed to it in order.
pub open spec fn fed(builder: BuilderView, snapshots: Seq<TurnSnapshot>) -> BuilderView
    decreases snapshots.len(),
{
    if snapshots.len() == 0 {
        builder
    } else {
        absorbed(fed(builder, snapshots.drop_last()), FetchOutcome::Continue(snapshots.last()))
    }
}

/// The calls that record a run of fetched turns: the first snapshot as turn
/// 1, the next as turn 2, and so on.
pub open spec fn calls_of(snapshots: Seq<TurnSnapshot>, mode: LedgerMode) -> Seq<TurnRecord> {
    Seq::new(
        snapshots.len(),
        |i: int|
            TurnRecord {
                turn: (i + 1) as i32,
                observations: observations_of(snapshots[i].planets@),
                mode,
            },
    )
}

/// The fetch loop records the turns 1, 2, 3 and so on in this order until
/// the first failure: after `n` fetched turns the last recorded turn is
/// `n`, the history is that of the `n` calls, and the cluster is that of
/// the first turn. The failure that ends the loop changes nothing, so that
/// the game's number of turns, before any adjustment, is `n`.
pub proof fn lemma_fetch_loop(config: ClusterConfig, mode: LedgerMode, snapshots: Seq<TurnSnapshot>)
    requires
        snapshots.len() <= i32::MAX,
        snapshots.len() > 0 && config.normalize ==> extent_fits(snapshots[0].planets@),
    ensures
        fed(fresh(config, mode), snapshots).config == config,
        fed(fresh(config, mode), snapshots).mode == mode,
        fed(fresh(config, mode), snapshots).last_turn == snapshots.len(),
        fed(fresh(config, mode), snapshots).history == replay(calls_of(snapshots, mode)),
        fed(fresh(config, mode), snapshots).cluster == if snapshots.len() == 0 {
            None
        } else {
            Some(cluster_of(snapshots[0], config))
        },
        absorbed(fed(fresh(config, mode), snapshots), FetchOutcome::Stop) == fed(
            fresh(config, mode),
            snapshots,
        ),
    decreases snapshots.len(),
{
    if snapshots.len() > 0 {
        let earlier = snapshots.drop_last();
        if earlier.len() > 0 {
            assert(earlier[0] == snapshots[0]);
        }
        lemma_fetch_loop(config, mode, earlier);
        assert(calls_of(snapshots, mode).drop_last() =~= calls_of(earlier, mode));
    }
}

} // verus!
