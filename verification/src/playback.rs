//! The playback scheduler: walks a game turn by turn and says what to draw.

use crate::color::{color_of, pick_color, Color};
use crate::ledger::{owner_in, UNKNOWN_OWNER};
use crate::mapper::{CoordinateMapper, ScaleFactor};
use crate::state::{Game, Planet};
use vstd::prelude::*;

verus! {

/// The time that one tick is to take, in milliseconds.
pub const TICK_MILLIS: u32 = 250;

/// A filled circle for the renderer to draw.
#[derive(Clone, Copy, Debug, PartialEq, Eq)]
pub struct Disc {
    pub center: (i64, i64),
    pub radius: i32,
    pub color: Color,
}

/// Whether playback goes on.
#[derive(Clone, Copy, Debug, PartialEq, Eq)]
pub enum Phase {
    Running,
    Finished,
}

/// The cursor of one playback session.
#[derive(Debug)]
pub struct PlaybackState<'a> {
    /// The turn that the next frame shows.
    pub current_turn: i64,
    pub game: &'a Game,
    pub draw_size: u32,
    pub draw_offset: (i32, i32),
    pub scale_factor: ScaleFactor,
    pub phase: Phase,
}

/// Where and how large a cluster is drawn on a screen.
#[derive(Clone, Copy, Debug, PartialEq, Eq)]
pub struct Layout {
    /// The side of the square that the cluster is drawn in.
    pub draw_size: u32,
    /// The top left corner of that square.
    pub draw_offset: (i32, i32),
    pub scale_factor: ScaleFactor,
}

/// The layout that centres a cluster on a screen: the square is as large as
/// the screen's smaller side, and the cluster's larger side fills 95 percent
/// of it.
pub open spec fn fitted(dimensions: (i32, i32), screen: (u32, u32)) -> Option<Layout> {
    let draw_size = if screen.0 <= screen.1 {
        screen.0
    } else {
        screen.1
    };
    let extent = if dimensions.0 >= dimensions.1 {
        dimensions.0
    } else {
        dimensions.1
    };
    if extent <= 0 || 19 * draw_size > u32::MAX || 20 * extent > u32::MAX {
        None
    } else {
        Some(
            Layout {
                draw_size,
                draw_offset: (
                    ((screen.0 - draw_size) / 2) as i32,
                    ((screen.1 - draw_size) / 2) as i32,
                ),
                scale_factor: ScaleFactor {
                    numerator: (19 * draw_size) as u32,
                    denominator: (20 * extent) as u32,
                },
            },
        )
    }
}

/// Lays a cluster of the given dimensions out on a screen of the given
/// width and height. `None` where the cluster has no extent, or where the
/// scale cannot be held in 32 bits.
pub fn fit_to_screen(dimensions: (i32, i32), screen: (u32, u32)) -> (layout: Option<Layout>)
    ensures
        layout == fitted(dimensions, screen),
        layout matches Some(l) ==> l.scale_factor.wf(),
{
    let draw_size = if screen.0 <= screen.1 {
        screen.0
    } else {
        screen.1
    };
    let extent = if dimensions.0 >= dimensions.1 {
        dimensions.0
    } else {
        dimensions.1
    };
    if extent <= 0 || 19 * (draw_size as u64) > u32::MAX as u64 || 20 * (extent as u64)
        > u32::MAX as u64 {
        return None;
    }
    Some(
        Layout {
            draw_size,
            draw_offset: (((screen.0 - draw_size) / 2) as i32, ((screen.1 - draw_size) / 2) as i32),
            scale_factor: ScaleFactor { numerator: 19 * draw_size, denominator: 20 * (extent as u32) },
        },
    )
}

/// How long to block after a tick that took `elapsed` milliseconds: the rest
/// of the target duration, or nothing where the tick overran it. An overrun
/// is never made up for.
pub fn pacing_delay(elapsed: u32, target: u32) -> (delay: u32)
    ensures
        delay == if elapsed < target {
            target - elapsed
        } else {
            0
        },
{
    if elapsed < target {
        target - elapsed
    } else {
        0
    }
}

/// The owner to show for a planet on a turn: the recorded one, or the
/// unknown sentinel.
pub open spec fn shown_owner(game: Game, planet: i32, turn: int) -> i32 {
    if i32::MIN <= turn <= i32::MAX {
        owner_in(game.planet_to_owners@, planet, turn as i32)
    } else {
        UNKNOWN_OWNER
    }
}

/// What the scheduler decides on: the turn to show next, the number of
/// turns, and whether the session is running.
pub struct Cursor {
    pub current_turn: int,
    pub num_turns: int,
    pub running: bool,
}

/// The cursor at the start of a session.
pub open spec fn start(num_turns: int) -> Cursor {
    Cursor { current_turn: 1, num_turns, running: num_turns >= 1 }
}

/// One tick. A finished session stays as it is. A quit signal finishes a
/// running session without a frame. Otherwise the frame of the current turn
/// is rendered and the turn advances; past the last turn the session is
/// finished.
pub open spec fn step(cursor: Cursor, quit: bool) -> Cursor {
    if !cursor.running {
        cursor
    } else if quit {
        Cursor { running: false, ..cursor }
    } else {
        Cursor {
            current_turn: cursor.current_turn + 1,
            num_turns: cursor.num_turns,
            running: cursor.current_turn + 1 <= cursor.num_turns,
        }
    }
}

/// Whether a tick renders a frame.
pub open spec fn renders(cursor: Cursor, quit: bool) -> bool {
    cursor.running && !quit
}

/// The cursor after a run of ticks; `signals[i]` says whether the quit
/// signal is present at the start of tick `i`.
pub open spec fn play(cursor: Cursor, signals: Seq<bool>) -> Cursor
    decreases signals.len(),
{
    if signals.len() == 0 {
        cursor
    } else {
        step(play(cursor, signals.drop_last()), signals.last())
    }
}

/// The number of frames that a run of ticks renders.
pub open spec fn frames_rendered(cursor: Cursor, signals: Seq<bool>) -> nat
    decreases signals.len(),
{
    if signals.len() == 0 {
        0
    } else {
        let before = frames_rendered(cursor, signals.drop_last());
        if renders(play(cursor, signals.drop_last()), signals.last()) {
            before + 1
        } else {
            before
        }
    }
}

impl<'a> PlaybackState<'a> {
    /// The scale is usable, the turn is positive, and a running session has
    /// a turn left to show.
    pub open spec fn wf(&self) -> bool {
        &&& self.scale_factor.wf()
        &&& 1 <= self.current_turn
        &&& self.phase == Phase::Running ==> self.current_turn <= self.game.num_turns
    }

    /// The mapper that the session draws with.
    pub open spec fn mapper(&self) -> CoordinateMapper {
        CoordinateMapper { scale: self.scale_factor, offset: self.draw_offset }
    }

    /// The radius of a planet on the screen.
    pub open spec fn radius(&self) -> int {
        self.draw_size as int / 200
    }

    /// The disc of one planet on the current turn.
    pub open spec fn disc_of(&self, planet: Planet) -> Disc {
        let p = self.mapper().mapped(planet.position.0 as int, planet.position.1 as int);
        Disc {
            center: (p.0 as i64, p.1 as i64),
            radius: self.radius() as i32,
            color: color_of(shown_owner(*self.game, planet.id, self.current_turn as int)),
        }
    }

    /// The frame of the current turn: one disc for each planet, in the
    /// order of the cluster's planets.
    pub open spec fn frame(&self) -> Seq<Disc> {
        self.game.cluster.planets@.map_values(|planet: Planet| self.disc_of(planet))
    }

    /// What the scheduler decides on.
    pub open spec fn cursor(&self) -> Cursor {
        Cursor {
            current_turn: self.current_turn as int,
            num_turns: self.game.num_turns as int,
            running: self.phase == Phase::Running,
        }
    }

    /// Starts a session at turn 1. It is running if the game has a turn at
    /// all, and finished at once if it has none.
    pub fn new(
        game: &'a Game,
        draw_size: u32,
        draw_offset: (i32, i32),
        scale_factor: ScaleFactor,
    ) -> (state: Self)
        requires
            scale_factor.wf(),
        ensures
            state.wf(),
            state.cursor() == start(game.num_turns as int),
            state.current_turn == 1,
            state.game == game,
            state.draw_size == draw_size,
            state.draw_offset == draw_offset,
            state.scale_factor == scale_factor,
            state.phase == if game.num_turns >= 1 {
                Phase::Running
            } else {
                Phase::Finished
            },
    {
        let phase = if game.num_turns >= 1 {
            Phase::Running
        } else {
            Phase::Finished
        };
        PlaybackState { current_turn: 1, game, draw_size, draw_offset, scale_factor, phase }
    }

    /// Whether the session is still running.
    pub fn is_running(&self) -> (r: bool)
        ensures
            r == (self.phase == Phase::Running),
    {
        match self.phase {
            Phase::Running => true,
            Phase::Finished => false,
        }
    }

    /// Runs one tick. `quit` says whether the quit signal was present when
    /// the tick began. Returns the frame to render, or `None` where the
    /// tick renders nothing: the session was finished already, or it was
    /// finished by the signal.
    pub fn tick(&mut self, quit: bool) -> (frame: Option<Vec<Disc>>)
        requires
            old(self).wf(),
        ensures
            final(self).wf(),
            final(self).cursor() == step(old(self).cursor(), quit),
            final(self).game == old(self).game,
            final(self).draw_size == old(self).draw_size,
            final(self).draw_offset == old(self).draw_offset,
            final(self).scale_factor == old(self).scale_factor,
            frame is Some <==> renders(old(self).cursor(), quit),
            frame matches Some(discs) ==> discs@ == old(self).frame(),
    {
        if !self.is_running() {
            return None;
        }
        if quit {
            self.phase = Phase::Finished;
            return None;
        }
        let frame = draw(self);
        self.current_turn = self.current_turn + 1;
        if self.current_turn > self.game.num_turns as i64 {
            self.phase = Phase::Finished;
        }
        Some(frame)
    }

    /// Ends the session after a frame could not be drawn: the session is
    /// finished where it stands, and no further tick renders anything.
    pub fn abort(&mut self)
        ensures
            old(self).wf() ==> final(self).wf(),
            final(self).cursor() == (Cursor { running: false, ..old(self).cursor() }),
            final(self).game == old(self).game,
            final(self).draw_size == old(self).draw_size,
            final(self).draw_offset == old(self).draw_offset,
            final(self).scale_factor == old(self).scale_factor,
    {
        self.phase = Phase::Finished;
    }
}

/// Transforms a coordinate pair from game coordinates to screen coordinates.
pub fn transform_coord(state: &PlaybackState, coord: (i32, i32)) -> (p: (i64, i64))
    requires
        state.scale_factor.wf(),
    ensures
        (p.0 as int, p.1 as int) == state.mapper().mapped(coord.0 as int, coord.1 as int),
{
    let mapper = CoordinateMapper { scale: state.scale_factor, offset: state.draw_offset };
    mapper.map(coord.0, coord.1)
}

/// Builds the frame of the current turn: for every planet of the cluster,
/// in order, its owner on the turn, the owner's color, and its place on the
/// screen.
pub fn draw(state: &PlaybackState) -> (frame: Vec<Disc>)
    requires
        state.scale_factor.wf(),
    ensures
        frame@ == state.frame(),
{
    let radius: i32 = (state.draw_size / 200) as i32;
    let planets = &state.game.cluster.planets;
    let n = planets.len();
    let mut frame: Vec<Disc> = Vec::new();
    let mut i: usize = 0;
    while i < n
        invariant
            0 <= i <= n,
            n == planets@.len(),
            planets == &state.game.cluster.planets,
            state.scale_factor.wf(),
            radius == state.radius(),
            frame@.len() == i,
            forall|j: int| 0 <= j < i ==> frame@[j] == state.disc_of(planets@[j]),
        decreases n - i,
    {
        let planet = planets[i];
        let owner = if state.current_turn <= i32::MAX as i64 && state.current_turn >= i32::MIN as i64 {
            state.game.planet_to_owners.owner_at(planet.id, state.current_turn as i32)
        } else {
            UNKNOWN_OWNER
        };
        let color = pick_color(owner);
        let center = transform_coord(state, planet.position);
        frame.push(Disc { center, radius, color });
        i += 1;
    }
    frame
}

/// Without a quit signal, `k` ticks render `k` frames as long as the game
/// has turns left, and `num_turns` frames from then on; the session is
/// running before tick `num_turns` and finished after it.
pub proof fn lemma_play_without_quit(num_turns: int, signals: Seq<bool>)
    requires
        forall|i: int| 0 <= i < signals.len() ==> !signals[i],
    ensures
        frames_rendered(start(num_turns), signals) == if signals.len() <= num_turns {
            signals.len() as int
        } else if num_turns >= 0 {
            num_turns
        } else {
            0
        },
        play(start(num_turns), signals).running <==> signals.len() < num_turns,
        signals.len() < num_turns ==> play(start(num_turns), signals).current_turn
            == signals.len() + 1,
        play(start(num_turns), signals).num_turns == num_turns,
    decreases signals.len(),
{
    if signals.len() > 0 {
        lemma_play_without_quit(num_turns, signals.drop_last());
    }
}

/// A finished session renders nothing more, whatever the signals.
pub proof fn lemma_finished_stays(cursor: Cursor, signals: Seq<bool>)
    requires
        !cursor.running,
    ensures
        play(cursor, signals) == cursor,
        frames_rendered(cursor, signals) == 0,
    decreases signals.len(),
{
    if signals.len() > 0 {
        lemma_finished_stays(cursor, signals.drop_last());
    }
}

/// Playing two runs of ticks one after the other is playing their
/// concatenation.
pub proof fn lemma_play_concat(cursor: Cursor, first: Seq<bool>, second: Seq<bool>)
    ensures
        play(cursor, first + second) == play(play(cursor, first), second),
        frames_rendered(cursor, first + second) == frames_rendered(cursor, first)
            + frames_rendered(play(cursor, first), second),
    decreases second.len(),
{
    if second.len() == 0 {
        assert(first + second =~= first);
    } else {
        assert((first + second).drop_last() =~= first + second.drop_last());
        assert((first + second).last() == second.last());
        lemma_play_concat(cursor, first, second.drop_last());
    }
}

/// With the quit signal first present at tick `k`, after `k` ticks without
/// it, exactly `k` frames are rendered as long as `k` is at most the number
/// of turns, and the session is finished, whatever follows.
pub proof fn lemma_play_with_quit(num_turns: int, signals: Seq<bool>, k: int)
    requires
        0 <= k < signals.len(),
        k <= num_turns,
        signals[k],
        forall|i: int| 0 <= i < k ==> !signals[i],
    ensures
        frames_rendered(start(num_turns), signals) == k,
        !play(start(num_turns), signals).running,
{
    let before = signals.take(k);
    let rest = signals.skip(k + 1);
    let upto = before.push(true);
    assert(signals =~= upto + rest);
    lemma_play_without_quit(num_turns, before);
    assert(upto.drop_last() =~= before);
    let stopped = play(start(num_turns), upto);
    lemma_finished_stays(stopped, rest);
    lemma_play_concat(start(num_turns), upto, rest);
}

} // verus!
