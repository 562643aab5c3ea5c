use nurep::color::Color;
use nurep::ledger::{LedgerMode, OwnershipLedger};
use nurep::mapper::ScaleFactor;
use nurep::playback::{
    draw, fit_to_screen, pacing_delay, transform_coord, Disc, Layout, Phase, PlaybackState,
    TICK_MILLIS,
};
use nurep::state::{Cluster, Game, Planet};

fn game(num_turns: i32) -> Game {
    let mut ledger = OwnershipLedger::new();
    ledger.record_turn(1, &vec![(1, 0), (2, 1)], LedgerMode::Omniscient);
    ledger.record_turn(2, &vec![(1, 2), (2, 1)], LedgerMode::Omniscient);
    Game {
        num_turns,
        cluster: Cluster {
            dimensions: (100, 50),
            planets: vec![
                Planet { id: 1, position: (0, 0) },
                Planet { id: 2, position: (100, 50) },
                Planet { id: 3, position: (7, 7) },
            ],
            connections: vec![],
        },
        planet_to_owners: ledger,
    }
}

fn session(game: &Game) -> PlaybackState<'_> {
    PlaybackState::new(game, 1000, (10, 20), ScaleFactor::new(2, 1).unwrap())
}

#[test]
fn a_session_starts_at_turn_one() {
    let g = game(3);
    let state = session(&g);
    assert_eq!(state.current_turn, 1);
    assert_eq!(state.phase, Phase::Running);
    assert!(state.is_running());
    assert_eq!(state.draw_size, 1000);
    assert_eq!(state.draw_offset, (10, 20));
}

#[test]
fn a_game_without_turns_renders_nothing() {
    for turns in [0, -1, i32::MIN] {
        let g = game(turns);
        let mut state = session(&g);
        assert_eq!(state.phase, Phase::Finished);
        assert!(!state.is_running());
        assert_eq!(state.tick(false), None);
        assert_eq!(state.tick(true), None);
        assert_eq!(state.current_turn, 1);
    }
}

#[test]
fn without_quit_every_turn_is_rendered_once() {
    for turns in 1..6 {
        let g = game(turns);
        let mut state = session(&g);
        let mut frames = 0;
        let mut ticks = 0;
        while state.is_running() {
            assert_eq!(state.current_turn, ticks + 1);
            if state.tick(false).is_some() {
                frames += 1;
            }
            ticks += 1;
        }
        assert_eq!(frames, turns);
        assert_eq!(ticks, turns as i64);
        assert_eq!(state.current_turn, turns as i64 + 1);
        assert_eq!(state.tick(false), None);
        assert_eq!(state.phase, Phase::Finished);
    }
}

#[test]
fn a_quit_signal_at_tick_k_leaves_k_frames() {
    let turns = 5;
    for k in 0..=turns {
        let g = game(turns);
        let mut state = session(&g);
        let mut frames = 0;
        for tick in 0..turns + 3 {
            if state.tick(tick == k).is_some() {
                frames += 1;
            }
        }
        assert_eq!(frames, k);
        assert_eq!(state.phase, Phase::Finished);
    }
}

#[test]
fn a_quit_signal_stops_without_advancing() {
    let g = game(4);
    let mut state = session(&g);
    assert!(state.tick(false).is_some());
    assert_eq!(state.tick(true), None);
    assert_eq!(state.current_turn, 2);
    assert_eq!(state.phase, Phase::Finished);
    assert_eq!(state.tick(false), None);
    assert_eq!(state.current_turn, 2);
}

#[test]
fn a_frame_holds_one_disc_per_planet_in_cluster_order() {
    let g = game(3);
    let mut state = session(&g);
    let gray = Color { r: 0x50, g: 0x50, b: 0x50 };
    let red = Color { r: 0xff, g: 0x00, b: 0x00 };
    let green = Color { r: 0x00, g: 0xff, b: 0x00 };
    let unknown = Color { r: 0x20, g: 0x20, b: 0x20 };
    assert_eq!(
        draw(&state),
        vec![
            Disc { center: (10, 20), radius: 5, color: gray },
            Disc { center: (210, 120), radius: 5, color: red },
            Disc { center: (24, 34), radius: 5, color: unknown },
        ]
    );
    assert_eq!(state.tick(false), Some(draw(&session(&g))));
    assert_eq!(
        state.tick(false),
        Some(vec![
            Disc { center: (10, 20), radius: 5, color: green },
            Disc { center: (210, 120), radius: 5, color: red },
            Disc { center: (24, 34), radius: 5, color: unknown },
        ])
    );
    let third = state.tick(false).unwrap();
    assert!(third.iter().all(|d| d.color == unknown));
    assert!(!state.is_running());
}

#[test]
fn the_radius_is_a_two_hundredth_of_the_draw_size() {
    let g = game(1);
    for (size, radius) in [(0, 0), (199, 0), (200, 1), (1080, 5), (u32::MAX, 21474836)] {
        let state = PlaybackState::new(&g, size, (0, 0), ScaleFactor::new(1, 1).unwrap());
        assert!(draw(&state).iter().all(|d| d.radius == radius));
    }
}

#[test]
fn transform_coord_uses_the_sessions_scale_and_offset() {
    let g = game(1);
    let state = PlaybackState::new(&g, 600, (100, -50), ScaleFactor::new(19, 20).unwrap());
    assert_eq!(transform_coord(&state, (0, 0)), (100, -50));
    assert_eq!(transform_coord(&state, (100, 10)), (195, -40));
    assert_eq!(transform_coord(&state, (-10, 30)), (90, -21));
}

#[test]
fn pacing_blocks_for_the_rest_of_the_tick() {
    assert_eq!(TICK_MILLIS, 250);
    assert_eq!(pacing_delay(0, 250), 250);
    assert_eq!(pacing_delay(100, 250), 150);
    assert_eq!(pacing_delay(249, 250), 1);
}

#[test]
fn pacing_does_not_make_up_for_an_overrun() {
    assert_eq!(pacing_delay(250, 250), 0);
    assert_eq!(pacing_delay(900, 250), 0);
    assert_eq!(pacing_delay(u32::MAX, 250), 0);
    assert_eq!(pacing_delay(0, 0), 0);
}

#[test]
fn a_cluster_is_centred_on_the_screen() {
    assert_eq!(
        fit_to_screen((2000, 1500), (1920, 1080)),
        Some(Layout {
            draw_size: 1080,
            draw_offset: (420, 0),
            scale_factor: ScaleFactor { numerator: 20520, denominator: 40000 },
        })
    );
    assert_eq!(
        fit_to_screen((300, 900), (600, 801)),
        Some(Layout {
            draw_size: 600,
            draw_offset: (0, 100),
            scale_factor: ScaleFactor { numerator: 11400, denominator: 18000 },
        })
    );
}

#[test]
fn the_layout_maps_the_far_corner_inside_the_square() {
    let layout = fit_to_screen((2000, 1500), (1920, 1080)).unwrap();
    let g = game(1);
    let state =
        PlaybackState::new(&g, layout.draw_size, layout.draw_offset, layout.scale_factor);
    assert_eq!(transform_coord(&state, (0, 0)), (420, 0));
    assert_eq!(transform_coord(&state, (2000, 1500)), (420 + 1026, 770));
}

#[test]
fn a_cluster_without_extent_has_no_layout() {
    assert_eq!(fit_to_screen((0, 0), (1920, 1080)), None);
    assert_eq!(fit_to_screen((0, -5), (1920, 1080)), None);
    assert_eq!(fit_to_screen((-1, -1), (1920, 1080)), None);
}

#[test]
fn a_scale_beyond_32_bits_has_no_layout() {
    assert_eq!(fit_to_screen((214748365, 1), (100, 100)), None);
    assert!(fit_to_screen((214748364, 1), (100, 100)).is_some());
    assert_eq!(fit_to_screen((10, 10), (226050911, 226050911)), None);
    assert!(fit_to_screen((10, 10), (226050910, 226050911)).is_some());
    assert!(fit_to_screen((10, 10), (0, 0)).is_some());
}

#[test]
fn an_aborted_session_is_finished_where_it_stands() {
    let g = game(4);
    let mut state = session(&g);
    assert!(state.tick(false).is_some());
    state.abort();
    assert_eq!(state.phase, Phase::Finished);
    assert_eq!(state.current_turn, 2);
    assert_eq!(state.tick(false), None);
    assert_eq!(state.current_turn, 2);
}
