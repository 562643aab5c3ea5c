use nurep::document::{from_document, to_document, JsonValue, ParseError};
use nurep::ledger::{LedgerMode, OwnershipLedger};
use nurep::state::{Cluster, Connection, Game, Planet};
use rustc_serialize::json::Json;
use std::collections::BTreeMap;

fn sample_game() -> Game {
    let mut ledger = OwnershipLedger::new();
    ledger.record_turn(1, &vec![(11, 0), (-4, 7)], LedgerMode::Omniscient);
    ledger.record_turn(2, &vec![(11, 7), (-4, 7)], LedgerMode::Omniscient);
    ledger.record_turn(3, &vec![(11, 7)], LedgerMode::Omniscient);
    Game {
        num_turns: 3,
        cluster: Cluster {
            dimensions: (60, 25),
            planets: vec![
                Planet { id: 11, position: (0, 25) },
                Planet { id: -4, position: (60, 0) },
            ],
            connections: vec![Connection { id_a: 11, id_b: -4 }],
        },
        planet_to_owners: ledger,
    }
}

fn entry(name: &str, value: JsonValue) -> (String, JsonValue) {
    (name.to_string(), value)
}

fn pair(a: i64, b: i64) -> JsonValue {
    JsonValue::Array(vec![JsonValue::Int(a), JsonValue::Int(b)])
}

fn sample_document() -> JsonValue {
    JsonValue::Object(vec![
        entry("num_turns", JsonValue::Int(3)),
        entry(
            "cluster",
            JsonValue::Object(vec![
                entry("dimensions", pair(60, 25)),
                entry(
                    "planets",
                    JsonValue::Array(vec![
                        JsonValue::Object(vec![
                            entry("id", JsonValue::Int(11)),
                            entry("position", pair(0, 25)),
                        ]),
                        JsonValue::Object(vec![
                            entry("id", JsonValue::Int(-4)),
                            entry("position", pair(60, 0)),
                        ]),
                    ]),
                ),
                entry(
                    "connections",
                    JsonValue::Array(vec![JsonValue::Object(vec![
                        entry("id_a", JsonValue::Int(11)),
                        entry("id_b", JsonValue::Int(-4)),
                    ])]),
                ),
            ]),
        ),
        entry(
            "planet_to_owners",
            JsonValue::Object(vec![
                entry(
                    "-4",
                    JsonValue::Object(vec![
                        entry("1", JsonValue::Int(7)),
                        entry("2", JsonValue::Int(7)),
                    ]),
                ),
                entry(
                    "11",
                    JsonValue::Object(vec![
                        entry("1", JsonValue::Int(0)),
                        entry("2", JsonValue::Int(7)),
                        entry("3", JsonValue::Int(7)),
                    ]),
                ),
            ]),
        ),
    ])
}

fn to_json(value: &JsonValue) -> Json {
    match value {
        JsonValue::Int(i) => Json::I64(*i),
        JsonValue::Array(items) => Json::Array(items.iter().map(to_json).collect()),
        JsonValue::Object(entries) => {
            Json::Object(entries.iter().map(|(k, v)| (k.clone(), to_json(v))).collect())
        }
        JsonValue::Other => Json::Null,
    }
}

fn from_json(json: &Json) -> JsonValue {
    match json {
        Json::I64(i) => JsonValue::Int(*i),
        Json::U64(u) => i64::try_from(*u).map(JsonValue::Int).unwrap_or(JsonValue::Other),
        Json::Array(items) => JsonValue::Array(items.iter().map(from_json).collect()),
        Json::Object(entries) => {
            JsonValue::Object(entries.iter().map(|(k, v)| (k.clone(), from_json(v))).collect())
        }
        _ => JsonValue::Other,
    }
}

fn replace(doc: &mut JsonValue, path: &[&str], value: JsonValue) {
    if let JsonValue::Object(entries) = doc {
        for (name, slot) in entries.iter_mut() {
            if name == path[0] {
                if path.len() == 1 {
                    *slot = value;
                } else {
                    replace(slot, &path[1..], value);
                }
                return;
            }
        }
    }
    panic!("no field {:?}", path);
}

#[test]
fn a_game_is_written_field_by_field() {
    assert_eq!(to_document(&sample_game()), sample_document());
}

#[test]
fn round_trip_keeps_every_field() {
    let game = sample_game();
    let decoded = from_document(&to_document(&game)).unwrap();
    assert_eq!(decoded, game);
    assert_eq!(decoded.num_turns, 3);
    assert_eq!(decoded.cluster.planets.len(), 2);
    assert_eq!(decoded.cluster.connections, vec![Connection { id_a: 11, id_b: -4 }]);
    assert_eq!(decoded.cluster.dimensions, (60, 25));
    assert_eq!(decoded.planet_to_owners, game.planet_to_owners);
}

#[test]
fn round_trip_keeps_every_recorded_owner() {
    let game = sample_game();
    let decoded = from_document(&to_document(&game)).unwrap();
    for planet in [-4, 11, 5] {
        for turn in 0..5 {
            assert_eq!(
                decoded.planet_to_owners.owner_at(planet, turn),
                game.planet_to_owners.owner_at(planet, turn)
            );
        }
    }
    assert_eq!(decoded.planet_to_owners.owner_at(-4, 3), -1);
    assert_eq!(decoded.planet_to_owners.owner_at(11, 3), 7);
}

#[test]
fn round_trip_through_text() {
    let game = sample_game();
    let text = to_json(&to_document(&game)).to_string();
    assert_eq!(
        text,
        "{\"cluster\":{\"connections\":[{\"id_a\":11,\"id_b\":-4}],\"dimensions\":[60,25],\
         \"planets\":[{\"id\":11,\"position\":[0,25]},{\"id\":-4,\"position\":[60,0]}]},\
         \"num_turns\":3,\"planet_to_owners\":{\"-4\":{\"1\":7,\"2\":7},\
         \"11\":{\"1\":0,\"2\":7,\"3\":7}}}"
    );
    let parsed = Json::from_str(&text).unwrap();
    assert_eq!(from_document(&from_json(&parsed)), Ok(game));
}

#[test]
fn round_trip_of_an_empty_game() {
    let game = Game {
        num_turns: 0,
        cluster: Cluster { dimensions: (0, 0), planets: vec![], connections: vec![] },
        planet_to_owners: OwnershipLedger::new(),
    };
    let document = to_document(&game);
    assert_eq!(from_document(&document), Ok(game));
    let text = to_json(&document).to_string();
    assert_eq!(from_document(&from_json(&Json::from_str(&text).unwrap())).unwrap().num_turns, 0);
}

#[test]
fn round_trip_of_extreme_values() {
    let mut ledger = OwnershipLedger::new();
    ledger.record_turn(i32::MAX, &vec![(i32::MIN, i32::MIN), (i32::MAX, i32::MAX)], LedgerMode::Omniscient);
    ledger.record_turn(i32::MIN, &vec![(0, -1)], LedgerMode::Omniscient);
    let game = Game {
        num_turns: i32::MIN,
        cluster: Cluster {
            dimensions: (i32::MAX, i32::MIN),
            planets: vec![Planet { id: i32::MIN, position: (i32::MIN, i32::MAX) }],
            connections: vec![Connection { id_a: i32::MAX, id_b: i32::MIN }],
        },
        planet_to_owners: ledger,
    };
    let text = to_json(&to_document(&game)).to_string();
    let decoded = from_document(&from_json(&Json::from_str(&text).unwrap())).unwrap();
    assert_eq!(decoded, game);
    assert_eq!(decoded.planet_to_owners.owner_at(i32::MIN, i32::MAX), i32::MIN);
}

#[test]
fn fields_are_found_by_name_and_further_ones_ignored() {
    let mut entries = match sample_document() {
        JsonValue::Object(entries) => entries,
        _ => unreachable!(),
    };
    entries.reverse();
    entries.insert(0, entry("comment", JsonValue::Other));
    entries.push(entry("num_turns", JsonValue::Int(99)));
    assert_eq!(from_document(&JsonValue::Object(entries)), Ok(sample_game()));
}

#[test]
fn a_document_that_is_no_object_is_malformed() {
    assert_eq!(from_document(&JsonValue::Other), Err(ParseError {}));
    assert_eq!(from_document(&JsonValue::Int(3)), Err(ParseError {}));
    assert_eq!(from_document(&JsonValue::Array(vec![sample_document()])), Err(ParseError {}));
    assert_eq!(from_document(&JsonValue::Object(vec![])), Err(ParseError {}));
}

#[test]
fn a_missing_field_is_malformed() {
    for missing in ["num_turns", "cluster", "planet_to_owners"] {
        let entries: Vec<(String, JsonValue)> = match sample_document() {
            JsonValue::Object(entries) => {
                entries.into_iter().filter(|(name, _)| name != missing).collect()
            }
            _ => unreachable!(),
        };
        assert_eq!(from_document(&JsonValue::Object(entries)), Err(ParseError {}));
    }
}

#[test]
fn a_field_of_the_wrong_kind_is_malformed() {
    let cases: Vec<(Vec<&str>, JsonValue)> = vec![
        (vec!["num_turns"], JsonValue::Other),
        (vec!["num_turns"], JsonValue::Int(i32::MAX as i64 + 1)),
        (vec!["num_turns"], JsonValue::Int(i32::MIN as i64 - 1)),
        (vec!["cluster"], JsonValue::Array(vec![])),
        (vec!["cluster", "dimensions"], JsonValue::Int(4)),
        (vec!["cluster", "dimensions"], JsonValue::Array(vec![JsonValue::Int(4)])),
        (vec!["cluster", "dimensions"], JsonValue::Array(vec![
            JsonValue::Int(4), JsonValue::Int(5), JsonValue::Int(6),
        ])),
        (vec!["cluster", "dimensions"], JsonValue::Array(vec![JsonValue::Int(4), JsonValue::Other])),
        (vec!["cluster", "planets"], JsonValue::Object(vec![])),
        (vec!["cluster", "planets"], JsonValue::Array(vec![JsonValue::Int(1)])),
        (vec!["cluster", "planets"], JsonValue::Array(vec![JsonValue::Object(vec![
            entry("id", JsonValue::Int(1)),
        ])])),
        (vec!["cluster", "connections"], JsonValue::Other),
        (vec!["cluster", "connections"], JsonValue::Array(vec![JsonValue::Object(vec![
            entry("id_a", JsonValue::Int(1)),
            entry("id_b", JsonValue::Int(1 << 40)),
        ])])),
        (vec!["planet_to_owners"], JsonValue::Array(vec![])),
        (vec!["planet_to_owners", "11"], JsonValue::Int(3)),
        (vec!["planet_to_owners", "11"], JsonValue::Object(vec![entry("1", JsonValue::Other)])),
        (vec!["planet_to_owners", "11"], JsonValue::Object(vec![entry("one", JsonValue::Int(1))])),
        (vec!["planet_to_owners", "11"], JsonValue::Object(vec![entry("", JsonValue::Int(1))])),
    ];
    for (path, value) in cases {
        let mut document = sample_document();
        replace(&mut document, &path, value);
        assert_eq!(from_document(&document), Err(ParseError {}), "{:?}", path);
    }
}

#[test]
fn a_planet_key_that_is_no_number_is_malformed() {
    let mut document = sample_document();
    replace(
        &mut document,
        &["planet_to_owners"],
        JsonValue::Object(vec![entry("eleven", JsonValue::Object(vec![]))]),
    );
    assert_eq!(from_document(&document), Err(ParseError {}));
}

#[test]
fn of_two_entries_for_one_key_the_later_counts() {
    let mut document = sample_document();
    replace(
        &mut document,
        &["planet_to_owners"],
        JsonValue::Object(vec![
            entry("5", JsonValue::Object(vec![entry("1", JsonValue::Int(1))])),
            entry("+5", JsonValue::Object(vec![
                entry("2", JsonValue::Int(2)),
                entry("02", JsonValue::Int(3)),
            ])),
        ]),
    );
    let game = from_document(&document).unwrap();
    let mut expected = BTreeMap::new();
    expected.insert(5, BTreeMap::from([(2, 3)]));
    assert_eq!(game.planet_to_owners.owners, expected);
    assert_eq!(game.planet_to_owners.owner_at(5, 1), -1);
    assert_eq!(game.planet_to_owners.owner_at(5, 2), 3);
}

#[test]
fn planets_and_turns_are_listed_in_increasing_order() {
    let mut ledger = OwnershipLedger::new();
    for turn in [3, 1, 2] {
        ledger.record_turn(turn, &vec![(20, turn), (-7, 0), (100, 1)], LedgerMode::Omniscient);
    }
    let game = Game {
        num_turns: 3,
        cluster: Cluster { dimensions: (0, 0), planets: vec![], connections: vec![] },
        planet_to_owners: ledger,
    };
    let document = to_document(&game);
    let owners = match &document {
        JsonValue::Object(entries) => match &entries[2].1 {
            JsonValue::Object(owners) => owners,
            _ => unreachable!(),
        },
        _ => unreachable!(),
    };
    let planets: Vec<&str> = owners.iter().map(|(name, _)| name.as_str()).collect();
    assert_eq!(planets, vec!["-7", "20", "100"]);
    for (_, turns) in owners {
        match turns {
            JsonValue::Object(turns) => {
                let names: Vec<&str> = turns.iter().map(|(name, _)| name.as_str()).collect();
                assert_eq!(names, vec!["1", "2", "3"]);
            }
            _ => unreachable!(),
        }
    }
    assert_eq!(from_document(&document), Ok(game));
}
