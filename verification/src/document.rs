//! The game document: a game as a tree of integers, arrays and objects.
//!
//! A saved game is a structured text of the shape
//! `{num_turns, cluster: {dimensions: [w, h], planets: [{id, position: [x, y]}],
//! connections: [{id_a, id_b}]}, planet_to_owners: {planet: {turn: owner}}}`.
//! This module maps a game to the tree behind that text and back, and
//! proves that nothing is lost on the way. Writing the tree out as text and
//! reading text in as a tree is the caller's part.

use crate::decimal::{decimal_of, format_i32, lemma_parse_decimal, parse_i32, parse_i32_spec};
use crate::ledger::{History, OwnershipLedger};
use crate::state::{Cluster, ClusterView, Connection, Game, GameView, Planet};
use std::collections::BTreeMap;
use vstd::prelude::*;
use vstd::std_specs::btree::*;
use vstd::std_specs::iter::IteratorSpec;
use vstd::string::*;

verus! {

/// A value of a structured document, as far as a game document uses it.
#[derive(Debug, PartialEq, Eq)]
pub enum JsonValue {
    /// An integer.
    Int(i64),
    /// A list of values.
    Array(Vec<JsonValue>),
    /// Named values, in the order of the document.
    Object(Vec<(String, JsonValue)>),
    /// Any value of another kind.
    Other,
}

/// The mathematical content of a [`JsonValue`].
pub enum JsonModel {
    Int(int),
    Array(Seq<JsonModel>),
    Object(Seq<(Seq<char>, JsonModel)>),
    Other,
}

/// The content of a value: integers as they are, lists and objects item by
/// item.
pub open spec fn model_of(v: JsonValue) -> JsonModel
    decreases v,
{
    match v {
        JsonValue::Int(i) => JsonModel::Int(i as int),
        JsonValue::Array(items) => JsonModel::Array(
            Seq::new(
                items@.len(),
                |i: int|
                    if 0 <= i < items@.len() {
                        model_of(items@[i])
                    } else {
                        JsonModel::Other
                    },
            ),
        ),
        JsonValue::Object(entries) => JsonModel::Object(
            Seq::new(
                entries@.len(),
                |i: int|
                    if 0 <= i < entries@.len() {
                        (entries@[i].0@, model_of(entries@[i].1))
                    } else {
                        (Seq::empty(), JsonModel::Other)
                    },
            ),
        ),
        JsonValue::Other => JsonModel::Other,
    }
}

impl View for JsonValue {
    type V = JsonModel;

    open spec fn view(&self) -> JsonModel {
        model_of(*self)
    }
}

/// A document that does not describe a game.
#[derive(Clone, Copy, Debug, PartialEq, Eq)]
pub struct ParseError {}

/// The named values of an object.
pub type Entries = Seq<(Seq<char>, JsonModel)>;

/// The 32-bit integer that a value is, if it is one.
pub open spec fn int_of(v: JsonModel) -> Option<i32> {
    match v {
        JsonModel::Int(i) => if i32::MIN <= i <= i32::MAX {
            Some(i as i32)
        } else {
            None
        },
        _ => None,
    }
}

/// The pair that a value is, if it is an array of two 32-bit integers.
pub open spec fn pair_of(v: JsonModel) -> Option<(i32, i32)> {
    match v {
        JsonModel::Array(items) => if items.len() == 2 {
            match (int_of(items[0]), int_of(items[1])) {
                (Some(a), Some(b)) => Some((a, b)),
                _ => None,
            }
        } else {
            None
        },
        _ => None,
    }
}

/// The value of the first entry of that name.
pub open spec fn lookup(entries: Entries, name: Seq<char>) -> Option<JsonModel>
    decreases entries.len(),
{
    if entries.len() == 0 {
        None
    } else {
        match lookup(entries.drop_last(), name) {
            Some(v) => Some(v),
            None => if entries.last().0 == name {
                Some(entries.last().1)
            } else {
                None
            },
        }
    }
}

/// The field of that name, if the value is an object that has one.
pub open spec fn field(v: JsonModel, name: Seq<char>) -> Option<JsonModel> {
    match v {
        JsonModel::Object(entries) => lookup(entries, name),
        _ => None,
    }
}

/// The 32-bit integer in the field of that name.
pub open spec fn int_field(v: JsonModel, name: Seq<char>) -> Option<i32> {
    match field(v, name) {
        Some(f) => int_of(f),
        None => None,
    }
}

/// The pair in the field of that name.
pub open spec fn pair_field(v: JsonModel, name: Seq<char>) -> Option<(i32, i32)> {
    match field(v, name) {
        Some(f) => pair_of(f),
        None => None,
    }
}

/// The items of the array in the field of that name.
pub open spec fn array_field(v: JsonModel, name: Seq<char>) -> Option<Seq<JsonModel>> {
    match field(v, name) {
        Some(JsonModel::Array(items)) => Some(items),
        _ => None,
    }
}

/// The entries of the object in the field of that name.
pub open spec fn object_field(v: JsonModel, name: Seq<char>) -> Option<Entries> {
    match field(v, name) {
        Some(JsonModel::Object(entries)) => Some(entries),
        _ => None,
    }
}

/// The planet that a value describes: `{id, position: [x, y]}`.
pub open spec fn planet_in(v: JsonModel) -> Option<Planet> {
    match (int_field(v, "id"@), pair_field(v, "position"@)) {
        (Some(id), Some(position)) => Some(Planet { id, position }),
        _ => None,
    }
}

/// The connection that a value describes: `{id_a, id_b}`.
pub open spec fn connection_in(v: JsonModel) -> Option<Connection> {
    match (int_field(v, "id_a"@), int_field(v, "id_b"@)) {
        (Some(id_a), Some(id_b)) => Some(Connection { id_a, id_b }),
        _ => None,
    }
}

/// The planets that the items describe, if each describes one.
pub open spec fn planets_in(items: Seq<JsonModel>) -> Option<Seq<Planet>>
    decreases items.len(),
{
    if items.len() == 0 {
        Some(Seq::empty())
    } else {
        match (planets_in(items.drop_last()), planet_in(items.last())) {
            (Some(planets), Some(planet)) => Some(planets.push(planet)),
            _ => None,
        }
    }
}

/// The connections that the items describe, if each describes one.
pub open spec fn connections_in(items: Seq<JsonModel>) -> Option<Seq<Connection>>
    decreases items.len(),
{
    if items.len() == 0 {
        Some(Seq::empty())
    } else {
        match (connections_in(items.drop_last()), connection_in(items.last())) {
            (Some(connections), Some(connection)) => Some(connections.push(connection)),
            _ => None,
        }
    }
}

/// The cluster that a value describes:
/// `{dimensions: [w, h], planets: [..], connections: [..]}`.
pub open spec fn cluster_in(v: JsonModel) -> Option<ClusterView> {
    match (pair_field(v, "dimensions"@), array_field(v, "planets"@), array_field(v, "connections"@)) {
        (Some(dimensions), Some(planet_items), Some(connection_items)) => match (
            planets_in(planet_items),
            connections_in(connection_items),
        ) {
            (Some(planets), Some(connections)) => Some(
                ClusterView { dimensions, planets, connections },
            ),
            _ => None,
        },
        _ => None,
    }
}

/// The owners by turn that the entries describe: each name is a turn in
/// decimal notation, each value the owner's id. Of two entries for one turn
/// the later counts.
pub open spec fn turns_in(entries: Entries) -> Option<Map<i32, i32>>
    decreases entries.len(),
{
    if entries.len() == 0 {
        Some(Map::empty())
    } else {
        match (
            turns_in(entries.drop_last()),
            parse_i32_spec(entries.last().0),
            int_of(entries.last().1),
        ) {
            (Some(turns), Some(turn), Some(owner)) => Some(turns.insert(turn, owner)),
            _ => None,
        }
    }
}

/// The history that the entries describe: each name is a planet id in
/// decimal notation, each value an object of owners by turn. Of two entries
/// for one planet the later counts.
pub open spec fn owners_in(entries: Entries) -> Option<History>
    decreases entries.len(),
{
    if entries.len() == 0 {
        Some(Map::empty())
    } else {
        match (owners_in(entries.drop_last()), parse_i32_spec(entries.last().0), entries.last().1) {
            (Some(history), Some(planet), JsonModel::Object(turn_entries)) => match turns_in(
                turn_entries,
            ) {
                Some(turns) => Some(history.insert(planet, turns)),
                None => None,
            },
            _ => None,
        }
    }
}

/// The game that a document describes:
/// `{num_turns, cluster: {..}, planet_to_owners: {planet: {turn: owner}}}`.
/// Fields are found by name; further fields are ignored.
pub open spec fn game_in(doc: JsonModel) -> Option<GameView> {
    match (int_field(doc, "num_turns"@), field(doc, "cluster"@), object_field(doc, "planet_to_owners"@)) {
        (Some(num_turns), Some(cluster_doc), Some(owner_entries)) => match (
            cluster_in(cluster_doc),
            owners_in(owner_entries),
        ) {
            (Some(cluster), Some(planet_to_owners)) => Some(
                GameView { num_turns, cluster, planet_to_owners },
            ),
            _ => None,
        },
        _ => None,
    }
}

/// The items of an array value.
pub open spec fn items_of(v: JsonModel) -> Seq<JsonModel> {
    match v {
        JsonModel::Array(items) => items,
        _ => Seq::empty(),
    }
}

/// The entries of an object value.
pub open spec fn entries_of(v: JsonModel) -> Entries {
    match v {
        JsonModel::Object(entries) => entries,
        _ => Seq::empty(),
    }
}

/// What the view of an object is, entry by entry.
proof fn lemma_object_view(v: JsonValue)
    requires
        v is Object,
    ensures
        v@ is Object,
        entries_of(v@).len() == v->Object_0@.len(),
        forall|j: int|
            0 <= j < v->Object_0@.len() ==> #[trigger] entries_of(v@)[j] == (
                v->Object_0@[j].0@,
                v->Object_0@[j].1@,
            ),
{
}

/// What the view of an array is, item by item.
proof fn lemma_array_view(v: JsonValue)
    requires
        v is Array,
    ensures
        v@ is Array,
        items_of(v@).len() == v->Array_0@.len(),
        forall|j: int| 0 <= j < v->Array_0@.len() ==> #[trigger] items_of(v@)[j] == v->Array_0@[j]@,
{
}

/// Reads a 32-bit integer.
fn read_int(v: &JsonValue) -> (r: Option<i32>)
    ensures
        r == int_of(v@),
{
    match v {
        JsonValue::Int(i) => if *i >= i32::MIN as i64 && *i <= i32::MAX as i64 {
            Some(*i as i32)
        } else {
            None
        },
        _ => None,
    }
}

/// Reads an array of two 32-bit integers.
fn read_pair(v: &JsonValue) -> (r: Option<(i32, i32)>)
    ensures
        r == pair_of(v@),
{
    match v {
        JsonValue::Array(items) => {
            if items.len() != 2 {
                return None;
            }
            match (read_int(&items[0]), read_int(&items[1])) {
                (Some(a), Some(b)) => Some((a, b)),
                _ => None,
            }
        },
        _ => None,
    }
}

/// Once an entry of that name is found among the first entries, it is the
/// one that a lookup among all entries finds.
proof fn lemma_lookup_prefix(entries: Entries, name: Seq<char>, n: int)
    requires
        0 <= n <= entries.len(),
        lookup(entries.take(n), name) is Some,
    ensures
        lookup(entries, name) == lookup(entries.take(n), name),
    decreases entries.len() - n,
{
    if n < entries.len() {
        assert(entries.take(n + 1).drop_last() =~= entries.take(n));
        lemma_lookup_prefix(entries, name, n + 1);
    } else {
        assert(entries.take(n) =~= entries);
    }
}

/// Finds the field of that name.
fn find<'a>(v: &'a JsonValue, name: &str) -> (r: Option<&'a JsonValue>)
    ensures
        match r {
            Some(f) => field(v@, name@) == Some(f@),
            None => field(v@, name@) is None,
        },
{
    match v {
        JsonValue::Object(entries) => {
            let wanted = String::from_str(name);
            let n = entries.len();
            let ghost all = entries_of(v@);
            let mut i: usize = 0;
            while i < n
                invariant
                    0 <= i <= n,
                    n == entries@.len(),
                    all == entries_of(v@),
                    v@ == JsonModel::Object(all),
                    all.len() == n,
                    forall|j: int| 0 <= j < n ==> all[j] == (entries[j].0@, entries[j].1@),
                    wanted@ == name@,
                    lookup(all.take(i as int), name@) is None,
                decreases n - i,
            {
                assert(all.take(i + 1).drop_last() =~= all.take(i as int));
                if entries[i].0 == wanted {
                    proof {
                        lemma_lookup_prefix(all, name@, i + 1);
                    }
                    return Some(&entries[i].1);
                }
                i += 1;
            }
            assert(all.take(n as int) =~= all);
            None
        },
        _ => None,
    }
}

/// Reads the 32-bit integer in the field of that name.
fn read_int_field(v: &JsonValue, name: &str) -> (r: Option<i32>)
    ensures
        r == int_field(v@, name@),
{
    match find(v, name) {
        Some(f) => read_int(f),
        None => None,
    }
}

/// Reads the pair in the field of that name.
fn read_pair_field(v: &JsonValue, name: &str) -> (r: Option<(i32, i32)>)
    ensures
        r == pair_field(v@, name@),
{
    match find(v, name) {
        Some(f) => read_pair(f),
        None => None,
    }
}

/// Reads a planet.
fn read_planet(v: &JsonValue) -> (r: Option<Planet>)
    ensures
        r == planet_in(v@),
{
    match (read_int_field(v, "id"), read_pair_field(v, "position")) {
        (Some(id), Some(position)) => Some(Planet { id, position }),
        _ => None,
    }
}

/// Reads a connection.
fn read_connection(v: &JsonValue) -> (r: Option<Connection>)
    ensures
        r == connection_in(v@),
{
    match (read_int_field(v, "id_a"), read_int_field(v, "id_b")) {
        (Some(id_a), Some(id_b)) => Some(Connection { id_a, id_b }),
        _ => None,
    }
}

/// Where a prefix of the items describes no list of planets, neither do
/// all of them.
proof fn lemma_planets_prefix(items: Seq<JsonModel>, n: int)
    requires
        0 <= n <= items.len(),
        planets_in(items.take(n)) is None,
    ensures
        planets_in(items) is None,
    decreases items.len() - n,
{
    if n < items.len() {
        assert(items.take(n + 1).drop_last() =~= items.take(n));
        lemma_planets_prefix(items, n + 1);
    } else {
        assert(items.take(n) =~= items);
    }
}

/// Where a prefix of the items describes no list of connections, neither
/// do all of them.
proof fn lemma_connections_prefix(items: Seq<JsonModel>, n: int)
    requires
        0 <= n <= items.len(),
        connections_in(items.take(n)) is None,
    ensures
        connections_in(items) is None,
    decreases items.len() - n,
{
    if n < items.len() {
        assert(items.take(n + 1).drop_last() =~= items.take(n));
        lemma_connections_prefix(items, n + 1);
    } else {
        assert(items.take(n) =~= items);
    }
}

/// Reads the planets in the field of that name.
fn read_planets(v: &JsonValue, name: &str) -> (r: Option<Vec<Planet>>)
    ensures
        match r {
            Some(planets) => array_field(v@, name@) is Some && planets_in(
                array_field(v@, name@).unwrap(),
            ) == Some(planets@),
            None => array_field(v@, name@) is None || planets_in(array_field(v@, name@).unwrap())
                is None,
        },
{
    let list = match find(v, name) {
        Some(list) => list,
        None => {
            return None;
        },
    };
    match list {
        JsonValue::Array(items) => {
            let ghost all = items_of(list@);
            let n = items.len();
            let mut planets: Vec<Planet> = Vec::new();
            let mut i: usize = 0;
            while i < n
                invariant
                    0 <= i <= n,
                    n == items@.len(),
                    all.len() == n,
                    forall|j: int| 0 <= j < n ==> #[trigger] all[j] == items@[j]@,
                    array_field(v@, name@) == Some(all),
                    planets_in(all.take(i as int)) == Some(planets@),
                decreases n - i,
            {
                assert(all.take(i + 1).drop_last() =~= all.take(i as int));
                match read_planet(&items[i]) {
                    Some(planet) => {
                        planets.push(planet);
                    },
                    None => {
                        proof {
                            lemma_planets_prefix(all, i + 1);
                        }
                        return None;
                    },
                }
                i += 1;
            }
            assert(all.take(n as int) =~= all);
            Some(planets)
        },
        _ => None,
    }
}

/// Reads the connections in the field of that name.
fn read_connections(v: &JsonValue, name: &str) -> (r: Option<Vec<Connection>>)
    ensures
        match r {
            Some(connections) => array_field(v@, name@) is Some && connections_in(
                array_field(v@, name@).unwrap(),
            ) == Some(connections@),
            None => array_field(v@, name@) is None || connections_in(
                array_field(v@, name@).unwrap(),
            ) is None,
        },
{
    let list = match find(v, name) {
        Some(list) => list,
        None => {
            return None;
        },
    };
    match list {
        JsonValue::Array(items) => {
            let ghost all = items_of(list@);
            let n = items.len();
            let mut connections: Vec<Connection> = Vec::new();
            let mut i: usize = 0;
            while i < n
                invariant
                    0 <= i <= n,
                    n == items@.len(),
                    all.len() == n,
                    forall|j: int| 0 <= j < n ==> #[trigger] all[j] == items@[j]@,
                    array_field(v@, name@) == Some(all),
                    connections_in(all.take(i as int)) == Some(connections@),
                decreases n - i,
            {
                assert(all.take(i + 1).drop_last() =~= all.take(i as int));
                match read_connection(&items[i]) {
                    Some(connection) => {
                        connections.push(connection);
                    },
                    None => {
                        proof {
                            lemma_connections_prefix(all, i + 1);
                        }
                        return None;
                    },
                }
                i += 1;
            }
            assert(all.take(n as int) =~= all);
            Some(connections)
        },
        _ => None,
    }
}

/// Reads a cluster.
fn read_cluster(v: &JsonValue) -> (r: Option<Cluster>)
    ensures
        match r {
            Some(cluster) => cluster_in(v@) == Some(cluster@),
            None => cluster_in(v@) is None,
        },
{
    let dimensions = match read_pair_field(v, "dimensions") {
        Some(d) => d,
        None => {
            return None;
        },
    };
    let planets = match read_planets(v, "planets") {
        Some(p) => p,
        None => {
            return None;
        },
    };
    let connections = match read_connections(v, "connections") {
        Some(c) => c,
        None => {
            return None;
        },
    };
    Some(Cluster { dimensions, planets, connections })
}

/// Where a prefix of the entries describes no owners by turn, neither do
/// all of them.
proof fn lemma_turns_prefix(entries: Entries, n: int)
    requires
        0 <= n <= entries.len(),
        turns_in(entries.take(n)) is None,
    ensures
        turns_in(entries) is None,
    decreases entries.len() - n,
{
    if n < entries.len() {
        assert(entries.take(n + 1).drop_last() =~= entries.take(n));
        lemma_turns_prefix(entries, n + 1);
    } else {
        assert(entries.take(n) =~= entries);
    }
}

/// Where a prefix of the entries describes no history, neither do all of
/// them.
proof fn lemma_owners_prefix(entries: Entries, n: int)
    requires
        0 <= n <= entries.len(),
        owners_in(entries.take(n)) is None,
    ensures
        owners_in(entries) is None,
    decreases entries.len() - n,
{
    if n < entries.len() {
        assert(entries.take(n + 1).drop_last() =~= entries.take(n));
        lemma_owners_prefix(entries, n + 1);
    } else {
        assert(entries.take(n) =~= entries);
    }
}

/// Reads the owners by turn of one planet.
fn read_turns(v: &JsonValue) -> (r: Option<BTreeMap<i32, i32>>)
    requires
        v@ is Object,
    ensures
        match r {
            Some(turns) => turns_in(entries_of(v@)) == Some(turns@),
            None => turns_in(entries_of(v@)) is None,
        },
{
    match v {
        JsonValue::Object(entries) => {
            let ghost all = entries_of(v@);
            let n = entries.len();
            let mut turns: BTreeMap<i32, i32> = BTreeMap::new();
            let mut i: usize = 0;
            while i < n
                invariant
                    0 <= i <= n,
                    n == entries@.len(),
                    all.len() == n,
                    all == entries_of(v@),
                    forall|j: int|
                        0 <= j < n ==> #[trigger] all[j] == (entries@[j].0@, entries@[j].1@),
                    turns_in(all.take(i as int)) == Some(turns@),
                decreases n - i,
            {
                assert(all.take(i + 1).drop_last() =~= all.take(i as int));
                match (parse_i32(entries[i].0.as_str()), read_int(&entries[i].1)) {
                    (Some(turn), Some(owner)) => {
                        turns.insert(turn, owner);
                    },
                    _ => {
                        proof {
                            lemma_turns_prefix(all, i + 1);
                        }
                        return None;
                    },
                }
                i += 1;
            }
            assert(all.take(n as int) =~= all);
            Some(turns)
        },
        _ => None,
    }
}

/// Reads the history in the field of that name.
fn read_owners(doc: &JsonValue, name: &str) -> (r: Option<OwnershipLedger>)
    ensures
        match r {
            Some(ledger) => object_field(doc@, name@) is Some && owners_in(
                object_field(doc@, name@).unwrap(),
            ) == Some(ledger@),
            None => object_field(doc@, name@) is None || owners_in(
                object_field(doc@, name@).unwrap(),
            ) is None,
        },
{
    let v = match find(doc, name) {
        Some(v) => v,
        None => {
            return None;
        },
    };
    match v {
        JsonValue::Object(entries) => {
            let ghost all = entries_of(v@);
            let n = entries.len();
            let mut ledger = OwnershipLedger::new();
            let mut i: usize = 0;
            while i < n
                invariant
                    0 <= i <= n,
                    n == entries@.len(),
                    all.len() == n,
                    object_field(doc@, name@) == Some(all),
                    forall|j: int|
                        0 <= j < n ==> #[trigger] all[j] == (entries@[j].0@, entries@[j].1@),
                    owners_in(all.take(i as int)) == Some(ledger@),
                decreases n - i,
            {
                assert(all.take(i + 1).drop_last() =~= all.take(i as int));
                let planet = match parse_i32(entries[i].0.as_str()) {
                    Some(planet) => planet,
                    None => {
                        proof {
                            lemma_owners_prefix(all, i + 1);
                        }
                        return None;
                    },
                };
                let turns = match &entries[i].1 {
                    JsonValue::Object(_) => read_turns(&entries[i].1),
                    _ => None,
                };
                match turns {
                    Some(turns) => {
                        ledger.owners.insert(planet, turns);
                    },
                    None => {
                        proof {
                            lemma_owners_prefix(all, i + 1);
                        }
                        return None;
                    },
                }
                i += 1;
            }
            assert(all.take(n as int) =~= all);
            Some(ledger)
        },
        _ => None,
    }
}

/// Reads a game from its document. The document is malformed, and an error
/// is returned, exactly where it describes no game.
pub fn from_document(doc: &JsonValue) -> (r: Result<Game, ParseError>)
    ensures
        match r {
            Ok(game) => game_in(doc@) == Some(game@),
            Err(_) => game_in(doc@) is None,
        },
{
    let num_turns = match read_int_field(doc, "num_turns") {
        Some(n) => n,
        None => {
            return Err(ParseError {  });
        },
    };
    let cluster = match find(doc, "cluster") {
        Some(v) => match read_cluster(v) {
            Some(cluster) => cluster,
            None => {
                return Err(ParseError {  });
            },
        },
        None => {
            return Err(ParseError {  });
        },
    };
    let planet_to_owners = match read_owners(doc, "planet_to_owners") {
        Some(ledger) => ledger,
        None => {
            return Err(ParseError {  });
        },
    };
    Ok(Game { num_turns, cluster, planet_to_owners })
}

/// The document of a pair: an array of its two integers.
pub open spec fn pair_doc(pair: (i32, i32)) -> JsonModel {
    JsonModel::Array(seq![JsonModel::Int(pair.0 as int), JsonModel::Int(pair.1 as int)])
}

/// The document of a planet.
pub open spec fn planet_doc(planet: Planet) -> JsonModel {
    JsonModel::Object(
        seq![
            ("id"@, JsonModel::Int(planet.id as int)),
            ("position"@, pair_doc(planet.position)),
        ],
    )
}

/// The document of a connection.
pub open spec fn connection_doc(connection: Connection) -> JsonModel {
    JsonModel::Object(
        seq![
            ("id_a"@, JsonModel::Int(connection.id_a as int)),
            ("id_b"@, JsonModel::Int(connection.id_b as int)),
        ],
    )
}

/// The document of a cluster.
pub open spec fn cluster_doc(cluster: ClusterView) -> JsonModel {
    JsonModel::Object(
        seq![
            ("dimensions"@, pair_doc(cluster.dimensions)),
            (
                "planets"@,
                JsonModel::Array(cluster.planets.map_values(|p: Planet| planet_doc(p))),
            ),
            (
                "connections"@,
                JsonModel::Array(cluster.connections.map_values(|c: Connection| connection_doc(c))),
            ),
        ],
    )
}

/// Whether the keys come in strictly increasing order.
pub open spec fn increasing(keys: Seq<i32>) -> bool {
    forall|i: int, j: int| 0 <= i < j < keys.len() ==> keys[i] < keys[j]
}

/// Whether the keys are those of the domain, in increasing order.
pub open spec fn lists_keys(keys: Seq<i32>, domain: Set<i32>) -> bool {
    increasing(keys) && keys.to_set() == domain
}

/// The entries for the owners by turn, in the order of the listed turns.
pub open spec fn turn_entries(keys: Seq<i32>, turns: Map<i32, i32>) -> Entries {
    keys.map_values(|turn: i32| (decimal_of(turn as int), JsonModel::Int(turns[turn] as int)))
}

/// Whether a value is a document of the owners by turn: an object with one
/// entry for each turn, named by the turn in decimal notation.
pub open spec fn is_turns_doc(v: JsonModel, turns: Map<i32, i32>) -> bool {
    exists|keys: Seq<i32>|
        lists_keys(keys, turns.dom()) && v == JsonModel::Object(#[trigger] turn_entries(keys, turns))
}

/// Whether the entries are a document of the history, in the order of the
/// listed planets: one entry for each planet, named by the planet id in
/// decimal notation, with a document of the planet's owners by turn.
pub open spec fn are_owner_entries(entries: Entries, keys: Seq<i32>, history: History) -> bool {
    &&& lists_keys(keys, history.dom())
    &&& entries.len() == keys.len()
    &&& forall|i: int|
        0 <= i < keys.len() ==> (#[trigger] entries[i]).0 == decimal_of(keys[i] as int)
            && is_turns_doc(entries[i].1, history[keys[i]])
}

/// Whether a value is a document of the history.
pub open spec fn is_owners_doc(v: JsonModel, history: History) -> bool {
    v is Object && exists|keys: Seq<i32>| #[trigger] are_owner_entries(entries_of(v), keys, history)
}

/// Whether a document is the document of a game: an object with the fields
/// `num_turns`, `cluster` and `planet_to_owners`, in this order.
pub open spec fn is_game_doc(doc: JsonModel, game: GameView) -> bool {
    &&& doc is Object
    &&& entries_of(doc).len() == 3
    &&& entries_of(doc)[0] == ("num_turns"@, JsonModel::Int(game.num_turns as int))
    &&& entries_of(doc)[1] == ("cluster"@, cluster_doc(game.cluster))
    &&& entries_of(doc)[2].0 == "planet_to_owners"@
    &&& is_owners_doc(entries_of(doc)[2].1, game.planet_to_owners)
}

/// Exchanging two items keeps the items that occur, and keeps them from
/// occurring twice.
proof fn lemma_exchange(keys: Seq<i32>, a: int, b: int)
    requires
        0 <= a < keys.len(),
        0 <= b < keys.len(),
    ensures
        keys.update(a, keys[b]).update(b, keys[a]).to_set() == keys.to_set(),
        keys.no_duplicates() ==> keys.update(a, keys[b]).update(b, keys[a]).no_duplicates(),
{
    let after = keys.update(a, keys[b]).update(b, keys[a]);
    assert forall|k: i32| after.to_set().contains(k) implies keys.to_set().contains(k) by {
        let i = choose|i: int| 0 <= i < after.len() && after[i] == k;
        if i == a {
            assert(keys[b] == k);
        } else if i == b {
            assert(keys[a] == k);
        } else {
            assert(keys[i] == k);
        }
    }
    assert forall|k: i32| keys.to_set().contains(k) implies after.to_set().contains(k) by {
        let i = choose|i: int| 0 <= i < keys.len() && keys[i] == k;
        if i == a {
            assert(after[b] == k);
        } else if i == b {
            assert(after[a] == k);
        } else {
            assert(after[i] == k);
        }
    }
    assert(after.to_set() =~= keys.to_set());
}

/// Puts keys that are all different in increasing order.
fn put_in_order(keys: &mut Vec<i32>)
    requires
        old(keys)@.no_duplicates(),
    ensures
        increasing(final(keys)@),
        final(keys)@.to_set() == old(keys)@.to_set(),
{
    let n = keys.len();
    let mut i: usize = 1;
    while i < n
        invariant
            1 <= i,
            n == keys@.len(),
            keys@.no_duplicates(),
            keys@.to_set() == old(keys)@.to_set(),
            forall|a: int, b: int| 0 <= a < b < i && b < n ==> keys@[a] < keys@[b],
        decreases n - i,
    {
        let mut j: usize = i;
        while j > 0 && keys[j - 1] > keys[j]
            invariant
                0 <= j <= i < n,
                n == keys@.len(),
                keys@.no_duplicates(),
                keys@.to_set() == old(keys)@.to_set(),
                forall|a: int, b: int| 0 <= a < b <= i && a != j && b != j ==> keys@[a] < keys@[b],
                forall|b: int| j < b <= i ==> keys@[j as int] < keys@[b],
            decreases j,
        {
            let ghost before = keys@;
            let lower = keys[j - 1];
            let upper = keys[j];
            keys.set(j - 1, upper);
            keys.set(j, lower);
            proof {
                lemma_exchange(before, j - 1, j as int);
                assert(keys@ =~= before.update(j - 1, before[j as int]).update(
                    j as int,
                    before[j - 1],
                ));
            }
            j -= 1;
        }
        i += 1;
    }
}

/// Lists the keys of a map in increasing order.
fn keys_of<V>(map: &BTreeMap<i32, V>) -> (keys: Vec<i32>)
    ensures
        lists_keys(keys@, map@.dom()),
{
    let mut keys: Vec<i32> = Vec::new();
    for key in it: map.keys()
        invariant
            keys@.len() == it.index(),
            forall|j: int| 0 <= j < keys@.len() ==> keys@[j] == *it.seq()[j],
            it.seq() == spec_keys_iter(map).remaining(),
    {
        keys.push(*key);
    }
    proof {
        assert(keys@ =~= spec_keys_iter(map).remaining().unref());
    }
    // The map hands its keys out in order; were one out of place, it would
    // be moved to its place here.
    put_in_order(&mut keys);
    keys
}

/// Writes a pair.
fn write_pair(pair: (i32, i32)) -> (v: JsonValue)
    ensures
        v@ == pair_doc(pair),
{
    let mut items: Vec<JsonValue> = Vec::new();
    items.push(JsonValue::Int(pair.0 as i64));
    items.push(JsonValue::Int(pair.1 as i64));
    let v = JsonValue::Array(items);
    proof {
        lemma_array_view(v);
        assert(items_of(v@) =~= items_of(pair_doc(pair)));
    }
    v
}

/// Writes an object of two fields.
fn write_object2(name0: &str, value0: JsonValue, name1: &str, value1: JsonValue) -> (v: JsonValue)
    ensures
        v@ == JsonModel::Object(seq![(name0@, value0@), (name1@, value1@)]),
{
    let mut entries: Vec<(String, JsonValue)> = Vec::new();
    entries.push((String::from_str(name0), value0));
    entries.push((String::from_str(name1), value1));
    let v = JsonValue::Object(entries);
    proof {
        assert(entries_of(v@) =~= seq![(name0@, value0@), (name1@, value1@)]);
    }
    v
}

/// Writes a planet.
fn write_planet(planet: &Planet) -> (v: JsonValue)
    ensures
        v@ == planet_doc(*planet),
{
    write_object2("id", JsonValue::Int(planet.id as i64), "position", write_pair(planet.position))
}

/// Writes a connection.
fn write_connection(connection: &Connection) -> (v: JsonValue)
    ensures
        v@ == connection_doc(*connection),
{
    write_object2(
        "id_a",
        JsonValue::Int(connection.id_a as i64),
        "id_b",
        JsonValue::Int(connection.id_b as i64),
    )
}

/// Writes a cluster.
fn write_cluster(cluster: &Cluster) -> (v: JsonValue)
    ensures
        v@ == cluster_doc(cluster@),
{
    let mut planets: Vec<JsonValue> = Vec::new();
    let mut i: usize = 0;
    while i < cluster.planets.len()
        invariant
            0 <= i <= cluster.planets@.len(),
            planets@.len() == i,
            forall|j: int| 0 <= j < i ==> (#[trigger] planets@[j])@ == planet_doc(cluster.planets@[j]),
        decreases cluster.planets@.len() - i,
    {
        planets.push(write_planet(&cluster.planets[i]));
        i += 1;
    }
    let mut connections: Vec<JsonValue> = Vec::new();
    let mut i: usize = 0;
    while i < cluster.connections.len()
        invariant
            0 <= i <= cluster.connections@.len(),
            connections@.len() == i,
            forall|j: int|
                0 <= j < i ==> (#[trigger] connections@[j])@ == connection_doc(
                    cluster.connections@[j],
                ),
        decreases cluster.connections@.len() - i,
    {
        connections.push(write_connection(&cluster.connections[i]));
        i += 1;
    }
    let planet_list = JsonValue::Array(planets);
    let connection_list = JsonValue::Array(connections);
    proof {
        assert(items_of(planet_list@) =~= cluster.planets@.map_values(|p: Planet| planet_doc(p)));
        assert(items_of(connection_list@) =~= cluster.connections@.map_values(
            |c: Connection| connection_doc(c),
        ));
    }
    let mut entries: Vec<(String, JsonValue)> = Vec::new();
    entries.push((String::from_str("dimensions"), write_pair(cluster.dimensions)));
    entries.push((String::from_str("planets"), planet_list));
    entries.push((String::from_str("connections"), connection_list));
    let v = JsonValue::Object(entries);
    proof {
        assert(entries_of(v@) =~= entries_of(cluster_doc(cluster@)));
    }
    v
}

/// Writes the owners by turn of one planet.
fn write_turns(turns: &BTreeMap<i32, i32>) -> (v: JsonValue)
    ensures
        is_turns_doc(v@, turns@),
{
    let keys = keys_of(turns);
    let n = keys.len();
    let mut entries: Vec<(String, JsonValue)> = Vec::new();
    let mut i: usize = 0;
    while i < n
        invariant
            0 <= i <= n,
            n == keys@.len(),
            lists_keys(keys@, turns@.dom()),
            entries@.len() == i,
            forall|j: int|
                0 <= j < i ==> (#[trigger] entries@[j]).0@ == decimal_of(keys@[j] as int)
                    && entries@[j].1@ == JsonModel::Int(turns@[keys@[j]] as int),
        decreases n - i,
    {
        let turn = keys[i];
        let owner: i32 = match turns.get(&turn) {
            Some(owner) => *owner,
            None => 0,
        };
        entries.push((format_i32(turn), JsonValue::Int(owner as i64)));
        i += 1;
    }
    let v = JsonValue::Object(entries);
    proof {
        assert(entries_of(v@) =~= turn_entries(keys@, turns@));
    }
    v
}

/// Writes the history.
fn write_owners(ledger: &OwnershipLedger) -> (v: JsonValue)
    ensures
        is_owners_doc(v@, ledger@),
{
    let keys = keys_of(&ledger.owners);
    let n = keys.len();
    let mut entries: Vec<(String, JsonValue)> = Vec::new();
    let mut i: usize = 0;
    while i < n
        invariant
            0 <= i <= n,
            n == keys@.len(),
            lists_keys(keys@, ledger.owners@.dom()),
            entries@.len() == i,
            forall|j: int|
                0 <= j < i ==> (#[trigger] entries@[j]).0@ == decimal_of(keys@[j] as int)
                    && is_turns_doc(entries@[j].1@, ledger@[keys@[j]]),
        decreases n - i,
    {
        let planet = keys[i];
        let turns = match ledger.owners.get(&planet) {
            Some(turns) => write_turns(turns),
            None => JsonValue::Other,
        };
        entries.push((format_i32(planet), turns));
        i += 1;
    }
    let v = JsonValue::Object(entries);
    proof {
        assert(ledger@.dom() =~= ledger.owners@.dom());
        assert(are_owner_entries(entries_of(v@), keys@, ledger@));
    }
    v
}

/// Writes the document of a game.
pub fn to_document(game: &Game) -> (doc: JsonValue)
    ensures
        is_game_doc(doc@, game@),
{
    let mut entries: Vec<(String, JsonValue)> = Vec::new();
    entries.push((String::from_str("num_turns"), JsonValue::Int(game.num_turns as i64)));
    entries.push((String::from_str("cluster"), write_cluster(&game.cluster)));
    entries.push((String::from_str("planet_to_owners"), write_owners(&game.planet_to_owners)));
    let doc = JsonValue::Object(entries);
    proof {
        lemma_object_view(doc);
    }
    doc
}

/// No entry of that name, no value.
proof fn lemma_lookup_none(entries: Entries, name: Seq<char>)
    requires
        forall|j: int| 0 <= j < entries.len() ==> (#[trigger] entries[j]).0 != name,
    ensures
        lookup(entries, name) is None,
    decreases entries.len(),
{
    if entries.len() > 0 {
        let rest = entries.drop_last();
        assert forall|j: int| 0 <= j < rest.len() implies (#[trigger] rest[j]).0 != name by {}
        lemma_lookup_none(rest, name);
    }
}

/// An entry whose name no earlier entry has is the one that its name finds.
proof fn lemma_lookup_at(entries: Entries, i: int)
    requires
        0 <= i < entries.len(),
        forall|j: int| 0 <= j < i ==> (#[trigger] entries[j]).0 != entries[i].0,
    ensures
        lookup(entries, entries[i].0) == Some(entries[i].1),
{
    let name = entries[i].0;
    let before = entries.take(i);
    assert forall|j: int| 0 <= j < before.len() implies (#[trigger] before[j]).0 != name by {}
    lemma_lookup_none(before, name);
    assert(entries.take(i + 1).drop_last() =~= before);
    lemma_lookup_prefix(entries, name, i + 1);
}

/// The field names of the document differ from each other.
proof fn lemma_names_differ()
    ensures
        "id"@ != "position"@,
        "id_a"@ != "id_b"@,
        "dimensions"@ != "planets"@,
        "dimensions"@ != "connections"@,
        "planets"@ != "connections"@,
        "num_turns"@ != "cluster"@,
        "num_turns"@ != "planet_to_owners"@,
        "cluster"@ != "planet_to_owners"@,
{
    reveal_strlit("id");
    reveal_strlit("position");
    reveal_strlit("id_a");
    reveal_strlit("id_b");
    reveal_strlit("dimensions");
    reveal_strlit("planets");
    reveal_strlit("connections");
    reveal_strlit("num_turns");
    reveal_strlit("cluster");
    reveal_strlit("planet_to_owners");
    assert("id"@.len() == 2 && "position"@.len() == 8);
    assert("dimensions"@.len() == 10 && "planets"@.len() == 7 && "connections"@.len() == 11);
    assert("num_turns"@.len() == 9 && "cluster"@.len() == 7 && "planet_to_owners"@.len() == 16);
    assert("id_a"@[3] != "id_b"@[3]);
}


/// Reading the document of a planet gives the planet.
proof fn lemma_planet_round_trip(planet: Planet)
    ensures
        planet_in(planet_doc(planet)) == Some(planet),
{
    lemma_names_differ();
    let entries = entries_of(planet_doc(planet));
    lemma_lookup_at(entries, 0);
    lemma_lookup_at(entries, 1);
}

/// Reading the document of a connection gives the connection.
proof fn lemma_connection_round_trip(connection: Connection)
    ensures
        connection_in(connection_doc(connection)) == Some(connection),
{
    lemma_names_differ();
    let entries = entries_of(connection_doc(connection));
    lemma_lookup_at(entries, 0);
    lemma_lookup_at(entries, 1);
}

/// Reading the documents of planets gives the planets.
proof fn lemma_planets_round_trip(planets: Seq<Planet>)
    ensures
        planets_in(planets.map_values(|p: Planet| planet_doc(p))) == Some(planets),
    decreases planets.len(),
{
    let items = planets.map_values(|p: Planet| planet_doc(p));
    if planets.len() > 0 {
        lemma_planets_round_trip(planets.drop_last());
        assert(items.drop_last() =~= planets.drop_last().map_values(|p: Planet| planet_doc(p)));
        lemma_planet_round_trip(planets.last());
    }
}

/// Reading the documents of connections gives the connections.
proof fn lemma_connections_round_trip(connections: Seq<Connection>)
    ensures
        connections_in(connections.map_values(|c: Connection| connection_doc(c))) == Some(
            connections,
        ),
    decreases connections.len(),
{
    let items = connections.map_values(|c: Connection| connection_doc(c));
    if connections.len() > 0 {
        lemma_connections_round_trip(connections.drop_last());
        assert(items.drop_last() =~= connections.drop_last().map_values(
            |c: Connection| connection_doc(c),
        ));
        lemma_connection_round_trip(connections.last());
    }
}

/// Reading the document of a cluster gives the cluster.
pub proof fn lemma_cluster_round_trip(cluster: ClusterView)
    ensures
        cluster_in(cluster_doc(cluster)) == Some(cluster),
{
    lemma_names_differ();
    let entries = entries_of(cluster_doc(cluster));
    lemma_lookup_at(entries, 0);
    lemma_lookup_at(entries, 1);
    lemma_lookup_at(entries, 2);
    lemma_planets_round_trip(cluster.planets);
    lemma_connections_round_trip(cluster.connections);
}

/// Reading the entries written for some of the turns gives the owners on
/// those turns.
proof fn lemma_turn_entries_round_trip(keys: Seq<i32>, turns: Map<i32, i32>)
    requires
        forall|i: int| 0 <= i < keys.len() ==> turns.contains_key(#[trigger] keys[i]),
    ensures
        turns_in(turn_entries(keys, turns)) == Some(turns.restrict(keys.to_set())),
    decreases keys.len(),
{
    let entries = turn_entries(keys, turns);
    if keys.len() > 0 {
        let rest = keys.drop_last();
        let last = keys.last();
        assert forall|i: int| 0 <= i < rest.len() implies turns.contains_key(#[trigger] rest[i]) by {
            assert(rest[i] == keys[i]);
        }
        lemma_turn_entries_round_trip(rest, turns);
        assert(entries.drop_last() =~= turn_entries(rest, turns));
        lemma_parse_decimal(last);
        assert(turns.contains_key(keys[keys.len() - 1]));
        assert(keys.to_set() =~= rest.to_set().insert(last)) by {
            assert forall|k: i32| keys.to_set().contains(k) implies rest.to_set().insert(
                last,
            ).contains(k) by {
                let j = choose|j: int| 0 <= j < keys.len() && keys[j] == k;
                if j < rest.len() {
                    assert(rest[j] == k);
                }
            }
            assert forall|k: i32| rest.to_set().insert(last).contains(k) implies keys.to_set().contains(
                k,
            ) by {
                if k == last {
                    assert(keys[keys.len() - 1] == k);
                } else {
                    let j = choose|j: int| 0 <= j < rest.len() && rest[j] == k;
                    assert(keys[j] == k);
                }
            }
        }
        assert(turns.restrict(keys.to_set()) =~= turns.restrict(rest.to_set()).insert(
            last,
            turns[last],
        ));
    } else {
        assert(keys.to_set() =~= Set::<i32>::empty());
        assert(turns.restrict(keys.to_set()) =~= Map::<i32, i32>::empty());
    }
}

/// Reading a document of the owners by turn gives them.
pub proof fn lemma_turns_round_trip(v: JsonModel, turns: Map<i32, i32>)
    requires
        is_turns_doc(v, turns),
    ensures
        v is Object,
        turns_in(entries_of(v)) == Some(turns),
{
    let keys = choose|keys: Seq<i32>|
        lists_keys(keys, turns.dom()) && v == JsonModel::Object(#[trigger] turn_entries(keys, turns));
    assert forall|i: int| 0 <= i < keys.len() implies turns.contains_key(#[trigger] keys[i]) by {}
    lemma_turn_entries_round_trip(keys, turns);
}

/// Reading the entries written for the first `n` planets gives the history
/// of those planets.
proof fn lemma_owner_entries_round_trip(entries: Entries, keys: Seq<i32>, history: History, n: int)
    requires
        are_owner_entries(entries, keys, history),
        0 <= n <= keys.len(),
    ensures
        owners_in(entries.take(n)) == Some(history.restrict(keys.take(n).to_set())),
    decreases n,
{
    if n > 0 {
        lemma_owner_entries_round_trip(entries, keys, history, n - 1);
        let planet = keys[n - 1];
        assert(entries.take(n).drop_last() =~= entries.take(n - 1));
        assert(entries.take(n).last() == entries[n - 1]);
        lemma_parse_decimal(planet);
        lemma_turns_round_trip(entries[n - 1].1, history[planet]);
        assert(keys.to_set().contains(keys[n - 1]));
        let fewer = keys.take(n - 1);
        let these = keys.take(n);
        let some = fewer.to_set();
        assert(these.to_set() =~= some.insert(planet)) by {
            assert forall|k: i32| these.to_set().contains(k) implies some.insert(planet).contains(
                k,
            ) by {
                let j = choose|j: int| 0 <= j < these.len() && these[j] == k;
                if j < n - 1 {
                    assert(fewer[j] == k);
                }
            }
            assert forall|k: i32| some.insert(planet).contains(k) implies these.to_set().contains(
                k,
            ) by {
                if k == planet {
                    assert(these[n - 1] == k);
                } else {
                    let j = choose|j: int| 0 <= j < fewer.len() && fewer[j] == k;
                    assert(these[j] == k);
                }
            }
        }
        assert(history.restrict(these.to_set()) =~= history.restrict(some).insert(
            planet,
            history[planet],
        ));
    } else {
        assert(entries.take(0) =~= Seq::empty());
        assert(keys.take(0).to_set() =~= Set::<i32>::empty());
        assert(history.restrict(keys.take(0).to_set()) =~= History::empty());
    }
}

/// Reading a document of a history gives the history.
pub proof fn lemma_owners_round_trip(v: JsonModel, history: History)
    requires
        is_owners_doc(v, history),
    ensures
        owners_in(entries_of(v)) == Some(history),
{
    let entries = entries_of(v);
    let keys = choose|keys: Seq<i32>| #[trigger] are_owner_entries(entries, keys, history);
    lemma_owner_entries_round_trip(entries, keys, history, keys.len() as int);
    assert(entries.take(keys.len() as int) =~= entries);
    assert(keys.take(keys.len() as int) =~= keys);
}

/// Reading the document of a game gives the game: every field comes back
/// as it was written, and with it the owner of every planet on every turn.
pub proof fn lemma_document_round_trip(doc: JsonModel, game: GameView)
    requires
        is_game_doc(doc, game),
    ensures
        game_in(doc) == Some(game),
{
    lemma_names_differ();
    let entries = entries_of(doc);
    lemma_lookup_at(entries, 0);
    lemma_lookup_at(entries, 1);
    lemma_lookup_at(entries, 2);
    lemma_cluster_round_trip(game.cluster);
    lemma_owners_round_trip(entries[2].1, game.planet_to_owners);
}

/// A set has one list of its keys in increasing order.
proof fn lemma_increasing_unique(a: Seq<i32>, b: Seq<i32>)
    requires
        increasing(a),
        increasing(b),
        a.to_set() == b.to_set(),
    ensures
        a == b,
    decreases a.len(),
{
    if a.len() == 0 {
        if b.len() > 0 {
            assert(b.to_set().contains(b[0]));
        }
        assert(a =~= b);
    } else {
        assert(a.to_set().contains(a[a.len() - 1]));
        assert(b.len() > 0 && a.last() <= b.last()) by {
            let j = choose|j: int| 0 <= j < b.len() && b[j] == a.last();
            if j < b.len() - 1 {
                assert(b[j] < b[b.len() - 1]);
            }
        }
        assert(b.to_set().contains(b[b.len() - 1]));
        assert(b.last() <= a.last()) by {
            let i = choose|i: int| 0 <= i < a.len() && a[i] == b.last();
            if i < a.len() - 1 {
                assert(a[i] < a[a.len() - 1]);
            }
        }
        let fewer_a = a.drop_last();
        let fewer_b = b.drop_last();
        assert forall|k: i32| fewer_a.to_set().contains(k) implies fewer_b.to_set().contains(k) by {
            let m = choose|m: int| 0 <= m < fewer_a.len() && fewer_a[m] == k;
            assert(a[m] == k);
            assert(a.to_set().contains(k));
            let l = choose|l: int| 0 <= l < b.len() && b[l] == k;
            assert(fewer_b[l] == k);
        }
        assert forall|k: i32| fewer_b.to_set().contains(k) implies fewer_a.to_set().contains(k) by {
            let m = choose|m: int| 0 <= m < fewer_b.len() && fewer_b[m] == k;
            assert(b[m] == k);
            assert(b.to_set().contains(k));
            let l = choose|l: int| 0 <= l < a.len() && a[l] == k;
            assert(fewer_a[l] == k);
        }
        assert(fewer_a.to_set() =~= fewer_b.to_set());
        assert forall|x: int, y: int| 0 <= x < y < fewer_a.len() implies fewer_a[x] < fewer_a[y] by {
            assert(a[x] < a[y]);
        }
        assert forall|x: int, y: int| 0 <= x < y < fewer_b.len() implies fewer_b[x] < fewer_b[y] by {
            assert(b[x] < b[y]);
        }
        lemma_increasing_unique(fewer_a, fewer_b);
        assert(a =~= fewer_a.push(a.last()));
        assert(b =~= fewer_b.push(b.last()));
    }
}

/// The owners by turn have one document.
proof fn lemma_turns_doc_unique(first: JsonModel, second: JsonModel, turns: Map<i32, i32>)
    requires
        is_turns_doc(first, turns),
        is_turns_doc(second, turns),
    ensures
        first == second,
{
    let a = choose|keys: Seq<i32>|
        lists_keys(keys, turns.dom()) && first == JsonModel::Object(
            #[trigger] turn_entries(keys, turns),
        );
    let b = choose|keys: Seq<i32>|
        lists_keys(keys, turns.dom()) && second == JsonModel::Object(
            #[trigger] turn_entries(keys, turns),
        );
    lemma_increasing_unique(a, b);
}

/// A game has one document: what `to_document` returns is determined by
/// the game.
pub proof fn lemma_document_unique(first: JsonModel, second: JsonModel, game: GameView)
    requires
        is_game_doc(first, game),
        is_game_doc(second, game),
    ensures
        first == second,
{
    let history = game.planet_to_owners;
    let owners_a = entries_of(entries_of(first)[2].1);
    let owners_b = entries_of(entries_of(second)[2].1);
    let a = choose|keys: Seq<i32>| #[trigger] are_owner_entries(owners_a, keys, history);
    let b = choose|keys: Seq<i32>| #[trigger] are_owner_entries(owners_b, keys, history);
    lemma_increasing_unique(a, b);
    assert forall|i: int| 0 <= i < owners_a.len() implies owners_a[i] == owners_b[i] by {
        lemma_turns_doc_unique(owners_a[i].1, owners_b[i].1, history[a[i]]);
    }
    assert(owners_a =~= owners_b);
    assert(entries_of(first) =~= entries_of(second));
}

} // verus!
