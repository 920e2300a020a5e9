//! The house map of a hide-and-seek game and the checks a map must pass
//! before a game can start.

use vstd::prelude::*;
use std::collections::HashMap;
use crate::bookmarks::insert_entry;
use crate::movement::random_below;
use crate::text::chars_equal;

verus! {

#[derive(Debug, Clone, PartialEq)]
pub struct HidingSpot {
    pub name: String,
}

#[derive(Debug, Clone, PartialEq)]
pub struct Room {
    pub name: String,
    pub hiding_spots: Vec<HidingSpot>,
}

/// A floor; its name should equal its key in the house map.
#[derive(Debug, Clone)]
pub struct Floor {
    pub name: String,
    pub rooms: Vec<Room>,
}

/// A house map keyed by floor name.
#[derive(Debug)]
pub struct Config {
    pub house_map: HashMap<String, Floor>,
}

/// A house map that must hold at least two floors.
#[derive(Debug)]
pub struct MultiFloorConfig {
    pub map: HashMap<String, Floor>,
}

/// Whether a floor, stored under `key`, can be played: it has rooms, its
/// name is its key, and every room has a hiding spot.
pub open spec fn floor_playable(key: String, floor: Floor) -> bool {
    &&& floor.rooms@.len() > 0
    &&& key@ == floor.name@
    &&& forall|i: int| 0 <= i < floor.rooms@.len() ==> (#[trigger] floor.rooms@[i]).hiding_spots@.len() > 0
}

/// Whether every floor of the map can be played.
pub open spec fn all_floors_playable(m: Map<String, Floor>) -> bool {
    forall|k: String| #[trigger] m.contains_key(k) ==> floor_playable(k, m[k])
}

/// Relies on `HashMap::iter`: it visits every entry of the map exactly once,
/// in an order that depends on the map's hasher.
#[verifier::external_body]
fn map_entries<'a, V>(m: &'a HashMap<String, V>) -> (r: Vec<(&'a String, &'a V)>)
    ensures
        r@.len() == m@.dom().len(),
        forall|i: int| 0 <= i < r@.len() ==> m@.contains_key(*(#[trigger] r@[i]).0) && m@[*r@[i].0]
            == *r@[i].1,
        forall|k: String| #[trigger] m@.contains_key(k) ==> exists|i: int| 0 <= i < r@.len() && *(
        #[trigger] r@[i]).0 == k,
{
    m.iter().collect()
}

/// Checks one floor; the message names what is missing.
fn check_floor(key: &String, floor: &Floor) -> (r: Result<(), String>)
    ensures
        r is Ok <==> floor_playable(*key, *floor),
{
    if floor.rooms.len() == 0 {
        let mut m = key.clone();
        m.append(" needs some rooms");
        return Err(m);
    }
    if !chars_equal(key.as_str(), floor.name.as_str()) {
        let mut m = "key: ".to_string();
        m.append(key.as_str());
        m.append(", name: ");
        m.append(floor.name.as_str());
        m.append(", must match");
        return Err(m);
    }
    let mut i: usize = 0;
    while i < floor.rooms.len()
        invariant
            i <= floor.rooms@.len(),
            forall|t: int| 0 <= t < i ==> (#[trigger] floor.rooms@[t]).hiding_spots@.len() > 0,
        decreases floor.rooms.len() - i,
    {
        if floor.rooms[i].hiding_spots.len() == 0 {
            let mut m = floor.rooms[i].name.clone();
            m.append(" needs some hiding spots");
            return Err(m);
        }
        i = i + 1;
    }
    Ok(())
}

/// Checks every floor of a map, stopping at the first unplayable one the
/// walk meets.
fn check_floors(m: &HashMap<String, Floor>) -> (r: Result<usize, String>)
    ensures
        r is Ok <==> all_floors_playable(m@),
        r matches Ok(n) ==> (n == 0 <==> m@.dom() == Set::<String>::empty()),
{
    let entries = map_entries(m);
    let mut i: usize = 0;
    while i < entries.len()
        invariant
            i <= entries@.len(),
            forall|j: int| 0 <= j < entries@.len() ==> m@.contains_key(*(#[trigger] entries@[j]).0)
                && m@[*entries@[j].0] == *entries@[j].1,
            forall|t: int| 0 <= t < i ==> floor_playable(*(#[trigger] entries@[t]).0, *entries@[t].1),
        decreases entries.len() - i,
    {
        let (k, f) = entries[i];
        if let Err(e) = check_floor(k, f) {
            assert(m@.contains_key(*k) && !floor_playable(*k, m@[*k]));
            return Err(e);
        }
        i = i + 1;
    }
    assert forall|k: String| #[trigger] m@.contains_key(k) implies floor_playable(k, m@[k]) by {
        let j = choose|j: int| 0 <= j < entries@.len() && *(#[trigger] entries@[j]).0 == k;
        assert(floor_playable(*entries@[j].0, *entries@[j].1));
    }
    if entries.len() == 0 {
        assert(m@.dom() =~= Set::<String>::empty()) by {
            assert forall|k: String| !m@.contains_key(k) by {
                if m@.contains_key(k) {
                    let j = choose|j: int| 0 <= j < entries@.len() && *(#[trigger] entries@[j]).0 == k;
                }
            }
        }
    } else {
        assert(m@.contains_key(*entries@[0].0));
        assert(m@.dom().contains(*entries@[0].0));
    }
    Ok(entries.len())
}

/// A map can be played when it has a floor and every floor can be played.
pub fn validate_config(config: &Config) -> (r: Result<(), String>)
    ensures
        r is Ok <==> config.house_map@.dom() != Set::<String>::empty() && all_floors_playable(
            config.house_map@,
        ),
{
    match check_floors(&config.house_map) {
        Err(e) => Err(e),
        Ok(n) => {
            if n == 0 {
                Err("config can't be empty".to_string())
            } else {
                Ok(())
            }
        },
    }
}

/// A map with at least two floors can be played when every floor can be
/// played.
pub fn validate_multi_floor_config(config: &MultiFloorConfig) -> (r: Result<(), String>)
    ensures
        r is Ok <==> config.map@.dom().len() >= 2 && all_floors_playable(config.map@),
{
    let n = map_entries(&config.map).len();
    if n == 0 {
        return Err("config can't be empty".to_string());
    }
    if n < 2 {
        return Err("need at least two floors".to_string());
    }
    match check_floors(&config.map) {
        Err(e) => Err(e),
        Ok(_) => Ok(()),
    }
}

/// How large a generated house is.
#[derive(Debug, Clone, Copy, PartialEq, Eq, Structural)]
pub enum Difficulty {
    Easy,
    Medium,
    MediumAdvanced,
    Advanced,
    Expert,
    Custom,
}

/// The floors a generated house can have.
pub open spec fn floor_label(i: int) -> Seq<char> {
    if i == 0 {
        "First Floor"@
    } else if i == 1 {
        "Second Floor"@
    } else {
        "Basement Floor"@
    }
}

fn floor_name(i: usize) -> (r: &'static str)
    requires
        i < 3,
    ensures
        r@ == floor_label(i as int),
{
    if i == 0 {
        "First Floor"
    } else if i == 1 {
        "Second Floor"
    } else {
        "Basement Floor"
    }
}

/// Different floors have different names.
proof fn lemma_floor_labels_distinct(i: int, j: int)
    requires
        0 <= i < 3,
        0 <= j < 3,
        i != j,
    ensures
        floor_label(i) != floor_label(j),
{
    reveal_strlit("First Floor");
    reveal_strlit("Second Floor");
    reveal_strlit("Basement Floor");
    assert(floor_label(i)[0] != floor_label(j)[0]);
}

fn room_name(i: usize) -> (r: &'static str)
    requires
        i < 7,
{
    if i == 0 {
        "Bedroom"
    } else if i == 1 {
        "Bathroom"
    } else if i == 2 {
        "Office"
    } else if i == 3 {
        "Kitchen"
    } else if i == 4 {
        "Playroom"
    } else if i == 5 {
        "Dining Room"
    } else {
        "Closet"
    }
}

/// The places to hide in a room.
fn room_hiding_spots(i: usize) -> (r: Vec<&'static str>)
    requires
        i < 7,
    ensures
        r@.len() > 0,
{
    if i == 0 {
        vec!["under the covers", "under the bed", "in the bed", "behind the pillow", "under the pillow", "in the closet", "behind the chair", "under the chair"]
    } else if i == 1 {
        vec!["behind the tub", "on the potty", "in the tub", "in the potty", "under the sink", "behind the towels"]
    } else if i == 2 {
        vec!["under the desk", "under the table", "behind the lamp", "on the chair", "under the chair", "behind the chair", "in the closet"]
    } else if i == 3 {
        vec!["in the fridge", "in the cupboard", "under the sink", "in the sink", "in the freezer", "in the dishwasher"]
    } else if i == 4 {
        vec!["in the toy chest", "behind the toy chest", "in the toy truck", "among the toy trains", "among the stuffies"]
    } else if i == 5 {
        vec!["under the table", "on the table", "under a chair", "on a chair", "behind a chair", "behind the plants"]
    } else {
        vec!["behind the clothes", "under the clothes", "among the shoes", "behind the shoes", "behind the towels", "behind the coats"]
    }
}

/// Relies on `rand::seq::SliceRandom::choose_multiple` over `0..n`: it picks
/// `min(k, n)` of them at random, without repetition.
#[verifier::external_body]
fn random_distinct(n: usize, k: usize) -> (r: Vec<usize>)
    ensures
        r@.len() == if k < n { k } else { n },
        r@.no_duplicates(),
        forall|i: int| 0 <= i < r@.len() ==> #[trigger] r@[i] < n,
{
    let all: Vec<usize> = (0..n).collect();
    rand::seq::SliceRandom::choose_multiple(all.as_slice(), &mut rand::thread_rng(), k).cloned().collect()
}

/// Whether a generated floor, stored under `key`, has the asked-for shape.
pub open spec fn floor_shaped(key: String, floor: Floor, num_rooms: nat, num_hiding_spots: nat) -> bool {
    &&& key@ == floor.name@
    &&& floor.rooms@.len() == num_rooms
    &&& forall|i: int| 0 <= i < floor.rooms@.len() ==> (#[trigger] floor.rooms@[i]).hiding_spots@.len()
        == num_hiding_spots
}

/// A random house: `num_floors` different floors (at most three), each with
/// `num_rooms` different rooms, each with `num_hiding_spots` random spots.
pub fn create_map(num_floors: usize, num_rooms: usize, num_hiding_spots: usize) -> (r: Config)
    requires
        num_rooms <= 7,
    ensures
        r.house_map@.dom().finite(),
        r.house_map@.dom().len() == if num_floors < 3 { num_floors } else { 3 },
        forall|k: String| #[trigger] r.house_map@.contains_key(k) ==> floor_shaped(
            k,
            r.house_map@[k],
            num_rooms as nat,
            num_hiding_spots as nat,
        ),
{
    let mut map: HashMap<String, Floor> = HashMap::new();
    let floors = random_distinct(3, num_floors);
    let mut f: usize = 0;
    assert(map@.dom() =~= Set::<String>::empty());
    while f < floors.len()
        invariant
            f <= floors@.len(),
            floors@.no_duplicates(),
            forall|i: int| 0 <= i < floors@.len() ==> #[trigger] floors@[i] < 3,
            num_rooms <= 7,
            map@.dom().finite(),
            map@.dom().len() == f,
            forall|k: String| #[trigger] map@.contains_key(k) ==> exists|t: int|
                0 <= t < f && k@ == floor_label(#[trigger] floors@[t] as int),
            forall|k: String| #[trigger] map@.contains_key(k) ==> floor_shaped(
                k,
                map@[k],
                num_rooms as nat,
                num_hiding_spots as nat,
            ),
        decreases floors.len() - f,
    {
        let name = floor_name(floors[f]);
        let rooms_picked = random_distinct(7, num_rooms);
        let mut rooms: Vec<Room> = Vec::new();
        let mut r: usize = 0;
        while r < rooms_picked.len()
            invariant
                r <= rooms_picked@.len(),
                rooms_picked@.len() == num_rooms,
                forall|i: int| 0 <= i < rooms_picked@.len() ==> #[trigger] rooms_picked@[i] < 7,
                rooms@.len() == r,
                forall|i: int| 0 <= i < r ==> (#[trigger] rooms@[i]).hiding_spots@.len()
                    == num_hiding_spots,
            decreases rooms_picked.len() - r,
        {
            let room = rooms_picked[r];
            let options = room_hiding_spots(room);
            let mut spots: Vec<HidingSpot> = Vec::new();
            let mut h: usize = 0;
            while h < num_hiding_spots
                invariant
                    h <= num_hiding_spots,
                    spots@.len() == h,
                    options@.len() > 0,
                decreases num_hiding_spots - h,
            {
                let pick = random_below(options.len());
                spots.push(HidingSpot { name: options[pick].to_string() });
                h = h + 1;
            }
            rooms.push(Room { name: room_name(room).to_string(), hiding_spots: spots });
            r = r + 1;
        }
        let key = name.to_string();
        let floor = Floor { name: name.to_string(), rooms };
        proof {
            if map@.contains_key(key) {
                let t = choose|t: int| 0 <= t < f && key@ == floor_label(#[trigger] floors@[t] as int);
                lemma_floor_labels_distinct(floors@[t] as int, floors@[f as int] as int);
            }
        }
        let ghost before = map@;
        insert_entry(&mut map, key, floor);
        proof {
            assert(map@.dom() == before.dom().insert(key));
            assert forall|k: String| #[trigger] map@.contains_key(k) implies exists|t: int|
                0 <= t < f + 1 && k@ == floor_label(#[trigger] floors@[t] as int) by {
                if k == key {
                    assert(k@ == floor_label(floors@[f as int] as int));
                } else {
                    assert(before.contains_key(k));
                }
            }
        }
        f = f + 1;
    }
    Config { house_map: map }
}

/// The house for a difficulty level. Easy: one floor of three rooms with
/// two spots each; medium: one floor of five rooms with three spots; medium
/// advanced: two floors of three rooms with three spots; advanced: two floors
/// of five rooms with four spots; expert: three floors of five rooms with
/// four spots. A custom house is read from a file, which the caller does and
/// then checks with `validate_config`.
pub fn get_config_for_level(difficulty_level: Difficulty) -> (r: Result<Config, String>)
    ensures
        difficulty_level == Difficulty::Custom <==> r is Err,
        r matches Ok(c) ==> {
            let (floors, rooms, spots) = level_shape(difficulty_level);
            &&& c.house_map@.dom().len() == floors
            &&& forall|k: String| #[trigger] c.house_map@.contains_key(k) ==> floor_shaped(
                k,
                c.house_map@[k],
                rooms,
                spots,
            )
        },
{
    match difficulty_level {
        Difficulty::Easy => Ok(create_map(1, 3, 2)),
        Difficulty::Medium => Ok(create_map(1, 5, 3)),
        Difficulty::MediumAdvanced => Ok(create_map(2, 3, 3)),
        Difficulty::Advanced => Ok(create_map(2, 5, 4)),
        Difficulty::Expert => Ok(create_map(3, 5, 4)),
        Difficulty::Custom => Err("a custom house is read from its file".to_string()),
    }
}

/// Floors, rooms per floor and hiding spots per room of a level.
pub open spec fn level_shape(level: Difficulty) -> (nat, nat, nat) {
    match level {
        Difficulty::Easy => (1, 3, 2),
        Difficulty::Medium => (1, 5, 3),
        Difficulty::MediumAdvanced => (2, 3, 3),
        Difficulty::Advanced => (2, 5, 4),
        Difficulty::Expert => (3, 5, 4),
        Difficulty::Custom => (0, 0, 0),
    }
}

} // verus!
