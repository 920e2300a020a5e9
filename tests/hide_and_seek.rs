use std::collections::HashMap;

use db_migrations_checker::hide_and_seek::{
    create_map, get_config_for_level, validate_config, validate_multi_floor_config, Config, Difficulty,
    Floor, HidingSpot, MultiFloorConfig, Room,
};

#[test]
fn hide_and_seek_validate_config_error_no_floors() {
    let map: HashMap<String, Floor> = HashMap::new();
    let config = Config{ house_map: map };
    assert!(validate_config(&config).is_err());
    let map: HashMap<String, Floor> = HashMap::new();
    let config = MultiFloorConfig{ map };
    assert!(validate_multi_floor_config(&config).is_err());
}

#[test]
fn validate_config_error_one_floor() {
    let mut map: HashMap<String, Floor> = HashMap::new();
    _ = map.insert("First Floor".to_owned(), Floor{
            name: "First Floor".to_owned(),
            rooms: vec![Room{name: "bathroom".to_owned(), hiding_spots: vec![
                HidingSpot{
                    name: "under sink".to_owned()
                }
            ]}],
        });
    let config = MultiFloorConfig{ map };
    assert!(validate_multi_floor_config(&config).is_err());
}

#[test]
fn hide_and_seek_validate_config_error_floor_with_no_rooms() {
    let mut map: HashMap<String, Floor> = HashMap::new();
    _ = map.insert("First Floor".to_owned(), Floor{
            name: "First Floor".to_owned(),
            rooms: vec![Room{name: "bathroom".to_owned(), hiding_spots: vec![
                HidingSpot{
                    name: "under sink".to_owned()
                }
            ]}],
        });
    _ = map.insert("Second Floor".to_owned(), Floor { 
        name: "Second Floor".to_owned(), 
        rooms: vec![], 
    });
    let config = Config{ house_map: map };
    assert!(validate_config(&config).is_err());
}

#[test]
fn multi_floor_validate_config_error_floor_with_no_rooms() {
    let mut map: HashMap<String, Floor> = HashMap::new();
    _ = map.insert("First Floor".to_owned(), Floor{
            name: "First Floor".to_owned(),
            rooms: vec![Room{name: "bathroom".to_owned(), hiding_spots: vec![
                HidingSpot{
                    name: "under sink".to_owned()
                }
            ]}],
        });
    _ = map.insert("Second Floor".to_owned(), Floor { 
        name: "Second Floor".to_owned(), 
        rooms: vec![], 
    });
    let config = MultiFloorConfig{ map };
    assert!(validate_multi_floor_config(&config).is_err());
}

#[test]
fn hide_and_seek_validate_config_error_room_with_no_hiding_spots() {
    let mut map: HashMap<String, Floor> = HashMap::new();
    _ = map.insert("First Floor".to_owned(), Floor{
            name: "First Floor".to_owned(),
            rooms: vec![Room{name: "bathroom".to_owned(), hiding_spots: vec![
                HidingSpot{
                    name: "under sink".to_owned()
                }
            ]}],
        });
    _ = map.insert("Second Floor".to_owned(), Floor { 
        name: "Second Floor".to_owned(), 
        rooms: vec![Room{name: "bathroom".to_owned(), 
            hiding_spots: vec![]}],
    });
    let config = Config{ house_map: map };
    assert!(validate_config(&config).is_err());
}

#[test]
fn multi_floor_validate_config_error_room_with_no_hiding_spots() {
    let mut map: HashMap<String, Floor> = HashMap::new();
    _ = map.insert("First Floor".to_owned(), Floor{
            name: "First Floor".to_owned(),
            rooms: vec![Room{name: "bathroom".to_owned(), hiding_spots: vec![
                HidingSpot{
                    name: "under sink".to_owned()
                }
            ]}],
        });
    _ = map.insert("Second Floor".to_owned(), Floor { 
        name: "Second Floor".to_owned(), 
        rooms: vec![Room{name: "bathroom".to_owned(), 
            hiding_spots: vec![]}],
    });
    let config = MultiFloorConfig{ map };
    assert!(validate_multi_floor_config(&config).is_err());
}

#[test]
fn hide_and_seek_validate_config_error_key_not_match_name() {
    let mut map: HashMap<String, Floor> = HashMap::new();
    _ = map.insert("First Floor".to_owned(), Floor{
            name: "First Floor".to_owned(),
            rooms: vec![Room{name: "bathroom".to_owned(), hiding_spots: vec![
                HidingSpot{
                    name: "under sink".to_owned()
                }
            ]}],
        });
    _ = map.insert("Second Floor".to_owned(), Floor{
            name: "second floor".to_owned(),
            rooms: vec![Room{name: "bathroom".to_owned(), hiding_spots: vec![
                HidingSpot{
                    name: "under sink".to_owned()
                }
            ]}],
        });
    let config = Config{ house_map: map };
    assert!(validate_config(&config).is_err());
}

#[test]
fn multi_floor_validate_config_error_key_not_match_name() {
    let mut map: HashMap<String, Floor> = HashMap::new();
    _ = map.insert("First Floor".to_owned(), Floor{
            name: "First Floor".to_owned(),
            rooms: vec![Room{name: "bathroom".to_owned(), hiding_spots: vec![
                HidingSpot{
                    name: "under sink".to_owned()
                }
            ]}],
        });
    _ = map.insert("Second Floor".to_owned(), Floor{
            name: "second floor".to_owned(),
            rooms: vec![Room{name: "bathroom".to_owned(), hiding_spots: vec![
                HidingSpot{
                    name: "under sink".to_owned()
                }
            ]}],
        });
    let config = MultiFloorConfig{ map };
    assert!(validate_multi_floor_config(&config).is_err());
}

#[test]
fn hide_and_seek_validate_config_success() {
    let mut map: HashMap<String, Floor> = HashMap::new();
    _ = map.insert("First Floor".to_owned(), Floor{
            name: "First Floor".to_owned(),
            rooms: vec![Room{name: "bathroom".to_owned(), hiding_spots: vec![
                HidingSpot{
                    name: "under sink".to_owned()
                }
            ]}],
        });
    _ = map.insert("Second Floor".to_owned(), Floor{
            name: "Second Floor".to_owned(),
            rooms: vec![Room{name: "bathroom".to_owned(), hiding_spots: vec![
                HidingSpot{
                    name: "under sink".to_owned()
                }
            ]}],
        });
    let config = Config{ house_map: map };
    assert!(validate_config(&config).is_ok());
}

#[test]
fn multi_floor_validate_config_success() {
    let mut map: HashMap<String, Floor> = HashMap::new();
    _ = map.insert("First Floor".to_owned(), Floor{
            name: "First Floor".to_owned(),
            rooms: vec![Room{name: "bathroom".to_owned(), hiding_spots: vec![
                HidingSpot{
                    name: "under sink".to_owned()
                }
            ]}],
        });
    _ = map.insert("Second Floor".to_owned(), Floor{
            name: "Second Floor".to_owned(),
            rooms: vec![Room{name: "bathroom".to_owned(), hiding_spots: vec![
                HidingSpot{
                    name: "under sink".to_owned()
                }
            ]}],
        });
    let config = MultiFloorConfig{ map };
    assert!(validate_multi_floor_config(&config).is_ok());
}

#[test]
fn one_floor_house_is_playable() {
    let mut map: HashMap<String, Floor> = HashMap::new();
    _ = map.insert("Attic".to_owned(), Floor { name: "Attic".to_owned(), rooms: vec![Room { name: "nook".to_owned(), hiding_spots: vec![HidingSpot { name: "box".to_owned() }] }] });
    assert!(validate_config(&Config { house_map: map }).is_ok());
}

#[test]
fn get_config_for_level_easy() {
    let config = get_config_for_level(Difficulty::Easy).expect("need config");
    assert_eq!(config.house_map.len(), 1);
    // skip the name field
    let floor = config.house_map.values().next().expect("need rooms");
    assert_eq!(floor.rooms.len(), 3);
    for room in &floor.rooms {
        assert_eq!(room.hiding_spots.len(), 2);
    }
}

#[test]
fn get_config_for_level_medium() {
    let config = get_config_for_level(Difficulty::Medium).expect("need config");
    assert_eq!(config.house_map.len(), 1);
    // skip the name field
    let floor = config.house_map.values().next().expect("need rooms");
    assert_eq!(floor.rooms.len(), 5);
    for room in &floor.rooms {
        assert_eq!(room.hiding_spots.len(), 3);
    }
}

#[test]
fn get_config_for_level_medium_advanced() {
    let config = get_config_for_level(Difficulty::MediumAdvanced).expect("need config");
    assert_eq!(config.house_map.len(), 2);
    for floor in config.house_map.values() {
        assert_eq!(floor.rooms.len(), 3);
        for room in &floor.rooms {
            assert_eq!(room.hiding_spots.len(), 3);
        }
    }
}

#[test]
fn get_config_for_level_advanced() {
    let config = get_config_for_level(Difficulty::Advanced).expect("need config");
    assert_eq!(config.house_map.len(), 2);
    for floor in config.house_map.values() {
        assert_eq!(floor.rooms.len(), 5);
        for room in &floor.rooms {
            assert_eq!(room.hiding_spots.len(), 4);
        }
    }
}

#[test]
fn get_config_for_level_expert() {
    let config = get_config_for_level(Difficulty::Expert).expect("need config");
    assert_eq!(config.house_map.len(), 3);
    for floor in config.house_map.values() {
        assert_eq!(floor.rooms.len(), 5);
        for room in &floor.rooms {
            assert_eq!(room.hiding_spots.len(), 4);
        }
    }
}

#[test]
fn generated_houses_are_playable() {
    for level in [Difficulty::Easy, Difficulty::Expert] {
        let config = get_config_for_level(level).unwrap();
        assert!(validate_config(&config).is_ok());
    }
    assert!(get_config_for_level(Difficulty::Custom).is_err());
    assert_eq!(create_map(5, 7, 1).house_map.len(), 3);
}
