//! Selector parsing and matching, exercised end to end through the public
//! surface of the library.

use entity_selector::scoreboard::{ScoreMap, Scoreboard};
use entity_selector::selector::Selector;
use entity_selector::world::Entity;
use entity_selector::ParseError;
use std::collections::HashMap;

fn entity(id: i64, entity_type: &str, tags: Option<&[&str]>) -> Entity {
    Entity {
        name: None,
        id,
        entity_type: entity_type.as_bytes().to_vec(),
        pos: Vec::new(),
        tags: tags.map(|ts| ts.iter().map(|t| t.as_bytes().to_vec()).collect()),
        definitions: Vec::new(),
    }
}

fn index_with(id: i64, objective: &str, score: i32) -> Scoreboard {
    let mut sb = Scoreboard {
        scoreboard_id_to_id: HashMap::new(),
        entity_id_to_scores: HashMap::new(),
    };
    sb.entity_id_to_scores.insert(
        id,
        ScoreMap {
            entries: vec![(objective.as_bytes().to_vec(), score)],
        },
    );
    sb
}

fn empty_index() -> Scoreboard {
    Scoreboard {
        scoreboard_id_to_id: HashMap::new(),
        entity_id_to_scores: HashMap::new(),
    }
}

#[test]
fn parse_basic_filters() {
    let sel = Selector::new("@e[type=cow,name=Bob,tag=a,tag=!b]").unwrap();
    assert_eq!(sel.entity_type, b"cow".to_vec());
    assert_eq!(sel.name, b"Bob".to_vec());
    assert_eq!(sel.tags, vec![b"a".to_vec(), b"!b".to_vec()]);
    assert!(sel.scores.is_empty());
}

#[test]
fn parse_scores_block() {
    let sel = Selector::new("@e[type=cow,scores={health=5..10,xp=7}]").unwrap();
    assert_eq!(sel.entity_type, b"cow".to_vec());
    assert_eq!(
        sel.scores,
        vec![
            (b"health".to_vec(), 5, 10),
            (b"xp".to_vec(), 7, 7),
        ]
    );
}

#[test]
fn parse_duplicate_objective_keeps_last_range() {
    let sel = Selector::new("@e[scores={a=1..2,a=5..6}]").unwrap();
    assert_eq!(sel.scores, vec![(b"a".to_vec(), 5, 6)]);
}

#[test]
fn parse_open_ended_ranges_fall_back_to_extremes() {
    let sel = Selector::new("@e[scores={a=..5,b=3..,c=x..y}]").unwrap();
    assert_eq!(
        sel.scores,
        vec![
            (b"a".to_vec(), i32::MIN, 5),
            (b"b".to_vec(), 3, i32::MAX),
            (b"c".to_vec(), i32::MIN, i32::MAX),
        ]
    );
}

#[test]
fn parse_out_of_range_bound_falls_back() {
    let sel = Selector::new("@e[scores={a=2147483648}]").unwrap();
    assert_eq!(sel.scores, vec![(b"a".to_vec(), i32::MIN, i32::MAX)]);
    let sel = Selector::new("@e[scores={b=-2147483648..2147483647}]").unwrap();
    assert_eq!(sel.scores, vec![(b"b".to_vec(), i32::MIN, i32::MAX)]);
}

#[test]
fn parse_bad_shape_is_fatal() {
    assert_eq!(Selector::new("@a[type=cow]").unwrap_err(), ParseError::BadShape);
    assert_eq!(Selector::new("@e").unwrap_err(), ParseError::BadShape);
    assert_eq!(Selector::new("@e[type=cow").unwrap_err(), ParseError::BadShape);
    assert_eq!(Selector::new("").unwrap_err(), ParseError::BadShape);
}

#[test]
fn parse_three_part_range_is_fatal() {
    // A range clause that splits into three parts is rejected outright.
    assert_eq!(
        Selector::new("@e[scores={health=1..2..3}]").unwrap_err(),
        ParseError::BadRange
    );
}

#[test]
fn parse_known_key_without_value_is_fatal() {
    assert_eq!(Selector::new("@e[type]").unwrap_err(), ParseError::MissingValue);
    assert_eq!(
        Selector::new("@e[scores={health}]").unwrap_err(),
        ParseError::MissingValue
    );
}

#[test]
fn parse_unknown_key_is_only_a_warning() {
    let (sel, warnings) = Selector::parse_selector("@e[level=3,type=cow]").unwrap();
    assert_eq!(warnings, vec![b"level".to_vec()]);
    assert_eq!(sel.entity_type, b"cow".to_vec());
    let e = entity(1, "minecraft:cow", None);
    assert!(sel.entity_matches(&e, &empty_index()));
}

#[test]
fn parse_is_deterministic() {
    let text = "@e[type=cow,tag=a,scores={health=5..10}]";
    let a = Selector::new(text).unwrap();
    let b = Selector::new(text).unwrap();
    assert_eq!(a, b);
}

#[test]
fn empty_filter_set_matches_everything() {
    let (sel, _warnings) = Selector::parse_selector("@e[]").unwrap();
    assert!(sel.entity_matches(&entity(1, "minecraft:cow", None), &empty_index()));
    assert!(sel.entity_matches(
        &entity(-7, "pig", Some(&["baby"])),
        &index_with(-7, "health", 3)
    ));
}

#[test]
fn type_filter_strips_namespace_prefix() {
    let sel = Selector::new("@e[type=cow]").unwrap();
    assert!(sel.entity_matches(&entity(1, "minecraft:cow", None), &empty_index()));
    let sel = Selector::new("@e[type=minecraft:cow]").unwrap();
    assert!(sel.entity_matches(&entity(1, "cow", None), &empty_index()));
    assert!(!sel.entity_matches(&entity(1, "minecraft:pig", None), &empty_index()));
}

#[test]
fn negated_type_filter_is_complement() {
    let plain = Selector::new("@e[type=cow]").unwrap();
    let negated = Selector::new("@e[type=!cow]").unwrap();
    for e in [
        entity(1, "minecraft:cow", None),
        entity(2, "minecraft:pig", None),
        entity(3, "cow", None),
    ] {
        let idx = empty_index();
        assert_eq!(
            negated.entity_matches(&e, &idx),
            !plain.entity_matches(&e, &idx)
        );
    }
}

#[test]
fn name_filter_requires_exact_name() {
    let sel = Selector::new("@e[name=Bob]").unwrap();
    let mut e = entity(1, "cow", None);
    assert!(!sel.entity_matches(&e, &empty_index()));
    e.name = Some(b"Bob".to_vec());
    assert!(sel.entity_matches(&e, &empty_index()));
    e.name = Some(b"Alice".to_vec());
    assert!(!sel.entity_matches(&e, &empty_index()));
}

#[test]
fn tag_filters_are_conjunctive() {
    let sel = Selector::new("@e[tag=a,tag=b]").unwrap();
    assert!(sel.entity_matches(&entity(1, "cow", Some(&["b", "a"])), &empty_index()));
    assert!(!sel.entity_matches(&entity(1, "cow", Some(&["a"])), &empty_index()));
    assert!(!sel.entity_matches(&entity(1, "cow", None), &empty_index()));
}

#[test]
fn negated_tag_against_tagged_and_untagged_entities() {
    // A negated tag filter fails an entity carrying the tag and passes one
    // without any tags.
    let sel = Selector::new("@e[tag=!baby]").unwrap();
    assert!(!sel.entity_matches(&entity(1, "cow", Some(&["baby"])), &empty_index()));
    assert!(sel.entity_matches(&entity(1, "cow", None), &empty_index()));
    assert!(sel.entity_matches(&entity(1, "cow", Some(&["adult"])), &empty_index()));
}

#[test]
fn score_filter_in_range_matches() {
    // type and score filter together, score inside the range.
    let sel = Selector::new("@e[type=minecraft:cow,scores={health=5..10}]").unwrap();
    let e = entity(1, "minecraft:cow", None);
    assert!(sel.entity_matches(&e, &index_with(1, "health", 7)));
}

#[test]
fn score_filter_out_of_range_fails() {
    let sel = Selector::new("@e[type=minecraft:cow,scores={health=5..10}]").unwrap();
    let e = entity(1, "minecraft:cow", None);
    assert!(!sel.entity_matches(&e, &index_with(1, "health", 12)));
}

#[test]
fn score_filter_boundaries_pass() {
    let sel = Selector::new("@e[scores={health=5..10}]").unwrap();
    let e = entity(1, "cow", None);
    assert!(sel.entity_matches(&e, &index_with(1, "health", 5)));
    assert!(sel.entity_matches(&e, &index_with(1, "health", 10)));
    assert!(!sel.entity_matches(&e, &index_with(1, "health", 4)));
    assert!(!sel.entity_matches(&e, &index_with(1, "health", 11)));
}

#[test]
fn missing_score_entry_is_not_a_wildcard() {
    let sel = Selector::new("@e[scores={health=5..10}]").unwrap();
    let e = entity(1, "cow", None);
    // No index entry for the entity at all.
    assert!(!sel.entity_matches(&e, &empty_index()));
    // An entry for the entity, but not for this objective.
    assert!(!sel.entity_matches(&e, &index_with(1, "xp", 7)));
}

#[test]
fn score_lookup_sees_last_write() {
    let sel = Selector::new("@e[scores={health=5..10}]").unwrap();
    let e = entity(1, "cow", None);
    let mut sb = empty_index();
    sb.entity_id_to_scores.insert(
        1,
        ScoreMap {
            entries: vec![
                (b"health".to_vec(), 99),
                (b"health".to_vec(), 7),
            ],
        },
    );
    assert!(sel.entity_matches(&e, &sb));
}
