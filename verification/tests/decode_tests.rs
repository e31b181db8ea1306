//! Decoding of entity and scoreboard records from hand-assembled buffers, and
//! the join that builds the score index.

use entity_selector::scoreboard::{decode_scoreboard, Scoreboard};
use entity_selector::world::{build_entity_table, decode_entities, is_entity_key};
use entity_selector::DecodeError;

fn str_payload(s: &str) -> Vec<u8> {
    let mut v = (s.len() as u16).to_le_bytes().to_vec();
    v.extend_from_slice(s.as_bytes());
    v
}

fn named(name: &str, tag: u8, payload: &[u8]) -> Vec<u8> {
    let mut v = vec![tag];
    v.extend_from_slice(&(name.len() as u16).to_le_bytes());
    v.extend_from_slice(name.as_bytes());
    v.extend_from_slice(payload);
    v
}

fn empty_list_payload() -> Vec<u8> {
    let mut v = vec![0u8];
    v.extend_from_slice(&0i32.to_le_bytes());
    v
}

fn str_list_payload(items: &[&str]) -> Vec<u8> {
    let mut v = vec![8u8];
    v.extend_from_slice(&(items.len() as i32).to_le_bytes());
    for s in items {
        v.extend_from_slice(&str_payload(s));
    }
    v
}

fn float_list_payload(bits: &[u32]) -> Vec<u8> {
    let mut v = vec![5u8];
    v.extend_from_slice(&(bits.len() as i32).to_le_bytes());
    for b in bits {
        v.extend_from_slice(&b.to_le_bytes());
    }
    v
}

fn compound_list_payload(items: &[Vec<u8>]) -> Vec<u8> {
    let mut v = vec![10u8];
    v.extend_from_slice(&(items.len() as i32).to_le_bytes());
    for it in items {
        v.extend_from_slice(it);
    }
    v
}

fn entity_record(id: i64, entity_type: &str, tags: Option<&[&str]>, name: Option<&str>) -> Vec<u8> {
    let mut v = vec![10u8];
    v.extend_from_slice(&str_payload(""));
    v.extend_from_slice(&named("UniqueID", 4, &id.to_le_bytes()));
    v.extend_from_slice(&named("identifier", 8, &str_payload(entity_type)));
    v.extend_from_slice(&named("Pos", 9, &float_list_payload(&[0, 0, 0])));
    v.extend_from_slice(&named("definitions", 9, &empty_list_payload()));
    if let Some(ts) = tags {
        v.extend_from_slice(&named("Tags", 9, &str_list_payload(ts)));
    }
    if let Some(n) = name {
        v.extend_from_slice(&named("CustomName", 8, &str_payload(n)));
    }
    v.push(0);
    v
}

fn scoreboard_entry(scoreboard_id: i64, entity_id: Option<i64>, identity_type: u8) -> Vec<u8> {
    let mut v = named("ScoreboardId", 4, &scoreboard_id.to_le_bytes());
    if let Some(eid) = entity_id {
        v.extend_from_slice(&named("EntityID", 4, &eid.to_le_bytes()));
    }
    v.extend_from_slice(&named("IdentityType", 1, &[identity_type]));
    v.push(0);
    v
}

fn objective(name: &str, rows: &[(i32, i64)]) -> Vec<u8> {
    let scores: Vec<Vec<u8>> = rows
        .iter()
        .map(|(score, sid)| {
            let mut s = named("Score", 3, &score.to_le_bytes());
            s.extend_from_slice(&named("ScoreboardId", 4, &sid.to_le_bytes()));
            s.push(0);
            s
        })
        .collect();
    let mut v = named("Scores", 9, &compound_list_payload(&scores));
    v.extend_from_slice(&named("Name", 8, &str_payload(name)));
    v.extend_from_slice(&named("Criteria", 8, &str_payload("dummy")));
    v.extend_from_slice(&named("DisplayName", 8, &str_payload(name)));
    v.push(0);
    v
}

fn scoreboard_record(entries: &[Vec<u8>], objectives: &[Vec<u8>]) -> Vec<u8> {
    let mut v = vec![10u8];
    v.extend_from_slice(&str_payload(""));
    v.extend_from_slice(&named("LastUniqueID", 4, &7i64.to_le_bytes()));
    v.extend_from_slice(&named("Entries", 9, &compound_list_payload(entries)));
    v.extend_from_slice(&named("Objectives", 9, &compound_list_payload(objectives)));
    v.push(0);
    v
}

#[test]
fn decode_single_entity() {
    let buf = entity_record(42, "minecraft:cow", Some(&["baby"]), Some("Bessie"));
    let es = decode_entities(&buf).unwrap();
    assert_eq!(es.len(), 1);
    assert_eq!(es[0].id, 42);
    assert_eq!(es[0].entity_type, b"minecraft:cow".to_vec());
    assert_eq!(es[0].tags, Some(vec![b"baby".to_vec()]));
    assert_eq!(es[0].name, Some(b"Bessie".to_vec()));
    assert_eq!(es[0].pos, vec![0, 0, 0]);
    assert!(es[0].definitions.is_empty());
}

#[test]
fn decode_concatenated_records() {
    // Two self-delimiting records back to back in one value buffer.
    let mut buf = entity_record(1, "minecraft:cow", None, None);
    buf.extend_from_slice(&entity_record(2, "minecraft:pig", None, None));
    let es = decode_entities(&buf).unwrap();
    assert_eq!(es.len(), 2);
    assert_eq!(es[0].id, 1);
    assert_eq!(es[1].id, 2);
    assert_eq!(es[1].entity_type, b"minecraft:pig".to_vec());
}

#[test]
fn decode_skips_unknown_fields() {
    let mut v = vec![10u8];
    v.extend_from_slice(&str_payload(""));
    v.extend_from_slice(&named("Health", 3, &20i32.to_le_bytes()));
    v.extend_from_slice(&named("UniqueID", 4, &5i64.to_le_bytes()));
    v.extend_from_slice(&named("identifier", 8, &str_payload("cow")));
    v.extend_from_slice(&named("Pos", 9, &empty_list_payload()));
    v.extend_from_slice(&named("definitions", 9, &str_list_payload(&["+cow"])));
    v.push(0);
    let es = decode_entities(&v).unwrap();
    assert_eq!(es.len(), 1);
    assert_eq!(es[0].id, 5);
    assert_eq!(es[0].definitions, vec![b"+cow".to_vec()]);
    assert_eq!(es[0].tags, None);
}

#[test]
fn decode_truncated_record_is_fatal() {
    let mut buf = entity_record(1, "minecraft:cow", None, None);
    buf.pop();
    assert_eq!(decode_entities(&buf).unwrap_err(), DecodeError::Malformed);
}

#[test]
fn decode_missing_required_field_is_fatal() {
    // No UniqueID field.
    let mut v = vec![10u8];
    v.extend_from_slice(&str_payload(""));
    v.extend_from_slice(&named("identifier", 8, &str_payload("cow")));
    v.extend_from_slice(&named("Pos", 9, &empty_list_payload()));
    v.extend_from_slice(&named("definitions", 9, &empty_list_payload()));
    v.push(0);
    assert_eq!(decode_entities(&v).unwrap_err(), DecodeError::Malformed);
}

#[test]
fn decode_empty_buffer_yields_no_entities() {
    let es = decode_entities(&Vec::new()).unwrap();
    assert!(es.is_empty());
}

#[test]
fn entity_key_shape() {
    let mut key = vec![0u8; 9];
    key[8] = 50;
    assert!(is_entity_key(&key));
    key[8] = 49;
    assert!(!is_entity_key(&key));
    assert!(!is_entity_key(&vec![50u8; 8]));
    assert!(!is_entity_key(&vec![50u8; 10]));
}

#[test]
fn table_keeps_last_record_per_id() {
    let mut val = entity_record(1, "minecraft:cow", None, None);
    val.extend_from_slice(&entity_record(1, "minecraft:pig", None, None));
    let mut key = vec![0u8; 9];
    key[8] = 50;
    let mut other_key = vec![0u8; 9];
    other_key[8] = 49;
    let pairs = vec![
        (key, val),
        (other_key, b"not an entity record".to_vec()),
    ];
    let table = build_entity_table(&pairs).unwrap();
    assert_eq!(table.len(), 1);
    assert_eq!(table[&1].entity_type, b"minecraft:pig".to_vec());
}

#[test]
fn decode_scoreboard_round() {
    let buf = scoreboard_record(
        &[scoreboard_entry(100, Some(1), 2)],
        &[objective("health", &[(7, 100)])],
    );
    let raw = decode_scoreboard(&buf).unwrap();
    assert_eq!(raw.last_unique_id, 7);
    assert_eq!(raw.entries.len(), 1);
    assert_eq!(raw.entries[0].scoreboard_id, 100);
    assert_eq!(raw.entries[0].entity_id, Some(1));
    assert_eq!(raw.entries[0].identity_type, 2);
    assert_eq!(raw.objectives.len(), 1);
    assert_eq!(raw.objectives[0].name, b"health".to_vec());
    assert_eq!(raw.objectives[0].scores.len(), 1);
    assert_eq!(raw.objectives[0].scores[0].score, 7);
    assert_eq!(raw.objectives[0].scores[0].scoreboard_id, 100);
}

#[test]
fn decode_scoreboard_truncated_is_fatal() {
    let mut buf = scoreboard_record(&[], &[]);
    buf.pop();
    assert_eq!(decode_scoreboard(&buf).unwrap_err(), DecodeError::Malformed);
}

fn cow_table(ids: &[i64]) -> entity_selector::world::EntityMap {
    let mut pairs = Vec::new();
    let mut key = vec![0u8; 9];
    key[8] = 50;
    let mut val = Vec::new();
    for id in ids {
        val.extend_from_slice(&entity_record(*id, "minecraft:cow", None, None));
    }
    pairs.push((key, val));
    build_entity_table(&pairs).unwrap()
}

#[test]
fn join_resolves_entity_rows() {
    let entities = cow_table(&[1]);
    let raw = decode_scoreboard(&scoreboard_record(
        &[scoreboard_entry(100, Some(1), 2)],
        &[objective("health", &[(7, 100)])],
    ))
    .unwrap();
    let sb = Scoreboard::build(&raw, &entities);
    assert_eq!(sb.scoreboard_id_to_id[&100], 1);
    let scores = &sb.entity_id_to_scores[&1];
    assert_eq!(scores.get(&b"health".to_vec()), Some(7));
}

#[test]
fn join_drops_unresolvable_rows() {
    // Row 200 has no entry at all; row 300 resolves to an entity id that is
    // not in the table; row 400 belongs to a player identity. None of them
    // may surface in the index, and none is an error.
    let entities = cow_table(&[1]);
    let raw = decode_scoreboard(&scoreboard_record(
        &[
            scoreboard_entry(100, Some(1), 2),
            scoreboard_entry(300, Some(99), 2),
            scoreboard_entry(400, Some(1), 1),
        ],
        &[objective(
            "health",
            &[(7, 100), (8, 200), (9, 300), (10, 400)],
        )],
    ))
    .unwrap();
    let sb = Scoreboard::build(&raw, &entities);
    assert_eq!(sb.entity_id_to_scores.len(), 1);
    let scores = &sb.entity_id_to_scores[&1];
    assert_eq!(scores.get(&b"health".to_vec()), Some(7));
    assert_eq!(scores.entries.len(), 1);
}

#[test]
fn join_never_indexes_unknown_entities() {
    // Every key of the built index is present in the entity table.
    let entities = cow_table(&[1, 2]);
    let raw = decode_scoreboard(&scoreboard_record(
        &[
            scoreboard_entry(100, Some(1), 2),
            scoreboard_entry(200, Some(2), 2),
            scoreboard_entry(300, Some(3), 2),
        ],
        &[objective("a", &[(1, 100), (2, 200), (3, 300)])],
    ))
    .unwrap();
    let sb = Scoreboard::build(&raw, &entities);
    for id in sb.entity_id_to_scores.keys() {
        assert!(entities.contains_key(id));
    }
    assert_eq!(sb.entity_id_to_scores.len(), 2);
}

#[test]
fn join_last_write_wins_per_objective() {
    let entities = cow_table(&[1]);
    let raw = decode_scoreboard(&scoreboard_record(
        &[scoreboard_entry(100, Some(1), 2)],
        &[objective("health", &[(7, 100), (9, 100)])],
    ))
    .unwrap();
    let sb = Scoreboard::build(&raw, &entities);
    assert_eq!(
        sb.entity_id_to_scores[&1].get(&b"health".to_vec()),
        Some(9)
    );
}

#[test]
fn join_is_idempotent() {
    let entities = cow_table(&[1, 2]);
    let raw = decode_scoreboard(&scoreboard_record(
        &[
            scoreboard_entry(100, Some(1), 2),
            scoreboard_entry(200, Some(2), 2),
        ],
        &[
            objective("health", &[(7, 100), (3, 200)]),
            objective("xp", &[(11, 200)]),
        ],
    ))
    .unwrap();
    let first = Scoreboard::build(&raw, &entities);
    let second = Scoreboard::build(&raw, &entities);
    assert_eq!(first, second);
}

#[test]
fn empty_scoreboard_value_builds_empty_index() {
    let sb = Scoreboard::empty();
    assert!(sb.scoreboard_id_to_id.is_empty());
    assert!(sb.entity_id_to_scores.is_empty());
}
