//! The scoreboard: decoding of the single scoreboard record, and the score
//! index that joins scoreboard rows to decoded entities.

use crate::bytes::{
    bytes_eq, copy_bytes, le32, le64, read_i32, read_i64, vec_eq_str, MAX_RECORD_LEN,
};
use crate::nbt::{
    read_str, skip_value, spec_read_str, spec_skip_value, TAG_BYTE, TAG_COMPOUND, TAG_END, TAG_INT,
    TAG_LIST, TAG_LONG, TAG_STRING,
};
use crate::world::{spec_fuel, EntityMap};
use crate::DecodeError;
use std::collections::HashMap;
use vstd::prelude::*;
use vstd::string::StringSliceAdditionalSpecFns;

verus! {

/// One scoreboard-id to subject mapping, as stored.
#[derive(Debug, Clone, Copy, PartialEq)]
pub struct RawScoreboardEntry {
    pub scoreboard_id: i64,
    pub entity_id: Option<i64>,
    pub player_id: Option<i64>,
    pub identity_type: u8,
}

/// One `(score, scoreboard id)` row of an objective, as stored.
#[derive(Debug, Clone, Copy, PartialEq)]
pub struct RawScoreboardScore {
    pub score: i32,
    pub scoreboard_id: i64,
}

/// One named objective, as stored.
#[derive(Debug, Clone, PartialEq)]
pub struct RawScoreboardObjective {
    pub scores: Vec<RawScoreboardScore>,
    pub name: Vec<u8>,
    pub criteria: Vec<u8>,
    pub display_name: Vec<u8>,
}

/// The mathematical value of a [`RawScoreboardObjective`].
pub struct ObjectiveV {
    pub scores: Seq<RawScoreboardScore>,
    pub name: Seq<u8>,
    pub criteria: Seq<u8>,
    pub display_name: Seq<u8>,
}

impl View for RawScoreboardObjective {
    type V = ObjectiveV;

    open spec fn view(&self) -> ObjectiveV {
        ObjectiveV {
            scores: self.scores@,
            name: self.name@,
            criteria: self.criteria@,
            display_name: self.display_name@,
        }
    }
}

pub open spec fn view_objective_list(s: Seq<RawScoreboardObjective>) -> Seq<ObjectiveV> {
    Seq::new(s.len(), |i: int| s[i]@)
}

/// The whole decoded scoreboard record.
#[derive(Debug, Clone, PartialEq)]
pub struct RawScoreboard {
    pub last_unique_id: i64,
    pub entries: Vec<RawScoreboardEntry>,
    pub objectives: Vec<RawScoreboardObjective>,
}

/// The mathematical value of a [`RawScoreboard`].
pub struct RawScoreboardV {
    pub last_unique_id: i64,
    pub entries: Seq<RawScoreboardEntry>,
    pub objectives: Seq<ObjectiveV>,
}

impl View for RawScoreboard {
    type V = RawScoreboardV;

    open spec fn view(&self) -> RawScoreboardV {
        RawScoreboardV {
            last_unique_id: self.last_unique_id,
            entries: self.entries@,
            objectives: view_objective_list(self.objectives@),
        }
    }
}

/// Fields gathered while walking one entry compound.
pub struct EntryAcc {
    pub scoreboard_id: Option<i64>,
    pub entity_id: Option<i64>,
    pub player_id: Option<i64>,
    pub identity_type: Option<u8>,
}

pub open spec fn empty_entry_acc() -> EntryAcc {
    EntryAcc { scoreboard_id: None, entity_id: None, player_id: None, identity_type: None }
}

/// Walks the named fields of one entry compound.
pub open spec fn spec_entry_fields(b: Seq<u8>, pos: int, fuel: nat, acc: EntryAcc) -> Option<
    (EntryAcc, int),
>
    decreases fuel,
{
    if fuel == 0 {
        None
    } else if !(0 <= pos && pos + 1 <= b.len()) {
        None
    } else if b[pos] == TAG_END {
        Some((acc, pos + 1))
    } else {
        let t = b[pos];
        match spec_read_str(b, pos + 1) {
            None => None,
            Some((nm, p2)) => {
                if nm == "ScoreboardId".spec_bytes() {
                    if t == TAG_LONG && p2 + 8 <= b.len() {
                        spec_entry_fields(
                            b,
                            p2 + 8,
                            (fuel - 1) as nat,
                            EntryAcc { scoreboard_id: Some(le64(b, p2) as i64), ..acc },
                        )
                    } else {
                        None
                    }
                } else if nm == "EntityID".spec_bytes() {
                    if t == TAG_LONG && p2 + 8 <= b.len() {
                        spec_entry_fields(
                            b,
                            p2 + 8,
                            (fuel - 1) as nat,
                            EntryAcc { entity_id: Some(le64(b, p2) as i64), ..acc },
                        )
                    } else {
                        None
                    }
                } else if nm == "PlayerID".spec_bytes() {
                    if t == TAG_LONG && p2 + 8 <= b.len() {
                        spec_entry_fields(
                            b,
                            p2 + 8,
                            (fuel - 1) as nat,
                            EntryAcc { player_id: Some(le64(b, p2) as i64), ..acc },
                        )
                    } else {
                        None
                    }
                } else if nm == "IdentityType".spec_bytes() {
                    if t == TAG_BYTE && p2 + 1 <= b.len() {
                        spec_entry_fields(
                            b,
                            p2 + 1,
                            (fuel - 1) as nat,
                            EntryAcc { identity_type: Some(b[p2]), ..acc },
                        )
                    } else {
                        None
                    }
                } else {
                    match spec_skip_value(b, p2, t, (fuel - 1) as nat) {
                        Some(p3) => spec_entry_fields(b, p3, (fuel - 1) as nat, acc),
                        None => None,
                    }
                }
            },
        }
    }
}

pub open spec fn spec_finish_entry(acc: EntryAcc) -> Option<RawScoreboardEntry> {
    match (acc.scoreboard_id, acc.identity_type) {
        (Some(sid), Some(it)) => Some(
            RawScoreboardEntry {
                scoreboard_id: sid,
                entity_id: acc.entity_id,
                player_id: acc.player_id,
                identity_type: it,
            },
        ),
        _ => None,
    }
}

/// One entry compound payload at `pos`: its fields walked and validated.
pub open spec fn spec_parse_entry(b: Seq<u8>, pos: int, fuel: nat) -> Option<
    (RawScoreboardEntry, int),
> {
    match spec_entry_fields(b, pos, fuel, empty_entry_acc()) {
        Some((acc, p)) => match spec_finish_entry(acc) {
            Some(e) => Some((e, p)),
            None => None,
        },
        None => None,
    }
}

/// `count` consecutive entry compound payloads starting at `pos`.
pub open spec fn spec_entry_list(
    b: Seq<u8>,
    pos: int,
    count: nat,
    fuel: nat,
    acc: Seq<RawScoreboardEntry>,
) -> Option<(Seq<RawScoreboardEntry>, int)>
    decreases fuel,
{
    if fuel == 0 {
        None
    } else if count == 0 {
        Some((acc, pos))
    } else {
        match spec_parse_entry(b, pos, (fuel - 1) as nat) {
            Some((e, p2)) => spec_entry_list(b, p2, (count - 1) as nat, (fuel - 1) as nat, acc.push(e)),
            None => None,
        }
    }
}

/// A list payload whose elements must be entry compounds.
pub open spec fn spec_entry_list_payload(b: Seq<u8>, pos: int, fuel: nat) -> Option<
    (Seq<RawScoreboardEntry>, int),
> {
    if 0 <= pos && pos + 5 <= b.len() {
        let etag = b[pos];
        let n = le32(b, pos + 1) as i32;
        if n < 0 {
            None
        } else if n == 0 {
            Some((Seq::empty(), pos + 5))
        } else if etag == TAG_COMPOUND {
            spec_entry_list(b, pos + 5, n as nat, fuel, Seq::empty())
        } else {
            None
        }
    } else {
        None
    }
}

/// Fields gathered while walking one score compound.
pub struct ScoreAcc {
    pub score: Option<i32>,
    pub scoreboard_id: Option<i64>,
}

pub open spec fn spec_score_fields(b: Seq<u8>, pos: int, fuel: nat, acc: ScoreAcc) -> Option<
    (ScoreAcc, int),
>
    decreases fuel,
{
    if fuel == 0 {
        None
    } else if !(0 <= pos && pos + 1 <= b.len()) {
        None
    } else if b[pos] == TAG_END {
        Some((acc, pos + 1))
    } else {
        let t = b[pos];
        match spec_read_str(b, pos + 1) {
            None => None,
            Some((nm, p2)) => {
                if nm == "Score".spec_bytes() {
                    if t == TAG_INT && p2 + 4 <= b.len() {
                        spec_score_fields(
                            b,
                            p2 + 4,
                            (fuel - 1) as nat,
                            ScoreAcc { score: Some(le32(b, p2) as i32), ..acc },
                        )
                    } else {
                        None
                    }
                } else if nm == "ScoreboardId".spec_bytes() {
                    if t == TAG_LONG && p2 + 8 <= b.len() {
                        spec_score_fields(
                            b,
                            p2 + 8,
                            (fuel - 1) as nat,
                            ScoreAcc { scoreboard_id: Some(le64(b, p2) as i64), ..acc },
                        )
                    } else {
                        None
                    }
                } else {
                    match spec_skip_value(b, p2, t, (fuel - 1) as nat) {
                        Some(p3) => spec_score_fields(b, p3, (fuel - 1) as nat, acc),
                        None => None,
                    }
                }
            },
        }
    }
}

pub open spec fn spec_finish_score(acc: ScoreAcc) -> Option<RawScoreboardScore> {
    match (acc.score, acc.scoreboard_id) {
        (Some(v), Some(sid)) => Some(RawScoreboardScore { score: v, scoreboard_id: sid }),
        _ => None,
    }
}

/// One score compound payload at `pos`.
pub open spec fn spec_parse_score(b: Seq<u8>, pos: int, fuel: nat) -> Option<
    (RawScoreboardScore, int),
> {
    match spec_score_fields(b, pos, fuel, ScoreAcc { score: None, scoreboard_id: None }) {
        Some((acc, p)) => match spec_finish_score(acc) {
            Some(sc) => Some((sc, p)),
            None => None,
        },
        None => None,
    }
}

pub open spec fn spec_score_list(
    b: Seq<u8>,
    pos: int,
    count: nat,
    fuel: nat,
    acc: Seq<RawScoreboardScore>,
) -> Option<(Seq<RawScoreboardScore>, int)>
    decreases fuel,
{
    if fuel == 0 {
        None
    } else if count == 0 {
        Some((acc, pos))
    } else {
        match spec_parse_score(b, pos, (fuel - 1) as nat) {
            Some((sc, p2)) => spec_score_list(b, p2, (count - 1) as nat, (fuel - 1) as nat, acc.push(sc)),
            None => None,
        }
    }
}

pub open spec fn spec_score_list_payload(b: Seq<u8>, pos: int, fuel: nat) -> Option<
    (Seq<RawScoreboardScore>, int),
> {
    if 0 <= pos && pos + 5 <= b.len() {
        let etag = b[pos];
        let n = le32(b, pos + 1) as i32;
        if n < 0 {
            None
        } else if n == 0 {
            Some((Seq::empty(), pos + 5))
        } else if etag == TAG_COMPOUND {
            spec_score_list(b, pos + 5, n as nat, fuel, Seq::empty())
        } else {
            None
        }
    } else {
        None
    }
}

/// Fields gathered while walking one objective compound.
pub struct ObjectiveAcc {
    pub scores: Option<Seq<RawScoreboardScore>>,
    pub name: Option<Seq<u8>>,
    pub criteria: Option<Seq<u8>>,
    pub display_name: Option<Seq<u8>>,
}

pub open spec fn empty_objective_acc() -> ObjectiveAcc {
    ObjectiveAcc { scores: None, name: None, criteria: None, display_name: None }
}

pub open spec fn spec_objective_fields(b: Seq<u8>, pos: int, fuel: nat, acc: ObjectiveAcc) -> Option<
    (ObjectiveAcc, int),
>
    decreases fuel,
{
    if fuel == 0 {
        None
    } else if !(0 <= pos && pos + 1 <= b.len()) {
        None
    } else if b[pos] == TAG_END {
        Some((acc, pos + 1))
    } else {
        let t = b[pos];
        match spec_read_str(b, pos + 1) {
            None => None,
            Some((nm, p2)) => {
                if nm == "Scores".spec_bytes() {
                    if t == TAG_LIST {
                        match spec_score_list_payload(b, p2, (fuel - 1) as nat) {
                            Some((v, p3)) => spec_objective_fields(
                                b,
                                p3,
                                (fuel - 1) as nat,
                                ObjectiveAcc { scores: Some(v), ..acc },
                            ),
                            None => None,
                        }
                    } else {
                        None
                    }
                } else if nm == "Name".spec_bytes() {
                    if t == TAG_STRING {
                        match spec_read_str(b, p2) {
                            Some((v, p3)) => spec_objective_fields(
                                b,
                                p3,
                                (fuel - 1) as nat,
                                ObjectiveAcc { name: Some(v), ..acc },
                            ),
                            None => None,
                        }
                    } else {
                        None
                    }
                } else if nm == "Criteria".spec_bytes() {
                    if t == TAG_STRING {
                        match spec_read_str(b, p2) {
                            Some((v, p3)) => spec_objective_fields(
                                b,
                                p3,
                                (fuel - 1) as nat,
                                ObjectiveAcc { criteria: Some(v), ..acc },
                            ),
                            None => None,
                        }
                    } else {
                        None
                    }
                } else if nm == "DisplayName".spec_bytes() {
                    if t == TAG_STRING {
                        match spec_read_str(b, p2) {
                            Some((v, p3)) => spec_objective_fields(
                                b,
                                p3,
                                (fuel - 1) as nat,
                                ObjectiveAcc { display_name: Some(v), ..acc },
                            ),
                            None => None,
                        }
                    } else {
                        None
                    }
                } else {
                    match spec_skip_value(b, p2, t, (fuel - 1) as nat) {
                        Some(p3) => spec_objective_fields(b, p3, (fuel - 1) as nat, acc),
                        None => None,
                    }
                }
            },
        }
    }
}

pub open spec fn spec_finish_objective(acc: ObjectiveAcc) -> Option<ObjectiveV> {
    match (acc.scores, acc.name, acc.criteria, acc.display_name) {
        (Some(sc), Some(nm), Some(cr), Some(dn)) => Some(
            ObjectiveV { scores: sc, name: nm, criteria: cr, display_name: dn },
        ),
        _ => None,
    }
}

/// One objective compound payload at `pos`.
pub open spec fn spec_parse_objective(b: Seq<u8>, pos: int, fuel: nat) -> Option<
    (ObjectiveV, int),
> {
    match spec_objective_fields(b, pos, fuel, empty_objective_acc()) {
        Some((acc, p)) => match spec_finish_objective(acc) {
            Some(o) => Some((o, p)),
            None => None,
        },
        None => None,
    }
}

pub open spec fn spec_objective_list(
    b: Seq<u8>,
    pos: int,
    count: nat,
    fuel: nat,
    acc: Seq<ObjectiveV>,
) -> Option<(Seq<ObjectiveV>, int)>
    decreases fuel,
{
    if fuel == 0 {
        None
    } else if count == 0 {
        Some((acc, pos))
    } else {
        match spec_parse_objective(b, pos, (fuel - 1) as nat) {
            Some((o, p2)) => spec_objective_list(b, p2, (count - 1) as nat, (fuel - 1) as nat, acc.push(o)),
            None => None,
        }
    }
}

pub open spec fn spec_objective_list_payload(b: Seq<u8>, pos: int, fuel: nat) -> Option<
    (Seq<ObjectiveV>, int),
> {
    if 0 <= pos && pos + 5 <= b.len() {
        let etag = b[pos];
        let n = le32(b, pos + 1) as i32;
        if n < 0 {
            None
        } else if n == 0 {
            Some((Seq::empty(), pos + 5))
        } else if etag == TAG_COMPOUND {
            spec_objective_list(b, pos + 5, n as nat, fuel, Seq::empty())
        } else {
            None
        }
    } else {
        None
    }
}

/// Fields gathered while walking the scoreboard compound.
pub struct SbAcc {
    pub last_unique_id: Option<i64>,
    pub entries: Option<Seq<RawScoreboardEntry>>,
    pub objectives: Option<Seq<ObjectiveV>>,
}

pub open spec fn empty_sb_acc() -> SbAcc {
    SbAcc { last_unique_id: None, entries: None, objectives: None }
}

pub open spec fn spec_sb_fields(b: Seq<u8>, pos: int, fuel: nat, acc: SbAcc) -> Option<
    (SbAcc, int),
>
    decreases fuel,
{
    if fuel == 0 {
        None
    } else if !(0 <= pos && pos + 1 <= b.len()) {
        None
    } else if b[pos] == TAG_END {
        Some((acc, pos + 1))
    } else {
        let t = b[pos];
        match spec_read_str(b, pos + 1) {
            None => None,
            Some((nm, p2)) => {
                if nm == "LastUniqueID".spec_bytes() {
                    if t == TAG_LONG && p2 + 8 <= b.len() {
                        spec_sb_fields(
                            b,
                            p2 + 8,
                            (fuel - 1) as nat,
                            SbAcc { last_unique_id: Some(le64(b, p2) as i64), ..acc },
                        )
                    } else {
                        None
                    }
                } else if nm == "Entries".spec_bytes() {
                    if t == TAG_LIST {
                        match spec_entry_list_payload(b, p2, (fuel - 1) as nat) {
                            Some((v, p3)) => spec_sb_fields(
                                b,
                                p3,
                                (fuel - 1) as nat,
                                SbAcc { entries: Some(v), ..acc },
                            ),
                            None => None,
                        }
                    } else {
                        None
                    }
                } else if nm == "Objectives".spec_bytes() {
                    if t == TAG_LIST {
                        match spec_objective_list_payload(b, p2, (fuel - 1) as nat) {
                            Some((v, p3)) => spec_sb_fields(
                                b,
                                p3,
                                (fuel - 1) as nat,
                                SbAcc { objectives: Some(v), ..acc },
                            ),
                            None => None,
                        }
                    } else {
                        None
                    }
                } else {
                    match spec_skip_value(b, p2, t, (fuel - 1) as nat) {
                        Some(p3) => spec_sb_fields(b, p3, (fuel - 1) as nat, acc),
                        None => None,
                    }
                }
            },
        }
    }
}

pub open spec fn spec_finish_sb(acc: SbAcc) -> Option<RawScoreboardV> {
    match (acc.last_unique_id, acc.entries, acc.objectives) {
        (Some(id), Some(es), Some(os)) => Some(
            RawScoreboardV { last_unique_id: id, entries: es, objectives: os },
        ),
        _ => None,
    }
}

/// One named scoreboard compound at `pos`.
pub open spec fn spec_parse_scoreboard(b: Seq<u8>, pos: int, fuel: nat) -> Option<
    (RawScoreboardV, int),
> {
    if 0 <= pos && pos + 1 <= b.len() && b[pos] == TAG_COMPOUND {
        match spec_read_str(b, pos + 1) {
            Some((_root_name, p2)) => match spec_sb_fields(b, p2, fuel, empty_sb_acc()) {
                Some((acc, p3)) => match spec_finish_sb(acc) {
                    Some(sb) => Some((sb, p3)),
                    None => None,
                },
                None => None,
            },
            None => None,
        }
    } else {
        None
    }
}

/// The exact decoding of the scoreboard record buffer. Bytes after the single
/// record are ignored, as the record is self-delimiting.
pub open spec fn spec_decode_scoreboard(b: Seq<u8>) -> Result<RawScoreboardV, DecodeError> {
    if b.len() > MAX_RECORD_LEN {
        Err(DecodeError::TooLarge)
    } else {
        match spec_parse_scoreboard(b, 0, spec_fuel(b.len())) {
            Some((sb, _p)) => Ok(sb),
            None => Err(DecodeError::Malformed),
        }
    }
}

fn parse_entry(b: &Vec<u8>, pos: usize, fuel: usize) -> (r: Option<(RawScoreboardEntry, usize)>)
    requires
        pos <= b.len(),
    ensures
        match r {
            Some(ep) => spec_parse_entry(b@, pos as int, fuel as nat) == Some((ep.0, ep.1 as int))
                && pos <= ep.1 <= b@.len(),
            None => spec_parse_entry(b@, pos as int, fuel as nat) is None,
        },
{
    let mut scoreboard_id: Option<i64> = None;
    let mut entity_id: Option<i64> = None;
    let mut player_id: Option<i64> = None;
    let mut identity_type: Option<u8> = None;
    let mut cur: usize = pos;
    let mut f: usize = fuel;
    loop
        invariant
            pos <= cur <= b.len(),
            f <= fuel,
            spec_entry_fields(b@, pos as int, fuel as nat, empty_entry_acc()) == spec_entry_fields(
                b@,
                cur as int,
                f as nat,
                EntryAcc {
                    scoreboard_id: scoreboard_id,
                    entity_id: entity_id,
                    player_id: player_id,
                    identity_type: identity_type,
                },
            ),
        decreases f,
    {
        if f == 0 {
            return None;
        }
        if b.len() - cur < 1 {
            return None;
        }
        let t = b[cur];
        if t == TAG_END {
            let sid = match scoreboard_id {
                Some(v) => v,
                None => {
                    return None;
                },
            };
            let it = match identity_type {
                Some(v) => v,
                None => {
                    return None;
                },
            };
            let e = RawScoreboardEntry {
                scoreboard_id: sid,
                entity_id: entity_id,
                player_id: player_id,
                identity_type: it,
            };
            return Some((e, cur + 1));
        }
        let (nm, p3) = match read_str(b, cur + 1) {
            Some(x) => x,
            None => {
                return None;
            },
        };
        if vec_eq_str(&nm, "ScoreboardId") {
            if t != TAG_LONG || b.len() - p3 < 8 {
                return None;
            }
            scoreboard_id = Some(read_i64(b, p3));
            cur = p3 + 8;
        } else if vec_eq_str(&nm, "EntityID") {
            if t != TAG_LONG || b.len() - p3 < 8 {
                return None;
            }
            entity_id = Some(read_i64(b, p3));
            cur = p3 + 8;
        } else if vec_eq_str(&nm, "PlayerID") {
            if t != TAG_LONG || b.len() - p3 < 8 {
                return None;
            }
            player_id = Some(read_i64(b, p3));
            cur = p3 + 8;
        } else if vec_eq_str(&nm, "IdentityType") {
            if t != TAG_BYTE || b.len() - p3 < 1 {
                return None;
            }
            identity_type = Some(b[p3]);
            cur = p3 + 1;
        } else {
            match skip_value(b, p3, t, f - 1) {
                Some(p4) => {
                    cur = p4;
                },
                None => {
                    return None;
                },
            }
        }
        f = f - 1;
    }
}

fn read_entry_list(b: &Vec<u8>, pos: usize, count: usize, fuel: usize) -> (r: Option<
    (Vec<RawScoreboardEntry>, usize),
>)
    requires
        pos <= b.len(),
    ensures
        match r {
            Some(vp) => spec_entry_list(b@, pos as int, count as nat, fuel as nat, Seq::empty())
                == Some((vp.0@, vp.1 as int)) && pos <= vp.1 <= b@.len(),
            None => spec_entry_list(b@, pos as int, count as nat, fuel as nat, Seq::empty()) is None,
        },
{
    let mut out: Vec<RawScoreboardEntry> = Vec::new();
    let mut cur: usize = pos;
    let mut rem: usize = count;
    let mut f: usize = fuel;
    loop
        invariant
            pos <= cur <= b.len(),
            f <= fuel,
            spec_entry_list(b@, pos as int, count as nat, fuel as nat, Seq::empty())
                == spec_entry_list(b@, cur as int, rem as nat, f as nat, out@),
        decreases rem,
    {
        if f == 0 {
            return None;
        }
        if rem == 0 {
            return Some((out, cur));
        }
        match parse_entry(b, cur, f - 1) {
            Some((e, p2)) => {
                out.push(e);
                cur = p2;
                rem = rem - 1;
                f = f - 1;
            },
            None => {
                return None;
            },
        }
    }
}

fn read_entry_list_payload(b: &Vec<u8>, pos: usize, fuel: usize) -> (r: Option<
    (Vec<RawScoreboardEntry>, usize),
>)
    requires
        pos <= b.len(),
    ensures
        match r {
            Some(vp) => spec_entry_list_payload(b@, pos as int, fuel as nat) == Some(
                (vp.0@, vp.1 as int),
            ) && pos <= vp.1 <= b@.len(),
            None => spec_entry_list_payload(b@, pos as int, fuel as nat) is None,
        },
{
    if b.len() - pos < 5 {
        return None;
    }
    let etag = b[pos];
    let n = read_i32(b, pos + 1);
    if n < 0 {
        return None;
    }
    if n == 0 {
        return Some((Vec::new(), pos + 5));
    }
    if etag != TAG_COMPOUND {
        return None;
    }
    read_entry_list(b, pos + 5, n as usize, fuel)
}

fn parse_score(b: &Vec<u8>, pos: usize, fuel: usize) -> (r: Option<(RawScoreboardScore, usize)>)
    requires
        pos <= b.len(),
    ensures
        match r {
            Some(sp) => spec_parse_score(b@, pos as int, fuel as nat) == Some((sp.0, sp.1 as int))
                && pos <= sp.1 <= b@.len(),
            None => spec_parse_score(b@, pos as int, fuel as nat) is None,
        },
{
    let mut score: Option<i32> = None;
    let mut scoreboard_id: Option<i64> = None;
    let mut cur: usize = pos;
    let mut f: usize = fuel;
    loop
        invariant
            pos <= cur <= b.len(),
            f <= fuel,
            spec_score_fields(
                b@,
                pos as int,
                fuel as nat,
                ScoreAcc { score: None, scoreboard_id: None },
            ) == spec_score_fields(
                b@,
                cur as int,
                f as nat,
                ScoreAcc { score: score, scoreboard_id: scoreboard_id },
            ),
        decreases f,
    {
        if f == 0 {
            return None;
        }
        if b.len() - cur < 1 {
            return None;
        }
        let t = b[cur];
        if t == TAG_END {
            let v = match score {
                Some(v) => v,
                None => {
                    return None;
                },
            };
            let sid = match scoreboard_id {
                Some(v) => v,
                None => {
                    return None;
                },
            };
            return Some((RawScoreboardScore { score: v, scoreboard_id: sid }, cur + 1));
        }
        let (nm, p3) = match read_str(b, cur + 1) {
            Some(x) => x,
            None => {
                return None;
            },
        };
        if vec_eq_str(&nm, "Score") {
            if t != TAG_INT || b.len() - p3 < 4 {
                return None;
            }
            score = Some(read_i32(b, p3));
            cur = p3 + 4;
        } else if vec_eq_str(&nm, "ScoreboardId") {
            if t != TAG_LONG || b.len() - p3 < 8 {
                return None;
            }
            scoreboard_id = Some(read_i64(b, p3));
            cur = p3 + 8;
        } else {
            match skip_value(b, p3, t, f - 1) {
                Some(p4) => {
                    cur = p4;
                },
                None => {
                    return None;
                },
            }
        }
        f = f - 1;
    }
}

fn read_score_list(b: &Vec<u8>, pos: usize, count: usize, fuel: usize) -> (r: Option<
    (Vec<RawScoreboardScore>, usize),
>)
    requires
        pos <= b.len(),
    ensures
        match r {
            Some(vp) => spec_score_list(b@, pos as int, count as nat, fuel as nat, Seq::empty())
                == Some((vp.0@, vp.1 as int)) && pos <= vp.1 <= b@.len(),
            None => spec_score_list(b@, pos as int, count as nat, fuel as nat, Seq::empty()) is None,
        },
{
    let mut out: Vec<RawScoreboardScore> = Vec::new();
    let mut cur: usize = pos;
    let mut rem: usize = count;
    let mut f: usize = fuel;
    loop
        invariant
            pos <= cur <= b.len(),
            f <= fuel,
            spec_score_list(b@, pos as int, count as nat, fuel as nat, Seq::empty())
                == spec_score_list(b@, cur as int, rem as nat, f as nat, out@),
        decreases rem,
    {
        if f == 0 {
            return None;
        }
        if rem == 0 {
            return Some((out, cur));
        }
        match parse_score(b, cur, f - 1) {
            Some((sc, p2)) => {
                out.push(sc);
                cur = p2;
                rem = rem - 1;
                f = f - 1;
            },
            None => {
                return None;
            },
        }
    }
}

fn read_score_list_payload(b: &Vec<u8>, pos: usize, fuel: usize) -> (r: Option<
    (Vec<RawScoreboardScore>, usize),
>)
    requires
        pos <= b.len(),
    ensures
        match r {
            Some(vp) => spec_score_list_payload(b@, pos as int, fuel as nat) == Some(
                (vp.0@, vp.1 as int),
            ) && pos <= vp.1 <= b@.len(),
            None => spec_score_list_payload(b@, pos as int, fuel as nat) is None,
        },
{
    if b.len() - pos < 5 {
        return None;
    }
    let etag = b[pos];
    let n = read_i32(b, pos + 1);
    if n < 0 {
        return None;
    }
    if n == 0 {
        return Some((Vec::new(), pos + 5));
    }
    if etag != TAG_COMPOUND {
        return None;
    }
    read_score_list(b, pos + 5, n as usize, fuel)
}

fn parse_objective(b: &Vec<u8>, pos: usize, fuel: usize) -> (r: Option<
    (RawScoreboardObjective, usize),
>)
    requires
        pos <= b.len(),
    ensures
        match r {
            Some(op) => spec_parse_objective(b@, pos as int, fuel as nat) == Some(
                (op.0@, op.1 as int),
            ) && pos <= op.1 <= b@.len(),
            None => spec_parse_objective(b@, pos as int, fuel as nat) is None,
        },
{
    let mut scores: Option<Vec<RawScoreboardScore>> = None;
    let mut name: Option<Vec<u8>> = None;
    let mut criteria: Option<Vec<u8>> = None;
    let mut display_name: Option<Vec<u8>> = None;
    let mut cur: usize = pos;
    let mut f: usize = fuel;
    loop
        invariant
            pos <= cur <= b.len(),
            f <= fuel,
            spec_objective_fields(b@, pos as int, fuel as nat, empty_objective_acc())
                == spec_objective_fields(
                b@,
                cur as int,
                f as nat,
                ObjectiveAcc {
                    scores: match scores {
                        Some(v) => Some(v@),
                        None => None,
                    },
                    name: match name {
                        Some(v) => Some(v@),
                        None => None,
                    },
                    criteria: match criteria {
                        Some(v) => Some(v@),
                        None => None,
                    },
                    display_name: match display_name {
                        Some(v) => Some(v@),
                        None => None,
                    },
                },
            ),
        decreases f,
    {
        if f == 0 {
            return None;
        }
        if b.len() - cur < 1 {
            return None;
        }
        let t = b[cur];
        if t == TAG_END {
            let sc = match scores {
                Some(v) => v,
                None => {
                    return None;
                },
            };
            let nm = match name {
                Some(v) => v,
                None => {
                    return None;
                },
            };
            let cr = match criteria {
                Some(v) => v,
                None => {
                    return None;
                },
            };
            let dn = match display_name {
                Some(v) => v,
                None => {
                    return None;
                },
            };
            let o = RawScoreboardObjective {
                scores: sc,
                name: nm,
                criteria: cr,
                display_name: dn,
            };
            return Some((o, cur + 1));
        }
        let (nm, p3) = match read_str(b, cur + 1) {
            Some(x) => x,
            None => {
                return None;
            },
        };
        if vec_eq_str(&nm, "Scores") {
            if t != TAG_LIST {
                return None;
            }
            match read_score_list_payload(b, p3, f - 1) {
                Some((v, p4)) => {
                    scores = Some(v);
                    cur = p4;
                },
                None => {
                    return None;
                },
            }
        } else if vec_eq_str(&nm, "Name") {
            if t != TAG_STRING {
                return None;
            }
            match read_str(b, p3) {
                Some((v, p4)) => {
                    name = Some(v);
                    cur = p4;
                },
                None => {
                    return None;
                },
            }
        } else if vec_eq_str(&nm, "Criteria") {
            if t != TAG_STRING {
                return None;
            }
            match read_str(b, p3) {
                Some((v, p4)) => {
                    criteria = Some(v);
                    cur = p4;
                },
                None => {
                    return None;
                },
            }
        } else if vec_eq_str(&nm, "DisplayName") {
            if t != TAG_STRING {
                return None;
            }
            match read_str(b, p3) {
                Some((v, p4)) => {
                    display_name = Some(v);
                    cur = p4;
                },
                None => {
                    return None;
                },
            }
        } else {
            match skip_value(b, p3, t, f - 1) {
                Some(p4) => {
                    cur = p4;
                },
                None => {
                    return None;
                },
            }
        }
        f = f - 1;
    }
}

fn read_objective_list(b: &Vec<u8>, pos: usize, count: usize, fuel: usize) -> (r: Option<
    (Vec<RawScoreboardObjective>, usize),
>)
    requires
        pos <= b.len(),
    ensures
        match r {
            Some(vp) => spec_objective_list(b@, pos as int, count as nat, fuel as nat, Seq::empty())
                == Some((view_objective_list(vp.0@), vp.1 as int)) && pos <= vp.1 <= b@.len(),
            None => spec_objective_list(
                b@,
                pos as int,
                count as nat,
                fuel as nat,
                Seq::empty(),
            ) is None,
        },
{
    let mut out: Vec<RawScoreboardObjective> = Vec::new();
    let mut cur: usize = pos;
    let mut rem: usize = count;
    let mut f: usize = fuel;
    proof {
        assert(view_objective_list(out@) =~= Seq::<ObjectiveV>::empty());
    }
    loop
        invariant
            pos <= cur <= b.len(),
            f <= fuel,
            spec_objective_list(b@, pos as int, count as nat, fuel as nat, Seq::empty())
                == spec_objective_list(b@, cur as int, rem as nat, f as nat, view_objective_list(out@)),
        decreases rem,
    {
        if f == 0 {
            return None;
        }
        if rem == 0 {
            return Some((out, cur));
        }
        match parse_objective(b, cur, f - 1) {
            Some((o, p2)) => {
                let ghost prev = view_objective_list(out@);
                let ghost ov = o@;
                out.push(o);
                proof {
                    assert(view_objective_list(out@) =~= prev.push(ov));
                }
                cur = p2;
                rem = rem - 1;
                f = f - 1;
            },
            None => {
                return None;
            },
        }
    }
}

fn read_objective_list_payload(b: &Vec<u8>, pos: usize, fuel: usize) -> (r: Option<
    (Vec<RawScoreboardObjective>, usize),
>)
    requires
        pos <= b.len(),
    ensures
        match r {
            Some(vp) => spec_objective_list_payload(b@, pos as int, fuel as nat) == Some(
                (view_objective_list(vp.0@), vp.1 as int),
            ) && pos <= vp.1 <= b@.len(),
            None => spec_objective_list_payload(b@, pos as int, fuel as nat) is None,
        },
{
    if b.len() - pos < 5 {
        return None;
    }
    let etag = b[pos];
    let n = read_i32(b, pos + 1);
    if n < 0 {
        return None;
    }
    if n == 0 {
        proof {
            assert(view_objective_list(Seq::<RawScoreboardObjective>::empty()) =~= Seq::<
                ObjectiveV,
            >::empty());
        }
        return Some((Vec::new(), pos + 5));
    }
    if etag != TAG_COMPOUND {
        return None;
    }
    read_objective_list(b, pos + 5, n as usize, fuel)
}

/// Decodes the single scoreboard record of the store's scoreboard value.
pub fn decode_scoreboard(b: &Vec<u8>) -> (r: Result<RawScoreboard, DecodeError>)
    ensures
        match r {
            Ok(sb) => spec_decode_scoreboard(b@) == Ok::<_, DecodeError>(sb@),
            Err(e) => spec_decode_scoreboard(b@) == Err::<RawScoreboardV, _>(e),
        },
{
    if b.len() > MAX_RECORD_LEN {
        return Err(DecodeError::TooLarge);
    }
    let fuel: usize = 2 * b.len() + 16;
    if b.len() < 1 || b[0] != TAG_COMPOUND {
        return Err(DecodeError::Malformed);
    }
    let (_root, p2) = match read_str(b, 1) {
        Some(x) => x,
        None => {
            return Err(DecodeError::Malformed);
        },
    };
    let mut last_unique_id: Option<i64> = None;
    let mut entries: Option<Vec<RawScoreboardEntry>> = None;
    let mut objectives: Option<Vec<RawScoreboardObjective>> = None;
    let mut cur: usize = p2;
    let mut f: usize = fuel;
    loop
        invariant
            p2 <= cur <= b.len(),
            f <= fuel,
            b@.len() <= MAX_RECORD_LEN,
            fuel as nat == spec_fuel(b@.len()),
            b@.len() >= 1 && b@[0] == TAG_COMPOUND,
            spec_read_str(b@, 1) is Some && spec_read_str(b@, 1).unwrap().1 == p2 as int,
            spec_sb_fields(b@, p2 as int, fuel as nat, empty_sb_acc()) == spec_sb_fields(
                b@,
                cur as int,
                f as nat,
                SbAcc {
                    last_unique_id: last_unique_id,
                    entries: match entries {
                        Some(v) => Some(v@),
                        None => None,
                    },
                    objectives: match objectives {
                        Some(v) => Some(view_objective_list(v@)),
                        None => None,
                    },
                },
            ),
        decreases f,
    {
        if f == 0 {
            return Err(DecodeError::Malformed);
        }
        if b.len() - cur < 1 {
            return Err(DecodeError::Malformed);
        }
        let t = b[cur];
        if t == TAG_END {
            let id = match last_unique_id {
                Some(v) => v,
                None => {
                    return Err(DecodeError::Malformed);
                },
            };
            let es = match entries {
                Some(v) => v,
                None => {
                    return Err(DecodeError::Malformed);
                },
            };
            let os = match objectives {
                Some(v) => v,
                None => {
                    return Err(DecodeError::Malformed);
                },
            };
            let sb = RawScoreboard { last_unique_id: id, entries: es, objectives: os };
            return Ok(sb);
        }
        let (nm, p3) = match read_str(b, cur + 1) {
            Some(x) => x,
            None => {
                return Err(DecodeError::Malformed);
            },
        };
        if vec_eq_str(&nm, "LastUniqueID") {
            if t != TAG_LONG || b.len() - p3 < 8 {
                return Err(DecodeError::Malformed);
            }
            last_unique_id = Some(read_i64(b, p3));
            cur = p3 + 8;
        } else if vec_eq_str(&nm, "Entries") {
            if t != TAG_LIST {
                return Err(DecodeError::Malformed);
            }
            match read_entry_list_payload(b, p3, f - 1) {
                Some((v, p4)) => {
                    entries = Some(v);
                    cur = p4;
                },
                None => {
                    return Err(DecodeError::Malformed);
                },
            }
        } else if vec_eq_str(&nm, "Objectives") {
            if t != TAG_LIST {
                return Err(DecodeError::Malformed);
            }
            match read_objective_list_payload(b, p3, f - 1) {
                Some((v, p4)) => {
                    objectives = Some(v);
                    cur = p4;
                },
                None => {
                    return Err(DecodeError::Malformed);
                },
            }
        } else {
            match skip_value(b, p3, t, f - 1) {
                Some(p4) => {
                    cur = p4;
                },
                None => {
                    return Err(DecodeError::Malformed);
                },
            }
        }
        f = f - 1;
    }
}

/// The per-entity score mapping: objective name to score. Rows append in join
/// order, a later row for the same objective overrides an earlier one, and
/// lookups see the last row.
#[derive(Debug, Clone, PartialEq)]
pub struct ScoreMap {
    pub entries: Vec<(Vec<u8>, i32)>,
}

pub open spec fn view_score_pairs(s: Seq<(Vec<u8>, i32)>) -> Seq<(Seq<u8>, i32)> {
    Seq::new(s.len(), |i: int| (s[i].0@, s[i].1))
}

impl View for ScoreMap {
    type V = Seq<(Seq<u8>, i32)>;

    open spec fn view(&self) -> Seq<(Seq<u8>, i32)> {
        view_score_pairs(self.entries@)
    }
}

/// The score recorded for objective `k`: the last matching row wins.
pub open spec fn spec_lookup_score(s: Seq<(Seq<u8>, i32)>, k: Seq<u8>) -> Option<i32>
    decreases s.len(),
{
    if s.len() == 0 {
        None
    } else if s.last().0 == k {
        Some(s.last().1)
    } else {
        spec_lookup_score(s.drop_last(), k)
    }
}

impl ScoreMap {
    /// The score recorded for objective `k`, if any.
    pub fn get(&self, k: &Vec<u8>) -> (r: Option<i32>)
        ensures
            r == spec_lookup_score(self@, k@),
    {
        proof {
            assert(view_score_pairs(self.entries@.take(self.entries@.len() as int)) =~= self@);
        }
        let mut i: usize = self.entries.len();
        while i > 0
            invariant
                i <= self.entries@.len(),
                spec_lookup_score(self@, k@) == spec_lookup_score(
                    view_score_pairs(self.entries@.take(i as int)),
                    k@,
                ),
            decreases i,
        {
            let ghost cur = view_score_pairs(self.entries@.take(i as int));
            proof {
                assert(cur.last() == (self.entries@[i - 1].0@, self.entries@[i - 1].1));
                assert(cur.drop_last() =~= view_score_pairs(self.entries@.take(i - 1)));
            }
            if bytes_eq(&self.entries[i - 1].0, k) {
                return Some(self.entries[i - 1].1);
            }
            i = i - 1;
        }
        proof {
            assert(view_score_pairs(self.entries@.take(0)) =~= Seq::<(Seq<u8>, i32)>::empty());
        }
        None
    }
}

/// The score index: scoreboard ids resolved to entity ids, and each known
/// entity's objective-to-score mapping.
#[derive(Debug, PartialEq)]
pub struct Scoreboard {
    pub scoreboard_id_to_id: HashMap<i64, i64>,
    pub entity_id_to_scores: HashMap<i64, ScoreMap>,
}

/// The mathematical value of a [`Scoreboard`].
pub struct ScoreboardV {
    pub ids: Map<i64, i64>,
    pub scores: Map<i64, Seq<(Seq<u8>, i32)>>,
}

pub open spec fn scores_view(m: Map<i64, ScoreMap>) -> Map<i64, Seq<(Seq<u8>, i32)>> {
    Map::new(|k: i64| m.dom().contains(k), |k: i64| m[k]@)
}

impl View for Scoreboard {
    type V = ScoreboardV;

    open spec fn view(&self) -> ScoreboardV {
        ScoreboardV {
            ids: self.scoreboard_id_to_id@,
            scores: scores_view(self.entity_id_to_scores@),
        }
    }
}

/// The scoreboard-id to entity-id mapping: only rows with the world-entity
/// identity tag take part, and a row under that tag without an entity id is
/// skipped (never substituted by a player id).
pub open spec fn spec_entry_ids(entries: Seq<RawScoreboardEntry>, acc: Map<i64, i64>) -> Map<
    i64,
    i64,
>
    decreases entries.len(),
{
    if entries.len() == 0 {
        acc
    } else {
        let e = entries[0];
        let acc2 = if e.identity_type == 2 {
            match e.entity_id {
                Some(eid) => acc.insert(e.scoreboard_id, eid),
                None => acc,
            }
        } else {
            acc
        };
        spec_entry_ids(entries.skip(1), acc2)
    }
}

/// Joins one objective's rows: a row whose scoreboard id resolves to a known
/// entity id appends `(objective name, score)` to that entity's mapping; any
/// other row is silently dropped.
pub open spec fn spec_join_scores(
    name: Seq<u8>,
    rows: Seq<RawScoreboardScore>,
    ids: Map<i64, i64>,
    known: Set<i64>,
    acc: Map<i64, Seq<(Seq<u8>, i32)>>,
) -> Map<i64, Seq<(Seq<u8>, i32)>>
    decreases rows.len(),
{
    if rows.len() == 0 {
        acc
    } else {
        let sc = rows[0];
        let acc2 = if ids.contains_key(sc.scoreboard_id) && known.contains(
            ids[sc.scoreboard_id],
        ) {
            let eid = ids[sc.scoreboard_id];
            let prev = if acc.contains_key(eid) {
                acc[eid]
            } else {
                Seq::empty()
            };
            acc.insert(eid, prev.push((name, sc.score)))
        } else {
            acc
        };
        spec_join_scores(name, rows.skip(1), ids, known, acc2)
    }
}

pub open spec fn spec_join_objectives(
    objs: Seq<ObjectiveV>,
    ids: Map<i64, i64>,
    known: Set<i64>,
    acc: Map<i64, Seq<(Seq<u8>, i32)>>,
) -> Map<i64, Seq<(Seq<u8>, i32)>>
    decreases objs.len(),
{
    if objs.len() == 0 {
        acc
    } else {
        spec_join_objectives(
            objs.skip(1),
            ids,
            known,
            spec_join_scores(objs[0].name, objs[0].scores, ids, known, acc),
        )
    }
}

/// The score index that a decoded scoreboard and the set of known entity ids
/// determine: a pure function of the two inputs.
pub open spec fn spec_build(raw: RawScoreboardV, known: Set<i64>) -> ScoreboardV {
    let ids = spec_entry_ids(raw.entries, Map::empty());
    ScoreboardV { ids: ids, scores: spec_join_objectives(raw.objectives, ids, known, Map::empty()) }
}

impl Scoreboard {
    /// An empty index, used when the store has no scoreboard record.
    pub fn empty() -> (r: Scoreboard)
        ensures
            r@.ids == Map::<i64, i64>::empty(),
            r@.scores == Map::<i64, Seq<(Seq<u8>, i32)>>::empty(),
    {
        let r = Scoreboard {
            scoreboard_id_to_id: HashMap::new(),
            entity_id_to_scores: HashMap::new(),
        };
        proof {
            assert(r@.ids =~= Map::<i64, i64>::empty());
            assert(r@.scores =~= Map::<i64, Seq<(Seq<u8>, i32)>>::empty());
        }
        r
    }

    /// Builds the score index by joining the decoded scoreboard rows to the
    /// decoded entity table. The index never holds a score for an entity id
    /// absent from the table.
    pub fn build(raw: &RawScoreboard, entities: &EntityMap) -> (r: Scoreboard)
        ensures
            r@ == spec_build(raw@, entities@.dom()),
            forall|id: i64| #[trigger] r@.scores.dom().contains(id) ==> entities@.dom().contains(
                id,
            ),
    {
        let mut ids: HashMap<i64, i64> = HashMap::new();
        proof {
            assert(raw.entries@.skip(0) =~= raw.entries@);
            assert(ids@ =~= Map::<i64, i64>::empty());
        }
        let mut i: usize = 0;
        while i < raw.entries.len()
            invariant
                i <= raw.entries@.len(),
                spec_entry_ids(raw.entries@, Map::empty()) == spec_entry_ids(
                    raw.entries@.skip(i as int),
                    ids@,
                ),
            decreases raw.entries@.len() - i,
        {
            let e = raw.entries[i];
            proof {
                assert(raw.entries@.skip(i as int)[0] == raw.entries@[i as int]);
                assert(raw.entries@.skip(i as int).skip(1) =~= raw.entries@.skip(i + 1));
            }
            if e.identity_type == 2 {
                match e.entity_id {
                    Some(eid) => {
                        ids.insert(e.scoreboard_id, eid);
                    },
                    None => {},
                }
            }
            i = i + 1;
        }
        let ghost idsv = ids@;
        proof {
            assert(raw.entries@.skip(raw.entries@.len() as int).len() == 0);
        }
        let mut scores: HashMap<i64, ScoreMap> = HashMap::new();
        proof {
            assert(scores_view(scores@) =~= Map::<i64, Seq<(Seq<u8>, i32)>>::empty());
            assert(view_objective_list(raw.objectives@).skip(0) =~= view_objective_list(
                raw.objectives@,
            ));
        }
        let mut oi: usize = 0;
        while oi < raw.objectives.len()
            invariant
                oi <= raw.objectives@.len(),
                ids@ == idsv,
                spec_join_objectives(
                    view_objective_list(raw.objectives@),
                    idsv,
                    entities@.dom(),
                    Map::empty(),
                ) == spec_join_objectives(
                    view_objective_list(raw.objectives@).skip(oi as int),
                    idsv,
                    entities@.dom(),
                    scores_view(scores@),
                ),
                forall|id: i64| #[trigger]
                    scores_view(scores@).dom().contains(id) ==> entities@.dom().contains(id),
            decreases raw.objectives@.len() - oi,
        {
            let ob = &raw.objectives[oi];
            let ghost obv = ob@;
            proof {
                let os = view_objective_list(raw.objectives@);
                assert(os.skip(oi as int)[0] == os[oi as int]);
                assert(os[oi as int] == obv);
                assert(os.skip(oi as int).skip(1) =~= os.skip(oi + 1));
                assert(obv.scores.skip(0) =~= obv.scores);
            }
            let ghost inner0 = scores_view(scores@);
            let mut si: usize = 0;
            while si < ob.scores.len()
                invariant
                    si <= ob.scores@.len(),
                    ids@ == idsv,
                    obv == ob@,
                    obv.scores == ob.scores@,
                    spec_join_scores(obv.name, obv.scores, idsv, entities@.dom(), inner0)
                        == spec_join_scores(
                        obv.name,
                        obv.scores.skip(si as int),
                        idsv,
                        entities@.dom(),
                        scores_view(scores@),
                    ),
                    forall|id: i64| #[trigger]
                        scores_view(scores@).dom().contains(id) ==> entities@.dom().contains(id),
                decreases ob.scores@.len() - si,
            {
                let sc = ob.scores[si];
                proof {
                    assert(obv.scores.skip(si as int)[0] == obv.scores[si as int]);
                    assert(obv.scores.skip(si as int).skip(1) =~= obv.scores.skip(si + 1));
                }
                match ids.get(&sc.scoreboard_id) {
                    Some(eid_ref) => {
                        let eid = *eid_ref;
                        if entities.contains_key(&eid) {
                            let ghost pre = scores_view(scores@);
                            let mut sm = match scores.remove(&eid) {
                                Some(m) => m,
                                None => ScoreMap { entries: Vec::new() },
                            };
                            let ghost smv = sm@;
                            proof {
                                if pre.dom().contains(eid) {
                                    assert(smv == pre[eid]);
                                } else {
                                    assert(smv =~= Seq::<(Seq<u8>, i32)>::empty());
                                }
                            }
                            let name_copy = copy_bytes(&ob.name);
                            sm.entries.push((name_copy, sc.score));
                            proof {
                                assert(sm@ =~= smv.push((obv.name, sc.score)));
                            }
                            scores.insert(eid, sm);
                            proof {
                                assert(scores_view(scores@) =~= pre.insert(
                                    eid,
                                    smv.push((obv.name, sc.score)),
                                ));
                            }
                        }
                    },
                    None => {},
                }
                si = si + 1;
            }
            proof {
                assert(obv.scores.skip(ob.scores@.len() as int).len() == 0);
            }
            oi = oi + 1;
        }
        proof {
            assert(view_objective_list(raw.objectives@).skip(raw.objectives@.len() as int).len()
                == 0);
        }
        let r = Scoreboard { scoreboard_id_to_id: ids, entity_id_to_scores: scores };
        r
    }
}

/// Rebuilding the index from identical decoded inputs yields an identical
/// index: the join is a pure function of the decoded scoreboard and the known
/// entity ids.
pub proof fn lemma_build_idempotent(
    raw: RawScoreboardV,
    known: Set<i64>,
    a: ScoreboardV,
    b: ScoreboardV,
)
    requires
        a == spec_build(raw, known),
        b == spec_build(raw, known),
    ensures
        a == b,
{
}

} // verus!
