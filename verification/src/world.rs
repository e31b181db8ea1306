//! Entities and the entity table. An entity record is one named compound in
//! the store's binary format; a single store value may hold several records
//! back to back, and the table keyed by entity id is built from all values
//! whose store key marks them as entity records.

use crate::bytes::{le32, le64, read_i32, read_i64, read_u32, vec_eq_str, MAX_RECORD_LEN};
use crate::nbt::{
    read_str, skip_value, spec_read_str, spec_skip_value, TAG_COMPOUND, TAG_END, TAG_FLOAT,
    TAG_LIST, TAG_LONG, TAG_STRING,
};
use crate::DecodeError;
use std::collections::HashMap;
use vstd::prelude::*;
use vstd::string::StringSliceAdditionalSpecFns;

verus! {

/// One world actor, decoded from an entity record. Strings are kept as their
/// raw bytes; the position components are kept as the raw bit patterns of the
/// stored single-precision values (matching never reads them).
#[derive(Debug, Clone, PartialEq)]
pub struct Entity {
    pub name: Option<Vec<u8>>,
    pub id: i64,
    pub entity_type: Vec<u8>,
    pub pos: Vec<u32>,
    pub tags: Option<Vec<Vec<u8>>>,
    pub definitions: Vec<Vec<u8>>,
}

/// The mathematical value of an [`Entity`].
pub struct EntityV {
    pub name: Option<Seq<u8>>,
    pub id: i64,
    pub entity_type: Seq<u8>,
    pub pos: Seq<u32>,
    pub tags: Option<Seq<Seq<u8>>>,
    pub definitions: Seq<Seq<u8>>,
}

pub open spec fn view_bytes_list(s: Seq<Vec<u8>>) -> Seq<Seq<u8>> {
    Seq::new(s.len(), |i: int| s[i]@)
}

pub open spec fn view_opt_bytes(o: Option<Vec<u8>>) -> Option<Seq<u8>> {
    match o {
        Some(v) => Some(v@),
        None => None,
    }
}

pub open spec fn view_opt_bytes_list(o: Option<Vec<Vec<u8>>>) -> Option<Seq<Seq<u8>>> {
    match o {
        Some(v) => Some(view_bytes_list(v@)),
        None => None,
    }
}

impl View for Entity {
    type V = EntityV;

    open spec fn view(&self) -> EntityV {
        EntityV {
            name: view_opt_bytes(self.name),
            id: self.id,
            entity_type: self.entity_type@,
            pos: self.pos@,
            tags: view_opt_bytes_list(self.tags),
            definitions: view_bytes_list(self.definitions@),
        }
    }
}

/// The entity table: decoded entities keyed by their id.
pub type EntityMap = HashMap<i64, Entity>;

/// The table's mathematical value: entity values keyed by id.
pub open spec fn table_view(m: Map<i64, Entity>) -> Map<i64, EntityV> {
    Map::new(|k: i64| m.dom().contains(k), |k: i64| m[k]@)
}

pub open spec fn view_entity_list(s: Seq<Entity>) -> Seq<EntityV> {
    Seq::new(s.len(), |i: int| s[i]@)
}

/// Fields gathered while walking one entity compound.
pub struct EntityAcc {
    pub name: Option<Seq<u8>>,
    pub id: Option<i64>,
    pub entity_type: Option<Seq<u8>>,
    pub pos: Option<Seq<u32>>,
    pub tags: Option<Seq<Seq<u8>>>,
    pub definitions: Option<Seq<Seq<u8>>>,
}

pub open spec fn empty_acc() -> EntityAcc {
    EntityAcc { name: None, id: None, entity_type: None, pos: None, tags: None, definitions: None }
}

/// `count` consecutive four-byte scalars starting at `pos`, as raw bits.
pub open spec fn spec_read_u32_list(b: Seq<u8>, pos: int, count: nat, acc: Seq<u32>) -> Option<
    (Seq<u32>, int),
>
    decreases count,
{
    if count == 0 {
        Some((acc, pos))
    } else if 0 <= pos && pos + 4 <= b.len() {
        spec_read_u32_list(b, pos + 4, (count - 1) as nat, acc.push(le32(b, pos)))
    } else {
        None
    }
}

/// `count` consecutive string payloads starting at `pos`.
pub open spec fn spec_read_str_list(b: Seq<u8>, pos: int, count: nat, acc: Seq<Seq<u8>>) -> Option<
    (Seq<Seq<u8>>, int),
>
    decreases count,
{
    if count == 0 {
        Some((acc, pos))
    } else {
        match spec_read_str(b, pos) {
            Some(sp) => spec_read_str_list(b, sp.1, (count - 1) as nat, acc.push(sp.0)),
            None => None,
        }
    }
}

/// A list payload whose elements must be four-byte scalars (an empty list may
/// carry any element tag).
pub open spec fn spec_read_f32_list_payload(b: Seq<u8>, pos: int) -> Option<(Seq<u32>, int)> {
    if 0 <= pos && pos + 5 <= b.len() {
        let etag = b[pos];
        let n = le32(b, pos + 1) as i32;
        if n < 0 {
            None
        } else if n == 0 {
            Some((Seq::empty(), pos + 5))
        } else if etag == TAG_FLOAT {
            spec_read_u32_list(b, pos + 5, n as nat, Seq::empty())
        } else {
            None
        }
    } else {
        None
    }
}

/// A list payload whose elements must be strings (an empty list may carry any
/// element tag).
pub open spec fn spec_read_str_list_payload(b: Seq<u8>, pos: int) -> Option<(Seq<Seq<u8>>, int)> {
    if 0 <= pos && pos + 5 <= b.len() {
        let etag = b[pos];
        let n = le32(b, pos + 1) as i32;
        if n < 0 {
            None
        } else if n == 0 {
            Some((Seq::empty(), pos + 5))
        } else if etag == TAG_STRING {
            spec_read_str_list(b, pos + 5, n as nat, Seq::empty())
        } else {
            None
        }
    } else {
        None
    }
}

/// Walks the named fields of an entity compound from `pos` up to the end
/// marker, gathering the known fields and skipping unknown ones. A known name
/// with an unexpected tag is malformed; a repeated field keeps the last value.
pub open spec fn spec_entity_fields(b: Seq<u8>, pos: int, fuel: nat, acc: EntityAcc) -> Option<
    (EntityAcc, int),
>
    decreases fuel,
{
    if fuel == 0 {
        None
    } else if !(0 <= pos && pos + 1 <= b.len()) {
        None
    } else if b[pos] == TAG_END {
        Some((acc, pos + 1))
    } else {
        let t = b[pos];
        match spec_read_str(b, pos + 1) {
            None => None,
            Some((nm, p2)) => {
                if nm == "CustomName".spec_bytes() {
                    if t == TAG_STRING {
                        match spec_read_str(b, p2) {
                            Some((v, p3)) => spec_entity_fields(
                                b,
                                p3,
                                (fuel - 1) as nat,
                                EntityAcc { name: Some(v), ..acc },
                            ),
                            None => None,
                        }
                    } else {
                        None
                    }
                } else if nm == "UniqueID".spec_bytes() {
                    if t == TAG_LONG && p2 + 8 <= b.len() {
                        spec_entity_fields(
                            b,
                            p2 + 8,
                            (fuel - 1) as nat,
                            EntityAcc { id: Some(le64(b, p2) as i64), ..acc },
                        )
                    } else {
                        None
                    }
                } else if nm == "identifier".spec_bytes() {
                    if t == TAG_STRING {
                        match spec_read_str(b, p2) {
                            Some((v, p3)) => spec_entity_fields(
                                b,
                                p3,
                                (fuel - 1) as nat,
                                EntityAcc { entity_type: Some(v), ..acc },
                            ),
                            None => None,
                        }
                    } else {
                        None
                    }
                } else if nm == "Pos".spec_bytes() {
                    if t == TAG_LIST {
                        match spec_read_f32_list_payload(b, p2) {
                            Some((v, p3)) => spec_entity_fields(
                                b,
                                p3,
                                (fuel - 1) as nat,
                                EntityAcc { pos: Some(v), ..acc },
                            ),
                            None => None,
                        }
                    } else {
                        None
                    }
                } else if nm == "Tags".spec_bytes() {
                    if t == TAG_LIST {
                        match spec_read_str_list_payload(b, p2) {
                            Some((v, p3)) => spec_entity_fields(
                                b,
                                p3,
                                (fuel - 1) as nat,
                                EntityAcc { tags: Some(v), ..acc },
                            ),
                            None => None,
                        }
                    } else {
                        None
                    }
                } else if nm == "definitions".spec_bytes() {
                    if t == TAG_LIST {
                        match spec_read_str_list_payload(b, p2) {
                            Some((v, p3)) => spec_entity_fields(
                                b,
                                p3,
                                (fuel - 1) as nat,
                                EntityAcc { definitions: Some(v), ..acc },
                            ),
                            None => None,
                        }
                    } else {
                        None
                    }
                } else {
                    match spec_skip_value(b, p2, t, (fuel - 1) as nat) {
                        Some(p3) => spec_entity_fields(b, p3, (fuel - 1) as nat, acc),
                        None => None,
                    }
                }
            },
        }
    }
}

/// An entity is complete when its required fields were all present.
pub open spec fn spec_finish_entity(acc: EntityAcc) -> Option<EntityV> {
    match (acc.id, acc.entity_type, acc.pos, acc.definitions) {
        (Some(id), Some(et), Some(p), Some(d)) => Some(
            EntityV {
                name: acc.name,
                id: id,
                entity_type: et,
                pos: p,
                tags: acc.tags,
                definitions: d,
            },
        ),
        _ => None,
    }
}

/// One named entity compound at `pos`: the entity and its end offset.
pub open spec fn spec_parse_entity(b: Seq<u8>, pos: int, fuel: nat) -> Option<(EntityV, int)> {
    if 0 <= pos && pos + 1 <= b.len() && b[pos] == TAG_COMPOUND {
        match spec_read_str(b, pos + 1) {
            Some((_root_name, p2)) => match spec_entity_fields(b, p2, fuel, empty_acc()) {
                Some((acc, p3)) => match spec_finish_entity(acc) {
                    Some(e) => Some((e, p3)),
                    None => None,
                },
                None => None,
            },
            None => None,
        }
    } else {
        None
    }
}

/// All entity records of one buffer, decoded back to back until the buffer is
/// exhausted.
pub open spec fn spec_entity_records(b: Seq<u8>, pos: int, acc: Seq<EntityV>, fuel: nat) -> Option<
    Seq<EntityV>,
>
    decreases fuel,
{
    if pos >= b.len() {
        Some(acc)
    } else if fuel == 0 {
        None
    } else {
        match spec_parse_entity(b, pos, (fuel - 1) as nat) {
            Some((e, p)) => spec_entity_records(b, p, acc.push(e), (fuel - 1) as nat),
            None => None,
        }
    }
}

/// The fuel budget that the decoders give a buffer of length `n`: ample for
/// any well-formed buffer, since every parsing step consumes input.
pub open spec fn spec_fuel(n: nat) -> nat {
    2 * n + 16
}

/// The exact decoding of one store value holding entity records.
pub open spec fn spec_decode_entities(b: Seq<u8>) -> Result<Seq<EntityV>, DecodeError> {
    if b.len() > MAX_RECORD_LEN {
        Err(DecodeError::TooLarge)
    } else {
        match spec_entity_records(b, 0, Seq::empty(), spec_fuel(b.len())) {
            Some(es) => Ok(es),
            None => Err(DecodeError::Malformed),
        }
    }
}

fn read_u32_list(b: &Vec<u8>, pos: usize, count: usize) -> (r: Option<(Vec<u32>, usize)>)
    requires
        pos <= b.len(),
    ensures
        match r {
            Some(vp) => spec_read_u32_list(b@, pos as int, count as nat, Seq::empty()) == Some(
                (vp.0@, vp.1 as int),
            ) && pos <= vp.1 <= b@.len(),
            None => spec_read_u32_list(b@, pos as int, count as nat, Seq::empty()) is None,
        },
{
    let mut out: Vec<u32> = Vec::new();
    let mut cur: usize = pos;
    let mut rem: usize = count;
    loop
        invariant
            pos <= cur <= b.len(),
            spec_read_u32_list(b@, pos as int, count as nat, Seq::empty())
                == spec_read_u32_list(b@, cur as int, rem as nat, out@),
        decreases rem,
    {
        if rem == 0 {
            return Some((out, cur));
        }
        if b.len() - cur < 4 {
            return None;
        }
        let v = read_u32(b, cur);
        out.push(v);
        cur = cur + 4;
        rem = rem - 1;
    }
}

fn read_str_list(b: &Vec<u8>, pos: usize, count: usize) -> (r: Option<(Vec<Vec<u8>>, usize)>)
    requires
        pos <= b.len(),
    ensures
        match r {
            Some(vp) => spec_read_str_list(b@, pos as int, count as nat, Seq::empty()) == Some(
                (view_bytes_list(vp.0@), vp.1 as int),
            ) && pos <= vp.1 <= b@.len(),
            None => spec_read_str_list(b@, pos as int, count as nat, Seq::empty()) is None,
        },
{
    let mut out: Vec<Vec<u8>> = Vec::new();
    let mut cur: usize = pos;
    let mut rem: usize = count;
    proof {
        assert(view_bytes_list(out@) =~= Seq::<Seq<u8>>::empty());
    }
    loop
        invariant
            pos <= cur <= b.len(),
            spec_read_str_list(b@, pos as int, count as nat, Seq::empty())
                == spec_read_str_list(b@, cur as int, rem as nat, view_bytes_list(out@)),
        decreases rem,
    {
        if rem == 0 {
            return Some((out, cur));
        }
        match read_str(b, cur) {
            Some((s, p2)) => {
                let ghost prev = view_bytes_list(out@);
                let ghost sv = s@;
                out.push(s);
                proof {
                    assert(view_bytes_list(out@) =~= prev.push(sv));
                }
                cur = p2;
                rem = rem - 1;
            },
            None => {
                return None;
            },
        }
    }
}

fn read_f32_list_payload(b: &Vec<u8>, pos: usize) -> (r: Option<(Vec<u32>, usize)>)
    requires
        pos <= b.len(),
    ensures
        match r {
            Some(vp) => spec_read_f32_list_payload(b@, pos as int) == Some((vp.0@, vp.1 as int))
                && pos <= vp.1 <= b@.len(),
            None => spec_read_f32_list_payload(b@, pos as int) is None,
        },
{
    if b.len() - pos < 5 {
        return None;
    }
    let etag = b[pos];
    let n = read_i32(b, pos + 1);
    if n < 0 {
        return None;
    }
    if n == 0 {
        return Some((Vec::new(), pos + 5));
    }
    if etag != TAG_FLOAT {
        return None;
    }
    read_u32_list(b, pos + 5, n as usize)
}

fn read_str_list_payload(b: &Vec<u8>, pos: usize) -> (r: Option<(Vec<Vec<u8>>, usize)>)
    requires
        pos <= b.len(),
    ensures
        match r {
            Some(vp) => spec_read_str_list_payload(b@, pos as int) == Some(
                (view_bytes_list(vp.0@), vp.1 as int),
            ) && pos <= vp.1 <= b@.len(),
            None => spec_read_str_list_payload(b@, pos as int) is None,
        },
{
    if b.len() - pos < 5 {
        return None;
    }
    let etag = b[pos];
    let n = read_i32(b, pos + 1);
    if n < 0 {
        return None;
    }
    if n == 0 {
        proof {
            assert(view_bytes_list(Seq::<Vec<u8>>::empty()) =~= Seq::<Seq<u8>>::empty());
        }
        return Some((Vec::new(), pos + 5));
    }
    if etag != TAG_STRING {
        return None;
    }
    read_str_list(b, pos + 5, n as usize)
}

/// Decodes one named entity compound starting at `pos`.
#[verifier::rlimit(60)]
fn parse_entity(b: &Vec<u8>, pos: usize, fuel: usize) -> (r: Option<(Entity, usize)>)
    requires
        pos <= b.len(),
    ensures
        match r {
            Some(ep) => spec_parse_entity(b@, pos as int, fuel as nat) == Some(
                (ep.0@, ep.1 as int),
            ) && pos <= ep.1 <= b@.len(),
            None => spec_parse_entity(b@, pos as int, fuel as nat) is None,
        },
{
    if b.len() - pos < 1 || b[pos] != TAG_COMPOUND {
        return None;
    }
    let (_root, p2) = match read_str(b, pos + 1) {
        Some(x) => x,
        None => {
            return None;
        },
    };
    let mut name: Option<Vec<u8>> = None;
    let mut id: Option<i64> = None;
    let mut entity_type: Option<Vec<u8>> = None;
    let mut posv: Option<Vec<u32>> = None;
    let mut tags: Option<Vec<Vec<u8>>> = None;
    let mut definitions: Option<Vec<Vec<u8>>> = None;
    let mut cur: usize = p2;
    let mut f: usize = fuel;
    loop
        invariant
            p2 <= cur <= b.len(),
            f <= fuel,
            pos + 1 <= b@.len(),
            b@[pos as int] == TAG_COMPOUND,
            spec_read_str(b@, pos + 1) is Some,
            spec_read_str(b@, pos + 1).unwrap().1 == p2 as int,
            spec_entity_fields(b@, p2 as int, fuel as nat, empty_acc()) == spec_entity_fields(
                b@,
                cur as int,
                f as nat,
                EntityAcc {
                    name: view_opt_bytes(name),
                    id: id,
                    entity_type: view_opt_bytes(entity_type),
                    pos: match posv {
                        Some(v) => Some(v@),
                        None => None,
                    },
                    tags: view_opt_bytes_list(tags),
                    definitions: view_opt_bytes_list(definitions),
                },
            ),
        decreases f,
    {
        if f == 0 {
            return None;
        }
        if b.len() - cur < 1 {
            return None;
        }
        let t = b[cur];
        if t == TAG_END {
            let defs = match definitions {
                Some(d) => d,
                None => {
                    return None;
                },
            };
            let idv = match id {
                Some(v) => v,
                None => {
                    return None;
                },
            };
            let et = match entity_type {
                Some(v) => v,
                None => {
                    return None;
                },
            };
            let pv = match posv {
                Some(v) => v,
                None => {
                    return None;
                },
            };
            let e = Entity {
                name: name,
                id: idv,
                entity_type: et,
                pos: pv,
                tags: tags,
                definitions: defs,
            };
            return Some((e, cur + 1));
        }
        let (nm, p3) = match read_str(b, cur + 1) {
            Some(x) => x,
            None => {
                return None;
            },
        };
        if vec_eq_str(&nm, "CustomName") {
            if t != TAG_STRING {
                return None;
            }
            match read_str(b, p3) {
                Some((v, p4)) => {
                    name = Some(v);
                    cur = p4;
                },
                None => {
                    return None;
                },
            }
        } else if vec_eq_str(&nm, "UniqueID") {
            if t != TAG_LONG || b.len() - p3 < 8 {
                return None;
            }
            id = Some(read_i64(b, p3));
            cur = p3 + 8;
        } else if vec_eq_str(&nm, "identifier") {
            if t != TAG_STRING {
                return None;
            }
            match read_str(b, p3) {
                Some((v, p4)) => {
                    entity_type = Some(v);
                    cur = p4;
                },
                None => {
                    return None;
                },
            }
        } else if vec_eq_str(&nm, "Pos") {
            if t != TAG_LIST {
                return None;
            }
            match read_f32_list_payload(b, p3) {
                Some((v, p4)) => {
                    posv = Some(v);
                    cur = p4;
                },
                None => {
                    return None;
                },
            }
        } else if vec_eq_str(&nm, "Tags") {
            if t != TAG_LIST {
                return None;
            }
            match read_str_list_payload(b, p3) {
                Some((v, p4)) => {
                    tags = Some(v);
                    cur = p4;
                },
                None => {
                    return None;
                },
            }
        } else if vec_eq_str(&nm, "definitions") {
            if t != TAG_LIST {
                return None;
            }
            match read_str_list_payload(b, p3) {
                Some((v, p4)) => {
                    definitions = Some(v);
                    cur = p4;
                },
                None => {
                    return None;
                },
            }
        } else {
            match skip_value(b, p3, t, f - 1) {
                Some(p4) => {
                    cur = p4;
                },
                None => {
                    return None;
                },
            }
        }
        f = f - 1;
    }
}

/// Decodes every entity record of one store value, in order.
pub fn decode_entities(b: &Vec<u8>) -> (r: Result<Vec<Entity>, DecodeError>)
    ensures
        match r {
            Ok(es) => spec_decode_entities(b@) == Ok::<_, DecodeError>(view_entity_list(es@)),
            Err(e) => spec_decode_entities(b@) == Err::<Seq<EntityV>, _>(e),
        },
{
    if b.len() > MAX_RECORD_LEN {
        return Err(DecodeError::TooLarge);
    }
    let mut out: Vec<Entity> = Vec::new();
    let mut cur: usize = 0;
    let mut f: usize = 2 * b.len() + 16;
    proof {
        assert(view_entity_list(out@) =~= Seq::<EntityV>::empty());
    }
    loop
        invariant
            cur <= b.len(),
            b.len() <= MAX_RECORD_LEN,
            spec_entity_records(b@, 0, Seq::empty(), spec_fuel(b@.len())) == spec_entity_records(
                b@,
                cur as int,
                view_entity_list(out@),
                f as nat,
            ),
        decreases f,
    {
        if cur >= b.len() {
            return Ok(out);
        }
        if f == 0 {
            return Err(DecodeError::Malformed);
        }
        match parse_entity(b, cur, f - 1) {
            Some((e, p)) => {
                let ghost prev = view_entity_list(out@);
                let ghost ev = e@;
                out.push(e);
                proof {
                    assert(view_entity_list(out@) =~= prev.push(ev));
                }
                cur = p;
                f = f - 1;
            },
            None => {
                return Err(DecodeError::Malformed);
            },
        }
    }
}

/// Whether a store key names an entity record: nine bytes long with the fixed
/// marker value in the last byte.
pub open spec fn spec_is_entity_key(k: Seq<u8>) -> bool {
    k.len() == 9 && k[8] == 50
}

pub fn is_entity_key(k: &Vec<u8>) -> (r: bool)
    ensures
        r == spec_is_entity_key(k@),
{
    k.len() == 9 && k[8] == 50
}

/// Folds decoded entities into the table, later records overwriting earlier
/// ones with the same id.
pub open spec fn spec_insert_entities(es: Seq<EntityV>, acc: Map<i64, EntityV>) -> Map<i64, EntityV>
    decreases es.len(),
{
    if es.len() == 0 {
        acc
    } else {
        spec_insert_entities(es.skip(1), acc.insert(es[0].id, es[0]))
    }
}

/// The entity table built from the store's key/value pairs: every pair whose
/// key marks an entity record contributes its decoded records in order, and
/// any decode failure is fatal to the whole pass.
pub open spec fn spec_build_table(
    pairs: Seq<(Seq<u8>, Seq<u8>)>,
    i: int,
    acc: Map<i64, EntityV>,
) -> Result<Map<i64, EntityV>, DecodeError>
    decreases pairs.len() - i,
{
    if i < 0 || i >= pairs.len() {
        Ok(acc)
    } else if spec_is_entity_key(pairs[i].0) {
        match spec_decode_entities(pairs[i].1) {
            Ok(es) => spec_build_table(pairs, i + 1, spec_insert_entities(es, acc)),
            Err(e) => Err(e),
        }
    } else {
        spec_build_table(pairs, i + 1, acc)
    }
}

pub open spec fn view_pairs(s: Seq<(Vec<u8>, Vec<u8>)>) -> Seq<(Seq<u8>, Seq<u8>)> {
    Seq::new(s.len(), |i: int| (s[i].0@, s[i].1@))
}

/// Builds the entity table from raw store key/value pairs.
pub fn build_entity_table(pairs: &Vec<(Vec<u8>, Vec<u8>)>) -> (r: Result<EntityMap, DecodeError>)
    ensures
        match r {
            Ok(m) => spec_build_table(view_pairs(pairs@), 0, Map::empty()) == Ok::<_, DecodeError>(
                table_view(m@),
            ),
            Err(e) => spec_build_table(view_pairs(pairs@), 0, Map::empty()) == Err::<
                Map<i64, EntityV>,
                _,
            >(e),
        },
{
    let mut table: EntityMap = HashMap::new();
    proof {
        assert(table_view(table@) =~= Map::<i64, EntityV>::empty());
    }
    let mut i: usize = 0;
    while i < pairs.len()
        invariant
            i <= pairs@.len(),
            spec_build_table(view_pairs(pairs@), 0, Map::empty()) == spec_build_table(
                view_pairs(pairs@),
                i as int,
                table_view(table@),
            ),
        decreases pairs@.len() - i,
    {
        let key = &pairs[i].0;
        if is_entity_key(key) {
            proof {
                assert(view_pairs(pairs@)[i as int] == (pairs@[i as int].0@, pairs@[i as int].1@));
            }
            let mut es = match decode_entities(&pairs[i].1) {
                Ok(es) => es,
                Err(e) => {
                    return Err(e);
                },
            };
            let ghost esv = view_entity_list(es@);
            let ghost before = table_view(table@);
            while es.len() > 0
                invariant
                    spec_insert_entities(esv, before) == spec_insert_entities(
                        view_entity_list(es@),
                        table_view(table@),
                    ),
                decreases es@.len(),
            {
                let ghost pre_list = view_entity_list(es@);
                let ghost pre_tbl = table_view(table@);
                let e = es.remove(0);
                let ghost ev = e@;
                table.insert(e.id, e);
                proof {
                    assert(pre_list[0] == ev);
                    assert(view_entity_list(es@) =~= pre_list.skip(1));
                    assert(table_view(table@) =~= pre_tbl.insert(ev.id, ev));
                }
            }
            proof {
                assert(view_entity_list(es@) =~= Seq::<EntityV>::empty());
            }
        }
        i = i + 1;
    }
    Ok(table)
}

} // verus!
