//! The selector query language: parsing a textual filter set and evaluating
//! it against one entity and the score index.

use crate::bytes::{
    bytes_eq, concat_ranges, copy_bytes, copy_range, find_byte, find_sub, match_at,
    parse_i32_range, rfind_byte, spec_find_byte, spec_find_sub, spec_match_at, spec_parse_i32,
    spec_rfind_byte,
};
use crate::scoreboard::{spec_lookup_score, Scoreboard, ScoreboardV};
use crate::world::{view_bytes_list, view_opt_bytes_list, Entity, EntityV};
use crate::ParseError;
use vstd::prelude::*;
use vstd::slice::slice_to_vec;
use vstd::string::StringSliceAdditionalSpecFns;

verus! {

/// Score filters: one `(objective name, lower bound, upper bound)` row per
/// objective, bounds inclusive. The parser keeps at most one row per name.
pub type SelectorScores = Vec<(Vec<u8>, i32, i32)>;

pub open spec fn view_scores(s: Seq<(Vec<u8>, i32, i32)>) -> Seq<(Seq<u8>, i32, i32)> {
    Seq::new(s.len(), |i: int| (s[i].0@, s[i].1, s[i].2))
}

/// A parsed filter set. An empty `name` or `entity_type` means "no
/// constraint"; a tag or type text starting with `!` is a negated filter.
#[derive(Debug, PartialEq)]
pub struct Selector {
    pub name: Vec<u8>,
    pub entity_type: Vec<u8>,
    pub tags: Vec<Vec<u8>>,
    pub scores: SelectorScores,
}

/// The mathematical value of a [`Selector`].
pub struct SelectorV {
    pub name: Seq<u8>,
    pub entity_type: Seq<u8>,
    pub tags: Seq<Seq<u8>>,
    pub scores: Seq<(Seq<u8>, i32, i32)>,
}

impl View for Selector {
    type V = SelectorV;

    open spec fn view(&self) -> SelectorV {
        SelectorV {
            name: self.name@,
            entity_type: self.entity_type@,
            tags: view_bytes_list(self.tags@),
            scores: view_scores(self.scores@),
        }
    }
}

/// An unparsable lower bound falls back to the smallest representable value.
pub open spec fn spec_bound_lo(s: Seq<u8>) -> i32 {
    match spec_parse_i32(s) {
        Some(v) => v,
        None => i32::MIN,
    }
}

/// An unparsable upper bound falls back to the largest representable value.
pub open spec fn spec_bound_hi(s: Seq<u8>) -> i32 {
    match spec_parse_i32(s) {
        Some(v) => v,
        None => i32::MAX,
    }
}

/// The two-byte range separator `..` (ASCII 46 twice).
pub open spec fn dotdot() -> Seq<u8> {
    seq![46u8, 46u8]
}

/// The end of the chunk that starts at `i`: the next comma, or the end of the
/// text (clamped so that the chunk walk is well founded).
pub open spec fn spec_chunk_end(s: Seq<u8>, i: int) -> int {
    match spec_find_byte(s, i, 44) {
        Some(j) => if i <= j <= s.len() {
            j
        } else {
            s.len() as int
        },
        None => s.len() as int,
    }
}

/// The first row of `acc` holding objective name `k`, scanning from `i`.
pub open spec fn spec_key_index(acc: Seq<(Seq<u8>, i32, i32)>, k: Seq<u8>, i: int) -> Option<int>
    decreases acc.len() - i,
{
    if i < 0 || i >= acc.len() {
        None
    } else if acc[i].0 == k {
        Some(i)
    } else {
        spec_key_index(acc, k, i + 1)
    }
}

/// Sets objective `t.0` to range `(t.1, t.2)`: replaces the existing row for
/// that objective, or appends a new one.
pub open spec fn spec_upsert(acc: Seq<(Seq<u8>, i32, i32)>, t: (Seq<u8>, i32, i32)) -> Seq<
    (Seq<u8>, i32, i32),
> {
    match spec_key_index(acc, t.0, 0) {
        Some(i) => acc.update(i, t),
        None => acc.push(t),
    }
}

/// One `objective=range` clause: the objective name and the two bounds. The
/// range separator must split the value into exactly two parts; each bound
/// falls back per the fallback rule when it does not parse.
pub open spec fn spec_score_entry(chunk: Seq<u8>) -> Result<(Seq<u8>, i32, i32), ParseError> {
    match spec_find_byte(chunk, 0, 61) {
        None => Err(ParseError::MissingValue),
        Some(e1) => {
            let key = chunk.subrange(0, e1);
            let vend = match spec_find_byte(chunk, e1 + 1, 61) {
                Some(e2) => e2,
                None => chunk.len() as int,
            };
            let value = chunk.subrange(e1 + 1, vend);
            match spec_find_sub(value, 0, dotdot()) {
                None => Ok((key, spec_bound_lo(value), spec_bound_hi(value))),
                Some(d) => {
                    match spec_find_sub(value, d + 2, dotdot()) {
                        Some(_) => Err(ParseError::BadRange),
                        None => Ok(
                            (
                                key,
                                spec_bound_lo(value.subrange(0, d)),
                                spec_bound_hi(value.subrange(d + 2, value.len() as int)),
                            ),
                        ),
                    }
                },
            }
        },
    }
}

/// The comma-separated `objective=range` clauses of a scores block.
pub open spec fn spec_score_entries(
    inner: Seq<u8>,
    i: int,
    acc: Seq<(Seq<u8>, i32, i32)>,
) -> Result<Seq<(Seq<u8>, i32, i32)>, ParseError>
    decreases inner.len() + 1 - i,
{
    if i < 0 || i > inner.len() {
        Ok(acc)
    } else {
        let j = spec_chunk_end(inner, i);
        match spec_score_entry(inner.subrange(i, j)) {
            Ok(t) => {
                if j == inner.len() {
                    Ok(spec_upsert(acc, t))
                } else {
                    spec_score_entries(inner, j + 1, spec_upsert(acc, t))
                }
            },
            Err(e) => Err(e),
        }
    }
}

/// Splits the `scores={...}` block out of the filter text: the remaining
/// filter text and the parsed score filters. The block reaches to the last
/// closing brace of the text; a leading comma is removed with the block. With
/// no block, the text is returned unchanged with no score filters.
pub open spec fn spec_extract_scores(args: Seq<u8>) -> Result<
    (Seq<u8>, Seq<(Seq<u8>, i32, i32)>),
    ParseError,
> {
    match spec_find_sub(args, 0, "scores={".spec_bytes()) {
        None => Ok((args, Seq::empty())),
        Some(o) => {
            let plen = "scores={".spec_bytes().len() as int;
            match spec_rfind_byte(args, args.len() as int, 125) {
                Some(c) => {
                    if c >= o + plen {
                        let start = if o > 0 && args[o - 1] == 44 {
                            o - 1
                        } else {
                            o
                        };
                        let rest = args.subrange(0, start) + args.subrange(
                            c + 1,
                            args.len() as int,
                        );
                        match spec_score_entries(args.subrange(o + plen, c), 0, Seq::empty()) {
                            Ok(m) => Ok((rest, m)),
                            Err(e) => Err(e),
                        }
                    } else {
                        Ok((args, Seq::empty()))
                    }
                },
                None => Ok((args, Seq::empty())),
            }
        },
    }
}

/// One `key=value` filter folded into the filter set: `type` and `name`
/// overwrite, `tag` appends, an unknown key becomes a warning. A known key
/// without a value is a fatal parse failure; an unknown chunk without a value
/// is only a warning.
pub open spec fn spec_filter_step(
    sel: SelectorV,
    warns: Seq<Seq<u8>>,
    chunk: Seq<u8>,
) -> Result<(SelectorV, Seq<Seq<u8>>), ParseError> {
    match spec_find_byte(chunk, 0, 61) {
        None => {
            if chunk == "type".spec_bytes() || chunk == "name".spec_bytes() || chunk
                == "tag".spec_bytes() {
                Err(ParseError::MissingValue)
            } else {
                Ok((sel, warns.push(chunk)))
            }
        },
        Some(e1) => {
            let key = chunk.subrange(0, e1);
            let vend = match spec_find_byte(chunk, e1 + 1, 61) {
                Some(e2) => e2,
                None => chunk.len() as int,
            };
            let value = chunk.subrange(e1 + 1, vend);
            if key == "type".spec_bytes() {
                Ok((SelectorV { entity_type: value, ..sel }, warns))
            } else if key == "name".spec_bytes() {
                Ok((SelectorV { name: value, ..sel }, warns))
            } else if key == "tag".spec_bytes() {
                Ok((SelectorV { tags: sel.tags.push(value), ..sel }, warns))
            } else {
                Ok((sel, warns.push(key)))
            }
        },
    }
}

/// The comma-separated filters of the remaining filter text.
pub open spec fn spec_filters(
    s: Seq<u8>,
    i: int,
    sel: SelectorV,
    warns: Seq<Seq<u8>>,
) -> Result<(SelectorV, Seq<Seq<u8>>), ParseError>
    decreases s.len() + 1 - i,
{
    if i < 0 || i > s.len() {
        Ok((sel, warns))
    } else {
        let j = spec_chunk_end(s, i);
        match spec_filter_step(sel, warns, s.subrange(i, j)) {
            Ok((sel2, warns2)) => {
                if j == s.len() {
                    Ok((sel2, warns2))
                } else {
                    spec_filters(s, j + 1, sel2, warns2)
                }
            },
            Err(e) => Err(e),
        }
    }
}

pub open spec fn spec_empty_selector(scores: Seq<(Seq<u8>, i32, i32)>) -> SelectorV {
    SelectorV { name: Seq::empty(), entity_type: Seq::empty(), tags: Seq::empty(), scores: scores }
}

/// The exact parse of a selector string: it must have the `@e[` prefix and the
/// `]` suffix; the scores block is split out first, and the remaining text is
/// read filter by filter. The result carries the filter set and the unknown
/// keys that were ignored.
pub open spec fn spec_parse_selector(s: Seq<u8>) -> Result<
    (SelectorV, Seq<Seq<u8>>),
    ParseError,
> {
    if s.len() >= 4 && spec_match_at(s, 0, "@e[".spec_bytes()) && spec_match_at(
        s,
        s.len() - 1,
        "]".spec_bytes(),
    ) {
        let args = s.subrange(3, s.len() - 1);
        match spec_extract_scores(args) {
            Ok((rest, scores)) => spec_filters(rest, 0, spec_empty_selector(scores), Seq::empty()),
            Err(e) => Err(e),
        }
    } else {
        Err(ParseError::BadShape)
    }
}

/// Sets objective `name` to the given range in the score filter rows.
#[verifier::loop_isolation(false)]
fn upsert_score(out: &mut SelectorScores, name: &Vec<u8>, lo: i32, hi: i32)
    ensures
        view_scores(final(out)@) == spec_upsert(view_scores(old(out)@), (name@, lo, hi)),
{
    let ghost accv = view_scores(out@);
    let mut i: usize = 0;
    while i < out.len()
        invariant
            i <= out@.len(),
            accv == view_scores(out@),
            spec_key_index(accv, name@, 0) == spec_key_index(accv, name@, i as int),
        decreases out@.len() - i,
    {
        if bytes_eq(&out[i].0, name) {
            proof {
                assert(accv[i as int].0 == name@);
                assert(spec_key_index(accv, name@, i as int) == Some(i as int));
            }
            let _replaced = out.remove(i);
            out.insert(i, (copy_bytes(name), lo, hi));
            proof {
                assert(view_scores(out@) =~= accv.update(i as int, (name@, lo, hi)));
            }
            return ;
        }
        proof {
            assert(accv[i as int].0 == out@[i as int].0@);
        }
        i = i + 1;
    }
    proof {
        assert(i as int >= accv.len());
    }
    out.push((copy_bytes(name), lo, hi));
    proof {
        assert(view_scores(out@) =~= accv.push((name@, lo, hi)));
    }
}

/// Parses one `objective=range` clause.
fn score_entry(chunk: &Vec<u8>) -> (r: Result<(Vec<u8>, i32, i32), ParseError>)
    ensures
        match r {
            Ok(t) => spec_score_entry(chunk@) == Ok::<_, ParseError>((t.0@, t.1, t.2)),
            Err(e) => spec_score_entry(chunk@) == Err::<(Seq<u8>, i32, i32), _>(e),
        },
{
    let e1 = match find_byte(chunk, 0, 61) {
        Some(e1) => e1,
        None => {
            return Err(ParseError::MissingValue);
        },
    };
    let key = copy_range(chunk, 0, e1);
    let vend = match find_byte(chunk, e1 + 1, 61) {
        Some(e2) => e2,
        None => chunk.len(),
    };
    let value = copy_range(chunk, e1 + 1, vend);
    let mut sep: Vec<u8> = Vec::new();
    sep.push(46);
    sep.push(46);
    proof {
        assert(sep@ =~= dotdot());
    }
    match find_sub(&value, 0, sep.as_slice()) {
        None => {
            let lo = match parse_i32_range(&value, 0, value.len()) {
                Some(v) => v,
                None => i32::MIN,
            };
            let hi = match parse_i32_range(&value, 0, value.len()) {
                Some(v) => v,
                None => i32::MAX,
            };
            proof {
                assert(value@.subrange(0, value@.len() as int) =~= value@);
            }
            Ok((key, lo, hi))
        },
        Some(d) => {
            match find_sub(&value, d + 2, sep.as_slice()) {
                Some(_) => Err(ParseError::BadRange),
                None => {
                    let lo = match parse_i32_range(&value, 0, d) {
                        Some(v) => v,
                        None => i32::MIN,
                    };
                    let hi = match parse_i32_range(&value, d + 2, value.len()) {
                        Some(v) => v,
                        None => i32::MAX,
                    };
                    Ok((key, lo, hi))
                },
            }
        },
    }
}

/// Splits the `scores={...}` block out of the filter text.
#[verifier::loop_isolation(false)]
pub fn extract_scores(args: &Vec<u8>) -> (r: Result<(Vec<u8>, SelectorScores), ParseError>)
    ensures
        match r {
            Ok(p) => spec_extract_scores(args@) == Ok::<_, ParseError>((p.0@, view_scores(p.1@))),
            Err(e) => spec_extract_scores(args@) == Err::<(Seq<u8>, Seq<(Seq<u8>, i32, i32)>), _>(
                e,
            ),
        },
{
    let pat = "scores={".as_bytes();
    proof {
        assert(view_scores(Seq::<(Vec<u8>, i32, i32)>::empty()) =~= Seq::<
            (Seq<u8>, i32, i32),
        >::empty());
    }
    let o = match find_sub(args, 0, pat) {
        Some(o) => o,
        None => {
            return Ok((copy_bytes(args), Vec::new()));
        },
    };
    let c = match rfind_byte(args, 125) {
        Some(c) => c,
        None => {
            return Ok((copy_bytes(args), Vec::new()));
        },
    };
    proof {
        assert(args@.len() == args.len());
    }
    if c < o + pat.len() {
        return Ok((copy_bytes(args), Vec::new()));
    }
    let start = if o > 0 && args[o - 1] == 44 {
        o - 1
    } else {
        o
    };
    let rest = concat_ranges(args, 0, start, c + 1, args.len());
    let inner = copy_range(args, o + pat.len(), c);
    let ghost innerv = args@.subrange(o + pat@.len(), c as int);
    let mut out: SelectorScores = Vec::new();
    let mut i: usize = 0;
    loop
        invariant
            0 <= i <= inner@.len() + 1,
            inner@ == innerv,
            spec_score_entries(innerv, 0, Seq::empty()) == spec_score_entries(
                innerv,
                i as int,
                view_scores(out@),
            ),
        decreases inner@.len() + 1 - i,
    {
        if i > inner.len() {
            return Ok((rest, out));
        }
        let j = match find_byte(&inner, i, 44) {
            Some(j) => j,
            None => inner.len(),
        };
        let chunk = copy_range(&inner, i, j);
        match score_entry(&chunk) {
            Ok((name, lo, hi)) => {
                upsert_score(&mut out, &name, lo, hi);
                if j == inner.len() {
                    return Ok((rest, out));
                }
                i = j + 1;
            },
            Err(e) => {
                return Err(e);
            },
        }
    }
}

/// Parses the comma-separated filters of the remaining filter text into the
/// selector, collecting unknown keys as warnings.
#[verifier::loop_isolation(false)]
fn apply_filters(rest: &Vec<u8>, sel: Selector) -> (r: Result<(Selector, Vec<Vec<u8>>), ParseError>)
    ensures
        match r {
            Ok(p) => spec_filters(rest@, 0, sel@, Seq::empty()) == Ok::<_, ParseError>(
                (p.0@, view_bytes_list(p.1@)),
            ),
            Err(e) => spec_filters(rest@, 0, sel@, Seq::empty()) == Err::<
                (SelectorV, Seq<Seq<u8>>),
                _,
            >(e),
        },
{
    let mut cur = sel;
    let mut warns: Vec<Vec<u8>> = Vec::new();
    proof {
        assert(view_bytes_list(warns@) =~= Seq::<Seq<u8>>::empty());
    }
    let ghost sel0 = sel@;
    let mut i: usize = 0;
    loop
        invariant
            0 <= i <= rest@.len() + 1,
            spec_filters(rest@, 0, sel0, Seq::empty()) == spec_filters(
                rest@,
                i as int,
                cur@,
                view_bytes_list(warns@),
            ),
        decreases rest@.len() + 1 - i,
    {
        if i > rest.len() {
            return Ok((cur, warns));
        }
        let j = match find_byte(rest, i, 44) {
            Some(j) => j,
            None => rest.len(),
        };
        let chunk = copy_range(rest, i, j);
        match find_byte(&chunk, 0, 61) {
            None => {
                if vec_eq_str_chunk(&chunk) {
                    return Err(ParseError::MissingValue);
                }
                let ghost prev = view_bytes_list(warns@);
                let ghost cv = chunk@;
                warns.push(chunk);
                proof {
                    assert(view_bytes_list(warns@) =~= prev.push(cv));
                }
            },
            Some(e1) => {
                let key = copy_range(&chunk, 0, e1);
                let vend = match find_byte(&chunk, e1 + 1, 61) {
                    Some(e2) => e2,
                    None => chunk.len(),
                };
                let value = copy_range(&chunk, e1 + 1, vend);
                if crate::bytes::vec_eq_str(&key, "type") {
                    cur.entity_type = value;
                } else if crate::bytes::vec_eq_str(&key, "name") {
                    cur.name = value;
                } else if crate::bytes::vec_eq_str(&key, "tag") {
                    let ghost prevt = view_bytes_list(cur.tags@);
                    let ghost vv = value@;
                    cur.tags.push(value);
                    proof {
                        assert(view_bytes_list(cur.tags@) =~= prevt.push(vv));
                    }
                } else {
                    let ghost prev = view_bytes_list(warns@);
                    let ghost kv = key@;
                    warns.push(key);
                    proof {
                        assert(view_bytes_list(warns@) =~= prev.push(kv));
                    }
                }
            },
        }
        if j == rest.len() {
            return Ok((cur, warns));
        }
        i = j + 1;
    }
}

/// Whether a valueless chunk names a key that needs a value.
fn vec_eq_str_chunk(chunk: &Vec<u8>) -> (r: bool)
    ensures
        r == (chunk@ == "type".spec_bytes() || chunk@ == "name".spec_bytes() || chunk@
            == "tag".spec_bytes()),
{
    crate::bytes::vec_eq_str(chunk, "type") || crate::bytes::vec_eq_str(chunk, "name")
        || crate::bytes::vec_eq_str(chunk, "tag")
}

impl Selector {
    /// Parses a selector string, returning the filter set and the unknown
    /// filter keys that were ignored.
    pub fn parse_selector(selector: &str) -> (r: Result<(Selector, Vec<Vec<u8>>), ParseError>)
        ensures
            match r {
                Ok(p) => spec_parse_selector(selector.spec_bytes()) == Ok::<_, ParseError>(
                    (p.0@, view_bytes_list(p.1@)),
                ),
                Err(e) => spec_parse_selector(selector.spec_bytes()) == Err::<
                    (SelectorV, Seq<Seq<u8>>),
                    _,
                >(e),
            },
    {
        let s: Vec<u8> = slice_to_vec(selector.as_bytes());
        let pre = "@e[".as_bytes();
        let suf = "]".as_bytes();
        if s.len() < 4 || !match_at(&s, 0, pre) || !match_at(&s, s.len() - 1, suf) {
            return Err(ParseError::BadShape);
        }
        let args = copy_range(&s, 3, s.len() - 1);
        proof {
            assert(s@.subrange(3, s@.len() - 1) == args@);
        }
        let (rest, scores) = match extract_scores(&args) {
            Ok(p) => p,
            Err(e) => {
                return Err(e);
            },
        };
        let sel = Selector {
            name: Vec::new(),
            entity_type: Vec::new(),
            tags: Vec::new(),
            scores: scores,
        };
        proof {
            assert(sel@.name =~= Seq::<u8>::empty());
            assert(sel@.entity_type =~= Seq::<u8>::empty());
            assert(sel@.tags =~= Seq::<Seq<u8>>::empty());
            assert(sel@ == spec_empty_selector(view_scores(sel.scores@)));
        }
        apply_filters(&rest, sel)
    }

    /// Parses a selector string, dropping the unknown-key warnings.
    pub fn new(selector: &str) -> (r: Result<Selector, ParseError>)
        ensures
            match r {
                Ok(sel) => spec_parse_selector(selector.spec_bytes()) is Ok && sel@
                    == spec_parse_selector(selector.spec_bytes()).unwrap().0,
                Err(e) => spec_parse_selector(selector.spec_bytes()) == Err::<
                    (SelectorV, Seq<Seq<u8>>),
                    _,
                >(e),
            },
    {
        match Selector::parse_selector(selector) {
            Ok((sel, _warnings)) => Ok(sel),
            Err(e) => Err(e),
        }
    }
}

/// An entity type or type filter with the well-known namespace prefix
/// removed.
pub open spec fn spec_strip_prefix(s: Seq<u8>) -> Seq<u8> {
    if spec_match_at(s, 0, "minecraft:".spec_bytes()) {
        s.skip("minecraft:".spec_bytes().len() as int)
    } else {
        s
    }
}

fn strip_prefix(s: &Vec<u8>) -> (r: Vec<u8>)
    ensures
        r@ == spec_strip_prefix(s@),
{
    let pat = "minecraft:".as_bytes();
    if match_at(s, 0, pat) {
        copy_range(s, pat.len(), s.len())
    } else {
        copy_bytes(s)
    }
}

/// The type filter: empty means no constraint; a filter starting with `!`
/// (ASCII 33) excludes the named type; both sides are compared with the
/// namespace prefix stripped.
pub open spec fn spec_type_ok(f: Seq<u8>, t: Seq<u8>) -> bool {
    if f.len() == 0 {
        true
    } else if f[0] == 33 {
        spec_strip_prefix(f.skip(1)) != spec_strip_prefix(t)
    } else {
        spec_strip_prefix(f) == spec_strip_prefix(t)
    }
}

/// The name filter: empty means no constraint; otherwise the entity must have
/// exactly that name.
pub open spec fn spec_name_ok(f: Seq<u8>, name: Option<Seq<u8>>) -> bool {
    f.len() == 0 || name == Some(f)
}

/// Whether the sequence of byte strings holds `t`.
pub open spec fn spec_seq_contains(ts: Seq<Seq<u8>>, t: Seq<u8>) -> bool
    decreases ts.len(),
{
    if ts.len() == 0 {
        false
    } else if ts.last() == t {
        true
    } else {
        spec_seq_contains(ts.drop_last(), t)
    }
}

/// Whether the entity's tag sequence holds `t`; an entity without a tag
/// sequence holds nothing.
pub open spec fn spec_tags_contains(tags: Option<Seq<Seq<u8>>>, t: Seq<u8>) -> bool {
    match tags {
        None => false,
        Some(ts) => spec_seq_contains(ts, t),
    }
}

/// One tag filter: a filter starting with `!` (ASCII 33) demands absence,
/// any other demands presence.
pub open spec fn spec_tag_ok(t: Seq<u8>, tags: Option<Seq<Seq<u8>>>) -> bool {
    if t.len() > 0 && t[0] == 33 {
        !spec_tags_contains(tags, t.skip(1))
    } else {
        spec_tags_contains(tags, t)
    }
}

/// One score filter: the entity must have a recorded score for the objective,
/// and it must lie within the inclusive bounds. A missing score index entry
/// or a missing objective fails the filter.
pub open spec fn spec_score_ok(
    entry: (Seq<u8>, i32, i32),
    id: i64,
    scores: Map<i64, Seq<(Seq<u8>, i32)>>,
) -> bool {
    &&& scores.contains_key(id)
    &&& match spec_lookup_score(scores[id], entry.0) {
        Some(v) => entry.1 <= v && v <= entry.2,
        None => false,
    }
}

/// Whether the filter set accepts the entity, given the score index: the
/// conjunction of the type, name, tag and score filters. A selector with no
/// filters set accepts every entity.
pub open spec fn spec_matches(sel: SelectorV, e: EntityV, sb: ScoreboardV) -> bool {
    &&& spec_type_ok(sel.entity_type, e.entity_type)
    &&& spec_name_ok(sel.name, e.name)
    &&& (forall|i: int| 0 <= i < sel.tags.len() ==> spec_tag_ok(#[trigger] sel.tags[i], e.tags))
    &&& (forall|i: int|
        0 <= i < sel.scores.len() ==> spec_score_ok(#[trigger] sel.scores[i], e.id, sb.scores))
}

#[verifier::loop_isolation(false)]
fn tags_contain(tags: &Option<Vec<Vec<u8>>>, t: &Vec<u8>) -> (r: bool)
    ensures
        r == spec_tags_contains(view_opt_bytes_list(*tags), t@),
{
    match tags {
        None => false,
        Some(ts) => {
            proof {
                assert(view_opt_bytes_list(*tags) == Some(view_bytes_list(ts@)));
                assert(view_bytes_list(ts@).take(ts@.len() as int) =~= view_bytes_list(ts@));
            }
            let mut j: usize = ts.len();
            while j > 0
                invariant
                    j <= ts@.len(),
                    spec_seq_contains(view_bytes_list(ts@), t@) == spec_seq_contains(
                        view_bytes_list(ts@).take(j as int),
                        t@,
                    ),
                decreases j,
            {
                let ghost cur = view_bytes_list(ts@).take(j as int);
                proof {
                    assert(cur.last() == view_bytes_list(ts@)[j - 1]);
                    assert(view_bytes_list(ts@)[j - 1] == ts@[j - 1]@);
                    assert(cur.drop_last() =~= view_bytes_list(ts@).take(j - 1));
                }
                if bytes_eq(&ts[j - 1], t) {
                    return true;
                }
                j = j - 1;
            }
            proof {
                assert(view_bytes_list(ts@).take(0) =~= Seq::<Seq<u8>>::empty());
            }
            false
        },
    }
}

impl Selector {
    /// Whether this filter set accepts the entity, given the score index.
    #[verifier::loop_isolation(false)]
    pub fn entity_matches(&self, entity: &Entity, scoreboard: &Scoreboard) -> (r: bool)
        ensures
            r == spec_matches(self@, entity@, scoreboard@),
    {
        if self.entity_type.len() > 0 {
            if self.entity_type[0] == 33 {
                let neg = copy_range(&self.entity_type, 1, self.entity_type.len());
                let own_t = strip_prefix(&neg);
                let ent_t = strip_prefix(&entity.entity_type);
                if bytes_eq(&own_t, &ent_t) {
                    return false;
                }
            } else {
                let own_t = strip_prefix(&self.entity_type);
                let ent_t = strip_prefix(&entity.entity_type);
                if !bytes_eq(&own_t, &ent_t) {
                    return false;
                }
            }
        }
        if self.name.len() > 0 {
            match &entity.name {
                Some(n) => {
                    if !bytes_eq(n, &self.name) {
                        return false;
                    }
                },
                None => {
                    return false;
                },
            }
        }
        let mut i: usize = 0;
        while i < self.tags.len()
            invariant
                i <= self.tags@.len(),
                forall|j: int| 0 <= j < i ==> spec_tag_ok(#[trigger] self@.tags[j], entity@.tags),
            decreases self.tags@.len() - i,
        {
            let t = &self.tags[i];
            proof {
                assert(self@.tags[i as int] == t@);
            }
            let ok: bool;
            if t.len() > 0 && t[0] == 33 {
                let rest = copy_range(t, 1, t.len());
                ok = !tags_contain(&entity.tags, &rest);
            } else {
                ok = tags_contain(&entity.tags, t);
            }
            if !ok {
                proof {
                    assert(!spec_tag_ok(self@.tags[i as int], entity@.tags));
                }
                return false;
            }
            i = i + 1;
        }
        let mut k: usize = 0;
        while k < self.scores.len()
            invariant
                k <= self.scores@.len(),
                forall|j: int|
                    0 <= j < k ==> spec_score_ok(
                        #[trigger] self@.scores[j],
                        entity@.id,
                        scoreboard@.scores,
                    ),
            decreases self.scores@.len() - k,
        {
            let entry = &self.scores[k];
            proof {
                assert(self@.scores[k as int] == (entry.0@, entry.1, entry.2));
            }
            let ok: bool = match scoreboard.entity_id_to_scores.get(&entity.id) {
                Some(sm) => {
                    proof {
                        assert(scoreboard@.scores.contains_key(entity@.id));
                        assert(scoreboard@.scores[entity@.id] == sm@);
                    }
                    match sm.get(&entry.0) {
                        Some(v) => entry.1 <= v && v <= entry.2,
                        None => false,
                    }
                },
                None => false,
            };
            if !ok {
                proof {
                    assert(!spec_score_ok(self@.scores[k as int], entity@.id, scoreboard@.scores));
                }
                return false;
            }
            k = k + 1;
        }
        true
    }
}

/// Parsing is deterministic: the parse is a function of the selector text
/// alone, so the same text always yields the same filter set and warnings.
pub proof fn lemma_parse_deterministic(a: Seq<u8>, b: Seq<u8>)
    requires
        a == b,
    ensures
        spec_parse_selector(a) == spec_parse_selector(b),
{
}

/// A selector with no filters set matches every entity.
pub proof fn lemma_empty_selector_matches_all(e: EntityV, sb: ScoreboardV)
    ensures
        spec_matches(spec_empty_selector(Seq::empty()), e, sb),
{
}

/// For a single score filter over range `lo..hi` with `lo <= hi`, an entity
/// whose recorded score for that objective is `v` matches exactly when
/// `lo <= v <= hi`; in particular both boundary values pass.
pub proof fn lemma_score_range(
    name: Seq<u8>,
    lo: i32,
    hi: i32,
    e: EntityV,
    sb: ScoreboardV,
    v: i32,
)
    requires
        lo <= hi,
        sb.scores.contains_key(e.id),
        spec_lookup_score(sb.scores[e.id], name) == Some(v),
    ensures
        spec_matches(spec_empty_selector(seq![(name, lo, hi)]), e, sb) <==> (lo <= v && v <= hi),
{
    let sel = spec_empty_selector(seq![(name, lo, hi)]);
    assert(sel.scores[0] == (name, lo, hi));
    if lo <= v && v <= hi {
        assert forall|i: int| 0 <= i < sel.scores.len() implies spec_score_ok(
            #[trigger] sel.scores[i],
            e.id,
            sb.scores,
        ) by {
            assert(sel.scores[i] == (name, lo, hi));
        }
        assert(spec_matches(sel, e, sb));
    }
    if spec_matches(sel, e, sb) {
        assert(spec_score_ok(sel.scores[0], e.id, sb.scores));
    }
}

/// A negated type filter is the exact logical complement of its plain form:
/// over any entity, `type=!T` matches exactly when `type=T` does not, for a
/// filter text `T` that is non-empty and not itself negated.
pub proof fn lemma_type_negation_complement(t: Seq<u8>, e: EntityV, sb: ScoreboardV)
    requires
        t.len() > 0,
        t[0] != 33,
    ensures
        ({
            let plain = SelectorV {
                name: Seq::empty(),
                entity_type: t,
                tags: Seq::empty(),
                scores: Seq::empty(),
            };
            let negated = SelectorV {
                name: Seq::empty(),
                entity_type: seq![33u8] + t,
                tags: Seq::empty(),
                scores: Seq::empty(),
            };
            spec_matches(negated, e, sb) == !spec_matches(plain, e, sb)
        }),
{
    let nt = seq![33u8] + t;
    assert(nt[0] == 33u8);
    assert(nt.skip(1) =~= t);
}

/// A negated tag filter is the exact logical complement of its plain form
/// over any entity's tag sequence, for a tag text that is non-empty and not
/// itself negated.
pub proof fn lemma_tag_negation_complement(t: Seq<u8>, e: EntityV, sb: ScoreboardV)
    requires
        t.len() > 0,
        t[0] != 33,
    ensures
        ({
            let plain = SelectorV {
                name: Seq::empty(),
                entity_type: Seq::empty(),
                tags: seq![t],
                scores: Seq::empty(),
            };
            let negated = SelectorV {
                name: Seq::empty(),
                entity_type: Seq::empty(),
                tags: seq![seq![33u8] + t],
                scores: Seq::empty(),
            };
            spec_matches(negated, e, sb) == !spec_matches(plain, e, sb)
        }),
{
    let nt = seq![33u8] + t;
    assert(nt[0] == 33u8);
    assert(nt.skip(1) =~= t);
    let plain = SelectorV {
        name: Seq::empty(),
        entity_type: Seq::empty(),
        tags: seq![t],
        scores: Seq::empty(),
    };
    let negated = SelectorV {
        name: Seq::empty(),
        entity_type: Seq::empty(),
        tags: seq![seq![33u8] + t],
        scores: Seq::empty(),
    };
    assert(plain.tags[0] == t);
    assert(negated.tags[0] == nt);
    if spec_tags_contains(e.tags, t) {
        assert(!spec_tag_ok(nt, e.tags));
        assert(spec_tag_ok(t, e.tags));
        assert forall|i: int| 0 <= i < plain.tags.len() implies spec_tag_ok(
            #[trigger] plain.tags[i],
            e.tags,
        ) by {
            assert(plain.tags[i] == t);
        }
        assert(spec_matches(plain, e, sb));
        assert(!spec_matches(negated, e, sb));
    } else {
        assert(spec_tag_ok(nt, e.tags));
        assert(!spec_tag_ok(t, e.tags));
        assert forall|i: int| 0 <= i < negated.tags.len() implies spec_tag_ok(
            #[trigger] negated.tags[i],
            e.tags,
        ) by {
            assert(negated.tags[i] == nt);
        }
        assert(spec_matches(negated, e, sb));
        assert(!spec_matches(plain, e, sb));
    }
}

} // verus!
