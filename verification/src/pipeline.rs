//! The fetch pipeline's decisions: argument validation, candidate
//! filtering, rank extraction, enrichment write-back, and the step machine
//! that orders cache, list, detail and persist work.

use vstd::prelude::*;
use crate::json::{JsonModel, JsonVal, spec_get, spec_get_str, obj_get, get_str, arr_view,
    lemma_arr_view, str_eq};
use crate::text::{lower, lower_of};

verus! {

/// The regions the remote service accepts.
pub open spec fn valid_region(s: Seq<char>) -> bool {
    ||| s == "eu"@
    ||| s == "na"@
    ||| s == "latam"@
    ||| s == "br"@
    ||| s == "ap"@
    ||| s == "kr"@
}

/// The platforms the remote service accepts.
pub open spec fn valid_platform(s: Seq<char>) -> bool {
    s == "pc"@ || s == "console"@
}

pub fn is_valid_region(s: &str) -> (r: bool)
    ensures
        r == valid_region(s@),
{
    str_eq(s, "eu") || str_eq(s, "na") || str_eq(s, "latam") || str_eq(s, "br") || str_eq(s, "ap")
        || str_eq(s, "kr")
}

pub fn is_valid_platform(s: &str) -> (r: bool)
    ensures
        r == valid_platform(s@),
{
    str_eq(s, "pc") || str_eq(s, "console")
}

/// How many participants a list entry reports: a flat `players` array, or
/// one under `players.all`.
pub open spec fn item_players_len(item: JsonModel) -> int {
    match spec_get(item, "players"@) {
        Some(pv) => match pv {
            JsonModel::Arr(ms) => ms.len() as int,
            JsonModel::Obj(_) => match spec_get(pv, "all"@) {
                Some(JsonModel::Arr(ms)) => ms.len() as int,
                _ => 0,
            },
            _ => 0,
        },
        None => 0,
    }
}

/// A list entry's mode type, lowercased; `metadata.queue.mode_type` first,
/// then `queue.mode_type`.
pub open spec fn item_mode_type(item: JsonModel) -> Seq<char> {
    let raw = match spec_get(item, "metadata"@) {
        Some(mm) => match spec_get(mm, "queue"@) {
            Some(q) => match spec_get_str(q, "mode_type"@) {
                Some(s) => Some(s),
                None => item_mode_type_direct(item),
            },
            None => item_mode_type_direct(item),
        },
        None => item_mode_type_direct(item),
    };
    match raw {
        Some(s) => lower_of(s),
        None => lower_of(Seq::empty()),
    }
}

pub open spec fn item_mode_type_direct(item: JsonModel) -> Option<Seq<char>> {
    match spec_get(item, "queue"@) {
        Some(q) => spec_get_str(q, "mode_type"@),
        None => None,
    }
}

/// A list entry's match id: `metadata.match_id`, then the top-level member.
pub open spec fn item_mid(item: JsonModel) -> Option<Seq<char>> {
    match spec_get(item, "metadata"@) {
        Some(mm) => match spec_get_str(mm, "match_id"@) {
            Some(s) => Some(s),
            None => spec_get_str(item, "match_id"@),
        },
        None => spec_get_str(item, "match_id"@),
    }
}

/// Which list entries qualify: for deathmatch, exactly the deathmatch
/// entries; otherwise entries with exactly ten participants and any other
/// mode type.
pub open spec fn item_allowed(item: JsonModel, deathmatch: bool) -> bool {
    if deathmatch {
        item_mode_type(item) == "deathmatch"@
    } else {
        item_players_len(item) == 10 && item_mode_type(item) != "deathmatch"@
    }
}

/// The match ids of qualifying entries, in list order, stopping at the
/// quota.
pub open spec fn spec_filter(items: Seq<JsonModel>, deathmatch: bool, quota: int) -> Seq<
    Seq<char>,
>
    decreases items.len(),
{
    if items.len() == 0 || quota <= 0 {
        Seq::empty()
    } else {
        let item = items[0];
        if item_allowed(item, deathmatch) && item_mid(item) is Some {
            seq![item_mid(item)->Some_0] + spec_filter(items.drop_first(), deathmatch, quota - 1)
        } else {
            spec_filter(items.drop_first(), deathmatch, quota)
        }
    }
}

fn exec_item_mode_type(item: &JsonVal) -> (r: String)
    ensures
        r@ == item_mode_type(item@),
{
    let raw: Option<&String> = match obj_get(item, "metadata") {
        Some(mm) => match obj_get(mm, "queue") {
            Some(q) => match get_str(q, "mode_type") {
                Some(s) => Some(s),
                None => exec_item_mode_type_direct(item),
            },
            None => exec_item_mode_type_direct(item),
        },
        None => exec_item_mode_type_direct(item),
    };
    match raw {
        Some(s) => lower(s.as_str()),
        None => {
            proof {
                reveal_strlit("");
                assert(""@ =~= Seq::<char>::empty());
            }
            lower("")
        },
    }
}

fn exec_item_mode_type_direct<'a>(item: &'a JsonVal) -> (r: Option<&'a String>)
    ensures
        match r {
            Some(s) => item_mode_type_direct(item@) == Some(s@),
            None => item_mode_type_direct(item@) is None,
        },
{
    match obj_get(item, "queue") {
        Some(q) => get_str(q, "mode_type"),
        None => None,
    }
}

fn exec_item_mid<'a>(item: &'a JsonVal) -> (r: Option<&'a String>)
    ensures
        match r {
            Some(s) => item_mid(item@) == Some(s@),
            None => item_mid(item@) is None,
        },
{
    match obj_get(item, "metadata") {
        Some(mm) => match get_str(mm, "match_id") {
            Some(s) => Some(s),
            None => get_str(item, "match_id"),
        },
        None => get_str(item, "match_id"),
    }
}

fn exec_item_players_len(item: &JsonVal) -> (r: usize)
    ensures
        r == item_players_len(item@),
{
    match obj_get(item, "players") {
        Some(pv) => match pv {
            JsonVal::Arr(ms) => {
                proof {
                    lemma_arr_view(ms@);
                }
                ms.len()
            },
            JsonVal::Obj(_) => match obj_get(pv, "all") {
                Some(JsonVal::Arr(ms)) => {
                    proof {
                        lemma_arr_view(ms@);
                    }
                    ms.len()
                },
                _ => 0,
            },
            _ => 0,
        },
        None => 0,
    }
}

fn exec_item_allowed(item: &JsonVal, deathmatch: bool) -> (r: bool)
    ensures
        r == item_allowed(item@, deathmatch),
{
    let mt = exec_item_mode_type(item);
    if deathmatch {
        str_eq(mt.as_str(), "deathmatch")
    } else {
        let n = exec_item_players_len(item);
        n == 10 && !str_eq(mt.as_str(), "deathmatch")
    }
}

/// Selects up to `quota` qualifying match ids from a list response, in list
/// order.
#[verifier::loop_isolation(false)]
pub fn filter_candidates(items: &Vec<JsonVal>, deathmatch: bool, quota: u8) -> (r: Vec<String>)
    ensures
        r@.map_values(|s: String| s@) == spec_filter(arr_view(items@), deathmatch, quota as int),
{
    let ghost ims = arr_view(items@);
    proof {
        lemma_arr_view(items@);
        assert(ims.skip(0) =~= ims);
    }
    let mut out: Vec<String> = Vec::new();
    let n = items.len();
    let mut i: usize = 0;
    let mut left: u8 = quota;
    while i < n && left > 0
        invariant
            i <= n,
            left <= quota,
            spec_filter(ims, deathmatch, quota as int) == out@.map_values(|s: String| s@)
                + spec_filter(ims.skip(i as int), deathmatch, left as int),
            out@.len() + left == quota,
        decreases n - i,
    {
        proof {
            assert(ims.skip(i as int)[0] == ims[i as int]);
            assert(ims[i as int] == items@[i as int]@);
            assert(ims.skip(i as int).drop_first() =~= ims.skip(i as int + 1));
        }
        let item = &items[i];
        if exec_item_allowed(item, deathmatch) {
            match exec_item_mid(item) {
                Some(mid) => {
                    let ghost before = out@;
                    out.push(mid.clone());
                    left = left - 1;
                    proof {
                        assert(out@.map_values(|s: String| s@) =~= before.map_values(
                            |s: String| s@,
                        ) + seq![ims[i as int] ].map_values(|m: JsonModel| item_mid(m)->Some_0));
                        assert(out@.map_values(|s: String| s@) =~= before.map_values(
                            |s: String| s@,
                        ) + seq![item_mid(ims[i as int])->Some_0]);
                    }
                },
                None => {},
            }
        }
        i += 1;
    }
    proof {
        if left > 0 {
            assert(ims.skip(n as int) =~= Seq::<JsonModel>::empty());
        }
        assert(spec_filter(ims, deathmatch, quota as int) =~= out@.map_values(|s: String| s@));
    }
    out
}

/// The tier name in a rank response, trying the three tolerated field
/// paths in preference order.
pub open spec fn spec_rank_of(v: JsonModel) -> Option<Seq<char>> {
    match spec_get(v, "data"@) {
        None => None,
        Some(d) => match tier_name(d, "current"@) {
            Some(s) => Some(s),
            None => match spec_get(d, "tier"@) {
                Some(t) => match spec_get_str(t, "name"@) {
                    Some(s) => Some(s),
                    None => tier_name(d, "peak"@),
                },
                None => tier_name(d, "peak"@),
            },
        },
    }
}

pub open spec fn tier_name(d: JsonModel, key: Seq<char>) -> Option<Seq<char>> {
    match spec_get(d, key) {
        Some(c) => match spec_get(c, "tier"@) {
            Some(t) => spec_get_str(t, "name"@),
            None => None,
        },
        None => None,
    }
}

fn exec_tier_name<'a>(d: &'a JsonVal, key: &str) -> (r: Option<&'a String>)
    ensures
        match r {
            Some(s) => tier_name(d@, key@) == Some(s@),
            None => tier_name(d@, key@) is None,
        },
{
    match obj_get(d, key) {
        Some(c) => match obj_get(c, "tier") {
            Some(t) => get_str(t, "name"),
            None => None,
        },
        None => None,
    }
}

/// Extracts the tier name from one rank response, if any path yields one.
pub fn extract_rank_tier(v: &JsonVal) -> (r: Option<String>)
    ensures
        match r {
            Some(s) => spec_rank_of(v@) == Some(s@),
            None => spec_rank_of(v@) is None,
        },
{
    match obj_get(v, "data") {
        None => None,
        Some(d) => match exec_tier_name(d, "current") {
            Some(s) => Some(s.clone()),
            None => match obj_get(d, "tier") {
                Some(t) => match get_str(t, "name") {
                    Some(s) => Some(s.clone()),
                    None => match exec_tier_name(d, "peak") {
                        Some(s) => Some(s.clone()),
                        None => None,
                    },
                },
                None => match exec_tier_name(d, "peak") {
                    Some(s) => Some(s.clone()),
                    None => None,
                },
            },
        },
    }
}

/// Where a participant was read from: the flat list, the `all` wrapper, or
/// one side of the red/blue split, with its position there.
#[derive(Debug, Clone, Copy, PartialEq, Eq, Structural)]
pub enum Spot {
    Flat(usize),
    InAll(usize),
    InRed(usize),
    InBlue(usize),
}

/// Replaces the first binding of `key`, or appends one.
pub open spec fn assoc_set(
    fs: Seq<(Seq<char>, JsonModel)>,
    key: Seq<char>,
    val: JsonModel,
) -> Seq<(Seq<char>, JsonModel)>
    decreases fs.len(),
{
    if fs.len() == 0 {
        seq![(key, val)]
    } else if fs[0].0 == key {
        seq![(key, val)] + fs.drop_first()
    } else {
        seq![fs[0]] + assoc_set(fs.drop_first(), key, val)
    }
}

pub open spec fn spec_set_member(m: JsonModel, key: Seq<char>, val: JsonModel) -> JsonModel {
    match m {
        JsonModel::Obj(fs) => JsonModel::Obj(assoc_set(fs, key, val)),
        _ => m,
    }
}

/// Rewrites the first binding of `key` through `f`; anything without such a
/// binding passes through unchanged.
pub open spec fn assoc_upd(
    fs: Seq<(Seq<char>, JsonModel)>,
    key: Seq<char>,
    f: spec_fn(JsonModel) -> JsonModel,
) -> Seq<(Seq<char>, JsonModel)>
    decreases fs.len(),
{
    if fs.len() == 0 {
        fs
    } else if fs[0].0 == key {
        seq![(key, f(fs[0].1))] + fs.drop_first()
    } else {
        seq![fs[0]] + assoc_upd(fs.drop_first(), key, f)
    }
}

pub open spec fn spec_upd_member(
    m: JsonModel,
    key: Seq<char>,
    f: spec_fn(JsonModel) -> JsonModel,
) -> JsonModel {
    match m {
        JsonModel::Obj(fs) => JsonModel::Obj(assoc_upd(fs, key, f)),
        _ => m,
    }
}

proof fn lemma_assoc_upd_at(
    fs: Seq<(Seq<char>, JsonModel)>,
    key: Seq<char>,
    f: spec_fn(JsonModel) -> JsonModel,
    i: int,
)
    requires
        0 <= i < fs.len(),
        fs[i].0 == key,
        forall|j: int| 0 <= j < i ==> #[trigger] fs[j].0 != key,
    ensures
        assoc_upd(fs, key, f) == fs.update(i, (key, f(fs[i].1))),
    decreases i,
{
    if i == 0 {
        assert(assoc_upd(fs, key, f) =~= fs.update(0, (key, f(fs[0].1))));
    } else {
        lemma_assoc_upd_at(fs.drop_first(), key, f, i - 1);
        assert(fs.drop_first()[i - 1] == fs[i]);
        assert(assoc_upd(fs, key, f) =~= fs.update(i, (key, f(fs[i].1))));
    }
}

proof fn lemma_assoc_upd_absent(
    fs: Seq<(Seq<char>, JsonModel)>,
    key: Seq<char>,
    f: spec_fn(JsonModel) -> JsonModel,
)
    requires
        forall|j: int| 0 <= j < fs.len() ==> #[trigger] fs[j].0 != key,
    ensures
        assoc_upd(fs, key, f) == fs,
    decreases fs.len(),
{
    if fs.len() > 0 {
        lemma_assoc_upd_absent(fs.drop_first(), key, f);
        assert(assoc_upd(fs, key, f) =~= fs);
    }
}

proof fn lemma_assoc_set_at(fs: Seq<(Seq<char>, JsonModel)>, key: Seq<char>, val: JsonModel, i: int)
    requires
        0 <= i < fs.len(),
        fs[i].0 == key,
        forall|j: int| 0 <= j < i ==> #[trigger] fs[j].0 != key,
    ensures
        assoc_set(fs, key, val) == fs.update(i, (key, val)),
    decreases i,
{
    if i == 0 {
        assert(assoc_set(fs, key, val) =~= fs.update(0, (key, val)));
    } else {
        lemma_assoc_set_at(fs.drop_first(), key, val, i - 1);
        assert(fs.drop_first()[i - 1] == fs[i]);
        assert(assoc_set(fs, key, val) =~= fs.update(i, (key, val)));
    }
}

proof fn lemma_assoc_set_absent(fs: Seq<(Seq<char>, JsonModel)>, key: Seq<char>, val: JsonModel)
    requires
        forall|j: int| 0 <= j < fs.len() ==> #[trigger] fs[j].0 != key,
    ensures
        assoc_set(fs, key, val) == fs.push((key, val)),
    decreases fs.len(),
{
    if fs.len() == 0 {
        assert(assoc_set(fs, key, val) =~= fs.push((key, val)));
    } else {
        lemma_assoc_set_absent(fs.drop_first(), key, val);
        assert(assoc_set(fs, key, val) =~= fs.push((key, val)));
    }
}

fn find_key(fields: &Vec<(String, JsonVal)>, key: &str) -> (r: Option<usize>)
    ensures
        match r {
            Some(i) => {
                let fv = crate::json::fields_view(fields@);
                &&& 0 <= i < fields@.len()
                &&& fields@[i as int].0@ == key@
                &&& fv[i as int].0 == key@
                &&& (forall|j: int| 0 <= j < i ==> #[trigger] fv[j].0 != key@)
            },
            None => {
                let fv = crate::json::fields_view(fields@);
                forall|j: int| 0 <= j < fields@.len() ==> #[trigger] fv[j].0 != key@
            },
        },
{
    proof {
        crate::json::lemma_fields_view(fields@);
    }
    let n = fields.len();
    let mut i: usize = 0;
    while i < n
        invariant
            i <= n,
            n == fields@.len(),
            crate::json::fields_view(fields@).len() == n,
            forall|j: int|
                0 <= j < n ==> #[trigger] crate::json::fields_view(fields@)[j] == (
                fields@[j].0@,
                fields@[j].1@,
                ),
            forall|j: int|
                0 <= j < i ==> #[trigger] crate::json::fields_view(fields@)[j].0 != key@,
        decreases n - i,
    {
        if str_eq(fields[i].0.as_str(), key) {
            return Some(i);
        }
        i += 1;
    }
    None
}

/// Sets the `rank` member of one object in a participant array; positions
/// that do not hold an object are left alone.
#[verifier::loop_isolation(false)]
fn set_rank_in_arr(pv: JsonVal, idx: usize, rank: &str) -> (r: JsonVal)
    ensures
        r@ == spec_set_rank_arr(pv@, idx as int, rank@),
{
    match pv {
        JsonVal::Arr(mut ms) => {
            proof {
                lemma_arr_view(ms@);
            }
            if idx < ms.len() {
                let is_obj = match &ms[idx] {
                    JsonVal::Obj(_) => true,
                    _ => false,
                };
                if is_obj {
                    let ghost before = ms@;
                    let mut slot = JsonVal::Null;
                    ms.set_and_swap(idx, &mut slot);
                    let updated = set_member(slot, "rank", JsonVal::Str(rank.to_owned()));
                    ms.set(idx, updated);
                    proof {
                        assert(ms@ =~= before.update(
                            idx as int,
                            ms@[idx as int],
                        ));
                        crate::json::lemma_arr_view_update(before, idx as int, ms@[idx as int]);
                    }
                    JsonVal::Arr(ms)
                } else {
                    proof {
                        assert(arr_view(ms@).update(idx as int, arr_view(ms@)[idx as int]) =~= arr_view(
                            ms@,
                        ));
                    }
                    JsonVal::Arr(ms)
                }
            } else {
                JsonVal::Arr(ms)
            }
        },
        other => other,
    }
}

/// Where the spot points at an object entry, its `rank` member is set; any
/// other shape passes through unchanged.
pub open spec fn spec_set_rank_arr(pv: JsonModel, idx: int, rank: Seq<char>) -> JsonModel {
    match pv {
        JsonModel::Arr(ms) => if 0 <= idx < ms.len() && ms[idx] is Obj {
            JsonModel::Arr(ms.update(idx, spec_set_member(ms[idx], "rank"@, JsonModel::Str(rank))))
        } else {
            pv
        },
        _ => pv,
    }
}

/// Replaces or appends one member of an object value.
fn set_member(m: JsonVal, key: &str, val: JsonVal) -> (r: JsonVal)
    ensures
        r@ == spec_set_member(m@, key@, val@),
{
    match m {
        JsonVal::Obj(mut fields) => {
            proof {
                crate::json::lemma_fields_view(fields@);
            }
            match find_key(&fields, key) {
                Some(i) => {
                    let ghost before = fields@;
                    fields.set(i, (key.to_owned(), val));
                    proof {
                        crate::json::lemma_fields_view_update(
                            before,
                            i as int,
                            fields@[i as int],
                        );
                        lemma_assoc_set_at(
                            crate::json::fields_view(before),
                            key@,
                            fields@[i as int].1@,
                            i as int,
                        );
                        assert(crate::json::fields_view(fields@) =~= assoc_set(
                            crate::json::fields_view(before),
                            key@,
                            fields@[i as int].1@,
                        ));
                    }
                    JsonVal::Obj(fields)
                },
                None => {
                    let ghost before = fields@;
                    fields.push((key.to_owned(), val));
                    proof {
                        crate::json::lemma_fields_view_push(
                            before,
                            fields@[before.len() as int].0,
                            fields@[before.len() as int].1,
                        );
                        lemma_assoc_set_absent(
                            crate::json::fields_view(before),
                            key@,
                            fields@[before.len() as int].1@,
                        );
                        assert(crate::json::fields_view(fields@) =~= assoc_set(
                            crate::json::fields_view(before),
                            key@,
                            fields@[before.len() as int].1@,
                        ));
                    }
                    JsonVal::Obj(fields)
                },
            }
        },
        other => other,
    }
}

/// Writes one rank into the structural position its participant was read
/// from, leaving everything else in place.
pub open spec fn spec_apply_in_players(pv: JsonModel, spot: Spot, rank: Seq<char>) -> JsonModel {
    match spot {
        Spot::Flat(i) => match pv {
            JsonModel::Arr(_) => spec_set_rank_arr(pv, i as int, rank),
            _ => pv,
        },
        Spot::InAll(i) => spec_upd_member(
            pv,
            "all"@,
            |x: JsonModel| spec_set_rank_arr(x, i as int, rank),
        ),
        Spot::InRed(i) => spec_upd_member(
            pv,
            "red"@,
            |x: JsonModel| spec_set_rank_arr(x, i as int, rank),
        ),
        Spot::InBlue(i) => spec_upd_member(
            pv,
            "blue"@,
            |x: JsonModel| spec_set_rank_arr(x, i as int, rank),
        ),
    }
}

pub open spec fn spec_apply_one(m: JsonModel, spot: Spot, rank: Seq<char>) -> JsonModel {
    spec_upd_member(
        m,
        "data"@,
        |d: JsonModel|
            spec_upd_member(
                d,
                "players"@,
                |pv: JsonModel| spec_apply_in_players(pv, spot, rank),
            ),
    )
}

/// The record after every rank has been written back, in order.
pub open spec fn spec_apply(m: JsonModel, rs: Seq<(Spot, Seq<char>)>) -> JsonModel
    decreases rs.len(),
{
    if rs.len() == 0 {
        m
    } else {
        spec_apply(spec_apply_one(m, rs[0].0, rs[0].1), rs.drop_first())
    }
}

/// Rewrites one member of an object in place through the provided update.
fn upd_member_players(d: JsonVal, spot: Spot, rank: &str) -> (r: JsonVal)
    ensures
        r@ == spec_upd_member(
            d@,
            "players"@,
            |pv: JsonModel| spec_apply_in_players(pv, spot, rank@),
        ),
{
    match d {
        JsonVal::Obj(mut fields) => {
            proof {
                crate::json::lemma_fields_view(fields@);
            }
            match find_key(&fields, "players") {
                Some(i) => {
                    let ghost before = fields@;
                    let mut slot = (String::new(), JsonVal::Null);
                    fields.set_and_swap(i, &mut slot);
                    let (kstr, pv) = slot;
                    let newpv = apply_in_players(pv, spot, rank);
                    fields.set(i, (kstr, newpv));
                    proof {
                        assert(fields@ =~= before.update(i as int, fields@[i as int]));
                        crate::json::lemma_fields_view_update(before, i as int, fields@[i as int]);
                        lemma_assoc_upd_at(
                            crate::json::fields_view(before),
                            "players"@,
                            |pv0: JsonModel| spec_apply_in_players(pv0, spot, rank@),
                            i as int,
                        );
                        assert(crate::json::fields_view(fields@) =~= assoc_upd(
                            crate::json::fields_view(before),
                            "players"@,
                            |pv0: JsonModel| spec_apply_in_players(pv0, spot, rank@),
                        ));
                    }
                    JsonVal::Obj(fields)
                },
                None => {
                    proof {
                        lemma_assoc_upd_absent(
                            crate::json::fields_view(fields@),
                            "players"@,
                            |pv0: JsonModel| spec_apply_in_players(pv0, spot, rank@),
                        );
                    }
                    JsonVal::Obj(fields)
                },
            }
        },
        other => other,
    }
}

fn apply_in_players(pv: JsonVal, spot: Spot, rank: &str) -> (r: JsonVal)
    ensures
        r@ == spec_apply_in_players(pv@, spot, rank@),
{
    match spot {
        Spot::Flat(i) => match pv {
            JsonVal::Arr(_) => set_rank_in_arr(pv, i, rank),
            other => other,
        },
        Spot::InAll(i) => upd_member_rank_arr(pv, "all", i, rank),
        Spot::InRed(i) => upd_member_rank_arr(pv, "red", i, rank),
        Spot::InBlue(i) => upd_member_rank_arr(pv, "blue", i, rank),
    }
}

fn upd_member_rank_arr(pv: JsonVal, key: &str, idx: usize, rank: &str) -> (r: JsonVal)
    ensures
        r@ == spec_upd_member(pv@, key@, |x: JsonModel| spec_set_rank_arr(x, idx as int, rank@)),
{
    match pv {
        JsonVal::Obj(mut fields) => {
            proof {
                crate::json::lemma_fields_view(fields@);
            }
            match find_key(&fields, key) {
                Some(i) => {
                    let ghost before = fields@;
                    let mut slot = (String::new(), JsonVal::Null);
                    fields.set_and_swap(i, &mut slot);
                    let (kstr, inner) = slot;
                    let newv = set_rank_in_arr(inner, idx, rank);
                    fields.set(i, (kstr, newv));
                    proof {
                        assert(fields@ =~= before.update(i as int, fields@[i as int]));
                        crate::json::lemma_fields_view_update(before, i as int, fields@[i as int]);
                        lemma_assoc_upd_at(
                            crate::json::fields_view(before),
                            key@,
                            |x: JsonModel| spec_set_rank_arr(x, idx as int, rank@),
                            i as int,
                        );
                        assert(crate::json::fields_view(fields@) =~= assoc_upd(
                            crate::json::fields_view(before),
                            key@,
                            |x: JsonModel| spec_set_rank_arr(x, idx as int, rank@),
                        ));
                    }
                    JsonVal::Obj(fields)
                },
                None => {
                    proof {
                        lemma_assoc_upd_absent(
                            crate::json::fields_view(fields@),
                            key@,
                            |x: JsonModel| spec_set_rank_arr(x, idx as int, rank@),
                        );
                    }
                    JsonVal::Obj(fields)
                },
            }
        },
        other => other,
    }
}

/// Writes one rank back into the exact structural position its participant
/// was read from.
pub fn apply_one_rank(body: JsonVal, spot: Spot, rank: &str) -> (r: JsonVal)
    ensures
        r@ == spec_apply_one(body@, spot, rank@),
{
    match body {
        JsonVal::Obj(mut fields) => {
            proof {
                crate::json::lemma_fields_view(fields@);
            }
            match find_key(&fields, "data") {
                Some(i) => {
                    let ghost before = fields@;
                    let mut slot = (String::new(), JsonVal::Null);
                    fields.set_and_swap(i, &mut slot);
                    let (kstr, dval) = slot;
                    let newd = upd_member_players(dval, spot, rank);
                    fields.set(i, (kstr, newd));
                    proof {
                        assert(fields@ =~= before.update(i as int, fields@[i as int]));
                        crate::json::lemma_fields_view_update(before, i as int, fields@[i as int]);
                        lemma_assoc_upd_at(
                            crate::json::fields_view(before),
                            "data"@,
                            |d: JsonModel|
                                spec_upd_member(
                                    d,
                                    "players"@,
                                    |pv: JsonModel| spec_apply_in_players(pv, spot, rank@),
                                ),
                            i as int,
                        );
                        assert(crate::json::fields_view(fields@) =~= assoc_upd(
                            crate::json::fields_view(before),
                            "data"@,
                            |d: JsonModel|
                                spec_upd_member(
                                    d,
                                    "players"@,
                                    |pv: JsonModel| spec_apply_in_players(pv, spot, rank@),
                                ),
                        ));
                    }
                    JsonVal::Obj(fields)
                },
                None => {
                    proof {
                        lemma_assoc_upd_absent(
                            crate::json::fields_view(fields@),
                            "data"@,
                            |d: JsonModel|
                                spec_upd_member(
                                    d,
                                    "players"@,
                                    |pv: JsonModel| spec_apply_in_players(pv, spot, rank@),
                                ),
                        );
                    }
                    JsonVal::Obj(fields)
                },
            }
        },
        other => other,
    }
}

/// Writes every rank back, in order, preserving whichever upstream shape
/// each participant was read from.
#[verifier::loop_isolation(false)]
pub fn apply_ranks(body: JsonVal, ranks: &Vec<(Spot, String)>) -> (r: JsonVal)
    ensures
        r@ == spec_apply(body@, ranks@.map_values(|e: (Spot, String)| (e.0, e.1@))),
{
    let ghost rs = ranks@.map_values(|e: (Spot, String)| (e.0, e.1@));
    proof {
        assert(rs.skip(0) =~= rs);
    }
    let n = ranks.len();
    let mut cur = body;
    let mut i: usize = 0;
    while i < n
        invariant
            i <= n,
            n == ranks@.len(),
            spec_apply(body@, rs) == spec_apply(cur@, rs.skip(i as int)),
        decreases n - i,
    {
        proof {
            assert(rs.skip(i as int)[0] == rs[i as int]);
            assert(rs.skip(i as int).drop_first() =~= rs.skip(i as int + 1));
        }
        cur = apply_one_rank(cur, ranks[i].0, ranks[i].1.as_str());
        i += 1;
    }
    proof {
        assert(rs.skip(n as int) =~= Seq::<(Spot, Seq<char>)>::empty());
    }
    cur
}

/// The spots and puuids the fan-out must look up, under any of the three
/// shapes, red before blue.
pub open spec fn spec_rank_spots(m: JsonModel) -> Seq<(Spot, Seq<char>)> {
    match spec_get(m, "data"@) {
        None => Seq::empty(),
        Some(d) => match spec_get(d, "players"@) {
            Some(pv) => match pv {
                JsonModel::Arr(ms) => spots_of(ms, 0),
                JsonModel::Obj(_) => match spec_get(pv, "all"@) {
                    Some(JsonModel::Arr(ms)) => spots_of(ms, 1),
                    _ => side_spots(pv, "red"@, 2) + side_spots(pv, "blue"@, 3),
                },
                _ => Seq::empty(),
            },
            None => Seq::empty(),
        },
    }
}

pub open spec fn side_spots(pv: JsonModel, key: Seq<char>, shape: int) -> Seq<(Spot, Seq<char>)> {
    match spec_get(pv, key) {
        Some(JsonModel::Arr(ms)) => spots_of(ms, shape),
        _ => Seq::empty(),
    }
}

/// The indexed puuids of one participant array; entries without a string
/// puuid are skipped.
pub open spec fn spots_of(ms: Seq<JsonModel>, shape: int) -> Seq<(Spot, Seq<char>)>
    decreases ms.len(),
{
    if ms.len() == 0 {
        Seq::empty()
    } else {
        let rest = spots_of(ms.drop_last(), shape);
        let i = (ms.len() - 1) as usize;
        match spec_get_str(ms.last(), "puuid"@) {
            Some(pu) => rest.push((mk_spot(shape, i), pu)),
            None => rest,
        }
    }
}

pub open spec fn mk_spot(shape: int, i: usize) -> Spot {
    if shape == 0 {
        Spot::Flat(i)
    } else if shape == 1 {
        Spot::InAll(i)
    } else if shape == 2 {
        Spot::InRed(i)
    } else {
        Spot::InBlue(i)
    }
}

#[verifier::loop_isolation(false)]
fn collect_spots_of(elems: &Vec<JsonVal>, shape: u8, out: &mut Vec<(Spot, String)>)
    requires
        shape < 4,
    ensures
        spots_view(final(out)@) == spots_view(old(out)@) + spots_of(
            arr_view(elems@),
            shape as int,
        ),
{
    proof {
        lemma_arr_view(elems@);
        assert(arr_view(elems@).take(0) =~= Seq::<JsonModel>::empty());
    }
    let n = elems.len();
    let mut j: usize = 0;
    while j < n
        invariant
            j <= n,
            spots_view(out@) == spots_view(old(out)@) + spots_of(
                arr_view(elems@).take(j as int),
                shape as int,
            ),
        decreases n - j,
    {
        proof {
            assert(arr_view(elems@).take(j as int + 1).drop_last() =~= arr_view(elems@).take(
                j as int,
            ));
            assert(arr_view(elems@).take(j as int + 1).last() == arr_view(elems@)[j as int]);
        }
        match get_str(&elems[j], "puuid") {
            Some(pu) => {
                let spot = if shape == 0 {
                    Spot::Flat(j)
                } else if shape == 1 {
                    Spot::InAll(j)
                } else if shape == 2 {
                    Spot::InRed(j)
                } else {
                    Spot::InBlue(j)
                };
                let ghost before = out@;
                out.push((spot, pu.clone()));
                proof {
                    assert(spots_view(out@) =~= spots_view(before) + seq![
                        (mk_spot(shape as int, j), pu@),
                    ]);
                    assert(spots_view(before) + seq![(mk_spot(shape as int, j), pu@)]
                        =~= spots_view(old(out)@) + spots_of(
                        arr_view(elems@).take(j as int + 1),
                        shape as int,
                    ));
                }
            },
            None => {},
        }
        j += 1;
    }
    proof {
        assert(arr_view(elems@).take(n as int) =~= arr_view(elems@));
    }
}

pub open spec fn spots_view(v: Seq<(Spot, String)>) -> Seq<(Spot, Seq<char>)> {
    v.map_values(|e: (Spot, String)| (e.0, e.1@))
}

/// Gathers one (position, puuid) entry per participant that carries a
/// puuid, under whichever shape the record uses.
pub fn collect_rank_spots(body: &JsonVal) -> (r: Vec<(Spot, String)>)
    ensures
        spots_view(r@) == spec_rank_spots(body@),
{
    let mut out: Vec<(Spot, String)> = Vec::new();
    match obj_get(body, "data") {
        None => {},
        Some(d) => match obj_get(d, "players") {
            Some(pv) => match pv {
                JsonVal::Arr(elems) => {
                    collect_spots_of(elems, 0, &mut out);
                },
                JsonVal::Obj(_) => match obj_get(pv, "all") {
                    Some(JsonVal::Arr(elems)) => {
                        collect_spots_of(elems, 1, &mut out);
                    },
                    _ => {
                        match obj_get(pv, "red") {
                            Some(JsonVal::Arr(elems)) => {
                                collect_spots_of(elems, 2, &mut out);
                            },
                            _ => {},
                        }
                        match obj_get(pv, "blue") {
                            Some(JsonVal::Arr(elems)) => {
                                collect_spots_of(elems, 3, &mut out);
                            },
                            _ => {},
                        }
                        proof {
                            assert(spots_view(out@) =~= side_spots(pv@, "red"@, 2) + side_spots(
                                pv@,
                                "blue"@,
                                3,
                            ));
                        }
                    },
                },
                _ => {},
            },
            None => {},
        },
    }
    proof {
        assert(spots_view(out@) =~= spec_rank_spots(body@));
    }
    out
}

/// The rank recorded for a participant: the extracted tier, or the default
/// when the lookup failed in any way.
pub fn rank_or_default(r: Option<String>) -> (out: String)
    ensures
        match r {
            Some(s) => out == s,
            None => out@ == "Unrated"@,
        },
{
    match r {
        Some(s) => s,
        None => "Unrated".to_owned(),
    }
}

/// Errors a fetch can surface.
#[derive(Debug)]
pub enum FetchError {
    /// A bad region or platform; rejected before any network call.
    InvalidArgument,
    /// A non-success status or transport failure on a remote call.
    RemoteCallFailed,
    /// The local store failed.
    Store(crate::StoreError),
}

/// The outside work the driver must perform next.
pub enum FetchAction {
    /// Ask the store for the newest cached match of the requested player.
    LookupCache,
    /// Call the remote list endpoint.
    CallList,
    /// Call the remote detail endpoint for this match id.
    CallDetail(String),
    /// Run the rank fan-out over this record and hand back the enriched
    /// form.
    Enrich(JsonVal),
    /// Store this enriched record.
    Persist(JsonVal),
    /// The fetch is over with this result.
    Done(Option<JsonVal>),
    /// The fetch is over with this error.
    Fail(FetchError),
}

/// What the driver reports back.
pub enum FetchEvent {
    CacheResult(Option<JsonVal>),
    ListOk(Vec<JsonVal>),
    ListFailed,
    DetailOk(JsonVal),
    DetailFailed,
    Enriched(JsonVal),
    PersistOk,
    PersistFailed(crate::StoreError),
}

pub enum Phase {
    AwaitCache,
    AwaitList,
    AwaitFallback,
    AwaitDetail,
    AwaitEnrich,
    AwaitPersist,
    Finished,
}

/// The fetch pipeline as a step machine: the driver performs each returned
/// action and reports its outcome; every decision between actions is made
/// here.
pub struct FetchMachine {
    pub deathmatch: bool,
    pub quota: u8,
    pub pending: Vec<String>,
    pub idx: usize,
    pub first: Option<JsonVal>,
    pub phase: Phase,
}

/// Which events a phase can take.
pub open spec fn phase_expects(phase: Phase, ev: FetchEvent) -> bool {
    match phase {
        Phase::AwaitCache => ev is CacheResult,
        Phase::AwaitList => ev is ListOk || ev is ListFailed,
        Phase::AwaitFallback => ev is CacheResult,
        Phase::AwaitDetail => ev is DetailOk || ev is DetailFailed,
        Phase::AwaitEnrich => ev is Enriched,
        Phase::AwaitPersist => ev is PersistOk || ev is PersistFailed,
        Phase::Finished => false,
    }
}

impl FetchMachine {
    /// Validates the arguments and, when they pass, starts with the
    /// cache-first lookup. Invalid arguments fail fast, before any network
    /// call.
    pub fn start(region: &str, platform: &str, deathmatch: bool, quota: u8) -> (r: (
        FetchMachine,
        FetchAction,
    ))
        ensures
            (!valid_region(region@) || !valid_platform(platform@)) <==> r.1 matches FetchAction::Fail(
                FetchError::InvalidArgument,
            ),
            (valid_region(region@) && valid_platform(platform@)) ==> r.1 is LookupCache
                && r.0.phase is AwaitCache,
            r.0.deathmatch == deathmatch,
            r.0.quota == quota,
    {
        if !is_valid_region(region) || !is_valid_platform(platform) {
            (
                FetchMachine {
                    deathmatch,
                    quota,
                    pending: Vec::new(),
                    idx: 0,
                    first: None,
                    phase: Phase::Finished,
                },
                FetchAction::Fail(FetchError::InvalidArgument),
            )
        } else {
            (
                FetchMachine {
                    deathmatch,
                    quota,
                    pending: Vec::new(),
                    idx: 0,
                    first: None,
                    phase: Phase::AwaitCache,
                },
                FetchAction::LookupCache,
            )
        }
    }

    /// Whether every outbound call of this fetch is serialized behind the
    /// rate gate: exactly when more than one match is to be stored.
    pub fn rate_limited(&self) -> (r: bool)
        ensures
            r == (self.quota >= 2),
    {
        self.quota >= 2
    }

    /// One decision of the pipeline. In particular: a cache hit ends the
    /// fetch at once; a failed or empty list falls back to the cache before
    /// any error surfaces, and only if that also misses does the fetch fail;
    /// candidates are detailed, enriched and persisted in list order; the
    /// first enriched record is the result.
    pub fn step(self, ev: FetchEvent) -> (r: (FetchMachine, FetchAction))
        requires
            phase_expects(self.phase, ev),
        ensures
            r.0.deathmatch == self.deathmatch,
            r.0.quota == self.quota,
            self.phase is AwaitCache ==> (match ev {
                FetchEvent::CacheResult(Some(m)) => r.1 == FetchAction::Done(Some(m))
                    && r.0.phase is Finished,
                FetchEvent::CacheResult(None) => r.1 is CallList && r.0.phase is AwaitList
                    && r.0.pending == self.pending && r.0.idx == self.idx && r.0.first
                    == self.first,
                _ => true,
            }),
            self.phase is AwaitList && ev is ListFailed ==> r.1 is LookupCache
                && r.0.phase is AwaitFallback && r.0.pending == self.pending && r.0.idx == self.idx
                && r.0.first == self.first,
            self.phase is AwaitFallback ==> (match ev {
                FetchEvent::CacheResult(Some(m)) => r.1 == FetchAction::Done(Some(m))
                    && r.0.phase is Finished,
                FetchEvent::CacheResult(None) => r.1 == FetchAction::Fail(
                    FetchError::RemoteCallFailed,
                ) && r.0.phase is Finished,
                _ => true,
            }),
            self.phase is AwaitList ==> (match ev {
                FetchEvent::ListOk(items) => {
                    let mids = spec_filter(arr_view(items@), self.deathmatch, self.quota as int);
                    if mids.len() == 0 {
                        r.1 is LookupCache && r.0.phase is AwaitFallback && r.0.pending
                            == self.pending && r.0.idx == self.idx && r.0.first == self.first
                    } else {
                        &&& r.0.pending@.map_values(|s: String| s@) == mids
                        &&& r.0.idx == 1
                        &&& (r.1 matches FetchAction::CallDetail(mid0) && mid0@ == mids[0])
                        &&& r.0.phase is AwaitDetail
                        &&& r.0.first == self.first
                    }
                },
                _ => true,
            }),
            self.phase is AwaitDetail ==> (match ev {
                FetchEvent::DetailOk(body) => r.1 == FetchAction::Enrich(body)
                    && r.0.phase is AwaitEnrich && r.0.pending == self.pending && r.0.idx
                    == self.idx && r.0.first == self.first,
                FetchEvent::DetailFailed => r.1 == FetchAction::Fail(FetchError::RemoteCallFailed)
                    && r.0.phase is Finished,
                _ => true,
            }),
            self.phase is AwaitEnrich ==> (match ev {
                FetchEvent::Enriched(b) => r.1 == FetchAction::Persist(b)
                    && r.0.phase is AwaitPersist && r.0.pending == self.pending && r.0.idx
                    == self.idx && (self.first is None ==> (r.0.first matches Some(f) && f@ == b@))
                    && (self.first is Some ==> r.0.first == self.first),
                _ => true,
            }),
            self.phase is AwaitPersist ==> (match ev {
                FetchEvent::PersistOk => if self.idx < self.pending@.len() {
                    &&& (r.1 matches FetchAction::CallDetail(mid) && mid@ == self.pending@[
                        self.idx as int]@)
                    &&& r.0.idx == self.idx + 1
                    &&& r.0.phase is AwaitDetail
                    &&& r.0.pending == self.pending
                    &&& r.0.first == self.first
                } else {
                    r.1 == FetchAction::Done(self.first) && r.0.phase is Finished && r.0.pending
                        == self.pending
                },
                FetchEvent::PersistFailed(e) => r.1 == FetchAction::Fail(FetchError::Store(e))
                    && r.0.phase is Finished,
                _ => true,
            }),
    {
        match self.phase {
            Phase::AwaitCache => match ev {
                FetchEvent::CacheResult(Some(m)) => {
                    let mut s = self;
                    s.phase = Phase::Finished;
                    (s, FetchAction::Done(Some(m)))
                },
                FetchEvent::CacheResult(None) => {
                    let mut s = self;
                    s.phase = Phase::AwaitList;
                    (s, FetchAction::CallList)
                },
                _ => {
                    proof {
                        assert(false);
                    }
                    (self, FetchAction::Fail(FetchError::RemoteCallFailed))
                },
            },
            Phase::AwaitList => match ev {
                FetchEvent::ListFailed => {
                    let mut s = self;
                    s.phase = Phase::AwaitFallback;
                    (s, FetchAction::LookupCache)
                },
                FetchEvent::ListOk(items) => {
                    let deathmatch = self.deathmatch;
                    let quota = self.quota;
                    let mids = filter_candidates(&items, deathmatch, quota);
                    if mids.len() == 0 {
                        let mut s = self;
                        s.phase = Phase::AwaitFallback;
                        (s, FetchAction::LookupCache)
                    } else {
                        let first_mid = mids[0].clone();
                        let mut s = self;
                        s.pending = mids;
                        s.idx = 1;
                        s.phase = Phase::AwaitDetail;
                        proof {
                            assert(s.pending@.map_values(|x: String| x@)[0] == first_mid@);
                        }
                        (s, FetchAction::CallDetail(first_mid))
                    }
                },
                _ => {
                    proof {
                        assert(false);
                    }
                    (self, FetchAction::Fail(FetchError::RemoteCallFailed))
                },
            },
            Phase::AwaitFallback => match ev {
                FetchEvent::CacheResult(Some(m)) => {
                    let mut s = self;
                    s.phase = Phase::Finished;
                    (s, FetchAction::Done(Some(m)))
                },
                FetchEvent::CacheResult(None) => {
                    let mut s = self;
                    s.phase = Phase::Finished;
                    (s, FetchAction::Fail(FetchError::RemoteCallFailed))
                },
                _ => {
                    proof {
                        assert(false);
                    }
                    (self, FetchAction::Fail(FetchError::RemoteCallFailed))
                },
            },
            Phase::AwaitDetail => match ev {
                FetchEvent::DetailOk(body) => {
                    let mut s = self;
                    s.phase = Phase::AwaitEnrich;
                    (s, FetchAction::Enrich(body))
                },
                FetchEvent::DetailFailed => {
                    let mut s = self;
                    s.phase = Phase::Finished;
                    (s, FetchAction::Fail(FetchError::RemoteCallFailed))
                },
                _ => {
                    proof {
                        assert(false);
                    }
                    (self, FetchAction::Fail(FetchError::RemoteCallFailed))
                },
            },
            Phase::AwaitEnrich => match ev {
                FetchEvent::Enriched(b) => {
                    let keep = match &self.first {
                        None => true,
                        Some(_) => false,
                    };
                    let mut s = self;
                    if keep {
                        let copy = crate::json::clone_json(&b);
                        s.first = Some(copy);
                    }
                    s.phase = Phase::AwaitPersist;
                    (s, FetchAction::Persist(b))
                },
                _ => {
                    proof {
                        assert(false);
                    }
                    (self, FetchAction::Fail(FetchError::RemoteCallFailed))
                },
            },
            Phase::AwaitPersist => match ev {
                FetchEvent::PersistOk => {
                    if self.idx < self.pending.len() {
                        let mid = self.pending[self.idx].clone();
                        let mut s = self;
                        s.idx = s.idx + 1;
                        s.phase = Phase::AwaitDetail;
                        (s, FetchAction::CallDetail(mid))
                    } else {
                        let mut s = self;
                        s.phase = Phase::Finished;
                        let first = s.first;
                        s.first = None;
                        (s, FetchAction::Done(first))
                    }
                },
                FetchEvent::PersistFailed(e) => {
                    let mut s = self;
                    s.phase = Phase::Finished;
                    (s, FetchAction::Fail(FetchError::Store(e)))
                },
                _ => {
                    proof {
                        assert(false);
                    }
                    (self, FetchAction::Fail(FetchError::RemoteCallFailed))
                },
            },
            Phase::Finished => {
                proof {
                    assert(false);
                }
                (self, FetchAction::Fail(FetchError::RemoteCallFailed))
            },
        }
    }
}

/// What `urlencoding::encode` returns: the percent-encoded form, a function
/// of the text alone.
pub uninterp spec fn urlenc_of(s: Seq<char>) -> Seq<char>;

/// Relies on urlencoding::encode: percent-encodes everything outside the
/// unreserved set; the trailing conversion only changes the type.
#[verifier::external_body]
pub fn url_encode(s: &str) -> (r: String)
    ensures
        r@ == urlenc_of(s@),
{
    urlencoding::encode(s).into_owned()
}

/// The remote list endpoint for a player, name and tag percent-encoded.
pub open spec fn list_url_of(
    region: Seq<char>,
    platform: Seq<char>,
    name: Seq<char>,
    tag: Seq<char>,
) -> Seq<char> {
    "https://api.henrikdev.xyz/valorant/v4/matches/"@ + region + "/"@ + platform + "/"@
        + urlenc_of(name) + "/"@ + urlenc_of(tag)
}

pub fn matches_list_url(region: &str, platform: &str, name: &str, tag: &str) -> (r: String)
    ensures
        r@ == list_url_of(region@, platform@, name@, tag@),
{
    let mut u = "https://api.henrikdev.xyz/valorant/v4/matches/".to_owned();
    u.append(region);
    u.append("/");
    u.append(platform);
    u.append("/");
    let ne = url_encode(name);
    u.append(ne.as_str());
    u.append("/");
    let te = url_encode(tag);
    u.append(te.as_str());
    proof {
        assert(u@ =~= list_url_of(region@, platform@, name@, tag@));
    }
    u
}

/// The remote detail endpoint for one match.
pub open spec fn detail_url_of(region: Seq<char>, mid: Seq<char>) -> Seq<char> {
    "https://api.henrikdev.xyz/valorant/v4/match/"@ + region + "/"@ + mid
}

pub fn match_detail_url(region: &str, mid: &str) -> (r: String)
    ensures
        r@ == detail_url_of(region@, mid@),
{
    let mut u = "https://api.henrikdev.xyz/valorant/v4/match/".to_owned();
    u.append(region);
    u.append("/");
    u.append(mid);
    proof {
        assert(u@ =~= detail_url_of(region@, mid@));
    }
    u
}

/// The remote rank endpoint for one participant.
pub open spec fn mmr_url_of(region: Seq<char>, platform: Seq<char>, puuid: Seq<char>) -> Seq<
    char,
> {
    "https://api.henrikdev.xyz/valorant/v3/by-puuid/mmr/"@ + region + "/"@ + platform + "/"@
        + puuid
}

pub fn mmr_url(region: &str, platform: &str, puuid: &str) -> (r: String)
    ensures
        r@ == mmr_url_of(region@, platform@, puuid@),
{
    let mut u = "https://api.henrikdev.xyz/valorant/v3/by-puuid/mmr/".to_owned();
    u.append(region);
    u.append("/");
    u.append(platform);
    u.append("/");
    u.append(puuid);
    proof {
        assert(u@ =~= mmr_url_of(region@, platform@, puuid@));
    }
    u
}

} // verus!
