//! The persistent match store: one embedded key-value database per Scope,
//! organized into four logical indexes.
//!
//! * `matches`: match id -> compressed match blob,
//! * `by_puuid`: player id -> newest-first match history, capped and
//!   deduplicated,
//! * `riot_to_puuid`: lowercased "name#tag" -> player id,
//! * `latest_by_player`: lowercased "name#tag" -> (timestamp, match id),
//!   overwritten only by a timestamp at least as new.

use vstd::prelude::*;
use crate::json::{JsonModel, JsonVal, spec_get, spec_get_str, obj_get, get_str, arr_view,
    lemma_arr_view};
use crate::codec::{blob_of, blob_dec, bounded, encode_blob, decode_blob};
use crate::text::{lower, lower_of, trim, trim_of};
use crate::StoreError;

verus! {

#[verifier::external_type_specification]
#[verifier::external_body]
pub struct ExDb(sled::Db);

#[verifier::external_type_specification]
#[verifier::external_body]
pub struct ExTree(sled::Tree);

/// The contents of one tree, its byte keys read back as the strings they
/// were written from (UTF-8 encoding is injective, so distinct string keys
/// name distinct entries).
pub uninterp spec fn tree_view(t: sled::Tree) -> Map<Seq<char>, Seq<u8>>;

/// Relies on sled::open: a handle onto whatever the directory holds.
#[verifier::external_body]
fn sled_open(path: &str) -> (r: Result<sled::Db, StoreError>)
{
    sled::open(path).map_err(|_| StoreError::Backend)
}

/// Relies on sled::Db::open_tree: a handle onto the named keyspace.
#[verifier::external_body]
fn open_tree(db: &sled::Db, name: &str) -> (r: Result<sled::Tree, StoreError>)
{
    db.open_tree(name).map_err(|_| StoreError::Backend)
}

/// Relies on sled::Tree::get: the bytes currently stored under the key.
#[verifier::external_body]
fn tree_get(t: &sled::Tree, key: &str) -> (r: Result<Option<Vec<u8>>, StoreError>)
    ensures
        match r {
            Ok(Some(v)) => tree_view(*t).contains_key(key@) && tree_view(*t)[key@] == v@,
            Ok(None) => !tree_view(*t).contains_key(key@),
            Err(e) => e is Backend,
        },
{
    match t.get(key.as_bytes()) {
        Ok(Some(iv)) => Ok(Some(iv.to_vec())),
        Ok(None) => Ok(None),
        Err(_) => Err(StoreError::Backend),
    }
}

/// Relies on sled::Tree::insert: on success the tree maps the key to the
/// value and is otherwise unchanged.
#[verifier::external_body]
fn tree_insert(t: &mut sled::Tree, key: &str, val: &[u8]) -> (r: Result<(), StoreError>)
    ensures
        r is Ok ==> tree_view(*final(t)) == tree_view(*old(t)).insert(key@, val@),
        r matches Err(e) ==> e is Backend,
{
    match t.insert(key.as_bytes(), val) {
        Ok(_) => Ok(()),
        Err(_) => Err(StoreError::Backend),
    }
}

/// Relies on sled::Db::flush: pushes pending writes to disk, contents
/// unchanged.
#[verifier::external_body]
fn db_flush(db: &sled::Db) -> (r: Result<(), StoreError>)
{
    match db.flush() {
        Ok(_) => Ok(()),
        Err(_) => Err(StoreError::Backend),
    }
}

/// What bincode's standard encoding of a string is.
pub uninterp spec fn bc_str_of(s: Seq<char>) -> Seq<u8>;

/// What bincode's standard decoding of bytes as a string yields.
pub uninterp spec fn bc_str_dec_of(b: Seq<u8>) -> Option<Seq<char>>;

/// What bincode's standard encoding of a (timestamp, match id) pair is.
pub uninterp spec fn bc_pair_of(ts: i64, mid: Seq<char>) -> Seq<u8>;

/// What bincode's standard decoding of bytes as such a pair yields.
pub uninterp spec fn bc_pair_dec_of(b: Seq<u8>) -> Option<(i64, Seq<char>)>;

/// What bincode's standard encoding of a match history is.
pub uninterp spec fn bc_hist_of(h: Seq<(i64, Seq<char>)>) -> Seq<u8>;

/// What bincode's standard decoding of bytes as a match history yields.
pub uninterp spec fn bc_hist_dec_of(b: Seq<u8>) -> Option<Seq<(i64, Seq<char>)>>;

/// The history entries by content.
pub open spec fn hist_view(h: Seq<(i64, String)>) -> Seq<(i64, Seq<char>)> {
    h.map_values(|e: (i64, String)| (e.0, e.1@))
}

/// Relies on bincode::serde::encode_to_vec with the standard configuration,
/// and on decode_from_slice inverting it.
#[verifier::external_body]
fn bc_encode_str(s: &str) -> (r: Result<Vec<u8>, StoreError>)
    ensures
        r matches Ok(v) ==> v@ == bc_str_of(s@) && bc_str_dec_of(v@) == Some(s@),
{
    bincode::serde::encode_to_vec(s, bincode::config::standard()).map_err(
        |_| StoreError::Backend,
    )
}

/// Relies on bincode::serde::decode_from_slice with the standard
/// configuration: the result depends on the bytes alone.
#[verifier::external_body]
fn bc_decode_str(b: &[u8]) -> (r: Result<String, StoreError>)
    ensures
        match r {
            Ok(s) => bc_str_dec_of(b@) == Some(s@),
            Err(e) => bc_str_dec_of(b@) is None && e is CorruptRecord,
        },
{
    match bincode::serde::decode_from_slice::<String, _>(b, bincode::config::standard()) {
        Ok((s, _)) => Ok(s),
        Err(_) => Err(StoreError::CorruptRecord),
    }
}

/// Relies on bincode::serde::encode_to_vec with the standard configuration,
/// and on decode_from_slice inverting it.
#[verifier::external_body]
fn bc_encode_pair(ts: i64, mid: &str) -> (r: Result<Vec<u8>, StoreError>)
    ensures
        r matches Ok(v) ==> v@ == bc_pair_of(ts, mid@) && bc_pair_dec_of(v@) == Some((ts, mid@)),
{
    bincode::serde::encode_to_vec(&(ts, mid), bincode::config::standard()).map_err(
        |_| StoreError::Backend,
    )
}

/// Relies on bincode::serde::decode_from_slice with the standard
/// configuration: the result depends on the bytes alone.
#[verifier::external_body]
fn bc_decode_pair(b: &[u8]) -> (r: Result<(i64, String), StoreError>)
    ensures
        match r {
            Ok(p) => bc_pair_dec_of(b@) == Some((p.0, p.1@)),
            Err(e) => bc_pair_dec_of(b@) is None && e is CorruptRecord,
        },
{
    match bincode::serde::decode_from_slice::<(i64, String), _>(b, bincode::config::standard()) {
        Ok((p, _)) => Ok(p),
        Err(_) => Err(StoreError::CorruptRecord),
    }
}

/// Relies on bincode::serde::encode_to_vec with the standard configuration,
/// and on decode_from_slice inverting it.
#[verifier::external_body]
fn bc_encode_hist(h: &Vec<(i64, String)>) -> (r: Result<Vec<u8>, StoreError>)
    ensures
        r matches Ok(v) ==> v@ == bc_hist_of(hist_view(h@)) && bc_hist_dec_of(v@) == Some(
            hist_view(h@),
        ),
{
    bincode::serde::encode_to_vec(h, bincode::config::standard()).map_err(
        |_| StoreError::Backend,
    )
}

/// Relies on bincode::serde::decode_from_slice with the standard
/// configuration: the result depends on the bytes alone.
#[verifier::external_body]
fn bc_decode_hist(b: &[u8]) -> (r: Result<Vec<(i64, String)>, StoreError>)
    ensures
        match r {
            Ok(h) => bc_hist_dec_of(b@) == Some(hist_view(h@)),
            Err(e) => bc_hist_dec_of(b@) is None && e is CorruptRecord,
        },
{
    match bincode::serde::decode_from_slice::<Vec<(i64, String)>, _>(
        b,
        bincode::config::standard(),
    ) {
        Ok((h, _)) => Ok(h),
        Err(_) => Err(StoreError::CorruptRecord),
    }
}

/// What `chrono::DateTime::parse_from_rfc3339` makes of the text, as epoch
/// milliseconds.
pub uninterp spec fn rfc_ms_of(s: Seq<char>) -> Option<i64>;

/// Relies on chrono::DateTime::parse_from_rfc3339 and timestamp_millis: the
/// result depends on the text alone.
#[verifier::external_body]
fn parse_rfc3339_ms(s: &str) -> (r: Option<i64>)
    ensures
        r == rfc_ms_of(s@),
{
    match chrono::DateTime::parse_from_rfc3339(s) {
        Ok(dt) => Some(dt.timestamp_millis()),
        Err(_) => None,
    }
}

/// The identity triple the indexes need of one participant.
pub struct PRefE {
    pub puuid: Option<String>,
    pub name: Option<String>,
    pub tag: Option<String>,
}

pub struct PRef {
    pub puuid: Option<Seq<char>>,
    pub name: Option<Seq<char>>,
    pub tag: Option<Seq<char>>,
}

impl View for PRefE {
    type V = PRef;

    open spec fn view(&self) -> PRef {
        PRef {
            puuid: match self.puuid {
                Some(s) => Some(s@),
                None => None,
            },
            name: match self.name {
                Some(s) => Some(s@),
                None => None,
            },
            tag: match self.tag {
                Some(s) => Some(s@),
                None => None,
            },
        }
    }
}

pub open spec fn pref_of(p: JsonModel) -> PRef {
    PRef {
        puuid: spec_get_str(p, "puuid"@),
        name: spec_get_str(p, "name"@),
        tag: spec_get_str(p, "tag"@),
    }
}

pub open spec fn prefs_of_arr(ms: Seq<JsonModel>) -> Seq<PRef> {
    ms.map_values(|p: JsonModel| pref_of(p))
}

pub open spec fn team_prefs(pv: JsonModel, key: Seq<char>) -> Seq<PRef> {
    match spec_get(pv, key) {
        Some(JsonModel::Arr(ms)) => prefs_of_arr(ms),
        _ => Seq::empty(),
    }
}

/// The participant identities under any of the three tolerated shapes: a
/// flat list, an `all` wrapper, or a red/blue split (red first).
pub open spec fn players_of(d: JsonModel) -> Seq<PRef> {
    match spec_get(d, "players"@) {
        Some(pv) => match pv {
            JsonModel::Arr(ms) => prefs_of_arr(ms),
            JsonModel::Obj(_) => match spec_get(pv, "all"@) {
                Some(JsonModel::Arr(ms)) => prefs_of_arr(ms),
                _ => team_prefs(pv, "red"@) + team_prefs(pv, "blue"@),
            },
            _ => Seq::empty(),
        },
        None => Seq::empty(),
    }
}

pub open spec fn meta_member(d: JsonModel, key: Seq<char>) -> Option<JsonModel> {
    match spec_get(d, "metadata"@) {
        Some(mm) => spec_get(mm, key),
        None => None,
    }
}

/// The write timestamp: the parsed `started_at`, then `game_start`, then the
/// match length, then the caller's clock. The chain guards ordering even for
/// malformed payloads.
pub open spec fn ts_of(d: JsonModel, now: i64) -> i64 {
    let parsed = match meta_member(d, "started_at"@) {
        Some(JsonModel::Str(s)) => rfc_ms_of(s),
        _ => None,
    };
    match parsed {
        Some(t) => t,
        None => match meta_member(d, "game_start"@) {
            Some(JsonModel::Int(i)) => i,
            _ => match meta_member(d, "game_length_in_ms"@) {
                Some(JsonModel::Int(i)) => i,
                _ => now,
            },
        },
    }
}

/// The payload under a `data` wrapper; records that already carry one, or
/// that look like nothing this store knows, pass through unchanged.
pub open spec fn wrapped_of(raw: JsonModel) -> JsonModel {
    if spec_get(raw, "data"@) is Some {
        raw
    } else if spec_get(raw, "metadata"@) is Some || spec_get(raw, "players"@) is Some {
        JsonModel::Obj(seq![("data"@, raw)])
    } else {
        raw
    }
}

pub open spec fn data_of(root: JsonModel) -> JsonModel {
    match spec_get(root, "data"@) {
        Some(d) => d,
        None => root,
    }
}

/// Where the store looks for the match id: `metadata.match_id`, then the
/// top-level member.
pub open spec fn upsert_mid_of(d: JsonModel) -> Option<Seq<char>> {
    match meta_member(d, "match_id"@) {
        Some(JsonModel::Str(s)) => Some(s),
        _ => spec_get_str(d, "match_id"@),
    }
}

/// A participant is indexed only when it carries a non-empty puuid, name and
/// tag; anything less is kept in the match blob but skipped here.
pub open spec fn valid_pref(p: PRef) -> bool {
    match (p.puuid, p.name, p.tag) {
        (Some(pu), Some(n), Some(t)) => pu.len() > 0 && n.len() > 0 && t.len() > 0,
        _ => false,
    }
}

pub open spec fn pref_key(p: PRef) -> Seq<char> {
    match (p.name, p.tag) {
        (Some(n), Some(t)) => lower_of(n) + "#"@ + lower_of(t),
        _ => Seq::empty(),
    }
}

pub open spec fn pref_puuid(p: PRef) -> Seq<char> {
    match p.puuid {
        Some(pu) => pu,
        None => Seq::empty(),
    }
}

/// A history already mentioning the match id.
pub open spec fn hist_has_mid(h: Seq<(i64, Seq<char>)>, mid: Seq<char>) -> bool {
    exists|i: int| 0 <= i < h.len() && #[trigger] h[i].1 == mid
}

/// A fresh entry is prepended and the history capped at its maximum length.
pub open spec fn new_hist(h: Seq<(i64, Seq<char>)>, ts: i64, mid: Seq<char>) -> Seq<
    (i64, Seq<char>),
> {
    let grown = seq![(ts, mid)] + h;
    if grown.len() > 1000 {
        grown.take(1000)
    } else {
        grown
    }
}

/// History bytes that decode back to the entries they were written from.
/// `upsert_match` guarantees this of every history it writes, so a later
/// call can decode and extend it.
pub open spec fn hist_cell_ok(b: Seq<u8>) -> bool {
    exists|h: Seq<(i64, Seq<char>)>| b == bc_hist_of(h) && bc_hist_dec_of(b) == Some(h)
}

/// The effect of one participant on the three secondary indexes. `None`
/// stands for an existing entry that does not decode.
pub open spec fn upsert_step(
    rv: Map<Seq<char>, Seq<u8>>,
    lv: Map<Seq<char>, Seq<u8>>,
    hv: Map<Seq<char>, Seq<u8>>,
    p: PRef,
    ts: i64,
    mid: Seq<char>,
) -> Option<(Map<Seq<char>, Seq<u8>>, Map<Seq<char>, Seq<u8>>, Map<Seq<char>, Seq<u8>>)> {
    if !valid_pref(p) {
        Some((rv, lv, hv))
    } else {
        let k = pref_key(p);
        let pu = pref_puuid(p);
        let rv2 = rv.insert(k, bc_str_of(pu));
        if lv.contains_key(k) && bc_pair_dec_of(lv[k]) is None {
            None
        } else {
            let lv2 = if lv.contains_key(k) {
                match bc_pair_dec_of(lv[k]) {
                    Some((t0, m0)) => if ts >= t0 {
                        lv.insert(k, bc_pair_of(ts, mid))
                    } else {
                        lv
                    },
                    None => lv,
                }
            } else {
                lv.insert(k, bc_pair_of(ts, mid))
            };
            let h0 = if hv.contains_key(pu) {
                bc_hist_dec_of(hv[pu])
            } else {
                Some(Seq::empty())
            };
            match h0 {
                None => None,
                Some(h) => {
                    let hv2 = if hist_has_mid(h, mid) {
                        hv
                    } else {
                        hv.insert(pu, bc_hist_of(new_hist(h, ts, mid)))
                    };
                    Some((rv2, lv2, hv2))
                },
            }
        }
    }
}

/// The effect of a whole participant list, in order.
pub open spec fn upsert_fold(
    rv: Map<Seq<char>, Seq<u8>>,
    lv: Map<Seq<char>, Seq<u8>>,
    hv: Map<Seq<char>, Seq<u8>>,
    ps: Seq<PRef>,
    ts: i64,
    mid: Seq<char>,
) -> Option<(Map<Seq<char>, Seq<u8>>, Map<Seq<char>, Seq<u8>>, Map<Seq<char>, Seq<u8>>)>
    decreases ps.len(),
{
    if ps.len() == 0 {
        Some((rv, lv, hv))
    } else {
        match upsert_step(rv, lv, hv, ps[0], ts, mid) {
            None => None,
            Some((a, b, c)) => upsert_fold(a, b, c, ps.drop_first(), ts, mid),
        }
    }
}

fn pref_from(p: &JsonVal) -> (r: PRefE)
    ensures
        r@ == pref_of(p@),
{
    PRefE {
        puuid: match get_str(p, "puuid") {
            Some(s) => Some(s.clone()),
            None => None,
        },
        name: match get_str(p, "name") {
            Some(s) => Some(s.clone()),
            None => None,
        },
        tag: match get_str(p, "tag") {
            Some(s) => Some(s.clone()),
            None => None,
        },
    }
}

pub open spec fn prefs_view(ps: Seq<PRefE>) -> Seq<PRef> {
    ps.map_values(|p: PRefE| p@)
}

#[verifier::loop_isolation(false)]
fn collect_from_arr(elems: &Vec<JsonVal>, out: &mut Vec<PRefE>)
    ensures
        prefs_view(final(out)@) == prefs_view(old(out)@) + prefs_of_arr(arr_view(elems@)),
{
    proof {
        lemma_arr_view(elems@);
    }
    let n = elems.len();
    let mut j: usize = 0;
    while j < n
        invariant
            j <= n,
            out@.len() == old(out)@.len() + j,
            forall|i: int| 0 <= i < old(out)@.len() ==> out@[i] == old(out)@[i],
            forall|i: int|
                0 <= i < j ==> #[trigger] out@[old(out)@.len() + i]@ == pref_of(arr_view(elems@)[i]),
        decreases n - j,
    {
        let p = pref_from(&elems[j]);
        out.push(p);
        j += 1;
    }
    proof {
        assert forall|k: int|
            0 <= k < out@.len() implies prefs_view(out@)[k] == (prefs_view(old(out)@)
            + prefs_of_arr(arr_view(elems@)))[k] by {
            if k < old(out)@.len() {
                assert(out@[k] == old(out)@[k]);
            } else {
                let i = k - old(out)@.len();
                assert(out@[old(out)@.len() + i]@ == pref_of(arr_view(elems@)[i]));
            }
        }
        assert(prefs_view(out@) =~= prefs_view(old(out)@) + prefs_of_arr(arr_view(elems@)));
    }
}

/// Gathers the participant identities under any of the three tolerated
/// shapes.
pub fn collect_players(d: &JsonVal) -> (r: Vec<PRefE>)
    ensures
        prefs_view(r@) == players_of(d@),
{
    let mut out: Vec<PRefE> = Vec::new();
    match obj_get(d, "players") {
        None => {},
        Some(pv) => match pv {
            JsonVal::Arr(elems) => {
                collect_from_arr(elems, &mut out);
            },
            JsonVal::Obj(_) => {
                match obj_get(pv, "all") {
                    Some(JsonVal::Arr(elems)) => {
                        collect_from_arr(elems, &mut out);
                    },
                    _ => {
                        match obj_get(pv, "red") {
                            Some(JsonVal::Arr(elems)) => {
                                collect_from_arr(elems, &mut out);
                            },
                            _ => {},
                        }
                        match obj_get(pv, "blue") {
                            Some(JsonVal::Arr(elems)) => {
                                collect_from_arr(elems, &mut out);
                            },
                            _ => {},
                        }
                        proof {
                            assert(prefs_view(out@) =~= team_prefs(pv@, "red"@) + team_prefs(
                                pv@,
                                "blue"@,
                            ));
                        }
                    },
                }
            },
            _ => {},
        },
    }
    proof {
        assert(prefs_view(out@) =~= players_of(d@));
    }
    out
}

/// Picks the write timestamp along the defensive fallback chain.
pub fn extract_ts_ms(d: &JsonVal, now_ms: i64) -> (r: i64)
    ensures
        r == ts_of(d@, now_ms),
{
    let null_v = JsonVal::Null;
    let mm = match obj_get(d, "metadata") {
        Some(x) => x,
        None => &null_v,
    };
    match get_str(mm, "started_at") {
        Some(s) => match parse_rfc3339_ms(s.as_str()) {
            Some(t) => {
                return t;
            },
            None => {},
        },
        None => {},
    }
    match obj_get(mm, "game_start") {
        Some(JsonVal::Int(i)) => {
            return *i;
        },
        _ => {},
    }
    match obj_get(mm, "game_length_in_ms") {
        Some(JsonVal::Int(i)) => {
            return *i;
        },
        _ => {},
    }
    now_ms
}

/// Puts a bare record under the `data` wrapper the blobs are stored in.
pub fn normalize_to_wrapped(raw: JsonVal) -> (r: JsonVal)
    ensures
        r@ == wrapped_of(raw@),
{
    let has_data = match obj_get(&raw, "data") {
        Some(_) => true,
        None => false,
    };
    if has_data {
        raw
    } else {
        let has_meta = match obj_get(&raw, "metadata") {
            Some(_) => true,
            None => false,
        };
        let has_players = match obj_get(&raw, "players") {
            Some(_) => true,
            None => false,
        };
        if has_meta || has_players {
            let mut fields: Vec<(String, JsonVal)> = Vec::new();
            fields.push(("data".to_owned(), raw));
            proof {
                crate::json::lemma_fields_view(fields@);
                assert(crate::json::fields_view(fields@) =~= seq![("data"@, fields@[0].1@)]);
            }
            JsonVal::Obj(fields)
        } else {
            raw
        }
    }
}

/// The storage partition key. Two distinct Scopes are fully isolated stores.
pub struct Scope {
    pub guild_id: String,
    pub platform: String,
    pub region: String,
    pub mode: String,
    pub mode_type: Option<String>,
}

pub struct ScopeV {
    pub guild_id: Seq<char>,
    pub platform: Seq<char>,
    pub region: Seq<char>,
    pub mode: Seq<char>,
    pub mode_type: Option<Seq<char>>,
}

impl View for Scope {
    type V = ScopeV;

    open spec fn view(&self) -> ScopeV {
        ScopeV {
            guild_id: self.guild_id@,
            platform: self.platform@,
            region: self.region@,
            mode: self.mode@,
            mode_type: match self.mode_type {
                Some(s) => Some(s@),
                None => None,
            },
        }
    }
}

/// The directory a Scope's store lives in, under a base directory.
pub open spec fn path_of(base: Seq<char>, s: ScopeV) -> Seq<char> {
    base + "/"@ + s.guild_id + "/"@ + s.platform + "/"@ + s.region + "/"@ + s.mode + (
    match s.mode_type {
        Some(mt) => "/"@ + mt,
        None => Seq::empty(),
    }) + "/db"@
}

/// Builds the storage directory for a Scope under the given base.
pub fn storage_path(base: &str, scope: &Scope) -> (r: String)
    ensures
        r@ == path_of(base@, scope@),
{
    let mut p = base.to_owned();
    p.append("/");
    p.append(scope.guild_id.as_str());
    p.append("/");
    p.append(scope.platform.as_str());
    p.append("/");
    p.append(scope.region.as_str());
    p.append("/");
    p.append(scope.mode.as_str());
    match &scope.mode_type {
        Some(mt) => {
            p.append("/");
            p.append(mt.as_str());
        },
        None => {},
    }
    p.append("/db");
    proof {
        assert(p@ =~= path_of(base@, scope@));
    }
    p
}

/// The store's contents, one map per index.
pub struct StoreView {
    pub matches: Map<Seq<char>, Seq<u8>>,
    pub by_puuid: Map<Seq<char>, Seq<u8>>,
    pub riot_to_puuid: Map<Seq<char>, Seq<u8>>,
    pub latest_by_player: Map<Seq<char>, Seq<u8>>,
}

pub struct MatchStore {
    db: sled::Db,
    matches: sled::Tree,
    by_puuid: sled::Tree,
    riot_to_puuid: sled::Tree,
    latest_by_player: sled::Tree,
}

impl View for MatchStore {
    type V = StoreView;

    closed spec fn view(&self) -> StoreView {
        StoreView {
            matches: tree_view(self.matches),
            by_puuid: tree_view(self.by_puuid),
            riot_to_puuid: tree_view(self.riot_to_puuid),
            latest_by_player: tree_view(self.latest_by_player),
        }
    }
}

/// The index key a riot identifier is looked up under.
pub open spec fn riot_key_of(rid: Seq<char>) -> Seq<char> {
    lower_of(trim_of(rid))
}

impl MatchStore {
    /// Opens (creating if absent) the store for one Scope under the default
    /// storage root. What the trees hold afterwards is whatever the
    /// directory held.
    pub fn open(scope: &Scope) -> (r: Result<MatchStore, StoreError>) {
        MatchStore::open_at("matches", scope)
    }

    /// Opens the store for one Scope under an explicit base directory.
    pub fn open_at(base: &str, scope: &Scope) -> (r: Result<MatchStore, StoreError>) {
        let path = storage_path(base, scope);
        let db = match sled_open(path.as_str()) {
            Ok(d) => d,
            Err(e) => {
                return Err(e);
            },
        };
        let matches = match open_tree(&db, "matches") {
            Ok(t) => t,
            Err(e) => {
                return Err(e);
            },
        };
        let by_puuid = match open_tree(&db, "by_puuid") {
            Ok(t) => t,
            Err(e) => {
                return Err(e);
            },
        };
        let riot_to_puuid = match open_tree(&db, "riot_to_puuid") {
            Ok(t) => t,
            Err(e) => {
                return Err(e);
            },
        };
        let latest_by_player = match open_tree(&db, "latest_by_player") {
            Ok(t) => t,
            Err(e) => {
                return Err(e);
            },
        };
        Ok(MatchStore { db, matches, by_puuid, riot_to_puuid, latest_by_player })
    }

    /// Looks up the stable player id recorded for a riot identifier. The
    /// lookup itself is read-only; a `CorruptRecord` error names exactly a
    /// stored mapping that does not decode.
    pub fn get_puuid_for_riot(&self, riot_id: &str) -> (r: Result<Option<String>, StoreError>)
        ensures
            match r {
                Ok(Some(p)) => self@.riot_to_puuid.contains_key(riot_key_of(riot_id@))
                    && bc_str_dec_of(self@.riot_to_puuid[riot_key_of(riot_id@)]) == Some(p@),
                Ok(None) => !self@.riot_to_puuid.contains_key(riot_key_of(riot_id@)),
                Err(e) => !(e is MissingMatchId) && (e is CorruptRecord
                    ==> self@.riot_to_puuid.contains_key(riot_key_of(riot_id@)) && bc_str_dec_of(
                    self@.riot_to_puuid[riot_key_of(riot_id@)],
                ) is None),
            },
    {
        let t = trim(riot_id);
        let key = lower(t.as_str());
        match tree_get(&self.riot_to_puuid, key.as_str()) {
            Err(e) => Err(e),
            Ok(None) => Ok(None),
            Ok(Some(bytes)) => match bc_decode_str(bytes.as_slice()) {
                Ok(p) => Ok(Some(p)),
                Err(e) => Err(e),
            },
        }
    }

    /// The newest stored match for a riot identifier: one index lookup plus
    /// one blob decode. A `CorruptRecord` error names exactly a stored
    /// pointer or blob that does not decode.
    pub fn get_latest_for_player(&self, riot_id: &str) -> (r: Result<Option<JsonVal>, StoreError>)
        ensures
            match r {
                Ok(Some(v)) => {
                    let k = riot_key_of(riot_id@);
                    &&& self@.latest_by_player.contains_key(k)
                    &&& bc_pair_dec_of(self@.latest_by_player[k]) matches Some((t, mid))
                        && self@.matches.contains_key(mid) && blob_dec(self@.matches[mid]) == Some(
                        v@,
                    )
                },
                Ok(None) => {
                    let k = riot_key_of(riot_id@);
                    ||| !self@.latest_by_player.contains_key(k)
                    ||| (bc_pair_dec_of(self@.latest_by_player[k]) matches Some((t, mid))
                        && !self@.matches.contains_key(mid))
                },
                Err(e) => {
                    let k = riot_key_of(riot_id@);
                    &&& !(e is MissingMatchId)
                    &&& (e is CorruptRecord ==> self@.latest_by_player.contains_key(k) && ({
                        ||| bc_pair_dec_of(self@.latest_by_player[k]) is None
                        ||| (bc_pair_dec_of(self@.latest_by_player[k]) matches Some((t, mid))
                            && self@.matches.contains_key(mid) && blob_dec(
                            self@.matches[mid],
                        ) is None)
                    }))
                },
            },
    {
        let t = trim(riot_id);
        let key = lower(t.as_str());
        match tree_get(&self.latest_by_player, key.as_str()) {
            Err(e) => Err(e),
            Ok(None) => Ok(None),
            Ok(Some(bytes)) => match bc_decode_pair(bytes.as_slice()) {
                Err(e) => Err(e),
                Ok(pair) => match tree_get(&self.matches, pair.1.as_str()) {
                    Err(e) => Err(e),
                    Ok(None) => Ok(None),
                    Ok(Some(blob)) => match decode_blob(blob.as_slice()) {
                        Ok(v) => Ok(Some(v)),
                        Err(e) => Err(e),
                    },
                },
            },
        }
    }
}

/// What a page over a history slice yields: stored blobs decoded in order,
/// entries whose match id is gone silently skipped, an undecodable blob
/// failing the whole page.
pub open spec fn page_of(h: Seq<(i64, Seq<char>)>, mv: Map<Seq<char>, Seq<u8>>) -> Option<
    Seq<JsonModel>,
>
    decreases h.len(),
{
    if h.len() == 0 {
        Some(Seq::empty())
    } else {
        let mid = h[0].1;
        if !mv.contains_key(mid) {
            page_of(h.drop_first(), mv)
        } else {
            match blob_dec(mv[mid]) {
                None => None,
                Some(m) => match page_of(h.drop_first(), mv) {
                    None => None,
                    Some(rest) => Some(seq![m] + rest),
                },
            }
        }
    }
}

spec fn page_prepend(pre: Seq<JsonModel>, r: Option<Seq<JsonModel>>) -> Option<Seq<JsonModel>> {
    match r {
        None => None,
        Some(ms) => Some(pre + ms),
    }
}

/// The slice of the history a page call covers.
pub open spec fn page_slice(h: Seq<(i64, Seq<char>)>, start: int, size: int) -> Seq<
    (i64, Seq<char>),
> {
    if start >= h.len() {
        Seq::empty()
    } else if start + size >= h.len() {
        h.subrange(start, h.len() as int)
    } else {
        h.subrange(start, start + size)
    }
}

impl MatchStore {
    /// Slices the per-player history newest-first and decodes each stored
    /// match; an offset past the end yields an empty page, never an error.
    /// A `CorruptRecord` error names exactly a stored history or blob that
    /// does not decode.
    #[verifier::loop_isolation(false)]
    #[verifier::rlimit(40)]
    #[verifier::spinoff_prover]
    pub fn get_page_by_puuid(&self, puuid: &str, start: usize, size: usize) -> (r: Result<
        Vec<JsonVal>,
        StoreError,
    >)
        ensures
            match r {
                Ok(out) => {
                    &&& (!self@.by_puuid.contains_key(puuid@) ==> out@.len() == 0)
                    &&& (self@.by_puuid.contains_key(puuid@) ==> (bc_hist_dec_of(
                        self@.by_puuid[puuid@],
                    ) matches Some(h) && page_of(
                        page_slice(h, start as int, size as int),
                        self@.matches,
                    ) == Some(arr_view(out@))))
                },
                Err(e) => {
                    &&& !(e is MissingMatchId)
                    &&& (e is CorruptRecord ==> self@.by_puuid.contains_key(puuid@) && ({
                        ||| bc_hist_dec_of(self@.by_puuid[puuid@]) is None
                        ||| (bc_hist_dec_of(self@.by_puuid[puuid@]) matches Some(h) && page_of(
                            page_slice(h, start as int, size as int),
                            self@.matches,
                        ) is None)
                    }))
                },
            },
    {
        let mut out: Vec<JsonVal> = Vec::new();
        let hist: Vec<(i64, String)> = match tree_get(&self.by_puuid, puuid) {
            Err(e) => {
                return Err(e);
            },
            Ok(None) => {
                proof {
                    lemma_arr_view(out@);
                }
                return Ok(out);
            },
            Ok(Some(bytes)) => match bc_decode_hist(bytes.as_slice()) {
                Err(e) => {
                    return Err(e);
                },
                Ok(h) => h,
            },
        };
        let ghost hview = hist_view(hist@);
        let len = hist.len();
        if start >= len {
            proof {
                lemma_arr_view(out@);
                assert(page_slice(hview, start as int, size as int) =~= Seq::<
                    (i64, Seq<char>),
                >::empty());
            }
            return Ok(out);
        }
        let end = if size > len - start {
            len
        } else {
            start + size
        };
        let ghost slice = page_slice(hview, start as int, size as int);
        proof {
            assert(slice =~= hview.subrange(start as int, end as int));
            assert(slice.skip(0) =~= slice);
            lemma_arr_view(out@);
            assert(arr_view(out@) =~= Seq::<JsonModel>::empty());
        }
        let mut i: usize = start;
        while i < end
            invariant
                start <= i <= end,
                page_of(slice, self@.matches) == page_prepend(
                    arr_view(out@),
                    page_of(slice.skip(i - start), self@.matches),
                ),
            decreases end - i,
        {
            proof {
                assert(slice.skip(i - start)[0] == hview[i as int]);
                assert(hview[i as int] == (hist@[i as int].0, hist@[i as int].1@));
                assert(slice.skip(i - start).drop_first() =~= slice.skip(i + 1 - start));
            }
            let mid: &String = &hist[i].1;
            match tree_get(&self.matches, mid.as_str()) {
                Err(e) => {
                    return Err(e);
                },
                Ok(None) => {},
                Ok(Some(blob)) => match decode_blob(blob.as_slice()) {
                    Err(e) => {
                        proof {
                            assert(page_of(slice.skip(i - start), self@.matches) is None);
                        }
                        return Err(e);
                    },
                    Ok(v) => {
                        proof {
                            crate::json::lemma_arr_view_push(out@, v);
                            assert forall|rr: Option<Seq<JsonModel>>|
                                page_prepend(arr_view(out@), page_prepend(seq![v@], rr))
                                    == page_prepend(arr_view(out@) + seq![v@], rr) by {
                                match rr {
                                    None => {},
                                    Some(ms) => {
                                        assert(arr_view(out@) + (seq![v@] + ms) =~= (arr_view(out@)
                                            + seq![v@]) + ms);
                                    },
                                }
                            }
                        }
                        out.push(v);
                    },
                },
            }
            i += 1;
        }
        proof {
            assert(slice.skip(end - start) =~= Seq::<(i64, Seq<char>)>::empty());
            assert(arr_view(out@) + Seq::<JsonModel>::empty() =~= arr_view(out@));
        }
        Ok(out)
    }

    /// Normalizes a raw payload, stores its compressed blob under the match
    /// id, then updates the three secondary indexes for every participant
    /// that carries a non-empty puuid, name and tag, and flushes.
    ///
    /// On success the blob index holds exactly the new record and the
    /// secondary indexes are the fold of the participant list over their old
    /// contents. A payload without a locatable match id is rejected before
    /// anything is written.
    ///
    /// The atomicity unit is one tree write: on a `Backend` or
    /// `CorruptRecord` error raised mid-way, the blob write and the index
    /// writes of the participants already processed remain in place, each
    /// one complete in itself; nothing is rolled back.
    #[verifier::loop_isolation(false)]
    #[verifier::rlimit(60)]
    #[verifier::spinoff_prover]
    pub fn upsert_match(&mut self, raw: JsonVal, now_ms: i64) -> (r: Result<(), StoreError>)
        ensures
            (upsert_mid_of(data_of(wrapped_of(raw@))) is None <==> r matches Err(
                StoreError::MissingMatchId,
            )),
            r matches Err(StoreError::MissingMatchId) ==> final(self)@ == old(self)@,
            r is Ok ==> ({
                let root = wrapped_of(raw@);
                let d = data_of(root);
                let ts = ts_of(d, now_ms);
                &&& upsert_mid_of(d) matches Some(mid) && {
                    &&& final(self)@.matches == old(self)@.matches.insert(mid, blob_of(root))
                    &&& bounded(root) && blob_dec(blob_of(root)) == Some(root)
                    &&& upsert_fold(
                        old(self)@.riot_to_puuid,
                        old(self)@.latest_by_player,
                        old(self)@.by_puuid,
                        players_of(d),
                        ts,
                        mid,
                    ) == Some(
                        (
                            final(self)@.riot_to_puuid,
                            final(self)@.latest_by_player,
                            final(self)@.by_puuid,
                        ),
                    )
                    &&& forall|i: int|
                        0 <= i < players_of(d).len() && valid_pref(#[trigger] players_of(d)[i])
                            ==> bc_str_dec_of(bc_str_of(pref_puuid(players_of(d)[i]))) == Some(
                            pref_puuid(players_of(d)[i]),
                        )
                    &&& ((exists|i: int|
                        0 <= i < players_of(d).len() && valid_pref(
                            #[trigger] players_of(d)[i],
                        )) ==> bc_pair_dec_of(bc_pair_of(ts, mid)) == Some((ts, mid)))
                    &&& forall|pu: Seq<char>|
                        final(self)@.by_puuid.contains_key(pu) && (!old(
                            self,
                        )@.by_puuid.contains_key(pu) || final(self)@.by_puuid[pu] != old(
                            self,
                        )@.by_puuid[pu]) ==> hist_cell_ok(#[trigger] final(self)@.by_puuid[pu])
                }
            }),
            (upsert_fold(
                old(self)@.riot_to_puuid,
                old(self)@.latest_by_player,
                old(self)@.by_puuid,
                players_of(data_of(wrapped_of(raw@))),
                ts_of(data_of(wrapped_of(raw@)), now_ms),
                match upsert_mid_of(data_of(wrapped_of(raw@))) {
                    Some(mid) => mid,
                    None => Seq::empty(),
                },
            ) is None) ==> r is Err,
    {
        let root = normalize_to_wrapped(raw);
        let d: &JsonVal = match obj_get(&root, "data") {
            Some(x) => x,
            None => &root,
        };
        proof {
            assert(d@ == data_of(wrapped_of(raw@)));
        }
        let mid: String = {
            let null_v = JsonVal::Null;
            let mm = match obj_get(d, "metadata") {
                Some(x) => x,
                None => &null_v,
            };
            match get_str(mm, "match_id") {
                Some(s) => s.clone(),
                None => match get_str(d, "match_id") {
                    Some(s) => s.clone(),
                    None => {
                        return Err(StoreError::MissingMatchId);
                    },
                },
            }
        };
        let ts = extract_ts_ms(d, now_ms);
        let players = collect_players(d);
        let ghost ps = players_of(d@);
        let blob = match encode_blob(&root) {
            Ok(b) => b,
            Err(_) => {
                return Err(StoreError::Backend);
            },
        };
        match tree_insert(&mut self.matches, mid.as_str(), blob.as_slice()) {
            Ok(_) => {},
            Err(_) => {
                return Err(StoreError::Backend);
            },
        }
        let ghost rv0 = tree_view(self.riot_to_puuid);
        let ghost lv0 = tree_view(self.latest_by_player);
        let ghost hv0 = tree_view(self.by_puuid);
        let n = players.len();
        let mut i: usize = 0;
        proof {
            assert(prefs_view(players@).skip(0) =~= prefs_view(players@));
        }
        while i < n
            invariant
                i <= n,
                n == players@.len(),
                ps == prefs_view(players@),
                ps.len() == n,
                tree_view(self.matches) == old(self)@.matches.insert(mid@, blob@),
                upsert_fold(rv0, lv0, hv0, ps, ts, mid@) == upsert_fold(
                    tree_view(self.riot_to_puuid),
                    tree_view(self.latest_by_player),
                    tree_view(self.by_puuid),
                    ps.skip(i as int),
                    ts,
                    mid@,
                ),
                forall|j: int|
                    0 <= j < i && valid_pref(#[trigger] ps[j]) ==> bc_str_dec_of(
                        bc_str_of(pref_puuid(ps[j])),
                    ) == Some(pref_puuid(ps[j])),
                (exists|j: int| 0 <= j < i && valid_pref(#[trigger] ps[j])) ==> bc_pair_dec_of(
                    bc_pair_of(ts, mid@),
                ) == Some((ts, mid@)),
                forall|pu: Seq<char>|
                    tree_view(self.by_puuid).contains_key(pu) && (!hv0.contains_key(pu)
                        || tree_view(self.by_puuid)[pu] != hv0[pu]) ==> hist_cell_ok(
                        #[trigger] tree_view(self.by_puuid)[pu],
                    ),
            decreases n - i,
        {
            proof {
                assert(ps.skip(i as int)[0] == ps[i as int]);
                assert(ps[i as int] == players@[i as int]@);
                assert(ps.skip(i as int).drop_first() =~= ps.skip(i as int + 1));
            }
            let pr = &players[i];
            let valid = match (&pr.puuid, &pr.name, &pr.tag) {
                (Some(pu), Some(nm), Some(tg)) => !pu.as_str().is_empty()
                    && !nm.as_str().is_empty() && !tg.as_str().is_empty(),
                _ => false,
            };
            if valid {
                let pu: &String = match &pr.puuid {
                    Some(x) => x,
                    None => {
                        proof {
                            assert(false);
                        }
                        return Err(StoreError::Backend);
                    },
                };
                let nm: &String = match &pr.name {
                    Some(x) => x,
                    None => {
                        proof {
                            assert(false);
                        }
                        return Err(StoreError::Backend);
                    },
                };
                let tg: &String = match &pr.tag {
                    Some(x) => x,
                    None => {
                        proof {
                            assert(false);
                        }
                        return Err(StoreError::Backend);
                    },
                };
                let mut key = lower(nm.as_str());
                key.append("#");
                let tg_l = lower(tg.as_str());
                key.append(tg_l.as_str());
                proof {
                    assert(key@ =~= pref_key(ps[i as int]));
                }
                let enc_pu = match bc_encode_str(pu.as_str()) {
                    Ok(v) => v,
                    Err(_) => {
                        return Err(StoreError::Backend);
                    },
                };
                match tree_insert(&mut self.riot_to_puuid, key.as_str(), enc_pu.as_slice()) {
                    Ok(_) => {},
                    Err(_) => {
                        return Err(StoreError::Backend);
                    },
                }
                let enc_pair = match bc_encode_pair(ts, mid.as_str()) {
                    Ok(v) => v,
                    Err(_) => {
                        return Err(StoreError::Backend);
                    },
                };
                let write_latest = match tree_get(&self.latest_by_player, key.as_str()) {
                    Err(_) => {
                        return Err(StoreError::Backend);
                    },
                    Ok(None) => true,
                    Ok(Some(prev)) => match bc_decode_pair(prev.as_slice()) {
                        Err(_) => {
                            return Err(StoreError::CorruptRecord);
                        },
                        Ok(p0) => ts >= p0.0,
                    },
                };
                if write_latest {
                    match tree_insert(
                        &mut self.latest_by_player,
                        key.as_str(),
                        enc_pair.as_slice(),
                    ) {
                        Ok(_) => {},
                        Err(_) => {
                            return Err(StoreError::Backend);
                        },
                    }
                }
                let mut hist: Vec<(i64, String)> = match tree_get(&self.by_puuid, pu.as_str()) {
                    Err(_) => {
                        return Err(StoreError::Backend);
                    },
                    Ok(None) => Vec::new(),
                    Ok(Some(bytes)) => match bc_decode_hist(bytes.as_slice()) {
                        Err(_) => {
                            return Err(StoreError::CorruptRecord);
                        },
                        Ok(h) => h,
                    },
                };
                let mut dup = false;
                let hn = hist.len();
                let mut j: usize = 0;
                while j < hn
                    invariant
                        j <= hn,
                        hn == hist@.len(),
                        dup == exists|x: int|
                            0 <= x < j && #[trigger] hist_view(hist@)[x].1 == mid@,
                    decreases hn - j,
                {
                    if crate::json::str_eq(hist[j].1.as_str(), mid.as_str()) {
                        proof {
                            assert(hist_view(hist@)[j as int].1 == mid@);
                        }
                        dup = true;
                    }
                    j += 1;
                }
                proof {
                    assert(dup == hist_has_mid(hist_view(hist@), mid@));
                }
                if !dup {
                    let ghost h_before = hist_view(hist@);
                    hist.insert(0, (ts, mid.clone()));
                    proof {
                        assert(hist_view(hist@) =~= seq![(ts, mid@)] + h_before);
                    }
                    if hist.len() > 1000 {
                        hist.truncate(1000);
                        proof {
                            assert(hist_view(hist@) =~= (seq![(ts, mid@)] + h_before).take(1000));
                        }
                    }
                    proof {
                        assert(hist_view(hist@) =~= new_hist(h_before, ts, mid@));
                    }
                    let enc_h = match bc_encode_hist(&hist) {
                        Ok(v) => v,
                        Err(_) => {
                            return Err(StoreError::Backend);
                        },
                    };
                    let ghost hv_before = tree_view(self.by_puuid);
                    match tree_insert(&mut self.by_puuid, pu.as_str(), enc_h.as_slice()) {
                        Ok(_) => {},
                        Err(_) => {
                            return Err(StoreError::Backend);
                        },
                    }
                    proof {
                        assert(bc_hist_dec_of(enc_h@) == Some(hist_view(hist@)));
                        assert(hist_cell_ok(enc_h@));
                        assert forall|pu2: Seq<char>|
                            tree_view(self.by_puuid).contains_key(pu2) && (!hv0.contains_key(pu2)
                                || tree_view(self.by_puuid)[pu2] != hv0[pu2]) implies hist_cell_ok(
                            #[trigger] tree_view(self.by_puuid)[pu2],
                        ) by {
                            if pu2 == pu@ {
                                assert(tree_view(self.by_puuid)[pu2] == enc_h@);
                            } else {
                                assert(tree_view(self.by_puuid)[pu2] == hv_before[pu2]);
                                assert(hv_before.contains_key(pu2) && (!hv0.contains_key(pu2)
                                    || hv_before[pu2] != hv0[pu2]));
                                assert(hist_cell_ok(hv_before[pu2]));
                            }
                        }
                    }
                }
            }
            i += 1;
        }
        proof {
            assert(ps.skip(n as int) =~= Seq::<PRef>::empty());
        }
        match db_flush(&self.db) {
            Ok(_) => {},
            Err(_) => {
                return Err(StoreError::Backend);
            },
        }
        Ok(())
    }
}

/// Participants that are skipped leave a key untouched: a riot key or
/// player id that no valid participant carries is bound exactly as before,
/// in all three secondary indexes. In particular a participant with an
/// empty puuid, name or tag adds nothing to any index.
pub proof fn lemma_upsert_untouched(
    rv: Map<Seq<char>, Seq<u8>>,
    lv: Map<Seq<char>, Seq<u8>>,
    hv: Map<Seq<char>, Seq<u8>>,
    ps: Seq<PRef>,
    ts: i64,
    mid: Seq<char>,
    k: Seq<char>,
    pu: Seq<char>,
)
    requires
        forall|i: int|
            0 <= i < ps.len() && valid_pref(#[trigger] ps[i]) ==> pref_key(ps[i]) != k
                && pref_puuid(ps[i]) != pu,
        upsert_fold(rv, lv, hv, ps, ts, mid) is Some,
    ensures
        ({
            let st = upsert_fold(rv, lv, hv, ps, ts, mid)->Some_0;
            &&& st.0.contains_key(k) == rv.contains_key(k)
            &&& (rv.contains_key(k) ==> st.0[k] == rv[k])
            &&& st.1.contains_key(k) == lv.contains_key(k)
            &&& (lv.contains_key(k) ==> st.1[k] == lv[k])
            &&& st.2.contains_key(pu) == hv.contains_key(pu)
            &&& (hv.contains_key(pu) ==> st.2[pu] == hv[pu])
        }),
    decreases ps.len(),
{
    if ps.len() > 0 {
        let step = upsert_step(rv, lv, hv, ps[0], ts, mid);
        let (a, b, c) = step->Some_0;
        assert(valid_pref(ps[0]) ==> pref_key(ps[0]) != k && pref_puuid(ps[0]) != pu);
        assert(forall|i: int|
            0 <= i < ps.drop_first().len() && valid_pref(#[trigger] ps.drop_first()[i])
                ==> pref_key(ps.drop_first()[i]) != k && pref_puuid(ps.drop_first()[i]) != pu);
        lemma_upsert_untouched(a, b, c, ps.drop_first(), ts, mid, k, pu);
    }
}

/// Index consistency for the riot mapping: after the fold, the riot key of
/// a valid participant is bound to the puuid of the last valid participant
/// carrying that key.
pub proof fn lemma_upsert_riot_index(
    rv: Map<Seq<char>, Seq<u8>>,
    lv: Map<Seq<char>, Seq<u8>>,
    hv: Map<Seq<char>, Seq<u8>>,
    ps: Seq<PRef>,
    ts: i64,
    mid: Seq<char>,
    i: int,
)
    requires
        upsert_fold(rv, lv, hv, ps, ts, mid) is Some,
        0 <= i < ps.len(),
        valid_pref(ps[i]),
        forall|j: int|
            i < j < ps.len() && valid_pref(#[trigger] ps[j]) ==> pref_key(ps[j]) != pref_key(
                ps[i],
            ),
    ensures
        ({
            let st = upsert_fold(rv, lv, hv, ps, ts, mid)->Some_0;
            &&& st.0.contains_key(pref_key(ps[i]))
            &&& st.0[pref_key(ps[i])] == bc_str_of(pref_puuid(ps[i]))
        }),
    decreases ps.len(),
{
    let step = upsert_step(rv, lv, hv, ps[0], ts, mid);
    let (a, b, c) = step->Some_0;
    if i == 0 {
        assert(a.contains_key(pref_key(ps[0])) && a[pref_key(ps[0])] == bc_str_of(
            pref_puuid(ps[0]),
        ));
        assert(forall|j: int|
            0 <= j < ps.drop_first().len() && valid_pref(#[trigger] ps.drop_first()[j])
                ==> pref_key(ps.drop_first()[j]) != pref_key(ps[0]));
        lemma_upsert_riot_untouched(a, b, c, ps.drop_first(), ts, mid, pref_key(ps[0]));
    } else {
        assert(ps.drop_first()[i - 1] == ps[i]);
        assert(forall|j: int|
            i - 1 < j < ps.drop_first().len() && valid_pref(#[trigger] ps.drop_first()[j])
                ==> pref_key(ps.drop_first()[j]) != pref_key(ps.drop_first()[i - 1]));
        lemma_upsert_riot_index(a, b, c, ps.drop_first(), ts, mid, i - 1);
    }
}

proof fn lemma_upsert_riot_untouched(
    rv: Map<Seq<char>, Seq<u8>>,
    lv: Map<Seq<char>, Seq<u8>>,
    hv: Map<Seq<char>, Seq<u8>>,
    ps: Seq<PRef>,
    ts: i64,
    mid: Seq<char>,
    k: Seq<char>,
)
    requires
        upsert_fold(rv, lv, hv, ps, ts, mid) is Some,
        forall|i: int|
            0 <= i < ps.len() && valid_pref(#[trigger] ps[i]) ==> pref_key(ps[i]) != k,
    ensures
        ({
            let st = upsert_fold(rv, lv, hv, ps, ts, mid)->Some_0;
            &&& st.0.contains_key(k) == rv.contains_key(k)
            &&& (rv.contains_key(k) ==> st.0[k] == rv[k])
        }),
    decreases ps.len(),
{
    if ps.len() > 0 {
        let step = upsert_step(rv, lv, hv, ps[0], ts, mid);
        let (a, b, c) = step->Some_0;
        assert(forall|i: int|
            0 <= i < ps.drop_first().len() && valid_pref(#[trigger] ps.drop_first()[i])
                ==> pref_key(ps.drop_first()[i]) != k);
        lemma_upsert_riot_untouched(a, b, c, ps.drop_first(), ts, mid, k);
    }
}

/// Freshness ordering: a latest-match entry is only ever replaced by one
/// whose timestamp is at least as new. The hypothesis on the pair codec is
/// discharged by `upsert_match`'s contract.
pub proof fn lemma_upsert_latest_monotone(
    rv: Map<Seq<char>, Seq<u8>>,
    lv: Map<Seq<char>, Seq<u8>>,
    hv: Map<Seq<char>, Seq<u8>>,
    ps: Seq<PRef>,
    ts: i64,
    mid: Seq<char>,
    k: Seq<char>,
    t0: i64,
)
    requires
        upsert_fold(rv, lv, hv, ps, ts, mid) is Some,
        bc_pair_dec_of(bc_pair_of(ts, mid)) == Some((ts, mid)),
        lv.contains_key(k),
        bc_pair_dec_of(lv[k]) matches Some((t, m)) && t == t0,
    ensures
        ({
            let st = upsert_fold(rv, lv, hv, ps, ts, mid)->Some_0;
            &&& st.1.contains_key(k)
            &&& bc_pair_dec_of(st.1[k]) matches Some((t1, m1)) && t1 >= t0
        }),
    decreases ps.len(),
{
    if ps.len() > 0 {
        let step = upsert_step(rv, lv, hv, ps[0], ts, mid);
        let (a, b, c) = step->Some_0;
        if valid_pref(ps[0]) && pref_key(ps[0]) == k {
            match bc_pair_dec_of(lv[k]) {
                Some((t, m)) => {
                    if ts >= t {
                        assert(b[k] == bc_pair_of(ts, mid));
                        lemma_upsert_latest_monotone(a, b, c, ps.drop_first(), ts, mid, k, ts);
                    } else {
                        lemma_upsert_latest_monotone(a, b, c, ps.drop_first(), ts, mid, k, t0);
                    }
                },
                None => {
                    assert(false);
                },
            }
        } else {
            lemma_upsert_latest_monotone(a, b, c, ps.drop_first(), ts, mid, k, t0);
        }
    }
}

/// History deduplication: a participant whose history already mentions the
/// match id leaves that history exactly as it was, so storing the same
/// match twice does not grow it.
pub proof fn lemma_step_hist_dedup(
    rv: Map<Seq<char>, Seq<u8>>,
    lv: Map<Seq<char>, Seq<u8>>,
    hv: Map<Seq<char>, Seq<u8>>,
    p: PRef,
    ts: i64,
    mid: Seq<char>,
)
    requires
        valid_pref(p),
        hv.contains_key(pref_puuid(p)),
        bc_hist_dec_of(hv[pref_puuid(p)]) matches Some(h) && hist_has_mid(h, mid),
        upsert_step(rv, lv, hv, p, ts, mid) is Some,
    ensures
        ({
            let st = upsert_step(rv, lv, hv, p, ts, mid)->Some_0;
            st.2 == hv
        }),
{
}

/// History growth across calls: a participant whose stored history decodes
/// (as `upsert_match` guarantees of every history it writes) and does not
/// yet mention the match id gets exactly the capped, newest-first extension
/// written. With `lemma_new_hist_props` this chains the cap and dedup laws
/// over any sequence of stores.
pub proof fn lemma_step_hist_fresh(
    rv: Map<Seq<char>, Seq<u8>>,
    lv: Map<Seq<char>, Seq<u8>>,
    hv: Map<Seq<char>, Seq<u8>>,
    p: PRef,
    ts: i64,
    mid: Seq<char>,
)
    requires
        valid_pref(p),
        upsert_step(rv, lv, hv, p, ts, mid) is Some,
        hv.contains_key(pref_puuid(p)),
        bc_hist_dec_of(hv[pref_puuid(p)]) matches Some(h) && !hist_has_mid(h, mid),
    ensures
        ({
            let st = upsert_step(rv, lv, hv, p, ts, mid)->Some_0;
            let pu = pref_puuid(p);
            &&& st.2.contains_key(pu)
            &&& st.2[pu] == bc_hist_of(
                new_hist(bc_hist_dec_of(hv[pu])->Some_0, ts, mid),
            )
        }),
{
}

/// History cap: the history written for a fresh match id starts with the
/// new entry, keeps the old entries in order, and never exceeds the cap.
pub proof fn lemma_new_hist_props(h: Seq<(i64, Seq<char>)>, ts: i64, mid: Seq<char>)
    ensures
        new_hist(h, ts, mid).len() <= 1000,
        new_hist(h, ts, mid).len() == if h.len() + 1 <= 1000 {
            h.len() + 1
        } else {
            1000nat
        },
        new_hist(h, ts, mid)[0] == (ts, mid),
        forall|j: int| 1 <= j < new_hist(h, ts, mid).len() ==> new_hist(h, ts, mid)[j] == h[j - 1],
{
    let grown = seq![(ts, mid)] + h;
    assert(grown[0] == (ts, mid));
    assert(forall|j: int| 1 <= j < grown.len() ==> grown[j] == h[j - 1]);
}


} // verus!
