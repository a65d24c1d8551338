//! Player-centric reading of stored match records: locating a participant
//! under any tolerated shape, deciding wins, and aggregating totals over a
//! page of cached matches.

use vstd::prelude::*;
use crate::json::{JsonModel, JsonVal, spec_get, spec_get_str, obj_get, get_str, str_eq, arr_view,
    lemma_arr_view};
use crate::store::data_of;

verus! {

/// The first entry of a participant array carrying this puuid.
pub open spec fn find_in_arr(ms: Seq<JsonModel>, puuid: Seq<char>) -> Option<JsonModel>
    decreases ms.len(),
{
    if ms.len() == 0 {
        None
    } else if spec_get_str(ms[0], "puuid"@) == Some(puuid) {
        Some(ms[0])
    } else {
        find_in_arr(ms.drop_first(), puuid)
    }
}

pub open spec fn find_under(pv: JsonModel, key: Seq<char>, puuid: Seq<char>) -> Option<JsonModel> {
    match spec_get(pv, key) {
        Some(JsonModel::Arr(ms)) => find_in_arr(ms, puuid),
        _ => None,
    }
}

/// Where a participant is found in a record, under the flat, `all`, or
/// red/blue shape, in that order.
pub open spec fn spec_player_entry(root: JsonModel, puuid: Seq<char>) -> Option<JsonModel> {
    let d = data_of(root);
    match spec_get(d, "players"@) {
        Some(pv) => match pv {
            JsonModel::Arr(ms) => find_in_arr(ms, puuid),
            JsonModel::Obj(_) => match find_under(pv, "all"@, puuid) {
                Some(p) => Some(p),
                None => match find_under(pv, "red"@, puuid) {
                    Some(p) => Some(p),
                    None => find_under(pv, "blue"@, puuid),
                },
            },
            _ => None,
        },
        None => None,
    }
}

#[verifier::loop_isolation(false)]
fn exec_find_in_arr<'a>(ms: &'a Vec<JsonVal>, puuid: &str) -> (r: Option<&'a JsonVal>)
    ensures
        match r {
            Some(p) => find_in_arr(arr_view(ms@), puuid@) == Some(p@),
            None => find_in_arr(arr_view(ms@), puuid@) is None,
        },
{
    let ghost mv = arr_view(ms@);
    proof {
        lemma_arr_view(ms@);
        assert(mv.skip(0) =~= mv);
    }
    let n = ms.len();
    let mut i: usize = 0;
    while i < n
        invariant
            i <= n,
            find_in_arr(mv, puuid@) == find_in_arr(mv.skip(i as int), puuid@),
        decreases n - i,
    {
        proof {
            assert(mv.skip(i as int)[0] == mv[i as int]);
            assert(mv.skip(i as int).drop_first() =~= mv.skip(i as int + 1));
        }
        let hit = match get_str(&ms[i], "puuid") {
            Some(s) => str_eq(s.as_str(), puuid),
            None => false,
        };
        if hit {
            return Some(&ms[i]);
        }
        i += 1;
    }
    proof {
        assert(mv.skip(n as int) =~= Seq::<JsonModel>::empty());
    }
    None
}

fn exec_find_under<'a>(pv: &'a JsonVal, key: &str, puuid: &str) -> (r: Option<&'a JsonVal>)
    ensures
        match r {
            Some(p) => find_under(pv@, key@, puuid@) == Some(p@),
            None => find_under(pv@, key@, puuid@) is None,
        },
{
    match obj_get(pv, key) {
        Some(JsonVal::Arr(ms)) => exec_find_in_arr(ms, puuid),
        _ => None,
    }
}

/// Locates a participant's entry in a stored record, under whichever shape
/// the record uses.
pub fn extract_player_entry<'a>(root: &'a JsonVal, puuid: &str) -> (r: Option<&'a JsonVal>)
    ensures
        match r {
            Some(p) => spec_player_entry(root@, puuid@) == Some(p@),
            None => spec_player_entry(root@, puuid@) is None,
        },
{
    let d = match obj_get(root, "data") {
        Some(x) => x,
        None => root,
    };
    match obj_get(d, "players") {
        Some(pv) => match pv {
            JsonVal::Arr(ms) => exec_find_in_arr(ms, puuid),
            JsonVal::Obj(_) => match exec_find_under(pv, "all", puuid) {
                Some(p) => Some(p),
                None => match exec_find_under(pv, "red", puuid) {
                    Some(p) => Some(p),
                    None => exec_find_under(pv, "blue", puuid),
                },
            },
            _ => None,
        },
        None => None,
    }
}

/// The team a participant played on, if its entry records one.
pub open spec fn spec_player_team_id(root: JsonModel, puuid: Seq<char>) -> Option<Seq<char>> {
    match spec_player_entry(root, puuid) {
        Some(p) => spec_get_str(p, "team_id"@),
        None => None,
    }
}

pub fn extract_player_team_id(root: &JsonVal, puuid: &str) -> (r: Option<String>)
    ensures
        match r {
            Some(s) => spec_player_team_id(root@, puuid@) == Some(s@),
            None => spec_player_team_id(root@, puuid@) is None,
        },
{
    match extract_player_entry(root, puuid) {
        Some(p) => match get_str(p, "team_id") {
            Some(s) => Some(s.clone()),
            None => None,
        },
        None => None,
    }
}

pub open spec fn i64_or_zero(m: JsonModel, key: Seq<char>) -> i64 {
    match spec_get(m, key) {
        Some(JsonModel::Int(i)) => i,
        _ => 0,
    }
}

/// The match length in milliseconds, zero when it cannot be located.
pub open spec fn spec_match_length_ms(root: JsonModel) -> i64 {
    let d = data_of(root);
    match spec_get(d, "metadata"@) {
        Some(mm) => match spec_get(mm, "game_length_in_ms"@) {
            Some(JsonModel::Int(i)) => i,
            _ => i64_or_zero(d, "game_length_in_ms"@),
        },
        None => i64_or_zero(d, "game_length_in_ms"@),
    }
}

pub fn extract_match_length_ms(root: &JsonVal) -> (r: i64)
    ensures
        r == spec_match_length_ms(root@),
{
    let d = match obj_get(root, "data") {
        Some(x) => x,
        None => root,
    };
    match obj_get(d, "metadata") {
        Some(mm) => match obj_get(mm, "game_length_in_ms") {
            Some(JsonVal::Int(i)) => *i,
            _ => exec_i64_or_zero(d, "game_length_in_ms"),
        },
        None => exec_i64_or_zero(d, "game_length_in_ms"),
    }
}

fn exec_i64_or_zero(v: &JsonVal, key: &str) -> (r: i64)
    ensures
        r == i64_or_zero(v@, key@),
{
    match obj_get(v, key) {
        Some(JsonVal::Int(i)) => *i,
        _ => 0,
    }
}

/// One participant's shot and kill counters, all zero when the entry or a
/// field is missing.
pub open spec fn spec_player_stats(root: JsonModel, puuid: Seq<char>) -> (
    i64,
    i64,
    i64,
    i64,
    i64,
) {
    match spec_player_entry(root, puuid) {
        Some(p) => {
            let sv = match spec_get(p, "stats"@) {
                Some(x) => x,
                None => JsonModel::Null,
            };
            (
                i64_or_zero(sv, "kills"@),
                i64_or_zero(sv, "deaths"@),
                i64_or_zero(sv, "headshots"@),
                i64_or_zero(sv, "bodyshots"@),
                i64_or_zero(sv, "legshots"@),
            )
        },
        None => (0, 0, 0, 0, 0),
    }
}

pub fn extract_player_stats(root: &JsonVal, puuid: &str) -> (r: (i64, i64, i64, i64, i64))
    ensures
        r == spec_player_stats(root@, puuid@),
{
    match extract_player_entry(root, puuid) {
        Some(p) => {
            let null_v = JsonVal::Null;
            let sv = match obj_get(p, "stats") {
                Some(x) => x,
                None => &null_v,
            };
            (
                exec_i64_or_zero(sv, "kills"),
                exec_i64_or_zero(sv, "deaths"),
                exec_i64_or_zero(sv, "headshots"),
                exec_i64_or_zero(sv, "bodyshots"),
                exec_i64_or_zero(sv, "legshots"),
            )
        },
        None => (0, 0, 0, 0, 0),
    }
}

/// ASCII-case-insensitive character identity.
pub open spec fn lower_u32(c: char) -> u32 {
    if 'A' <= c && c <= 'Z' {
        (c as u32 + 32) as u32
    } else {
        c as u32
    }
}

pub open spec fn eq_ignore_case(a: Seq<char>, b: Seq<char>) -> bool {
    a.len() == b.len() && forall|i: int| 0 <= i < a.len() ==> lower_u32(a[i]) == lower_u32(#[trigger] b[i])
}

/// ASCII-case-insensitive string comparison.
#[verifier::loop_isolation(false)]
pub fn str_eq_ignore_case(a: &str, b: &str) -> (r: bool)
    ensures
        r == eq_ignore_case(a@, b@),
{
    let an = a.unicode_len();
    let bn = b.unicode_len();
    if an != bn {
        return false;
    }
    let mut i: usize = 0;
    while i < an
        invariant
            i <= an,
            forall|j: int| 0 <= j < i ==> lower_u32(a@[j]) == lower_u32(#[trigger] b@[j]),
        decreases an - i,
    {
        let ca = a.get_char(i);
        let cb = b.get_char(i);
        let la: u32 = if 'A' <= ca && ca <= 'Z' {
            ca as u32 + 32
        } else {
            ca as u32
        };
        let lb: u32 = if 'A' <= cb && cb <= 'Z' {
            cb as u32 + 32
        } else {
            cb as u32
        };
        if la != lb {
            return false;
        }
        i += 1;
    }
    true
}

/// Whether a participant's team won, read from either team shape; nothing
/// when the record does not say.
pub open spec fn spec_win_for_player(root: JsonModel, puuid: Seq<char>) -> Option<bool> {
    match spec_player_team_id(root, puuid) {
        None => None,
        Some(tid) => {
            let d = data_of(root);
            match spec_get(d, "teams"@) {
                Some(JsonModel::Arr(ts)) => win_in_teams_arr(ts, tid),
                Some(JsonModel::Obj(fs)) => {
                    let tv = JsonModel::Obj(fs);
                    if eq_ignore_case(tid, "red"@) {
                        side_has_won(tv, "red"@)
                    } else if eq_ignore_case(tid, "blue"@) {
                        side_has_won(tv, "blue"@)
                    } else {
                        None
                    }
                },
                _ => None,
            }
        },
    }
}

pub open spec fn side_has_won(tv: JsonModel, key: Seq<char>) -> Option<bool> {
    match spec_get(tv, key) {
        Some(side) => match spec_get(side, "has_won"@) {
            Some(JsonModel::Bool(b)) => Some(b),
            _ => None,
        },
        None => None,
    }
}

/// The first array entry whose `team_id` matches, by its `won` member.
pub open spec fn win_in_teams_arr(ts: Seq<JsonModel>, tid: Seq<char>) -> Option<bool>
    decreases ts.len(),
{
    if ts.len() == 0 {
        None
    } else {
        let entry_tid = match spec_get_str(ts[0], "team_id"@) {
            Some(s) => s,
            None => Seq::empty(),
        };
        if eq_ignore_case(entry_tid, tid) {
            match spec_get(ts[0], "won"@) {
                Some(JsonModel::Bool(b)) => Some(b),
                _ => None,
            }
        } else {
            win_in_teams_arr(ts.drop_first(), tid)
        }
    }
}

/// Decides whether the participant's team won the stored match.
#[verifier::loop_isolation(false)]
pub fn extract_win_for_player(root: &JsonVal, puuid: &str) -> (r: Option<bool>)
    ensures
        r == spec_win_for_player(root@, puuid@),
{
    let tid = match extract_player_team_id(root, puuid) {
        Some(t) => t,
        None => {
            return None;
        },
    };
    let d = match obj_get(root, "data") {
        Some(x) => x,
        None => root,
    };
    match obj_get(d, "teams") {
        Some(tv) => match tv {
            JsonVal::Arr(ts) => {
                let ghost tms = arr_view(ts@);
                proof {
                    lemma_arr_view(ts@);
                    assert(tms.skip(0) =~= tms);
                }
                let n = ts.len();
                let mut i: usize = 0;
                while i < n
                    invariant
                        i <= n,
                        win_in_teams_arr(tms, tid@) == win_in_teams_arr(
                            tms.skip(i as int),
                            tid@,
                        ),
                    decreases n - i,
                {
                    proof {
                        assert(tms.skip(i as int)[0] == tms[i as int]);
                        assert(tms.skip(i as int).drop_first() =~= tms.skip(i as int + 1));
                    }
                    let matches_tid = match get_str(&ts[i], "team_id") {
                        Some(s) => str_eq_ignore_case(s.as_str(), tid.as_str()),
                        None => {
                            proof {
                                reveal_strlit("");
                            }
                            str_eq_ignore_case("", tid.as_str())
                        },
                    };
                    if matches_tid {
                        return match obj_get(&ts[i], "won") {
                            Some(JsonVal::Bool(b)) => Some(*b),
                            _ => None,
                        };
                    }
                    i += 1;
                }
                proof {
                    assert(tms.skip(n as int) =~= Seq::<JsonModel>::empty());
                }
                None
            },
            JsonVal::Obj(_) => {
                if str_eq_ignore_case(tid.as_str(), "red") {
                    match obj_get(tv, "red") {
                        Some(side) => match obj_get(side, "has_won") {
                            Some(JsonVal::Bool(b)) => Some(*b),
                            _ => None,
                        },
                        None => None,
                    }
                } else if str_eq_ignore_case(tid.as_str(), "blue") {
                    match obj_get(tv, "blue") {
                        Some(side) => match obj_get(side, "has_won") {
                            Some(JsonVal::Bool(b)) => Some(*b),
                            _ => None,
                        },
                        None => None,
                    }
                } else {
                    None
                }
            },
            _ => None,
        },
        None => None,
    }
}

/// Aggregated counters over a page of cached matches, for one player.
#[derive(Debug, Clone, Copy, PartialEq, Eq, Structural)]
pub struct PlayerTotals {
    pub considered: i64,
    pub total_ms: i128,
    pub kills: i128,
    pub deaths: i128,
    pub headshots: i128,
    pub bodyshots: i128,
    pub legshots: i128,
    pub wins: i64,
}

pub open spec fn totals_zero() -> PlayerTotals {
    PlayerTotals {
        considered: 0,
        total_ms: 0,
        kills: 0,
        deaths: 0,
        headshots: 0,
        bodyshots: 0,
        legshots: 0,
        wins: 0,
    }
}

/// Adds one candidate record, when the player took part in it.
pub open spec fn totals_step(acc: PlayerTotals, m: JsonModel, puuid: Seq<char>) -> PlayerTotals {
    if spec_player_entry(m, puuid) is None {
        acc
    } else {
        let st = spec_player_stats(m, puuid);
        PlayerTotals {
            considered: (acc.considered + 1) as i64,
            total_ms: (acc.total_ms + spec_match_length_ms(m)) as i128,
            kills: (acc.kills + st.0) as i128,
            deaths: (acc.deaths + st.1) as i128,
            headshots: (acc.headshots + st.2) as i128,
            bodyshots: (acc.bodyshots + st.3) as i128,
            legshots: (acc.legshots + st.4) as i128,
            wins: if spec_win_for_player(m, puuid) == Some(true) {
                (acc.wins + 1) as i64
            } else {
                acc.wins
            },
        }
    }
}

pub open spec fn totals_of(ms: Seq<JsonModel>, puuid: Seq<char>, acc: PlayerTotals) -> PlayerTotals
    decreases ms.len(),
{
    if ms.len() == 0 {
        acc
    } else {
        totals_of(ms.drop_first(), puuid, totals_step(acc, ms[0], puuid))
    }
}

/// Whether an accumulator is small enough that one more record cannot
/// overflow it.
pub open spec fn totals_in_range(t: PlayerTotals, n: int) -> bool {
    &&& 0 <= t.considered <= n
    &&& 0 <= t.wins <= t.considered
    &&& -(n * 0x8000_0000_0000_0000) <= t.total_ms <= n * 0x7fff_ffff_ffff_ffff
    &&& -(n * 0x8000_0000_0000_0000) <= t.kills <= n * 0x7fff_ffff_ffff_ffff
    &&& -(n * 0x8000_0000_0000_0000) <= t.deaths <= n * 0x7fff_ffff_ffff_ffff
    &&& -(n * 0x8000_0000_0000_0000) <= t.headshots <= n * 0x7fff_ffff_ffff_ffff
    &&& -(n * 0x8000_0000_0000_0000) <= t.bodyshots <= n * 0x7fff_ffff_ffff_ffff
    &&& -(n * 0x8000_0000_0000_0000) <= t.legshots <= n * 0x7fff_ffff_ffff_ffff
}

/// Sums one player's counters over a page of cached match records.
#[verifier::loop_isolation(false)]
pub fn aggregate_player_totals(ms: &Vec<JsonVal>, puuid: &str) -> (r: PlayerTotals)
    requires
        ms@.len() <= 0x7fff_ffff_ffff_ffff,
    ensures
        r == totals_of(arr_view(ms@), puuid@, totals_zero()),
{
    let ghost mv = arr_view(ms@);
    proof {
        lemma_arr_view(ms@);
        assert(mv.skip(0) =~= mv);
    }
    let n = ms.len();
    let mut acc = PlayerTotals {
        considered: 0,
        total_ms: 0,
        kills: 0,
        deaths: 0,
        headshots: 0,
        bodyshots: 0,
        legshots: 0,
        wins: 0,
    };
    let mut i: usize = 0;
    while i < n
        invariant
            i <= n,
            totals_of(mv, puuid@, totals_zero()) == totals_of(mv.skip(i as int), puuid@, acc),
            totals_in_range(acc, i as int),
        decreases n - i,
    {
        proof {
            assert(mv.skip(i as int)[0] == mv[i as int]);
            assert(mv.skip(i as int).drop_first() =~= mv.skip(i as int + 1));
        }
        let m = &ms[i];
        let present = match extract_player_entry(m, puuid) {
            Some(_) => true,
            None => false,
        };
        if present {
            let len_ms = extract_match_length_ms(m);
            let st = extract_player_stats(m, puuid);
            let won = match extract_win_for_player(m, puuid) {
                Some(true) => true,
                _ => false,
            };
            acc = PlayerTotals {
                considered: acc.considered + 1,
                total_ms: acc.total_ms + len_ms as i128,
                kills: acc.kills + st.0 as i128,
                deaths: acc.deaths + st.1 as i128,
                headshots: acc.headshots + st.2 as i128,
                bodyshots: acc.bodyshots + st.3 as i128,
                legshots: acc.legshots + st.4 as i128,
                wins: if won {
                    acc.wins + 1
                } else {
                    acc.wins
                },
            };
        }
        i += 1;
    }
    proof {
        assert(mv.skip(n as int) =~= Seq::<JsonModel>::empty());
    }
    acc
}

} // verus!
