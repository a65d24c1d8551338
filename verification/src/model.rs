//! The canonical match record: one fixed schema that tolerates the
//! remote service's varying payload shapes.

use vstd::prelude::*;
use crate::json::{JsonModel, JsonVal, spec_get, spec_get_str, obj_get, get_str, get_int, str_eq};

verus! {

#[derive(Debug, Clone, PartialEq, Eq)]
pub struct Victim {
    pub puuid: String,
    pub name: String,
    pub tag: String,
}

#[derive(Debug, Clone, PartialEq, Eq)]
pub struct Killer {
    pub puuid: String,
    pub name: String,
    pub tag: String,
}

#[derive(Debug, Clone, Copy, PartialEq, Eq, Structural)]
pub struct Blue {
    pub has_won: bool,
    pub rounds_won: i32,
    pub rounds_lost: i32,
}

#[derive(Debug, Clone, Copy, PartialEq, Eq, Structural)]
pub struct Red {
    pub has_won: bool,
    pub rounds_won: i32,
    pub rounds_lost: i32,
}

/// Money spent over the match. The upstream per-round average is a
/// fractional quantity and is not carried here.
#[derive(Debug, Clone, Copy, PartialEq, Eq, Structural)]
pub struct Spent {
    pub overall: i32,
}

#[derive(Debug, Clone, Copy, PartialEq, Eq, Structural)]
pub struct Economy {
    pub spent: Spent,
}

#[derive(Debug, Clone, Copy, PartialEq, Eq, Structural)]
pub struct Damage {
    pub dealt: i32,
    pub received: i32,
}

#[derive(Debug, Clone, Copy, PartialEq, Eq, Structural)]
pub struct Stats {
    pub score: i32,
    pub kills: i32,
    pub deaths: i32,
    pub assists: i32,
    pub headshots: i32,
    pub legshots: i32,
    pub bodyshots: i32,
    pub damage: Damage,
}

#[derive(Debug, Clone, PartialEq, Eq)]
pub struct Agent {
    pub name: String,
}

#[derive(Debug, Clone, PartialEq, Eq)]
pub struct GameMap {
    pub name: String,
}

#[derive(Debug, Clone, PartialEq, Eq)]
pub struct Kills {
    pub killer: Killer,
    pub victim: Victim,
}

#[derive(Debug, Clone, Copy, PartialEq, Eq, Structural)]
pub struct Teams {
    pub red: Red,
    pub blue: Blue,
}

#[derive(Debug, Clone, PartialEq, Eq)]
pub struct Players {
    pub puuid: String,
    pub name: String,
    pub tag: String,
    pub rank: Option<String>,
    pub team_id: String,
    pub agent: Agent,
    pub stats: Stats,
    pub economy: Economy,
}

#[derive(Debug, Clone, PartialEq, Eq)]
pub struct Queue {
    pub id: String,
    pub name: String,
    pub mode_type: String,
}

#[derive(Debug, Clone, PartialEq, Eq)]
pub struct Metadata {
    pub match_id: String,
    pub map: GameMap,
}

#[derive(Debug, Clone, PartialEq, Eq)]
pub struct MatchData {
    pub metadata: Metadata,
    pub game_length_in_ms: i32,
    pub started_at: String,
    pub queue: Queue,
    pub players: Vec<Players>,
    pub teams: Teams,
    pub kills: Vec<Kills>,
}

/// Views: the same records over character sequences.
pub struct KillerV {
    pub puuid: Seq<char>,
    pub name: Seq<char>,
    pub tag: Seq<char>,
}

pub struct VictimV {
    pub puuid: Seq<char>,
    pub name: Seq<char>,
    pub tag: Seq<char>,
}

pub struct KillsV {
    pub killer: KillerV,
    pub victim: VictimV,
}

pub struct PlayersV {
    pub puuid: Seq<char>,
    pub name: Seq<char>,
    pub tag: Seq<char>,
    pub rank: Option<Seq<char>>,
    pub team_id: Seq<char>,
    pub agent_name: Seq<char>,
    pub stats: Stats,
    pub economy: Economy,
}

pub struct QueueV {
    pub id: Seq<char>,
    pub name: Seq<char>,
    pub mode_type: Seq<char>,
}

pub struct MetadataV {
    pub match_id: Seq<char>,
    pub map_name: Seq<char>,
}

pub struct MatchDataV {
    pub metadata: MetadataV,
    pub game_length_in_ms: i32,
    pub started_at: Seq<char>,
    pub queue: QueueV,
    pub players: Seq<PlayersV>,
    pub teams: Teams,
    pub kills: Seq<KillsV>,
}

impl View for Killer {
    type V = KillerV;

    open spec fn view(&self) -> KillerV {
        KillerV { puuid: self.puuid@, name: self.name@, tag: self.tag@ }
    }
}

impl View for Victim {
    type V = VictimV;

    open spec fn view(&self) -> VictimV {
        VictimV { puuid: self.puuid@, name: self.name@, tag: self.tag@ }
    }
}

impl View for Kills {
    type V = KillsV;

    open spec fn view(&self) -> KillsV {
        KillsV { killer: self.killer@, victim: self.victim@ }
    }
}

impl View for Players {
    type V = PlayersV;

    open spec fn view(&self) -> PlayersV {
        PlayersV {
            puuid: self.puuid@,
            name: self.name@,
            tag: self.tag@,
            rank: match self.rank {
                Some(r) => Some(r@),
                None => None,
            },
            team_id: self.team_id@,
            agent_name: self.agent.name@,
            stats: self.stats,
            economy: self.economy,
        }
    }
}

impl View for Queue {
    type V = QueueV;

    open spec fn view(&self) -> QueueV {
        QueueV { id: self.id@, name: self.name@, mode_type: self.mode_type@ }
    }
}

impl View for Metadata {
    type V = MetadataV;

    open spec fn view(&self) -> MetadataV {
        MetadataV { match_id: self.match_id@, map_name: self.map.name@ }
    }
}

impl View for MatchData {
    type V = MatchDataV;

    open spec fn view(&self) -> MatchDataV {
        MatchDataV {
            metadata: self.metadata@,
            game_length_in_ms: self.game_length_in_ms,
            started_at: self.started_at@,
            queue: self.queue@,
            players: self.players@.map_values(|p: Players| p@),
            teams: self.teams,
            kills: self.kills@.map_values(|k: Kills| k@),
        }
    }
}

/// The payload proper: the `data` member when the record is wrapped,
/// otherwise the record itself.
pub open spec fn data_of(root: JsonModel) -> JsonModel {
    match spec_get(root, "data"@) {
        Some(d) => d,
        None => root,
    }
}

pub open spec fn str_or_empty(m: JsonModel, key: Seq<char>) -> Seq<char> {
    match spec_get_str(m, key) {
        Some(s) => s,
        None => Seq::empty(),
    }
}

/// The integral part of a member, zero when absent or not a number.
pub open spec fn i32_or_zero(m: JsonModel, key: Seq<char>) -> i32 {
    match spec_get(m, key) {
        Some(JsonModel::Int(i)) => i as i32,
        _ => 0,
    }
}

pub open spec fn bool_or_false(m: JsonModel, key: Seq<char>) -> bool {
    match spec_get(m, key) {
        Some(JsonModel::Bool(b)) => b,
        _ => false,
    }
}

/// Where the match id is found: `metadata.match_id` of the payload.
/// A record without it cannot be parsed.
pub open spec fn match_id_of(d: JsonModel) -> Option<Seq<char>> {
    match spec_get(d, "metadata"@) {
        Some(mm) => spec_get_str(mm, "match_id"@),
        None => None,
    }
}

pub open spec fn parse_ok(root: JsonModel) -> bool {
    match_id_of(data_of(root)) is Some
}

pub open spec fn spec_map_name(d: JsonModel) -> Seq<char> {
    match spec_get(d, "metadata"@) {
        Some(mm) => match spec_get(mm, "map"@) {
            Some(mv) => str_or_empty(mv, "name"@),
            None => Seq::empty(),
        },
        None => Seq::empty(),
    }
}

/// `metadata.game_length_in_ms`, falling back to the top-level member.
pub open spec fn spec_game_len(d: JsonModel) -> i32 {
    match spec_get(d, "metadata"@) {
        Some(mm) => match spec_get(mm, "game_length_in_ms"@) {
            Some(x) => match x {
                JsonModel::Int(i) => i as i32,
                _ => 0,
            },
            None => i32_or_zero(d, "game_length_in_ms"@),
        },
        None => i32_or_zero(d, "game_length_in_ms"@),
    }
}

/// `metadata.started_at` when it is a string, falling back to the top-level
/// member, else empty.
pub open spec fn spec_started_at(d: JsonModel) -> Seq<char> {
    match spec_get(d, "metadata"@) {
        Some(mm) => match spec_get_str(mm, "started_at"@) {
            Some(s) => s,
            None => str_or_empty(d, "started_at"@),
        },
        None => str_or_empty(d, "started_at"@),
    }
}

/// The queue descriptor: `metadata.queue`, falling back to the top-level
/// member, else nothing.
pub open spec fn spec_queue_val(d: JsonModel) -> JsonModel {
    match spec_get(d, "metadata"@) {
        Some(mm) => match spec_get(mm, "queue"@) {
            Some(q) => q,
            None => spec_queue_direct(d),
        },
        None => spec_queue_direct(d),
    }
}

pub open spec fn spec_queue_direct(d: JsonModel) -> JsonModel {
    match spec_get(d, "queue"@) {
        Some(q) => q,
        None => JsonModel::Null,
    }
}

pub open spec fn spec_queue(d: JsonModel) -> QueueV {
    let qv = spec_queue_val(d);
    QueueV {
        id: str_or_empty(qv, "id"@),
        name: str_or_empty(qv, "name"@),
        mode_type: str_or_empty(qv, "mode_type"@),
    }
}

/// One participant, every missing field at its zero value.
pub open spec fn spec_player_of(p: JsonModel) -> PlayersV {
    let stats_v = member_or_null(p, "stats"@);
    let economy_v = member_or_null(p, "economy"@);
    let spent_v = member_or_null(economy_v, "spent"@);
    PlayersV {
        puuid: str_or_empty(p, "puuid"@),
        name: str_or_empty(p, "name"@),
        tag: str_or_empty(p, "tag"@),
        rank: spec_get_str(p, "rank"@),
        team_id: str_or_empty(p, "team_id"@),
        agent_name: match spec_get(p, "agent"@) {
            Some(a) => str_or_empty(a, "name"@),
            None => Seq::empty(),
        },
        stats: Stats {
            score: i32_or_zero(stats_v, "score"@),
            kills: i32_or_zero(stats_v, "kills"@),
            deaths: i32_or_zero(stats_v, "deaths"@),
            assists: i32_or_zero(stats_v, "assists"@),
            headshots: i32_or_zero(stats_v, "headshots"@),
            legshots: i32_or_zero(stats_v, "legshots"@),
            bodyshots: i32_or_zero(stats_v, "bodyshots"@),
            damage: Damage {
                dealt: i32_or_zero(member_or_null(stats_v, "damage"@), "dealt"@),
                received: i32_or_zero(member_or_null(stats_v, "damage"@), "received"@),
            },
        },
        economy: Economy { spent: Spent { overall: i32_or_zero(spent_v, "overall"@) } },
    }
}

pub open spec fn member_or_null(m: JsonModel, key: Seq<char>) -> JsonModel {
    match spec_get(m, key) {
        Some(x) => x,
        None => JsonModel::Null,
    }
}

/// The participants of one array, in order.
pub open spec fn players_of_arr(ms: Seq<JsonModel>) -> Seq<PlayersV> {
    ms.map_values(|p: JsonModel| spec_player_of(p))
}

/// The views of parsed participants, in order.
pub open spec fn players_view(v: Seq<Players>) -> Seq<PlayersV> {
    v.map_values(|p: Players| p@)
}

pub open spec fn side_players(pv: JsonModel, key: Seq<char>) -> Seq<PlayersV> {
    match spec_get(pv, key) {
        Some(JsonModel::Arr(ms)) => players_of_arr(ms),
        _ => Seq::empty(),
    }
}

/// The participant list under any of the three tolerated shapes: a flat
/// array, an `all` wrapper, or a red/blue split normalized red first.
pub open spec fn spec_players(d: JsonModel) -> Seq<PlayersV> {
    match spec_get(d, "players"@) {
        Some(pv) => match pv {
            JsonModel::Arr(ms) => players_of_arr(ms),
            JsonModel::Obj(_) => match spec_get(pv, "all"@) {
                Some(JsonModel::Arr(ms)) => players_of_arr(ms),
                _ => side_players(pv, "red"@) + side_players(pv, "blue"@),
            },
            _ => Seq::empty(),
        },
        None => Seq::empty(),
    }
}

pub open spec fn team_default() -> Teams {
    Teams {
        red: Red { has_won: false, rounds_won: 0, rounds_lost: 0 },
        blue: Blue { has_won: false, rounds_won: 0, rounds_lost: 0 },
    }
}

/// Applies one entry of the array-shaped `teams` member to the accumulator;
/// later entries overwrite earlier ones.
pub open spec fn spec_team_step(acc: Teams, t: JsonModel) -> Teams {
    let tid = str_or_empty(t, "team_id"@);
    let won = bool_or_false(t, "won"@);
    let rounds = member_or_null(t, "rounds"@);
    let rw = i32_or_zero(rounds, "won"@);
    let rl = i32_or_zero(rounds, "lost"@);
    if tid == "Red"@ || tid == "red"@ {
        Teams { red: Red { has_won: won, rounds_won: rw, rounds_lost: rl }, ..acc }
    } else if tid == "Blue"@ || tid == "blue"@ {
        Teams { blue: Blue { has_won: won, rounds_won: rw, rounds_lost: rl }, ..acc }
    } else {
        acc
    }
}

pub open spec fn spec_teams_from_arr(ts: Seq<JsonModel>, acc: Teams) -> Teams
    decreases ts.len(),
{
    if ts.len() == 0 {
        acc
    } else {
        spec_teams_from_arr(ts.drop_first(), spec_team_step(acc, ts[0]))
    }
}

/// One side of the object-shaped `teams` member.
pub open spec fn spec_side(obj: JsonModel, key: Seq<char>) -> (bool, i32, i32) {
    match spec_get(obj, key) {
        Some(side) => (
            bool_or_false(side, "has_won"@),
            i32_or_zero(side, "rounds_won"@),
            i32_or_zero(side, "rounds_lost"@),
        ),
        None => (false, 0, 0),
    }
}

/// The team results under either tolerated shape.
pub open spec fn spec_teams(d: JsonModel) -> Teams {
    match spec_get(d, "teams"@) {
        Some(JsonModel::Arr(ts)) => spec_teams_from_arr(ts, team_default()),
        Some(JsonModel::Obj(fields)) => {
            let tv = JsonModel::Obj(fields);
            let r = spec_side(tv, "red"@);
            let b = spec_side(tv, "blue"@);
            Teams {
                red: Red { has_won: r.0, rounds_won: r.1, rounds_lost: r.2 },
                blue: Blue { has_won: b.0, rounds_won: b.1, rounds_lost: b.2 },
            }
        },
        _ => team_default(),
    }
}

pub open spec fn spec_kill_of(k: JsonModel) -> KillsV {
    let killer = member_or_null(k, "killer"@);
    let victim = member_or_null(k, "victim"@);
    KillsV {
        killer: KillerV {
            puuid: str_or_empty(killer, "puuid"@),
            name: str_or_empty(killer, "name"@),
            tag: str_or_empty(killer, "tag"@),
        },
        victim: VictimV {
            puuid: str_or_empty(victim, "puuid"@),
            name: str_or_empty(victim, "name"@),
            tag: str_or_empty(victim, "tag"@),
        },
    }
}

pub open spec fn spec_kills(d: JsonModel) -> Seq<KillsV> {
    match spec_get(d, "kills"@) {
        Some(JsonModel::Arr(ms)) => ms.map_values(|k: JsonModel| spec_kill_of(k)),
        _ => Seq::empty(),
    }
}

/// What parsing yields on a payload that carries a match id.
pub open spec fn spec_parse(root: JsonModel) -> MatchDataV {
    let d = data_of(root);
    MatchDataV {
        metadata: MetadataV {
            match_id: match match_id_of(d) {
                Some(mid) => mid,
                None => Seq::empty(),
            },
            map_name: spec_map_name(d),
        },
        game_length_in_ms: spec_game_len(d),
        started_at: spec_started_at(d),
        queue: spec_queue(d),
        players: spec_players(d),
        teams: spec_teams(d),
        kills: spec_kills(d),
    }
}

fn get_str_or_empty(v: &JsonVal, key: &str) -> (r: String)
    ensures
        r@ == str_or_empty(v@, key@),
{
    match get_str(v, key) {
        Some(s) => s.clone(),
        None => String::new(),
    }
}

fn get_i32_or_zero(v: &JsonVal, key: &str) -> (r: i32)
    ensures
        r == i32_or_zero(v@, key@),
{
    match obj_get(v, key) {
        Some(JsonVal::Int(i)) => #[verifier::truncate] (*i as i32),
        Some(_) => 0,
        None => 0,
    }
}

fn get_bool_or_false(v: &JsonVal, key: &str) -> (r: bool)
    ensures
        r == bool_or_false(v@, key@),
{
    match obj_get(v, key) {
        Some(JsonVal::Bool(b)) => *b,
        Some(_) => false,
        None => false,
    }
}

/// One participant entry, missing fields at their zero values.
fn parse_player(p: &JsonVal) -> (r: Players)
    ensures
        r@ == spec_player_of(p@),
{
    let null_v = JsonVal::Null;
    let stats_v = match obj_get(p, "stats") {
        Some(x) => x,
        None => &null_v,
    };
    let economy_v = match obj_get(p, "economy") {
        Some(x) => x,
        None => &null_v,
    };
    let spent_v = match obj_get(economy_v, "spent") {
        Some(x) => x,
        None => &null_v,
    };
    let damage_v = match obj_get(stats_v, "damage") {
        Some(x) => x,
        None => &null_v,
    };
    let rank = match get_str(p, "rank") {
        Some(s) => Some(s.clone()),
        None => None,
    };
    let agent_name = match obj_get(p, "agent") {
        Some(a) => get_str_or_empty(a, "name"),
        None => String::new(),
    };
    Players {
        puuid: get_str_or_empty(p, "puuid"),
        name: get_str_or_empty(p, "name"),
        tag: get_str_or_empty(p, "tag"),
        rank,
        team_id: get_str_or_empty(p, "team_id"),
        agent: Agent { name: agent_name },
        stats: Stats {
            score: get_i32_or_zero(stats_v, "score"),
            kills: get_i32_or_zero(stats_v, "kills"),
            deaths: get_i32_or_zero(stats_v, "deaths"),
            assists: get_i32_or_zero(stats_v, "assists"),
            headshots: get_i32_or_zero(stats_v, "headshots"),
            legshots: get_i32_or_zero(stats_v, "legshots"),
            bodyshots: get_i32_or_zero(stats_v, "bodyshots"),
            damage: Damage {
                dealt: get_i32_or_zero(damage_v, "dealt"),
                received: get_i32_or_zero(damage_v, "received"),
            },
        },
        economy: Economy { spent: Spent { overall: get_i32_or_zero(spent_v, "overall") } },
    }
}

/// Parses one participant array, appending in order.
#[verifier::loop_isolation(false)]
fn parse_players_arr(elems: &Vec<JsonVal>, out: &mut Vec<Players>)
    ensures
        players_view(final(out)@) == players_view(old(out)@) + players_of_arr(
            crate::json::arr_view(elems@),
        ),
{
    proof {
        crate::json::lemma_arr_view(elems@);
    }
    let n = elems.len();
    let mut j: usize = 0;
    while j < n
        invariant
            j <= n,
            out@.len() == old(out)@.len() + j,
            forall|i: int| 0 <= i < old(out)@.len() ==> out@[i] == old(out)@[i],
            forall|i: int|
                0 <= i < j ==> #[trigger] out@[old(out)@.len() + i]@ == spec_player_of(
                    crate::json::arr_view(elems@)[i],
                ),
        decreases n - j,
    {
        let p = parse_player(&elems[j]);
        out.push(p);
        j += 1;
    }
    proof {
        assert forall|k: int|
            0 <= k < out@.len() implies players_view(out@)[k] == (players_view(old(out)@)
            + players_of_arr(crate::json::arr_view(elems@)))[k] by {
            if k < old(out)@.len() {
                assert(out@[k] == old(out)@[k]);
            } else {
                let i = k - old(out)@.len();
                assert(out@[old(out)@.len() + i]@ == spec_player_of(
                    crate::json::arr_view(elems@)[i],
                ));
            }
        }
        assert(players_view(out@) =~= players_view(old(out)@) + players_of_arr(
            crate::json::arr_view(elems@),
        ));
    }
}

/// One kill event.
fn parse_kill(k: &JsonVal) -> (r: Kills)
    ensures
        r@ == spec_kill_of(k@),
{
    let null_v = JsonVal::Null;
    let killer_v = match obj_get(k, "killer") {
        Some(x) => x,
        None => &null_v,
    };
    let victim_v = match obj_get(k, "victim") {
        Some(x) => x,
        None => &null_v,
    };
    Kills {
        killer: Killer {
            puuid: get_str_or_empty(killer_v, "puuid"),
            name: get_str_or_empty(killer_v, "name"),
            tag: get_str_or_empty(killer_v, "tag"),
        },
        victim: Victim {
            puuid: get_str_or_empty(victim_v, "puuid"),
            name: get_str_or_empty(victim_v, "name"),
            tag: get_str_or_empty(victim_v, "tag"),
        },
    }
}

/// The team results under either tolerated shape: an array of team objects
/// keyed by a `team_id` field, or an object keyed by `red`/`blue`.
#[verifier::loop_isolation(false)]
fn parse_teams(d: &JsonVal) -> (r: Teams)
    ensures
        r == spec_teams(d@),
{
    let default = Teams {
        red: Red { has_won: false, rounds_won: 0, rounds_lost: 0 },
        blue: Blue { has_won: false, rounds_won: 0, rounds_lost: 0 },
    };
    let null_v = JsonVal::Null;
    match obj_get(d, "teams") {
        Some(tv) => match tv {
            JsonVal::Arr(ts) => {
                let ghost tms = crate::json::arr_view(ts@);
                proof {
                    crate::json::lemma_arr_view(ts@);
                    assert(tms.skip(0) =~= tms);
                }
                let n = ts.len();
                let mut acc = default;
                let mut i: usize = 0;
                while i < n
                    invariant
                        i <= n,
                        spec_teams_from_arr(tms, team_default()) == spec_teams_from_arr(
                            tms.skip(i as int),
                            acc,
                        ),
                    decreases n - i,
                {
                    let t = &ts[i];
                    let tid = get_str_or_empty(t, "team_id");
                    let won = get_bool_or_false(t, "won");
                    let rounds = match obj_get(t, "rounds") {
                        Some(x) => x,
                        None => &null_v,
                    };
                    let rw = get_i32_or_zero(rounds, "won");
                    let rl = get_i32_or_zero(rounds, "lost");
                    let ghost prev = acc;
                    if str_eq(tid.as_str(), "Red") || str_eq(tid.as_str(), "red") {
                        acc.red = Red { has_won: won, rounds_won: rw, rounds_lost: rl };
                    } else if str_eq(tid.as_str(), "Blue") || str_eq(tid.as_str(), "blue") {
                        acc.blue = Blue { has_won: won, rounds_won: rw, rounds_lost: rl };
                    }
                    proof {
                        assert(tms[i as int] == ts@[i as int]@);
                        assert(acc == spec_team_step(prev, tms[i as int]));
                        assert(tms.skip(i as int)[0] == tms[i as int]);
                        assert(tms.skip(i as int).drop_first() =~= tms.skip(i as int + 1));
                    }
                    i += 1;
                }
                proof {
                    assert(tms.skip(n as int) =~= Seq::<JsonModel>::empty());
                }
                acc
            },
            JsonVal::Obj(_) => {
                let red = match obj_get(tv, "red") {
                    Some(x) => Red {
                        has_won: get_bool_or_false(x, "has_won"),
                        rounds_won: get_i32_or_zero(x, "rounds_won"),
                        rounds_lost: get_i32_or_zero(x, "rounds_lost"),
                    },
                    None => default.red,
                };
                let blue = match obj_get(tv, "blue") {
                    Some(x) => Blue {
                        has_won: get_bool_or_false(x, "has_won"),
                        rounds_won: get_i32_or_zero(x, "rounds_won"),
                        rounds_lost: get_i32_or_zero(x, "rounds_lost"),
                    },
                    None => default.blue,
                };
                Teams { red, blue }
            },
            _ => default,
        },
        None => default,
    }
}

impl MatchData {
    /// Translates one payload into the fixed schema; see the free function
    /// of the same name.
    pub fn from_match_json(root: &JsonVal) -> (r: Option<MatchData>)
        ensures
            r matches Some(md) ==> parse_ok(root@) && md@ == spec_parse(root@),
            r is None ==> !parse_ok(root@),
    {
        from_match_json(root)
    }
}

/// Translates one payload into the fixed schema. Succeeds exactly when a
/// match id can be located; every other field defaults to its zero value
/// rather than failing the whole parse.
#[verifier::loop_isolation(false)]
pub fn from_match_json(root: &JsonVal) -> (r: Option<MatchData>)
    ensures
        r matches Some(md) ==> parse_ok(root@) && md@ == spec_parse(root@),
        r is None ==> !parse_ok(root@),
{
    let d = match obj_get(root, "data") {
        Some(x) => x,
        None => root,
    };
    proof {
        assert(d@ == data_of(root@));
    }
    let mm = match obj_get(d, "metadata") {
        Some(x) => x,
        None => {
            return None;
        },
    };
    let match_id = match get_str(mm, "match_id") {
        Some(s) => s.clone(),
        None => {
            return None;
        },
    };
    let map_name = match obj_get(mm, "map") {
        Some(mv) => get_str_or_empty(mv, "name"),
        None => String::new(),
    };
    let game_len = match obj_get(mm, "game_length_in_ms") {
        Some(x) => match x {
            JsonVal::Int(i) => #[verifier::truncate] (*i as i32),
            _ => 0,
        },
        None => get_i32_or_zero(d, "game_length_in_ms"),
    };
    let started_at = match get_str(mm, "started_at") {
        Some(s) => s.clone(),
        None => get_str_or_empty(d, "started_at"),
    };
    let null_v = JsonVal::Null;
    let qv = match obj_get(mm, "queue") {
        Some(q) => q,
        None => match obj_get(d, "queue") {
            Some(q) => q,
            None => &null_v,
        },
    };
    let queue = Queue {
        id: get_str_or_empty(qv, "id"),
        name: get_str_or_empty(qv, "name"),
        mode_type: get_str_or_empty(qv, "mode_type"),
    };
    let mut players: Vec<Players> = Vec::new();
    match obj_get(d, "players") {
        Some(pv) => match pv {
            JsonVal::Arr(elems) => {
                parse_players_arr(elems, &mut players);
            },
            JsonVal::Obj(_) => match obj_get(pv, "all") {
                Some(JsonVal::Arr(elems)) => {
                    parse_players_arr(elems, &mut players);
                },
                _ => {
                    match obj_get(pv, "red") {
                        Some(JsonVal::Arr(elems)) => {
                            parse_players_arr(elems, &mut players);
                        },
                        _ => {},
                    }
                    match obj_get(pv, "blue") {
                        Some(JsonVal::Arr(elems)) => {
                            parse_players_arr(elems, &mut players);
                        },
                        _ => {},
                    }
                    proof {
                        assert(players_view(players@) =~= side_players(pv@, "red"@)
                            + side_players(pv@, "blue"@));
                    }
                },
            },
            _ => {},
        },
        None => {},
    }
    let teams = parse_teams(d);
    let mut kills: Vec<Kills> = Vec::new();
    match obj_get(d, "kills") {
        Some(kv) => match kv {
            JsonVal::Arr(elems) => {
                let ghost kms = crate::json::arr_view(elems@);
                proof {
                    crate::json::lemma_arr_view(elems@);
                }
                let n = elems.len();
                let mut j: usize = 0;
                while j < n
                    invariant
                        j <= n,
                        kills@.len() == j,
                        forall|i: int| 0 <= i < j ==> #[trigger] kills@[i]@ == spec_kill_of(kms[i]),
                    decreases n - j,
                {
                    let k = parse_kill(&elems[j]);
                    kills.push(k);
                    j += 1;
                }
                proof {
                    assert(kills@.map_values(|k: Kills| k@) =~= kms.map_values(
                        |k: JsonModel| spec_kill_of(k),
                    ));
                }
            },
            _ => {},
        },
        None => {},
    }
    let md = MatchData {
        metadata: Metadata { match_id, map: GameMap { name: map_name } },
        game_length_in_ms: game_len,
        started_at,
        queue,
        players,
        teams,
        kills,
    };
    proof {
        assert(md@.players =~= players_view(md.players@));
        assert(players_view(md.players@) =~= spec_players(data_of(root@)));
        assert(md@.kills =~= spec_kills(data_of(root@)));
    }
    Some(md)
}

} // verus!
