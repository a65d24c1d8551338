//! Per-player aggregate statistics, keyed by puuid, as stored alongside the
//! match data.

use vstd::prelude::*;

verus! {

#[derive(Debug, Clone, PartialEq, Eq)]
pub struct PlayerData {
    pub player: Vec<Player>,
}

#[derive(Debug, Clone, PartialEq, Eq)]
pub struct Player {
    pub puuid: String,
    pub name: String,
    pub tag: String,
    /// Present once the player has linked an account.
    pub discord_id: Option<String>,
    pub player_stats: PlayerStats,
    /// Unix timestamp of the last refresh.
    pub last_updated: i64,
}

#[derive(Debug, Clone, PartialEq, Eq)]
pub struct PlayerStats {
    /// Seconds.
    pub time_played: i64,
    pub total_kills: i32,
    pub total_deaths: i32,
    pub total_assists: i32,
    pub total_aces: i32,
    pub total_headshots: i32,
    pub total_bodyshots: i32,
    pub total_legshots: i32,
    pub total_score: i32,
    pub total_damage_dealt: i32,
    pub total_damage_received: i32,
    pub total_wins: i32,
    pub total_losses: i32,
    pub total_rounds_won: i32,
    pub total_rounds_lost: i32,
    pub total_matches_played: i32,
    pub total_matches_won: i32,
    pub total_matches_lost: i32,
    pub match_player_stats: MatchPlayerStats,
    pub weapon_player_stats: WeaponPlayerStats,
    pub player_versus_player_stats: PlayerVsPlayerStats,
    pub account_level: i32,
    pub session_playtime_in_ms: i64,
    pub behavior: PlayerBehavior,
    pub economy: PlayerEconomy,
    pub ability_casts: AbilityCasts,
}

#[derive(Debug, Clone, Copy, PartialEq, Eq, Structural)]
pub struct PlayerBehavior {
    pub afk_rounds: i32,
    pub friendly_fire: FriendlyFire,
    pub rounds_in_spawn: i32,
}

#[derive(Debug, Clone, Copy, PartialEq, Eq, Structural)]
pub struct FriendlyFire {
    pub incoming: i32,
    pub outgoing: i32,
}

#[derive(Debug, Clone, Copy, PartialEq, Eq, Structural)]
pub struct PlayerEconomy {
    pub spent: EconomySpent,
    pub loadout_value: LoadoutValue,
}

#[derive(Debug, Clone, Copy, PartialEq, Eq, Structural)]
pub struct EconomySpent {
    pub overall: i32,
    pub average: i32,
}

#[derive(Debug, Clone, Copy, PartialEq, Eq, Structural)]
pub struct LoadoutValue {
    pub overall: i32,
    pub average: i32,
}

#[derive(Debug, Clone, Copy, PartialEq, Eq, Structural)]
pub struct AbilityCasts {
    pub grenade: i32,
    pub ability_1: i32,
    pub ability_2: i32,
    pub ultimate: i32,
}

#[derive(Debug, Clone, Copy, PartialEq, Eq, Structural)]
pub struct MatchPlayerStats {
    pub total_rounds_won: i32,
    pub total_rounds_lost: i32,
    pub total_matches_played: i32,
    pub total_matches_won: i32,
    pub total_matches_lost: i32,
}

#[derive(Debug, Clone, PartialEq, Eq)]
pub struct WeaponPlayerStats {
    pub weapon_stats: Vec<WeaponStats>,
}

/// Head-to-head material: who this player removed and who removed them.
#[derive(Debug, Clone, PartialEq, Eq)]
pub struct PlayerVsPlayerStats {
    pub total_killed_victims: String,
    pub total_deaths_by_killers: String,
}

#[derive(Debug, Clone, PartialEq, Eq)]
pub struct WeaponStats {
    pub weapon_id: String,
    pub weapon_name: String,
    pub total_weapon_kills: i32,
    pub total_weapon_headshots: i32,
    pub total_weapon_bodyshots: i32,
    pub total_weapon_legshots: i32,
    pub total_damage: i32,
}

} // verus!
