//! A match as the device keeps it, copied out of a response of the match service.

use crate::text::{copy_str, whole_or_empty, Text};
use vstd::prelude::*;
use vstd::utf8::encode_utf8;

verus! {

/// The number of players that a match holds at most.
pub const MAX_PLAYERS: usize = 10;

// --- The response of the match service ---

/// A response: a status, and the matches found.
pub struct MatchResponse<'a> {
    pub status: u16,
    pub data: heapless::Vec<MatchData<'a>, 1>,
}

pub struct MatchData<'a> {
    pub metadata: MatchMetadata<'a>,
    pub players: PlayersData<'a>,
    pub teams: TeamsData,
}

pub struct MatchMetadata<'a> {
    pub map: &'a str,
    pub mode: &'a str,
    pub game_start: &'a str,
    pub rounds_played: u32,
    pub region: &'a str,
}

pub struct PlayersData<'a> {
    pub all_players: heapless::Vec<PlayerSummary<'a>, 10>,
}

pub struct PlayerSummary<'a> {
    pub name: &'a str,
    pub tag: &'a str,
    pub team: &'a str,
    pub character: &'a str,
    pub rank: &'a str,
    pub stats: PlayerStats,
}

pub struct PlayerStats {
    pub score: u32,
    pub kills: u32,
    pub deaths: u32,
    pub assists: u32,
    pub headshots: u32,
    pub bodyshots: u32,
    pub legshots: u32,
}

pub struct TeamsData {
    pub red: TeamResult,
    pub blue: TeamResult,
}

pub struct TeamResult {
    pub has_won: bool,
    pub rounds_won: u32,
    pub rounds_lost: u32,
}

// --- What is kept of it ---

/// Owned summary of a match.
pub struct MatchInfo {
    pub map: Text<32>,
    pub mode: Text<32>,
    pub game_start: Text<64>,
    pub rounds_played: u32,
    pub region: Text<8>,
    pub red_rounds_won: u32,
    pub blue_rounds_won: u32,
    pub red_has_won: bool,
    pub players: heapless::Vec<PlayerInfo, 10>,
}

/// Statistics of one player in one match.
pub struct PlayerInfo {
    pub name: Text<32>,
    pub tag: Text<8>,
    pub team: Text<8>,
    pub character: Text<16>,
    pub rank: Text<16>,
    pub kills: u32,
    pub deaths: u32,
    pub assists: u32,
    pub headshots: u32,
}

impl PlayerInfo {
    /// Whether this is what is kept of `p`.
    pub open spec fn copies(self, p: PlayerSummary<'_>) -> bool {
        &&& self.fits()
        &&& self.name@ == whole_or_empty(p.name@, 32)
        &&& self.tag@ == whole_or_empty(p.tag@, 8)
        &&& self.team@ == whole_or_empty(p.team@, 8)
        &&& self.character@ == whole_or_empty(p.character@, 16)
        &&& self.rank@ == whole_or_empty(p.rank@, 16)
        &&& self.kills == p.stats.kills
        &&& self.deaths == p.stats.deaths
        &&& self.assists == p.stats.assists
        &&& self.headshots == p.stats.headshots
    }

    pub open spec fn fits(self) -> bool {
        &&& self.name.fits()
        &&& self.tag.fits()
        &&& self.team.fits()
        &&& self.character.fits()
        &&& self.rank.fits()
    }
}

impl MatchInfo {
    /// Whether this is what is kept of `m`, every player among it.
    pub open spec fn copies(self, m: MatchData<'_>) -> bool {
        let given = listed(m.players.all_players);
        let kept = roster(self.players);
        &&& self.fits()
        &&& self.map@ == whole_or_empty(m.metadata.map@, 32)
        &&& self.mode@ == whole_or_empty(m.metadata.mode@, 32)
        &&& self.game_start@ == whole_or_empty(m.metadata.game_start@, 64)
        &&& self.rounds_played == m.metadata.rounds_played
        &&& self.region@ == whole_or_empty(m.metadata.region@, 8)
        &&& self.red_rounds_won == m.teams.red.rounds_won
        &&& self.blue_rounds_won == m.teams.blue.rounds_won
        &&& self.red_has_won == m.teams.red.has_won
        &&& kept.len() == given.len()
        &&& forall|i: int| 0 <= i < kept.len() ==> (#[trigger] kept[i]).copies(given[i])
    }

    /// Whether every text is within its bound.
    pub open spec fn fits(self) -> bool {
        &&& self.map.fits()
        &&& self.mode.fits()
        &&& self.game_start.fits()
        &&& self.region.fits()
        &&& roster(self.players).len() <= MAX_PLAYERS
        &&& forall|i: int|
            0 <= i < roster(self.players).len() ==> (#[trigger] roster(self.players)[i]).fits()
    }
}

// --- The lists ---

/// `heapless::Vec`, a vector of fixed capacity.
#[verifier::external_type_specification]
#[verifier::external_body]
#[verifier::reject_recursive_types(T)]
pub struct ExHeaplessVec<T, const N: usize>(heapless::Vec<T, N>);

/// What a list of players holds, in order.
pub uninterp spec fn roster(players: heapless::Vec<PlayerInfo, 10>) -> Seq<PlayerInfo>;

/// What the list of matches in a response holds, in order.
pub uninterp spec fn matches_in(data: heapless::Vec<MatchData<'_>, 1>) -> Seq<MatchData<'_>>;

/// What the list of players in a response holds, in order.
pub uninterp spec fn listed(
    players: heapless::Vec<PlayerSummary<'_>, 10>,
) -> Seq<PlayerSummary<'_>>;

/// `heapless::Vec::as_slice` on the matches of a response shows them in order; there
/// are never more than the capacity.
#[verifier::external_body]
pub(crate) fn match_slice<'s, 'a>(
    data: &'s heapless::Vec<MatchData<'a>, 1>,
) -> (slice: &'s [MatchData<'a>])
    ensures
        slice@ == matches_in(*data),
        slice@.len() <= 1,
{
    data.as_slice()
}

/// `heapless::Vec::as_slice` on the players of a response shows them in order; there
/// are never more than the capacity.
#[verifier::external_body]
fn listed_slice<'s, 'a>(
    players: &'s heapless::Vec<PlayerSummary<'a>, 10>,
) -> (slice: &'s [PlayerSummary<'a>])
    ensures
        slice@ == listed(*players),
        slice@.len() <= 10,
{
    players.as_slice()
}

/// `heapless::Vec::new` gives a vector that holds nothing.
#[verifier::external_body]
fn no_players() -> (players: heapless::Vec<PlayerInfo, 10>)
    ensures
        roster(players) == Seq::<PlayerInfo>::empty(),
{
    heapless::Vec::new()
}

/// `heapless::Vec::push` appends the item while fewer items than the capacity are
/// held. On a full vector it changes nothing and hands the item back.
#[verifier::external_body]
fn push_player(
    players: &mut heapless::Vec<PlayerInfo, 10>,
    player: PlayerInfo,
) -> (pushed: Result<(), PlayerInfo>)
    ensures
        roster(*old(players)).len() < 10 ==> pushed is Ok,
        roster(*old(players)).len() < 10 ==> roster(*final(players)) == roster(*old(players)).push(
            player,
        ),
        roster(*old(players)).len() >= 10 ==> pushed is Err && pushed->Err_0 == player,
        roster(*old(players)).len() >= 10 ==> roster(*final(players)) == roster(*old(players)),
{
    players.push(player)
}

/// `heapless::Vec::as_slice` on the players that are kept shows them in order; there
/// are never more than the capacity.
#[verifier::external_body]
pub(crate) fn player_slice(players: &heapless::Vec<PlayerInfo, 10>) -> (slice: &[PlayerInfo])
    ensures
        slice@ == roster(*players),
        slice@.len() <= 10,
{
    players.as_slice()
}

/// Copies a player.
fn copy_player(p: &PlayerSummary<'_>) -> (info: PlayerInfo)
    ensures
        info.copies(*p),
{
    PlayerInfo {
        name: copy_str(p.name),
        tag: copy_str(p.tag),
        team: copy_str(p.team),
        character: copy_str(p.character),
        rank: copy_str(p.rank),
        kills: p.stats.kills,
        deaths: p.stats.deaths,
        assists: p.stats.assists,
        headshots: p.stats.headshots,
    }
}

/// Copies a match out of a response.
pub fn copy_match(m: &MatchData<'_>) -> (info: MatchInfo)
    ensures
        info.copies(*m),
{
    let all = listed_slice(&m.players.all_players);
    let ghost given = listed(m.players.all_players);
    let mut players = no_players();
    let mut i: usize = 0;
    while i < all.len()
        invariant
            given == all@,
            i <= given.len() <= 10,
            roster(players).len() == i,
            forall|k: int|
                0 <= k < roster(players).len() ==> (#[trigger] roster(players)[k]).copies(given[k]),
        decreases given.len() - i,
    {
        let _ = push_player(&mut players, copy_player(&all[i]));
        i = i + 1;
    }

    MatchInfo {
        map: copy_str(m.metadata.map),
        mode: copy_str(m.metadata.mode),
        game_start: copy_str(m.metadata.game_start),
        rounds_played: m.metadata.rounds_played,
        region: copy_str(m.metadata.region),
        red_rounds_won: m.teams.red.rounds_won,
        blue_rounds_won: m.teams.blue.rounds_won,
        red_has_won: m.teams.red.has_won,
        players,
    }
}

/// A copied player has the numbers of the player, and every text of theirs that fits.
pub proof fn players_are_copied_field_by_field(info: PlayerInfo, p: PlayerSummary<'_>)
    requires
        info.copies(p),
    ensures
        info.kills == p.stats.kills,
        info.deaths == p.stats.deaths,
        info.assists == p.stats.assists,
        info.headshots == p.stats.headshots,
        encode_utf8(p.name@).len() <= 32 ==> info.name@ == p.name@,
        encode_utf8(p.name@).len() > 32 ==> info.name@.len() == 0,
        encode_utf8(p.tag@).len() <= 8 ==> info.tag@ == p.tag@,
        encode_utf8(p.tag@).len() > 8 ==> info.tag@.len() == 0,
        encode_utf8(p.team@).len() <= 8 ==> info.team@ == p.team@,
        encode_utf8(p.team@).len() > 8 ==> info.team@.len() == 0,
        encode_utf8(p.character@).len() <= 16 ==> info.character@ == p.character@,
        encode_utf8(p.character@).len() > 16 ==> info.character@.len() == 0,
        encode_utf8(p.rank@).len() <= 16 ==> info.rank@ == p.rank@,
        encode_utf8(p.rank@).len() > 16 ==> info.rank@.len() == 0,
{
}

/// A copied match has the numbers of the match, every text of it that fits, and its
/// players in order.
pub proof fn matches_are_copied_field_by_field(info: MatchInfo, m: MatchData<'_>, i: int)
    requires
        info.copies(m),
    ensures
        info.rounds_played == m.metadata.rounds_played,
        info.red_rounds_won == m.teams.red.rounds_won,
        info.blue_rounds_won == m.teams.blue.rounds_won,
        info.red_has_won == m.teams.red.has_won,
        encode_utf8(m.metadata.map@).len() <= 32 ==> info.map@ == m.metadata.map@,
        encode_utf8(m.metadata.map@).len() > 32 ==> info.map@.len() == 0,
        encode_utf8(m.metadata.mode@).len() <= 32 ==> info.mode@ == m.metadata.mode@,
        encode_utf8(m.metadata.mode@).len() > 32 ==> info.mode@.len() == 0,
        encode_utf8(m.metadata.game_start@).len() <= 64 ==> info.game_start@
            == m.metadata.game_start@,
        encode_utf8(m.metadata.game_start@).len() > 64 ==> info.game_start@.len() == 0,
        encode_utf8(m.metadata.region@).len() <= 8 ==> info.region@ == m.metadata.region@,
        encode_utf8(m.metadata.region@).len() > 8 ==> info.region@.len() == 0,
        roster(info.players).len() == listed(m.players.all_players).len(),
        0 <= i < roster(info.players).len() ==> roster(info.players)[i].copies(
            listed(m.players.all_players)[i],
        ),
{
}

} // verus!
