//! A match on the screen: what is drawn, and where.

use crate::match_info::{player_slice, roster, MatchInfo, PlayerInfo};
use crate::text::{
    ascii_len, encode_concat, joined, utf8_len, whole_pieces_are_written, written, written_fits,
    Text,
};
use vstd::arithmetic::div_mod::lemma_div_denominator;
use vstd::arithmetic::power::{lemma_pow_positive, pow};
use vstd::prelude::*;
use vstd::string::StringExecFns;
use vstd::utf8::{encode_utf8, is_ascii_chars};

verus! {

/// The width of the screen in pixels.
pub const SCREEN_WIDTH: u16 = 240;

/// The height of the screen in pixels.
pub const SCREEN_HEIGHT: u16 = 320;

/// Where lines start.
pub const MARGIN: i32 = 10;

/// The lowest place of a player's line.
pub const LAST_LINE: i32 = 300;

/// How a text looks.
#[derive(Debug, Clone, Copy, PartialEq, Eq, Structural)]
pub enum TextStyle {
    White,
    DarkGray,
}

/// A thing to draw. Drawn in order, the things make up a screen.
#[derive(Debug)]
pub enum DrawCommand {
    /// Make the whole screen black.
    Clear,
    /// Write a line of text that starts at `x` and stands on `y`.
    Line { text: String, x: i32, y: i32, style: TextStyle },
    /// Fill a rectangle with white.
    Fill { x: i32, y: i32, width: u32, height: u32 },
}

/// A thing to draw, over characters.
pub enum DrawModel {
    Clear,
    Line { text: Seq<char>, x: int, y: int, style: TextStyle },
    Fill { x: int, y: int, width: int, height: int },
}

impl View for DrawCommand {
    type V = DrawModel;

    open spec fn view(&self) -> DrawModel {
        match *self {
            DrawCommand::Clear => DrawModel::Clear,
            DrawCommand::Line { text, x, y, style } => DrawModel::Line {
                text: text@,
                x: x as int,
                y: y as int,
                style,
            },
            DrawCommand::Fill { x, y, width, height } => DrawModel::Fill {
                x: x as int,
                y: y as int,
                width: width as int,
                height: height as int,
            },
        }
    }
}

/// The decimal digit for a number below ten.
pub open spec fn digit(n: nat) -> char {
    (0x30 + n) as char
}

/// A number in decimal digits.
pub open spec fn decimal(n: nat) -> Seq<char>
    decreases n,
{
    if n < 10 {
        seq![digit(n)]
    } else {
        decimal(n / 10) + seq![digit(n % 10)]
    }
}

/// The line with the map and the mode.
pub open spec fn header_line(m: MatchInfo) -> Seq<char> {
    written(Seq::empty(), seq![m.map@, " | "@, m.mode@], 32)
}

pub open spec fn score_pieces(red: nat, blue: nat) -> Seq<Seq<char>> {
    seq!["Red "@, decimal(red), " - "@, decimal(blue), " Blue"@]
}

/// The line with the rounds won.
pub open spec fn score_line(m: MatchInfo) -> Seq<char> {
    written(
        Seq::empty(),
        score_pieces(m.red_rounds_won as nat, m.blue_rounds_won as nat),
        32,
    )
}

/// The line with the winner.
pub open spec fn winner_line(m: MatchInfo) -> Seq<char> {
    if m.red_has_won {
        "Winner: Red"@
    } else {
        "Winner: Blue"@
    }
}

pub open spec fn player_pieces(p: PlayerInfo) -> Seq<Seq<char>> {
    seq![
        p.name@,
        " ("@,
        p.character@,
        ") "@,
        decimal(p.kills as nat),
        "/"@,
        decimal(p.deaths as nat),
    ]
}

/// The line of a player.
pub open spec fn player_line(p: PlayerInfo) -> Seq<char> {
    written(Seq::empty(), player_pieces(p), 48)
}

/// Where the line of the `i`th player stands.
pub open spec fn player_y(i: int) -> int {
    62 + 12 * i
}

/// How many of `n` players there is room for.
pub open spec fn players_shown(n: nat) -> nat
    decreases n,
{
    if n == 0 || player_y(n - 1) <= LAST_LINE {
        n
    } else {
        players_shown((n - 1) as nat)
    }
}

/// What is drawn above the players.
pub open spec fn top_of_screen(m: MatchInfo) -> Seq<DrawModel> {
    seq![
        DrawModel::Clear,
        DrawModel::Line { text: header_line(m), x: 10, y: 10, style: TextStyle::White },
        DrawModel::Line { text: score_line(m), x: 10, y: 24, style: TextStyle::White },
        DrawModel::Line { text: winner_line(m), x: 10, y: 38, style: TextStyle::White },
        DrawModel::Fill { x: 10, y: 54, width: 220, height: 1 },
    ]
}

/// The lines of the first `n` players.
pub open spec fn player_lines(players: Seq<PlayerInfo>, n: nat) -> Seq<DrawModel> {
    Seq::new(
        n,
        |i: int|
            DrawModel::Line {
                text: player_line(players[i]),
                x: 10,
                y: player_y(i),
                style: TextStyle::DarkGray,
            },
    )
}

/// What is drawn for a match.
pub open spec fn drawing(m: MatchInfo) -> Seq<DrawModel> {
    let players = roster(m.players);
    top_of_screen(m) + player_lines(players, players_shown(players.len()))
}

/// What a sequence of commands draws.
pub open spec fn drawn(commands: Seq<DrawCommand>) -> Seq<DrawModel> {
    Seq::new(commands.len(), |i: int| commands[i]@)
}

fn digit_str(n: u32) -> (s: &'static str)
    requires
        n < 10,
    ensures
        s@ == seq![digit(n as nat)],
{
    proof {
        reveal_strlit("0");
        reveal_strlit("1");
        reveal_strlit("2");
        reveal_strlit("3");
        reveal_strlit("4");
        reveal_strlit("5");
        reveal_strlit("6");
        reveal_strlit("7");
        reveal_strlit("8");
        reveal_strlit("9");
    }
    let s = match n {
        0 => "0",
        1 => "1",
        2 => "2",
        3 => "3",
        4 => "4",
        5 => "5",
        6 => "6",
        7 => "7",
        8 => "8",
        _ => "9",
    };
    assert(s@ =~= seq![digit(n as nat)]);
    s
}

/// Writes a number in decimal digits.
pub fn write_decimal(n: u32) -> (s: String)
    ensures
        s@ == decimal(n as nat),
    decreases n,
{
    if n < 10 {
        digit_str(n).to_owned()
    } else {
        let mut s = write_decimal(n / 10);
        s.append(digit_str(n % 10));
        s
    }
}

fn header_text(m: &MatchInfo) -> (header: Text<32>)
    ensures
        header@ == header_line(*m),
{
    let mut header: Text<32> = Text::new();
    let pieces = [m.map.as_str(), " | ", m.mode.as_str()];
    header.write_pieces(&pieces);
    assert(Seq::new(3, |i: int| pieces@[i]@) =~= seq![m.map@, " | "@, m.mode@]);
    header
}

fn score_text(m: &MatchInfo) -> (score: Text<32>)
    ensures
        score@ == score_line(*m),
{
    let mut score: Text<32> = Text::new();
    let red = write_decimal(m.red_rounds_won);
    let blue = write_decimal(m.blue_rounds_won);
    let pieces = ["Red ", red.as_str(), " - ", blue.as_str(), " Blue"];
    score.write_pieces(&pieces);
    assert(Seq::new(5, |i: int| pieces@[i]@) =~= score_pieces(
        m.red_rounds_won as nat,
        m.blue_rounds_won as nat,
    ));
    score
}

fn winner_text(m: &MatchInfo) -> (winner: &'static str)
    ensures
        winner@ == winner_line(*m),
{
    if m.red_has_won {
        "Winner: Red"
    } else {
        "Winner: Blue"
    }
}

fn player_text(p: &PlayerInfo) -> (text: Text<48>)
    ensures
        text@ == player_line(*p),
{
    let mut text: Text<48> = Text::new();
    let kills = write_decimal(p.kills);
    let deaths = write_decimal(p.deaths);
    let pieces = [
        p.name.as_str(),
        " (",
        p.character.as_str(),
        ") ",
        kills.as_str(),
        "/",
        deaths.as_str(),
    ];
    text.write_pieces(&pieces);
    assert(Seq::new(7, |i: int| pieces@[i]@) =~= player_pieces(*p));
    text
}

/// Draws a line at the margin.
fn line(text: &str, y: i32, style: TextStyle) -> (command: DrawCommand)
    ensures
        command@ == (DrawModel::Line { text: text@, x: 10, y: y as int, style }),
{
    DrawCommand::Line { text: text.to_owned(), x: MARGIN, y, style }
}

/// The full summary of a match, as things to draw.
pub fn draw_match(m: &MatchInfo) -> (commands: Vec<DrawCommand>)
    ensures
        drawn(commands@) == drawing(*m),
        commands@.len() == 5 + roster(m.players).len(),
        roster(m.players).len() <= 10,
{
    let mut commands: Vec<DrawCommand> = Vec::new();
    let mut y: i32 = 10;
    commands.push(DrawCommand::Clear);
    commands.push(line(header_text(m).as_str(), y, TextStyle::White));
    y = y + 14;
    commands.push(line(score_text(m).as_str(), y, TextStyle::White));
    y = y + 14;
    commands.push(line(winner_text(m), y, TextStyle::White));
    y = y + 16;
    commands.push(DrawCommand::Fill { x: MARGIN, y, width: 220, height: 1 });
    y = y + 8;
    assert(drawn(commands@) =~= top_of_screen(*m));

    let players = player_slice(&m.players);
    let ghost all = roster(m.players);
    let mut i: usize = 0;
    while i < players.len() && y <= LAST_LINE
        invariant
            i <= players@.len() <= 10,
            players@ == all,
            y == player_y(i as int),
            drawn(commands@) == top_of_screen(*m) + player_lines(all, i as nat),
        decreases players@.len() - i,
    {
        let text = player_text(&players[i]);
        let ghost before = commands@;
        commands.push(line(text.as_str(), y, TextStyle::DarkGray));
        assert(drawn(commands@) =~= drawn(before).push(commands@.last()@));
        assert(player_lines(all, i as nat + 1) =~= player_lines(all, i as nat).push(
            commands@.last()@,
        ));
        y = y + 12;
        i = i + 1;
    }
    proof {
        commands_lay_out_the_match(commands@, *m, 0);
    }
    commands
}

/// A number has as few digits as it takes, all of them ASCII.
pub proof fn decimal_len(n: nat, digits: nat, bound: nat)
    requires
        digits > 0,
        n < bound,
        bound == ten_to_the(digits),
    ensures
        0 < decimal(n).len() <= digits,
        is_ascii_chars(decimal(n)),
    decreases digits,
{
    if n >= 10 {
        if digits > 1 {
            decimal_len(n / 10, (digits - 1) as nat, ten_to_the((digits - 1) as nat));
        } else {
            assert(ten_to_the(1) == 10 * ten_to_the(0));
        }
    }
}

pub open spec fn ten_to_the(k: nat) -> nat
    decreases k,
{
    if k == 0 {
        1
    } else {
        10 * ten_to_the((k - 1) as nat)
    }
}

/// The score is always shown in full.
pub proof fn score_is_shown_in_full(red: u32, blue: u32)
    ensures
        written(Seq::empty(), score_pieces(red as nat, blue as nat), 32) == "Red "@ + decimal(
            red as nat,
        ) + " - "@ + decimal(blue as nat) + " Blue"@,
{
    reveal_strlit("Red ");
    reveal_strlit(" - ");
    reveal_strlit(" Blue");
    reveal_with_fuel(ten_to_the, 11);
    decimal_len(red as nat, 10, ten_to_the(10));
    decimal_len(blue as nat, 10, ten_to_the(10));
    let pieces = score_pieces(red as nat, blue as nat);
    let whole = "Red "@ + decimal(red as nat) + " - "@ + decimal(blue as nat) + " Blue"@;
    reveal_with_fuel(joined, 6);
    assert(joined(pieces) =~= whole);
    assert(is_ascii_chars(whole));
    ascii_len(whole);
    written_fits(Seq::empty(), pieces, 32);
    assert(Seq::<char>::empty() + whole =~= whole);
}

/// What a pixel shows.
pub enum Color {
    Black,
    White,
    DarkGray,
}

/// What the pixels at each column and row of a screen show after `command`, where
/// they showed `screen` before. `ink` says which pixels, seen from where it starts, a
/// text covers; between its strokes the screen stays as it was.
pub open spec fn painted(
    screen: spec_fn(int, int) -> Color,
    command: DrawModel,
    ink: spec_fn(Seq<char>, int, int) -> bool,
) -> spec_fn(int, int) -> Color {
    match command {
        DrawModel::Clear => |column: int, row: int| Color::Black,
        DrawModel::Line { text, x, y, style } => |column: int, row: int|
            if ink(text, column - x, row - y) {
                match style {
                    TextStyle::White => Color::White,
                    TextStyle::DarkGray => Color::DarkGray,
                }
            } else {
                screen(column, row)
            },
        DrawModel::Fill { x, y, width, height } => |column: int, row: int|
            if x <= column < x + width && y <= row < y + height {
                Color::White
            } else {
                screen(column, row)
            },
    }
}

/// What a screen shows after all the commands.
pub open spec fn all_painted(
    screen: spec_fn(int, int) -> Color,
    commands: Seq<DrawModel>,
    ink: spec_fn(Seq<char>, int, int) -> bool,
) -> spec_fn(int, int) -> Color
    decreases commands.len(),
{
    if commands.len() == 0 {
        screen
    } else {
        all_painted(painted(screen, commands[0], ink), commands.drop_first(), ink)
    }
}

/// Nothing remains of what a screen showed before a match was drawn on it, whatever
/// the shapes of the letters, and drawing the match once more changes nothing.
pub proof fn drawing_replaces_the_screen(
    m: MatchInfo,
    before: spec_fn(int, int) -> Color,
    other: spec_fn(int, int) -> Color,
    ink: spec_fn(Seq<char>, int, int) -> bool,
)
    ensures
        all_painted(before, drawing(m), ink) == all_painted(other, drawing(m), ink),
        all_painted(all_painted(before, drawing(m), ink), drawing(m), ink) == all_painted(
            before,
            drawing(m),
            ink,
        ),
{
    let once = all_painted(before, drawing(m), ink);
    assert(drawing(m)[0] == DrawModel::Clear);
    assert(painted(before, DrawModel::Clear, ink) =~= painted(other, DrawModel::Clear, ink));
    assert(painted(once, DrawModel::Clear, ink) =~= painted(before, DrawModel::Clear, ink));
}

/// Every player of a match is shown, on a line of their own that lies on the
/// screen.
pub proof fn every_player_is_shown(m: MatchInfo)
    requires
        m.fits(),
    ensures
        drawing(m).len() == 5 + roster(m.players).len(),
        forall|i: int|
            0 <= i < roster(m.players).len() ==> #[trigger] drawing(m)[5 + i] == (DrawModel::Line {
                text: player_line(roster(m.players)[i]),
                x: 10,
                y: player_y(i),
                style: TextStyle::DarkGray,
            }),
        forall|i: int| 0 <= i < roster(m.players).len() ==> #[trigger] player_y(i) < SCREEN_HEIGHT,
{
}

/// A player whose name and character take no more than twenty-three bytes together
/// is shown with all their kills and deaths.
pub proof fn short_names_are_shown_in_full(p: PlayerInfo)
    requires
        utf8_len(p.name@) + utf8_len(p.character@) <= 23,
    ensures
        player_line(p) == p.name@ + " ("@ + p.character@ + ") "@ + decimal(p.kills as nat) + "/"@
            + decimal(p.deaths as nat),
{
    reveal_strlit(" (");
    reveal_strlit(") ");
    reveal_strlit("/");
    reveal_with_fuel(ten_to_the, 11);
    decimal_len(p.kills as nat, 10, ten_to_the(10));
    decimal_len(p.deaths as nat, 10, ten_to_the(10));
    let kills = decimal(p.kills as nat);
    let deaths = decimal(p.deaths as nat);
    let pieces = player_pieces(p);
    let whole = p.name@ + " ("@ + p.character@ + ") "@ + kills + "/"@ + deaths;
    reveal_with_fuel(joined, 8);
    assert(joined(pieces) =~= whole);
    ascii_len(" ("@);
    ascii_len(") "@);
    ascii_len("/"@);
    ascii_len(kills);
    ascii_len(deaths);
    encode_concat(p.name@, " ("@);
    encode_concat(p.name@ + " ("@, p.character@);
    encode_concat(p.name@ + " ("@ + p.character@, ") "@);
    encode_concat(p.name@ + " ("@ + p.character@ + ") "@, kills);
    encode_concat(p.name@ + " ("@ + p.character@ + ") "@ + kills, "/"@);
    encode_concat(p.name@ + " ("@ + p.character@ + ") "@ + kills + "/"@, deaths);
    written_fits(Seq::empty(), pieces, 48);
    assert(Seq::<char>::empty() + whole =~= whole);
}

/// The digits written for a number spell it: counted from the last one, the `i`th is
/// the number's digit for that power of ten, and there are as many as the number has,
/// so that none but a lone digit is a leading zero.
pub proof fn decimal_spells_the_number(n: nat)
    ensures
        decimal(n).len() > 0,
        n < pow(10, decimal(n).len()),
        decimal(n).len() > 1 ==> pow(10, (decimal(n).len() - 1) as nat) <= n,
        forall|i: int|
            0 <= i < decimal(n).len() ==> #[trigger] decimal(n)[decimal(n).len() - 1 - i] as int
                == 0x30 + n as int / pow(10, i as nat) % 10,
    decreases n,
{
    let d = decimal(n);
    if n < 10 {
        assert(pow(10, 0) == 1 && pow(10, 1) == 10) by {
            reveal_with_fuel(pow, 2);
        }
        assert forall|i: int| 0 <= i < d.len() implies #[trigger] d[d.len() - 1 - i] as int == 0x30
            + n as int / pow(10, i as nat) % 10 by {
            assert(i == 0);
        }
    } else {
        let m = n / 10;
        let e = decimal(m);
        decimal_spells_the_number(m);
        assert(d.len() == e.len() + 1);
        assert(pow(10, d.len()) == 10 * pow(10, e.len())) by {
            reveal(pow);
        }
        assert(pow(10, e.len()) == 10 * pow(10, (e.len() - 1) as nat)) by {
            reveal(pow);
        }
        assert(pow(10, e.len()) <= n) by {
            if e.len() == 1 {
                assert(pow(10, 0) == 1) by {
                    reveal(pow);
                }
            }
        }
        assert forall|i: int| 0 <= i < d.len() implies #[trigger] d[d.len() - 1 - i] as int == 0x30
            + n as int / pow(10, i as nat) % 10 by {
            if i == 0 {
                assert(pow(10, 0) == 1) by {
                    reveal(pow);
                }
            } else {
                let p = pow(10, (i - 1) as nat);
                assert(pow(10, i as nat) == 10 * p) by {
                    reveal(pow);
                }
                lemma_pow_positive(10, (i - 1) as nat);
                lemma_div_denominator(n as int, 10, p);
                assert(d[d.len() - 1 - i] == e[e.len() - 1 - (i - 1)]);
            }
        }
    }
}

/// Different numbers are written differently.
pub proof fn different_numbers_are_written_differently(a: nat, b: nat)
    requires
        decimal(a) == decimal(b),
    ensures
        a == b,
    decreases a,
{
    decimal_spells_the_number(a);
    decimal_spells_the_number(b);
    assert(pow(10, 0) == 1 && pow(10, 1) == 10) by {
        reveal_with_fuel(pow, 2);
    }
    let last = decimal(a).len() - 1;
    assert(decimal(a)[last - 0] as int == 0x30 + a as int / pow(10, 0) % 10);
    assert(decimal(b)[last - 0] as int == 0x30 + b as int / pow(10, 0) % 10);
    if a >= 10 && b >= 10 {
        assert(decimal(a).drop_last() =~= decimal(a / 10));
        assert(decimal(b).drop_last() =~= decimal(b / 10));
        different_numbers_are_written_differently(a / 10, b / 10);
    } else if a >= 10 {
        decimal_spells_the_number(a / 10);
    } else if b >= 10 {
        decimal_spells_the_number(b / 10);
    }
}

/// The lines of the score and the winner say what the match says.
pub proof fn score_and_winner_are_those_of_the_match(m: MatchInfo)
    ensures
        score_line(m) == "Red "@ + decimal(m.red_rounds_won as nat) + " - "@ + decimal(
            m.blue_rounds_won as nat,
        ) + " Blue"@,
        m.red_has_won ==> winner_line(m) == "Winner: Red"@,
        !m.red_has_won ==> winner_line(m) == "Winner: Blue"@,
{
    score_is_shown_in_full(m.red_rounds_won, m.blue_rounds_won);
}

/// The first line holds the map, a bar and the mode, whole and in this order, as many
/// of them as fit into 32 bytes: the first `k`.
pub proof fn first_line_names_map_and_mode(m: MatchInfo) -> (k: int)
    ensures
        ({
            let pieces = seq![m.map@, " | "@, m.mode@];
            &&& 0 <= k <= 3
            &&& header_line(m) == joined(pieces.take(k))
            &&& encode_utf8(header_line(m)).len() <= 32
            &&& k < 3 ==> encode_utf8(header_line(m)).len() + encode_utf8(pieces[k]).len() > 32
        }),
{
    let k = whole_pieces_are_written(Seq::empty(), seq![m.map@, " | "@, m.mode@], 32);
    assert(Seq::<char>::empty() + joined(seq![m.map@, " | "@, m.mode@].take(k)) =~= joined(
        seq![m.map@, " | "@, m.mode@].take(k),
    ));
    k
}

/// A player's line holds their name, character, kills and deaths, whole and in this
/// order, as many of these pieces as fit into 48 bytes: the first `k`.
pub proof fn player_line_names_the_player(p: PlayerInfo) -> (k: int)
    ensures
        ({
            let pieces = seq![
                p.name@,
                " ("@,
                p.character@,
                ") "@,
                decimal(p.kills as nat),
                "/"@,
                decimal(p.deaths as nat),
            ];
            &&& 0 <= k <= 7
            &&& player_line(p) == joined(pieces.take(k))
            &&& encode_utf8(player_line(p)).len() <= 48
            &&& k < 7 ==> encode_utf8(player_line(p)).len() + encode_utf8(pieces[k]).len() > 48
        }),
{
    let k = whole_pieces_are_written(Seq::empty(), player_pieces(p), 48);
    assert(Seq::<char>::empty() + joined(player_pieces(p).take(k)) =~= joined(
        player_pieces(p).take(k),
    ));
    k
}

/// The commands for a match: the screen is cleared, the three lines of the match stand
/// at the top in white above a rule that leaves a margin of ten pixels on both sides, and
/// below it the players follow in order, one line each, in gray.
pub proof fn commands_lay_out_the_match(commands: Seq<DrawCommand>, m: MatchInfo, i: int)
    requires
        drawn(commands) == drawing(m),
        roster(m.players).len() <= 10,
    ensures
        commands.len() == 5 + roster(m.players).len(),
        commands[0] is Clear,
        commands[1] matches DrawCommand::Line { text, x, y, style } && text@ == header_line(m) && x
            == 10 && y == 10 && style is White,
        commands[2] matches DrawCommand::Line { text, x, y, style } && text@ == score_line(m) && x
            == 10 && y == 24 && style is White,
        commands[3] matches DrawCommand::Line { text, x, y, style } && text@ == winner_line(m) && x
            == 10 && y == 38 && style is White,
        commands[4] matches DrawCommand::Fill { x, y, width, height } && x == 10 && y == 54 && width
            == 220 && height == 1,
        10 + 220 + 10 == SCREEN_WIDTH && SCREEN_HEIGHT == 320,
        0 <= i < roster(m.players).len() ==> (commands[5 + i] matches DrawCommand::Line {
            text,
            x,
            y,
            style,
        } && text@ == player_line(roster(m.players)[i]) && x == 10 && y == 62 + 12 * i
            && style is DarkGray),
{
    let all = drawn(commands);
    assert(all.len() == commands.len());
    assert(all[0] == commands[0]@);
    assert(all[1] == commands[1]@);
    assert(all[2] == commands[2]@);
    assert(all[3] == commands[3]@);
    assert(all[4] == commands[4]@);
    if 0 <= i < roster(m.players).len() {
        assert(all[5 + i] == commands[5 + i]@);
    }
}

} // verus!
