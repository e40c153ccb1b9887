use match_display::display::{draw_match, write_decimal, DrawCommand, TextStyle};
use match_display::match_info::{
    copy_match, MatchData, MatchInfo, MatchMetadata, MatchResponse, PlayerStats, PlayerSummary,
    PlayersData, TeamResult, TeamsData,
};
use match_display::request::{
    build_url, preview, FetchEvent, FetchStep, RequestMethod, PREVIEW_MAX,
    URL_BUFFER_SIZE,
};
use match_display::sd_card::Config;

fn player(name: &str) -> PlayerSummary<'_> {
    PlayerSummary {
        name,
        tag: "EUW",
        team: "Red",
        character: "Jett",
        rank: "Gold 2",
        stats: PlayerStats {
            score: 1,
            kills: 20,
            deaths: 13,
            assists: 4,
            headshots: 9,
            bodyshots: 30,
            legshots: 2,
        },
    }
}

fn data<'a>(map: &'a str, mode: &'a str, names: &[&'a str]) -> MatchData<'a> {
    MatchData {
        metadata: MatchMetadata {
            map,
            mode,
            game_start: "Monday, June 3, 2024 8:15 PM",
            rounds_played: 22,
            region: "eu",
        },
        players: PlayersData { all_players: names.iter().map(|n| player(n)).collect() },
        teams: TeamsData {
            red: TeamResult { has_won: true, rounds_won: 13, rounds_lost: 9 },
            blue: TeamResult { has_won: false, rounds_won: 9, rounds_lost: 13 },
        },
    }
}

fn line(command: &DrawCommand) -> (&str, i32, i32, TextStyle) {
    match command {
        DrawCommand::Line { text, x, y, style } => (text.as_str(), *x, *y, *style),
        other => panic!("not a line: {other:?}"),
    }
}

fn drawn(m: &MatchInfo) -> Vec<String> {
    draw_match(m)
        .iter()
        .filter(|c| matches!(c, DrawCommand::Line { .. }))
        .map(|c| line(c).0.to_string())
        .collect()
}

#[test]
fn a_match_is_copied() {
    let m = copy_match(&data("Ascent", "Competitive", &["Ada", "Bob"]));
    assert_eq!(m.map.as_str(), "Ascent");
    assert_eq!(m.mode.as_str(), "Competitive");
    assert_eq!(m.game_start.as_str(), "Monday, June 3, 2024 8:15 PM");
    assert_eq!(m.rounds_played, 22);
    assert_eq!(m.region.as_str(), "eu");
    assert_eq!((m.red_rounds_won, m.blue_rounds_won, m.red_has_won), (13, 9, true));
    assert_eq!(m.players.len(), 2);
    let p = &m.players[1];
    assert_eq!(p.name.as_str(), "Bob");
    assert_eq!(p.tag.as_str(), "EUW");
    assert_eq!(p.team.as_str(), "Red");
    assert_eq!(p.character.as_str(), "Jett");
    assert_eq!(p.rank.as_str(), "Gold 2");
    assert_eq!((p.kills, p.deaths, p.assists, p.headshots), (20, 13, 4, 9));
}

#[test]
fn long_texts_are_left_out() {
    let long = "x".repeat(33);
    let m = copy_match(&data(&long, "Deathmatch", &[&long]));
    assert_eq!(m.map.as_str(), "");
    assert_eq!(m.mode.as_str(), "Deathmatch");
    assert_eq!(m.players[0].name.as_str(), "");
}

#[test]
fn ten_players_are_kept() {
    let names: Vec<String> = (0..10).map(|i| format!("player {i}")).collect();
    let names: Vec<&str> = names.iter().map(|n| n.as_str()).collect();
    let m = copy_match(&data("Bind", "Unrated", &names));
    let kept: Vec<&str> = m.players.iter().map(|p| p.name.as_str()).collect();
    assert_eq!(kept, names);
}

#[test]
fn numbers_are_written_in_decimal() {
    assert_eq!(write_decimal(0), "0");
    assert_eq!(write_decimal(9), "9");
    assert_eq!(write_decimal(10), "10");
    assert_eq!(write_decimal(1_234_567_890), "1234567890");
    assert_eq!(write_decimal(u32::MAX), "4294967295");
}

#[test]
fn a_match_is_laid_out() {
    let m = copy_match(&data("Ascent", "Competitive", &["Ada", "Bob"]));
    let commands = draw_match(&m);
    assert_eq!(commands.len(), 7);
    assert!(matches!(commands[0], DrawCommand::Clear));
    assert_eq!(line(&commands[1]), ("Ascent | Competitive", 10, 10, TextStyle::White));
    assert_eq!(line(&commands[2]), ("Red 13 - 9 Blue", 10, 24, TextStyle::White));
    assert_eq!(line(&commands[3]), ("Winner: Red", 10, 38, TextStyle::White));
    assert!(matches!(commands[4], DrawCommand::Fill { x: 10, y: 54, width: 220, height: 1 }));
    assert_eq!(line(&commands[5]), ("Ada (Jett) 20/13", 10, 62, TextStyle::DarkGray));
    assert_eq!(line(&commands[6]), ("Bob (Jett) 20/13", 10, 74, TextStyle::DarkGray));
}

#[test]
fn ten_players_are_laid_out() {
    let m = copy_match(&data("Bind", "Unrated", &["p"; 10]));
    let commands = draw_match(&m);
    assert_eq!(commands.len(), 15);
    assert_eq!(line(&commands[14]), ("p (Jett) 20/13", 10, 170, TextStyle::DarkGray));
}

#[test]
fn blue_can_win() {
    let mut d = data("Bind", "Unrated", &[]);
    d.teams.red.has_won = false;
    assert_eq!(drawn(&copy_match(&d))[2], "Winner: Blue");
}

#[test]
fn long_lines_end_before_the_piece_that_does_not_fit() {
    let map = "m".repeat(31);
    assert_eq!(drawn(&copy_match(&data(&map, "Mode", &[])))[0], map);
    let map = "m".repeat(29);
    assert_eq!(drawn(&copy_match(&data(&map, "Mode", &[])))[0], format!("{map} | "));

    let name = "n".repeat(32);
    let mut d = data("Bind", "Unrated", &[&name]);
    d.players.all_players[0].character = "sixteen letters.";
    assert_eq!(drawn(&copy_match(&d))[3], format!("{name} ("));
}

#[test]
fn the_largest_score_fits() {
    let mut d = data("Bind", "Unrated", &[]);
    d.teams.red.rounds_won = u32::MAX;
    d.teams.blue.rounds_won = u32::MAX;
    assert_eq!(drawn(&copy_match(&d))[1], "Red 4294967295 - 4294967295 Blue");
}

#[test]
fn the_largest_counts_of_a_short_name_fit() {
    let name = "n".repeat(19);
    let mut d = data("Bind", "Unrated", &[&name]);
    d.players.all_players[0].stats.kills = u32::MAX;
    d.players.all_players[0].stats.deaths = u32::MAX;
    let expected = format!("{name} (Jett) 4294967295/4294967295");
    assert_eq!(drawn(&copy_match(&d))[3], expected);
}

#[test]
fn the_address_is_built_at_the_front_of_the_buffer() {
    let mut buf = [0xaau8; URL_BUFFER_SIZE];
    let url = build_url(&mut buf, "eu", "Zoë", "TAG").to_string();
    assert_eq!(url, "https://api.henrikdev.xyz/valorant/v3/matches/eu/Zoë/TAG");
    assert_eq!(&buf[..url.len()], url.as_bytes());
    assert!(buf[url.len()..].iter().all(|b| *b == 0xaa));
}

#[test]
fn the_longest_address_fits() {
    let mut buf = [0u8; URL_BUFFER_SIZE];
    let url = build_url(&mut buf, &"r".repeat(8), &"n".repeat(32), &"t".repeat(8));
    assert_eq!(url.len(), 96);
}

fn result(step: FetchStep) -> Option<MatchInfo> {
    match step {
        FetchStep::Done { info } => info,
        _ => panic!("the fetch is not done"),
    }
}

fn started() -> FetchStep {
    FetchStep::start(&Config::default_config())
}

fn body_read(bytes: &[u8]) -> FetchStep {
    started()
        .next(FetchEvent::Accepted)
        .next(FetchEvent::Accepted)
        .next(FetchEvent::Body(bytes))
}

#[test]
fn the_match_is_fetched() {
    let step = body_read("{\"map\":\"Häven\"}".as_bytes());
    match &step {
        FetchStep::ParseBody { body } => assert_eq!(body, "{\"map\":\"Häven\"}"),
        _ => panic!("the body is not to be parsed"),
    }
    let response = MatchResponse {
        status: 500,
        data: [data("Haven", "Unrated", &["Ada"])].into_iter().collect(),
    };
    let found = result(step.next(FetchEvent::Parsed(&response)));
    assert_eq!(found.unwrap().map.as_str(), "Haven");
}

#[test]
fn failed_fetches_find_nothing() {
    assert!(result(started().next(FetchEvent::Failed)).is_none());
    let step = started().next(FetchEvent::Accepted);
    assert!(result(step.next(FetchEvent::Failed)).is_none());
    let step = started().next(FetchEvent::Accepted).next(FetchEvent::Accepted);
    assert!(matches!(step, FetchStep::ReadBody));
    assert!(result(step.next(FetchEvent::Failed)).is_none());
    assert!(result(body_read(b"[]").next(FetchEvent::Failed)).is_none());
}

#[test]
fn a_body_that_is_not_text_finds_nothing() {
    assert!(result(body_read(&[0x7b, 0xff, 0x7d])).is_none());
}

#[test]
fn a_response_without_matches_finds_nothing() {
    let response = MatchResponse { status: 200, data: heapless::Vec::new() };
    assert!(result(body_read(b"{}").next(FetchEvent::Parsed(&response))).is_none());
}

#[test]
fn the_request_is_for_the_configured_player() {
    let step = started();
    match &step {
        FetchStep::CreateRequest { method, url, key } => {
            assert_eq!(*method, RequestMethod::Get);
            assert_eq!(url, "https://api.henrikdev.xyz/valorant/v3/matches/eu/PlayerName/TAG");
            assert_eq!(key, "YOUR_API_KEY");
        }
        _ => panic!("no request is to be created"),
    }
    match step.next(FetchEvent::Accepted) {
        FetchStep::SendRequest { header } => {
            assert_eq!((header.name, header.value.as_str()), ("Authorization", "YOUR_API_KEY"));
        }
        _ => panic!("no request is to be sent"),
    }
}

#[test]
fn previews_are_cut_between_characters() {
    assert_eq!(preview(""), "");
    let short = "x".repeat(PREVIEW_MAX);
    assert_eq!(preview(&short), short);
    assert_eq!(preview(&format!("{short}y")), short);
    for (lead, kept) in [(198, 200), (199, 199), (200, 200)] {
        let body = format!("{}éé", "x".repeat(lead));
        assert_eq!(preview(&body), &body[..kept]);
    }
    let wide = "\u{1f600}".repeat(60);
    assert_eq!(preview(&wide), &wide[..200]);
    let shifted = format!("x{wide}");
    assert_eq!(preview(&shifted), &shifted[..197]);
}

/// A screen of a few letters: a text covers one pixel for each of its bytes.
fn show(pixels: &mut [[u8; 240]; 320], m: &MatchInfo) {
    for command in draw_match(m) {
        match command {
            DrawCommand::Clear => *pixels = [[0; 240]; 320],
            DrawCommand::Line { text, x, y, style } => {
                for i in 0..text.len() {
                    pixels[y as usize][x as usize + i] =
                        if style == TextStyle::White { 1 } else { 2 };
                }
            }
            DrawCommand::Fill { x, y, width, height } => {
                for row in 0..height as usize {
                    for column in 0..width as usize {
                        pixels[y as usize + row][x as usize + column] = 1;
                    }
                }
            }
        }
    }
}

#[test]
fn nothing_remains_of_the_screen_before() {
    let m = copy_match(&data("Haven", "Unrated", &["Ada", "Bo"]));
    let mut fresh = [[0u8; 240]; 320];
    let mut used = [[3u8; 240]; 320];
    show(&mut fresh, &m);
    show(&mut used, &copy_match(&data("Ascent", "Competitive", &["Cy"; 10])));
    show(&mut used, &m);
    assert!(fresh == used);
    show(&mut used, &m);
    assert!(fresh == used);
}
