use match_display::sd_card::{Config, ConfigEvent, ConfigFile, ConfigStep, FileMode};

fn fields(c: &Config) -> [&str; 6] {
    [
        c.wifi_ssid.as_str(),
        c.wifi_password.as_str(),
        c.api_key.as_str(),
        c.player_region.as_str(),
        c.player_name.as_str(),
        c.player_tag.as_str(),
    ]
}

const DEFAULT: [&str; 6] = ["ssid", "pwd", "YOUR_API_KEY", "eu", "PlayerName", "TAG"];

fn config(step: ConfigStep) -> Config {
    match step {
        ConfigStep::Done { config } => config,
        _ => panic!("the configuration is not read"),
    }
}

/// The step after `n` things were opened.
fn opened(n: usize) -> ConfigStep {
    let mut step = ConfigStep::start();
    for _ in 0..n {
        step = step.next(ConfigEvent::Opened);
    }
    step
}

#[test]
fn the_default_is_built_in() {
    assert_eq!(fields(&Config::default_config()), DEFAULT);
}

#[test]
fn the_steps_come_in_order() {
    assert!(matches!(opened(0), ConfigStep::OpenVolume { volume: 0 }));
    assert!(matches!(opened(1), ConfigStep::OpenRootDir));
    assert!(matches!(
        opened(2),
        ConfigStep::OpenFile { name: "CONFIG.TXT", mode: FileMode::ReadOnly },
    ));
    assert!(matches!(opened(3), ConfigStep::ReadFile));
}

#[test]
fn the_file_is_taken() {
    let step = opened(3).next(ConfigEvent::Read(b"{}"));
    match &step {
        ConfigStep::ParseFile { json } => assert_eq!(json, "{}"),
        _ => panic!("the file is not to be parsed"),
    }
    let file = ConfigFile {
        wifi_ssid: "home",
        wifi_password: "open sesame",
        api_key: "key",
        player_region: "na",
        player_name: "Ada",
        player_tag: "12345678",
    };
    let expected = ["home", "open sesame", "key", "na", "Ada", "12345678"];
    let c = config(step.next(ConfigEvent::Parsed(&file)));
    assert_eq!(fields(&c), expected);
    let again = config(step.next(ConfigEvent::Parsed(&file)));
    assert_eq!(fields(&again), expected);
}

#[test]
fn a_file_with_a_text_that_is_too_long_gives_the_default() {
    let step = opened(3).next(ConfigEvent::Read(b"{}"));
    let bounds = [32, 64, 64, 8, 32, 8];
    for long in 0..6 {
        for excess in 0..2 {
            let texts: Vec<String> = (0..6)
                .map(|i| "x".repeat(bounds[i] + if i == long { excess } else { 0 }))
                .collect();
            let file = ConfigFile {
                wifi_ssid: &texts[0],
                wifi_password: &texts[1],
                api_key: &texts[2],
                player_region: &texts[3],
                player_name: &texts[4],
                player_tag: &texts[5],
            };
            let c = config(step.next(ConfigEvent::Parsed(&file)));
            if excess == 0 {
                assert_eq!(fields(&c).to_vec(), texts);
            } else {
                assert_eq!(fields(&c), DEFAULT);
            }
        }
    }
}

#[test]
fn any_failure_gives_the_default() {
    for n in 0..4 {
        assert_eq!(fields(&config(opened(n).next(ConfigEvent::Failed))), DEFAULT);
    }
    let step = opened(3).next(ConfigEvent::Read(b"{"));
    assert_eq!(fields(&config(step.next(ConfigEvent::Failed))), DEFAULT);
}

#[test]
fn a_file_that_is_not_text_gives_the_default() {
    assert_eq!(fields(&config(opened(3).next(ConfigEvent::Read(&[0xc3, 0x28])))), DEFAULT);
}
