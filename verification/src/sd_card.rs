//! The configuration of the device, read from a file on the SD card.
//!
//! The built-in configuration takes its place when the card or the file is missing
//! or cannot be read, and when a text of the file is too long to be kept.

use crate::request::{match_url, url_fits, URL_BUFFER_SIZE};
use crate::text::{ascii_len, copy_str, copy_whole, utf8_len, Text};
use vstd::prelude::*;
use vstd::utf8::{encode_utf8, valid_utf8};

verus! {

/// At most this many bytes of the configuration file are read.
pub const CONFIG_READ_MAX: usize = 512;

/// The number of the volume that holds the files.
pub const VOLUME: usize = 0;

/// How a file is opened.
#[derive(Debug, Clone, Copy, PartialEq, Eq, Structural)]
pub enum FileMode {
    ReadOnly,
}

/// What the configuration file holds.
pub struct ConfigFile<'a> {
    pub wifi_ssid: &'a str,
    pub wifi_password: &'a str,
    pub api_key: &'a str,
    pub player_region: &'a str,
    pub player_name: &'a str,
    pub player_tag: &'a str,
}

impl ConfigFile<'_> {
    /// Whether every text can be kept.
    pub open spec fn fits(self) -> bool {
        &&& utf8_len(self.wifi_ssid@) <= 32
        &&& utf8_len(self.wifi_password@) <= 64
        &&& utf8_len(self.api_key@) <= 64
        &&& utf8_len(self.player_region@) <= 8
        &&& utf8_len(self.player_name@) <= 32
        &&& utf8_len(self.player_tag@) <= 8
    }
}

/// The configuration of the device.
pub struct Config {
    pub wifi_ssid: Text<32>,
    pub wifi_password: Text<64>,
    pub api_key: Text<64>,
    pub player_region: Text<8>,
    pub player_name: Text<32>,
    pub player_tag: Text<8>,
}

impl Config {
    /// Whether every text is within its bound.
    pub open spec fn fits(self) -> bool {
        &&& self.wifi_ssid.fits()
        &&& self.wifi_password.fits()
        &&& self.api_key.fits()
        &&& self.player_region.fits()
        &&& self.player_name.fits()
        &&& self.player_tag.fits()
    }

    /// Whether this is the built-in configuration.
    pub open spec fn is_default(self) -> bool {
        &&& self.fits()
        &&& self.wifi_ssid@ == "ssid"@
        &&& self.wifi_password@ == "pwd"@
        &&& self.api_key@ == "YOUR_API_KEY"@
        &&& self.player_region@ == "eu"@
        &&& self.player_name@ == "PlayerName"@
        &&& self.player_tag@ == "TAG"@
    }

    /// Whether this is the configuration in `file`.
    pub open spec fn is_in(self, file: ConfigFile<'_>) -> bool {
        &&& self.fits()
        &&& self.wifi_ssid@ == file.wifi_ssid@
        &&& self.wifi_password@ == file.wifi_password@
        &&& self.api_key@ == file.api_key@
        &&& self.player_region@ == file.player_region@
        &&& self.player_name@ == file.player_name@
        &&& self.player_tag@ == file.player_tag@
    }

    /// Whether two configurations say the same.
    pub open spec fn says_the_same(self, other: Config) -> bool {
        &&& self.wifi_ssid@ == other.wifi_ssid@
        &&& self.wifi_password@ == other.wifi_password@
        &&& self.api_key@ == other.api_key@
        &&& self.player_region@ == other.player_region@
        &&& self.player_name@ == other.player_name@
        &&& self.player_tag@ == other.player_tag@
    }

    /// The built-in configuration.
    pub fn default_config() -> (config: Config)
        ensures
            config.is_default(),
            config.wifi_ssid@ == "ssid"@ && config.wifi_password@ == "pwd"@,
            config.api_key@ == "YOUR_API_KEY"@ && config.player_region@ == "eu"@,
            config.player_name@ == "PlayerName"@ && config.player_tag@ == "TAG"@,
    {
        proof {
            reveal_strlit("ssid");
            reveal_strlit("pwd");
            reveal_strlit("YOUR_API_KEY");
            reveal_strlit("eu");
            reveal_strlit("PlayerName");
            reveal_strlit("TAG");
            ascii_len("ssid"@);
            ascii_len("pwd"@);
            ascii_len("YOUR_API_KEY"@);
            ascii_len("eu"@);
            ascii_len("PlayerName"@);
            ascii_len("TAG"@);
        }
        Config {
            wifi_ssid: copy_str("ssid"),
            wifi_password: copy_str("pwd"),
            api_key: copy_str("YOUR_API_KEY"),
            player_region: copy_str("eu"),
            player_name: copy_str("PlayerName"),
            player_tag: copy_str("TAG"),
        }
    }

    /// The configuration in `file`, where every text of it can be kept.
    fn from_file(file: &ConfigFile<'_>) -> (config: Option<Config>)
        ensures
            config is Some <==> file.fits(),
            config is Some ==> config->Some_0.is_in(*file),
    {
        let wifi_ssid = copy_whole(file.wifi_ssid)?;
        let wifi_password = copy_whole(file.wifi_password)?;
        let api_key = copy_whole(file.api_key)?;
        let player_region = copy_whole(file.player_region)?;
        let player_name = copy_whole(file.player_name)?;
        let player_tag = copy_whole(file.player_tag)?;
        Some(Config { wifi_ssid, wifi_password, api_key, player_region, player_name, player_tag })
    }
}

/// A step of reading the configuration: what is to be done next.
pub enum ConfigStep {
    /// Open the volume of this number on the card.
    OpenVolume { volume: usize },
    OpenRootDir,
    /// Open the file of this name in the root directory.
    OpenFile { name: &'static str, mode: FileMode },
    /// Read the start of the file, at most [`CONFIG_READ_MAX`] bytes.
    ReadFile,
    /// Parse what was read.
    ParseFile { json: String },
    Done { config: Config },
}

/// How a step went.
pub enum ConfigEvent<'a> {
    Failed,
    Opened,
    /// What was read.
    Read(&'a [u8]),
    /// What the file holds.
    Parsed(&'a ConfigFile<'a>),
}

impl ConfigStep {
    /// Whether `event` can be the end of this step.
    pub open spec fn answered_by(self, event: ConfigEvent<'_>) -> bool {
        match self {
            ConfigStep::OpenVolume { .. } | ConfigStep::OpenRootDir | ConfigStep::OpenFile {
                ..
            } => event is Failed || event is Opened,
            ConfigStep::ReadFile => match event {
                ConfigEvent::Failed => true,
                ConfigEvent::Read(bytes) => bytes@.len() <= CONFIG_READ_MAX,
                _ => false,
            },
            ConfigStep::ParseFile { .. } => event is Failed || event is Parsed,
            ConfigStep::Done { .. } => false,
        }
    }

    /// Whether this is the first step of a reading: the first volume is to be opened.
    pub open spec fn starts(self) -> bool {
        self is OpenVolume && self->volume == 0
    }

    /// Whether the configuration file is to be opened, for reading alone.
    pub open spec fn opens_file(self) -> bool {
        self is OpenFile && self->name@ == "CONFIG.TXT"@ && self->mode is ReadOnly
    }

    pub open spec fn fell_back(self) -> bool {
        self is Done && self->config.is_default()
    }

    /// Whether this step follows `before` when that ended with `event`.
    pub open spec fn follows(self, before: ConfigStep, event: ConfigEvent<'_>) -> bool {
        match event {
            ConfigEvent::Failed => self.fell_back(),
            ConfigEvent::Opened => match before {
                ConfigStep::OpenVolume { .. } => self is OpenRootDir,
                ConfigStep::OpenRootDir => self.opens_file(),
                _ => self is ReadFile,
            },
            ConfigEvent::Read(bytes) => if valid_utf8(bytes@) {
                self is ParseFile && encode_utf8(self->json@) == bytes@
            } else {
                self.fell_back()
            },
            ConfigEvent::Parsed(file) => if file.fits() {
                self is Done && self->config.is_in(*file)
            } else {
                self.fell_back()
            },
        }
    }

    /// Starts a reading of the configuration.
    pub fn start() -> (step: ConfigStep)
        ensures
            step.starts(),
            step is OpenVolume && step->volume == 0,
    {
        ConfigStep::OpenVolume { volume: VOLUME }
    }

    /// Goes on after this step has ended with `event`.
    pub fn next(&self, event: ConfigEvent<'_>) -> (next: ConfigStep)
        requires
            self.answered_by(event),
        ensures
            next.follows(*self, event),
    {
        match event {
            ConfigEvent::Failed => ConfigStep::Done { config: Config::default_config() },
            ConfigEvent::Opened => match self {
                ConfigStep::OpenVolume { .. } => ConfigStep::OpenRootDir,
                ConfigStep::OpenRootDir => ConfigStep::OpenFile {
                    name: "CONFIG.TXT",
                    mode: FileMode::ReadOnly,
                },
                _ => ConfigStep::ReadFile,
            },
            ConfigEvent::Read(bytes) => match core::str::from_utf8(bytes) {
                Ok(json) => ConfigStep::ParseFile { json: json.to_owned() },
                Err(_) => ConfigStep::Done { config: Config::default_config() },
            },
            ConfigEvent::Parsed(file) => ConfigStep::Done {
                config: match Config::from_file(file) {
                    Some(config) => config,
                    None => Config::default_config(),
                },
            },
        }
    }
}

/// Whether `steps` is a whole reading of the configuration whose steps ended with
/// `events`.
pub open spec fn is_reading(steps: Seq<ConfigStep>, events: Seq<ConfigEvent<'_>>) -> bool {
    &&& steps.len() == events.len() + 1
    &&& steps[0].starts()
    &&& steps.last() is Done
    &&& forall|i: int|
        0 <= i < events.len() ==> steps[i].answered_by(#[trigger] events[i]) && steps[i
            + 1].follows(steps[i], events[i])
}

/// Whether a step went wrong, or gave what cannot be used.
pub open spec fn is_setback(event: ConfigEvent<'_>) -> bool {
    match event {
        ConfigEvent::Failed => true,
        ConfigEvent::Opened => false,
        ConfigEvent::Read(bytes) => !valid_utf8(bytes@),
        ConfigEvent::Parsed(file) => !file.fits(),
    }
}

/// What the step after the `i`th can be.
proof fn reading_goes_on(steps: Seq<ConfigStep>, events: Seq<ConfigEvent<'_>>, i: int)
    requires
        is_reading(steps, events),
        0 <= i < steps.len(),
    ensures
        i < events.len() ==> steps[i].answered_by(events[i]) && steps[i + 1].follows(
            steps[i],
            events[i],
        ),
        steps[i] is Done <==> i == events.len(),
        i < events.len() && is_setback(events[i]) ==> i + 1 == events.len(),
{
    if i < events.len() {
        assert(steps[i].answered_by(events[i]));
        if i + 1 < events.len() {
            assert(steps[i + 1].answered_by(events[i + 1]));
        }
    }
}

/// The configuration is the one in the file when every step went well, and the
/// built-in one when any went wrong.
pub proof fn config_is_read_or_default(steps: Seq<ConfigStep>, events: Seq<ConfigEvent<'_>>)
    requires
        is_reading(steps, events),
    ensures
        (exists|i: int| 0 <= i < events.len() && is_setback(#[trigger] events[i]))
            ==> steps.last()->config.is_default(),
        (forall|i: int| 0 <= i < events.len() ==> !is_setback(#[trigger] events[i]))
            ==> events.len() == 5 && events[4] is Parsed && steps.last()->config.is_in(
            *events[4]->Parsed_0,
        ),
{
    if exists|i: int| 0 <= i < events.len() && is_setback(#[trigger] events[i]) {
        let i = choose|i: int| 0 <= i < events.len() && is_setback(#[trigger] events[i]);
        reading_goes_on(steps, events, i);
    } else {
        reading_goes_on(steps, events, 0);
        assert(!is_setback(events[0]));
        reading_goes_on(steps, events, 1);
        assert(!is_setback(events[1]));
        reading_goes_on(steps, events, 2);
        assert(!is_setback(events[2]));
        reading_goes_on(steps, events, 3);
        assert(!is_setback(events[3]));
        reading_goes_on(steps, events, 4);
        assert(!is_setback(events[4]));
        reading_goes_on(steps, events, 5);
    }
}

/// The configuration is never a mixture, and every text of it is within its bound.
pub proof fn configuration_is_never_mixed(steps: Seq<ConfigStep>, events: Seq<ConfigEvent<'_>>)
    requires
        is_reading(steps, events),
    ensures
        steps.last()->config.fits(),
        steps.last()->config.is_default() || events.last() is Parsed
            && steps.last()->config.is_in(*events.last()->Parsed_0),
{
    config_is_read_or_default(steps, events);
}

/// A card that answers in the same way gives the same configuration each time it is
/// read.
pub proof fn equal_answers_give_equal_configurations(
    steps1: Seq<ConfigStep>,
    steps2: Seq<ConfigStep>,
    events: Seq<ConfigEvent<'_>>,
)
    requires
        is_reading(steps1, events),
        is_reading(steps2, events),
    ensures
        steps1.last()->config.says_the_same(steps2.last()->config),
{
    config_is_read_or_default(steps1, events);
    config_is_read_or_default(steps2, events);
}

/// Only the configuration file on the first volume is opened, and only for reading.
pub proof fn only_the_configuration_file_is_opened(
    steps: Seq<ConfigStep>,
    events: Seq<ConfigEvent<'_>>,
    i: int,
)
    requires
        is_reading(steps, events),
        0 <= i < steps.len(),
    ensures
        steps[i] is OpenVolume ==> steps[i].starts(),
        steps[i] is OpenFile ==> steps[i].opens_file(),
{
    if i > 0 {
        reading_goes_on(steps, events, i - 1);
    }
}

/// The address of the configured player can always be built.
pub proof fn configured_url_fits(config: Config)
    requires
        config.fits(),
    ensures
        utf8_len(match_url(config.player_region@, config.player_name@, config.player_tag@))
            <= URL_BUFFER_SIZE,
{
    url_fits(config.player_region@, config.player_name@, config.player_tag@);
}

/// The built-in configuration, text by text.
pub proof fn default_is_built_in(config: Config)
    requires
        config.is_default(),
    ensures
        config.wifi_ssid@ == "ssid"@,
        config.wifi_password@ == "pwd"@,
        config.api_key@ == "YOUR_API_KEY"@,
        config.player_region@ == "eu"@,
        config.player_name@ == "PlayerName"@,
        config.player_tag@ == "TAG"@,
{
}

/// A step takes any answer that it can get: every step but the last can fail, what is to
/// be opened can be opened, a file can hold any bytes, of which 512 are read and no more,
/// and they can be parsed to any texts.
pub proof fn every_answer_is_taken(step: ConfigStep, bytes: &[u8], file: &ConfigFile<'_>)
    ensures
        step is Done || step.answered_by(ConfigEvent::Failed),
        step is OpenVolume || step is OpenRootDir || step is OpenFile ==> step.answered_by(
            ConfigEvent::Opened,
        ),
        step is ReadFile ==> (step.answered_by(ConfigEvent::Read(bytes)) <==> bytes@.len() <= 512),
        step is ParseFile ==> step.answered_by(ConfigEvent::Parsed(file)),
{
}

/// What follows a step: a failure ends the reading with the built-in configuration; what
/// is opened leads from the volume to the root directory, to the file `CONFIG.TXT` for
/// reading alone, and to its bytes; these go on to be parsed, unless they are not text;
/// and where all six texts fit they are the configuration, each as it stands in the
/// file.
pub proof fn steps_follow_from_their_answers(
    next: ConfigStep,
    before: ConfigStep,
    event: ConfigEvent<'_>,
)
    requires
        before.answered_by(event),
        next.follows(before, event),
    ensures
        event is Failed ==> next is Done && next->config.is_default(),
        event is Opened && before is OpenVolume ==> next is OpenRootDir,
        event is Opened && before is OpenRootDir ==> next is OpenFile && next->name@
            == "CONFIG.TXT"@ && next->mode is ReadOnly,
        event is Opened && before is OpenFile ==> next is ReadFile,
        event matches ConfigEvent::Read(bytes) ==> (if valid_utf8(bytes@) {
            next is ParseFile && encode_utf8(next->json@) == bytes@
        } else {
            next is Done && next->config.is_default()
        }),
        event matches ConfigEvent::Parsed(file) ==> next is Done && (if encode_utf8(
            file.wifi_ssid@,
        ).len() <= 32 && encode_utf8(file.wifi_password@).len() <= 64 && encode_utf8(
            file.api_key@,
        ).len() <= 64 && encode_utf8(file.player_region@).len() <= 8 && encode_utf8(
            file.player_name@,
        ).len() <= 32 && encode_utf8(file.player_tag@).len() <= 8 {
            &&& next->config.wifi_ssid@ == file.wifi_ssid@
            &&& next->config.wifi_password@ == file.wifi_password@
            &&& next->config.api_key@ == file.api_key@
            &&& next->config.player_region@ == file.player_region@
            &&& next->config.player_name@ == file.player_name@
            &&& next->config.player_tag@ == file.player_tag@
        } else {
            next->config.is_default()
        }),
{
}

/// A reading in which nothing goes wrong ends with the six texts of the file.
pub proof fn whole_reading_gives_the_texts(
    start: ConfigStep,
    root: ConfigStep,
    open: ConfigStep,
    read: ConfigStep,
    parsing: ConfigStep,
    done: ConfigStep,
    bytes: &[u8],
    file: &ConfigFile<'_>,
)
    requires
        start.starts(),
        root.follows(start, ConfigEvent::Opened),
        open.follows(root, ConfigEvent::Opened),
        read.follows(open, ConfigEvent::Opened),
        parsing.follows(read, ConfigEvent::Read(bytes)),
        done.follows(parsing, ConfigEvent::Parsed(file)),
        valid_utf8(bytes@),
        encode_utf8(file.wifi_ssid@).len() <= 32,
        encode_utf8(file.wifi_password@).len() <= 64,
        encode_utf8(file.api_key@).len() <= 64,
        encode_utf8(file.player_region@).len() <= 8,
        encode_utf8(file.player_name@).len() <= 32,
        encode_utf8(file.player_tag@).len() <= 8,
    ensures
        start is OpenVolume && start->volume == 0,
        root is OpenRootDir,
        open is OpenFile && open->name@ == "CONFIG.TXT"@ && open->mode is ReadOnly,
        read is ReadFile,
        parsing is ParseFile && encode_utf8(parsing->json@) == bytes@,
        done is Done,
        done->config.wifi_ssid@ == file.wifi_ssid@,
        done->config.wifi_password@ == file.wifi_password@,
        done->config.api_key@ == file.api_key@,
        done->config.player_region@ == file.player_region@,
        done->config.player_name@ == file.player_name@,
        done->config.player_tag@ == file.player_tag@,
{
}

} // verus!
