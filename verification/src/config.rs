//! Separators and settings.

use crate::text::{copy_texts, same_text, texts};
use vstd::prelude::*;

verus! {

/// The file that holds the settings.
pub const SETTINGS_FILE: &'static str = "stem_studio_settings.json";

/// The directory that is searched for audio by default.
pub const DEFAULT_SOURCE: &'static str = r"G:\CloudMusic\VipSongsDownload";

/// The directory that receives stems by default.
pub const DEFAULT_OUTPUT: &'static str = "stems_output";

/// How to call one separation tool.
#[derive(Debug)]
pub struct SeparatorConfig {
    pub name: String,
    pub command: Vec<String>,
    pub models: Vec<String>,
    pub modes: Vec<String>,
    pub args_before: Vec<String>,
    pub two_stem_flag: String,
    pub device_flag: String,
    pub stems_mode: String,
}

/// A separator with its texts as sequences.
pub struct ConfigView {
    pub name: Seq<char>,
    pub command: Seq<Seq<char>>,
    pub models: Seq<Seq<char>>,
    pub modes: Seq<Seq<char>>,
    pub args_before: Seq<Seq<char>>,
    pub two_stem_flag: Seq<char>,
    pub device_flag: Seq<char>,
    pub stems_mode: Seq<char>,
}

impl View for SeparatorConfig {
    type V = ConfigView;

    open spec fn view(&self) -> ConfigView {
        ConfigView {
            name: self.name@,
            command: texts(self.command@),
            models: texts(self.models@),
            modes: texts(self.modes@),
            args_before: texts(self.args_before@),
            two_stem_flag: self.two_stem_flag@,
            device_flag: self.device_flag@,
            stems_mode: self.stems_mode@,
        }
    }
}

impl Clone for SeparatorConfig {
    fn clone(&self) -> (copy: SeparatorConfig)
        ensures
            copy@ == self@,
    {
        SeparatorConfig {
            name: self.name.clone(),
            command: copy_texts(&self.command),
            models: copy_texts(&self.models),
            modes: copy_texts(&self.modes),
            args_before: copy_texts(&self.args_before),
            two_stem_flag: self.two_stem_flag.clone(),
            device_flag: self.device_flag.clone(),
            stems_mode: self.stems_mode.clone(),
        }
    }
}

/// The separators of a list as values.
pub open spec fn configs_view(list: Seq<SeparatorConfig>) -> Seq<ConfigView> {
    list.map_values(|c: SeparatorConfig| c@)
}

/// A copy of a list of separators.
pub fn copy_configs(list: &Vec<SeparatorConfig>) -> (out: Vec<SeparatorConfig>)
    ensures
        configs_view(out@) == configs_view(list@),
{
    let mut out: Vec<SeparatorConfig> = Vec::new();
    let ghost all = configs_view(list@);
    for i in 0..list.len()
        invariant
            all == configs_view(list@),
            configs_view(out@) == all.take(i as int),
    {
        let c = list[i].clone();
        let ghost before = configs_view(out@);
        out.push(c);
        assert(configs_view(out@) == before.push(c@));
        assert(all.take(i + 1) == all.take(i as int).push(list@[i as int]@));
    }
    assert(all.take(all.len() as int) == all);
    out
}

/// The strings of a list of texts.
pub fn string_list(list: Vec<&str>) -> (out: Vec<String>)
    ensures
        texts(out@) == list.deep_view(),
{
    let mut out: Vec<String> = Vec::new();
    for i in 0..list.len()
        invariant
            texts(out@) == list.deep_view().take(i as int),
    {
        let s = list[i].to_string();
        let ghost before = texts(out@);
        out.push(s);
        assert(texts(out@) == before.push(s@));
        assert(list.deep_view().take(i + 1) == list.deep_view().take(i as int).push(
            list@[i as int]@,
        ));
    }
    assert(list.deep_view().take(list@.len() as int) == list.deep_view());
    out
}

/// The separator that is there without any configuration.
pub open spec fn demucs_config() -> ConfigView {
    ConfigView {
        name: "Demucs"@,
        command: seq!["python"@, "-m"@, "demucs"@],
        models: seq!["htdemucs"@, "htdemucs_ft"@, "mdx_extra"@, "htdemucs_6s"@],
        modes: seq!["vocals"@, "four_stems"@, "six_stems"@],
        args_before: seq!["-n"@, "{model}"@, "-o"@, "{output}"@],
        two_stem_flag: "--two-stems=vocals"@,
        device_flag: "-d"@,
        stems_mode: "flag"@,
    }
}

/// The separators to offer: those that were configured, or Demucs alone where
/// nothing readable, or nothing at all, was configured.
pub fn load_separators(configured: Option<Vec<SeparatorConfig>>) -> (out: Vec<SeparatorConfig>)
    ensures
        configs_view(out@) == (match configured {
            Some(list) => if list@.len() > 0 {
                configs_view(list@)
            } else {
                seq![demucs_config()]
            },
            None => seq![demucs_config()],
        }),
{
    if let Some(list) = configured {
        if list.len() > 0 {
            return list;
        }
    }
    let demucs = SeparatorConfig {
        name: "Demucs".to_string(),
        command: string_list(vec!["python", "-m", "demucs"]),
        models: string_list(vec!["htdemucs", "htdemucs_ft", "mdx_extra", "htdemucs_6s"]),
        modes: string_list(vec!["vocals", "four_stems", "six_stems"]),
        args_before: string_list(vec!["-n", "{model}", "-o", "{output}"]),
        two_stem_flag: "--two-stems=vocals".to_string(),
        device_flag: "-d".to_string(),
        stems_mode: "flag".to_string(),
    };
    assert(demucs@.command == demucs_config().command);
    assert(demucs@.models == demucs_config().models);
    assert(demucs@.modes == demucs_config().modes);
    assert(demucs@.args_before == demucs_config().args_before);
    let mut out: Vec<SeparatorConfig> = Vec::new();
    out.push(demucs);
    assert(configs_view(out@) == seq![demucs_config()]);
    out
}

/// The first separator of that name.
pub open spec fn named_config(configs: Seq<ConfigView>, name: Seq<char>) -> Option<ConfigView>
    decreases configs.len(),
{
    if configs.len() == 0 {
        None
    } else if configs[0].name == name {
        Some(configs[0])
    } else {
        named_config(configs.skip(1), name)
    }
}

/// The first separator of that name.
pub fn find_separator<'a>(configs: &'a [SeparatorConfig], name: &str) -> (found: Option<
    &'a SeparatorConfig,
>)
    ensures
        match found {
            Some(c) => named_config(configs_view(configs@), name@) == Some(c@),
            None => named_config(configs_view(configs@), name@) is None,
        },
{
    let ghost all = configs_view(configs@);
    let mut i: usize = 0;
    assert(all.skip(0) == all);
    while i < configs.len()
        invariant
            all == configs_view(configs@),
            i <= configs@.len(),
            named_config(all, name@) == named_config(all.skip(i as int), name@),
        decreases configs@.len() - i,
    {
        assert(all.skip(i as int)[0] == configs@[i as int]@);
        if same_text(configs[i].name.as_str(), name) {
            return Some(&configs[i]);
        }
        assert(all.skip(i as int).skip(1) == all.skip(i + 1));
        i = i + 1;
    }
    None
}

/// What the application remembers between runs.
#[derive(Debug)]
pub struct Settings {
    pub source: String,
    pub output: String,
    pub model: String,
    pub mode: String,
    pub device: String,
    pub separator: String,
}

/// Settings with their texts as sequences.
pub struct SettingsView {
    pub source: Seq<char>,
    pub output: Seq<char>,
    pub model: Seq<char>,
    pub mode: Seq<char>,
    pub device: Seq<char>,
    pub separator: Seq<char>,
}

impl View for Settings {
    type V = SettingsView;

    open spec fn view(&self) -> SettingsView {
        SettingsView {
            source: self.source@,
            output: self.output@,
            model: self.model@,
            mode: self.mode@,
            device: self.device@,
            separator: self.separator@,
        }
    }
}

impl Clone for Settings {
    fn clone(&self) -> (copy: Settings)
        ensures
            copy@ == self@,
    {
        Settings {
            source: self.source.clone(),
            output: self.output.clone(),
            model: self.model.clone(),
            mode: self.mode.clone(),
            device: self.device.clone(),
            separator: self.separator.clone(),
        }
    }
}

/// The settings of a first run.
pub open spec fn default_settings() -> SettingsView {
    SettingsView {
        source: DEFAULT_SOURCE@,
        output: DEFAULT_OUTPUT@,
        model: "htdemucs"@,
        mode: "vocals"@,
        device: "auto"@,
        separator: "Demucs"@,
    }
}

impl Default for Settings {
    fn default() -> (s: Settings)
        ensures
            s@ == default_settings(),
    {
        Settings {
            source: DEFAULT_SOURCE.to_string(),
            output: DEFAULT_OUTPUT.to_string(),
            model: "htdemucs".to_string(),
            mode: "vocals".to_string(),
            device: "auto".to_string(),
            separator: "Demucs".to_string(),
        }
    }
}

impl Settings {
    /// The settings to start with: those that were saved, where they could be
    /// read, else those of a first run.
    pub fn load(saved: Option<Settings>) -> (s: Settings)
        ensures
            s@ == (match saved {
                Some(t) => t@,
                None => default_settings(),
            }),
    {
        match saved {
            Some(t) => t,
            None => Settings::default(),
        }
    }
}

} // verus!
