//! The shell's settings, made from what the environment gives.

use crate::path::{join_path, joined_path, tilde, tilde_result};
use crate::text::{chars_of, string_of};
use vstd::prelude::*;

verus! {

/// What was read from the environment before the shell starts. `None` stands
/// for a variable that is not set.
#[derive(Debug)]
pub struct Settings {
    /// `ZAKO_CONFIG_DIR`.
    pub config_dir: Option<String>,
    /// The working directory.
    pub current_dir: String,
    /// `ZAKO_LOG`.
    pub logger_level: Option<String>,
    /// `ZAKO_THEME`.
    pub theme: Option<String>,
    /// `ZAKO_EDITOR_MODE`.
    pub editor_mode: Option<String>,
}

/// The shell's settings.
#[derive(Debug)]
pub struct Config {
    pub name: String,
    pub logger_level: String,
    pub theme: String,
    pub editor_mode: String,
    pub config_dir: String,
    pub history_file: String,
    pub themes_dir: String,
}

/// The levels of the log, from the most severe to the least.
#[derive(Debug, PartialEq, Eq, Clone, Copy, Structural)]
pub enum LogLevel {
    Error,
    Warn,
    Info,
    Debug,
    Trace,
}

/// Whether `a` and `b` are the same character, or the same ASCII letter in
/// different cases.
pub open spec fn same_letter(a: char, b: char) -> bool {
    a == b || ('A' <= a <= 'Z' && 'a' <= b <= 'z' && a as int + 32 == b as int) || ('A' <= b <= 'Z'
        && 'a' <= a <= 'z' && b as int + 32 == a as int)
}

/// Whether `a` and `b` are equal but for the case of ASCII letters.
pub open spec fn same_ignoring_case(a: Seq<char>, b: Seq<char>) -> bool {
    a.len() == b.len() && forall|i: int| 0 <= i < a.len() ==> same_letter(#[trigger] a[i], b[i])
}

/// The level that a setting names, whatever the case of its letters; `Info`
/// for any other text.
pub open spec fn level_of(setting: Seq<char>) -> LogLevel {
    if same_ignoring_case(setting, "error"@) {
        LogLevel::Error
    } else if same_ignoring_case(setting, "warn"@) {
        LogLevel::Warn
    } else if same_ignoring_case(setting, "info"@) {
        LogLevel::Info
    } else if same_ignoring_case(setting, "debug"@) {
        LogLevel::Debug
    } else if same_ignoring_case(setting, "trace"@) {
        LogLevel::Trace
    } else {
        LogLevel::Info
    }
}

/// Whether `a` and `b` are equal but for the case of ASCII letters.
pub fn eq_ignore_ascii_case(a: &str, b: &str) -> (same: bool)
    ensures
        same == same_ignoring_case(a@, b@),
{
    let x = chars_of(a);
    let y = chars_of(b);
    if x.len() != y.len() {
        return false;
    }
    let mut i: usize = 0;
    while i < x.len()
        invariant
            i <= x.len(),
            x.len() == y.len(),
            x@ == a@,
            y@ == b@,
            forall|k: int| 0 <= k < i ==> same_letter(#[trigger] x@[k], y@[k]),
        decreases x.len() - i,
    {
        let c = x[i];
        let d = y[i];
        let same = c == d || (c >= 'A' && c <= 'Z' && d >= 'a' && d <= 'z' && c as u32 + 32
            == d as u32) || (d >= 'A' && d <= 'Z' && c >= 'a' && c <= 'z' && d as u32 + 32
            == c as u32);
        assert(same == same_letter(c, d));
        if !same {
            return false;
        }
        i += 1;
    }
    true
}

/// The directory that the settings name for the shell's files.
pub open spec fn config_dir_rule(
    setting: Option<Seq<char>>,
    current_dir: Seq<char>,
    config_dir: Seq<char>,
) -> bool {
    match setting {
        Some(dir) => if dir.len() >= 2 && dir[0] == '.' && dir[1] == '/' {
            config_dir == joined_path(current_dir, dir.skip(2))
        } else {
            tilde_result(dir, config_dir)
        },
        None => tilde_result("~/.config/zako"@, config_dir),
    }
}

impl Config {
    /// The settings that follow from the environment: each variable that is
    /// set wins over the default. A directory given as `./...` is taken from
    /// the working directory, any other has a leading `~` expanded.
    pub fn new(settings: Settings) -> (config: Config)
        ensures
            config.name@ == "zako"@,
            config.logger_level@ == match settings.logger_level {
                Some(level) => level@,
                None => "info"@,
            },
            config.theme@ == match settings.theme {
                Some(theme) => theme@,
                None => "default"@,
            },
            config.editor_mode@ == match settings.editor_mode {
                Some(mode) => mode@,
                None => "vi"@,
            },
            config_dir_rule(
                match settings.config_dir {
                    Some(dir) => Some(dir@),
                    None => None,
                },
                settings.current_dir@,
                config.config_dir@,
            ),
            config.history_file@ == joined_path(config.config_dir@, ".zako_history"@),
            config.themes_dir@ == joined_path(config.config_dir@, "themes"@),
    {
        let config_dir = match &settings.config_dir {
            Some(dir) => {
                let chars = chars_of(dir.as_str());
                if chars.len() >= 2 && chars[0] == '.' && chars[1] == '/' {
                    let rest = string_of(&chars, 2, chars.len());
                    assert(chars@.subrange(2, chars.len() as int) =~= chars@.skip(2));
                    join_path(settings.current_dir.as_str(), rest.as_str())
                } else {
                    tilde(dir.as_str())
                }
            },
            None => tilde("~/.config/zako"),
        };
        let history_file = join_path(config_dir.as_str(), ".zako_history");
        let themes_dir = join_path(config_dir.as_str(), "themes");
        Config {
            name: "zako".to_owned(),
            logger_level: match settings.logger_level {
                Some(level) => level,
                None => "info".to_owned(),
            },
            theme: match settings.theme {
                Some(theme) => theme,
                None => "default".to_owned(),
            },
            editor_mode: match settings.editor_mode {
                Some(mode) => mode,
                None => "vi".to_owned(),
            },
            config_dir,
            history_file,
            themes_dir,
        }
    }

    /// The level of the log that the settings ask for.
    pub fn log_level(&self) -> (level: LogLevel)
        ensures
            level == level_of(self.logger_level@),
    {
        let setting = self.logger_level.as_str();
        if eq_ignore_ascii_case(setting, "error") {
            LogLevel::Error
        } else if eq_ignore_ascii_case(setting, "warn") {
            LogLevel::Warn
        } else if eq_ignore_ascii_case(setting, "info") {
            LogLevel::Info
        } else if eq_ignore_ascii_case(setting, "debug") {
            LogLevel::Debug
        } else if eq_ignore_ascii_case(setting, "trace") {
            LogLevel::Trace
        } else {
            LogLevel::Info
        }
    }

    /// Whether lines are edited with Emacs keys: only where the setting is
    /// `emacs`. Any other setting means vi keys.
    pub fn emacs_keys(&self) -> (emacs: bool)
        ensures
            emacs == (self.editor_mode@ == "emacs"@),
    {
        crate::text::same_text(self.editor_mode.as_str(), "emacs")
    }
}

} // verus!
