//! Session settings, the options an editor may set at start-up, bacon's
//! preferences, and the arguments of the commands the service runs.
use vstd::prelude::*;
use crate::compiler::Cargo;
use crate::line_format::Bacon;
use crate::sync::Backend;
use crate::text::{
    chars_equal, chars_of, find_char, first_index, joined_path, join_path, pieces, slice_chars,
    split_on, split_words, string_of, strings_view, trim_chars, trimmed, words,
};

verus! {

/// Command-line arguments of the server.
pub struct Args {
    /// display version information
    pub version: bool,
}

/// The version of this server.
pub const PKG_VERSION: &'static str = "0.1.0";

/// The name of bacon's export file.
pub const LOCATIONS_FILE: &'static str = ".bacon-locations";

/// The command that runs bacon in the background.
pub const BACON_BACKGROUND_COMMAND: &'static str = "bacon";

/// Its arguments.
pub const BACON_BACKGROUND_COMMAND_ARGS: &'static str = "--headless -j bacon-ls";

/// The arguments of a compiler run.
pub const CARGO_COMMAND_ARGS: &'static str =
    "clippy --tests --all-features --all-targets --message-format json-diagnostic-rendered-ansi";

/// The settings of a session.
pub struct SessionConfig {
    pub locations_file: String,
    pub update_on_save: bool,
    pub update_on_save_wait_millis: u64,
    pub update_on_change: bool,
    pub update_on_change_cooldown_millis: u64,
    pub validate_bacon_preferences: bool,
    pub run_bacon_in_background: bool,
    pub run_bacon_in_background_command: String,
    pub run_bacon_in_background_command_args: String,
    pub create_bacon_preferences_file: bool,
    pub synchronize_all_open_files_wait_millis: u64,
    pub diagnostics_data_supported: bool,
    pub backend: Backend,
    pub cargo_command_args: String,
    pub cargo_env: Vec<String>,
}

pub struct SessionConfigView {
    pub locations_file: Seq<char>,
    pub update_on_save: bool,
    pub update_on_save_wait_millis: u64,
    pub update_on_change: bool,
    pub update_on_change_cooldown_millis: u64,
    pub validate_bacon_preferences: bool,
    pub run_bacon_in_background: bool,
    pub run_bacon_in_background_command: Seq<char>,
    pub run_bacon_in_background_command_args: Seq<char>,
    pub create_bacon_preferences_file: bool,
    pub synchronize_all_open_files_wait_millis: u64,
    pub diagnostics_data_supported: bool,
    pub backend: Backend,
    pub cargo_command_args: Seq<char>,
    pub cargo_env: Seq<Seq<char>>,
}

impl View for SessionConfig {
    type V = SessionConfigView;

    open spec fn view(&self) -> SessionConfigView {
        SessionConfigView {
            locations_file: self.locations_file@,
            update_on_save: self.update_on_save,
            update_on_save_wait_millis: self.update_on_save_wait_millis,
            update_on_change: self.update_on_change,
            update_on_change_cooldown_millis: self.update_on_change_cooldown_millis,
            validate_bacon_preferences: self.validate_bacon_preferences,
            run_bacon_in_background: self.run_bacon_in_background,
            run_bacon_in_background_command: self.run_bacon_in_background_command@,
            run_bacon_in_background_command_args: self.run_bacon_in_background_command_args@,
            create_bacon_preferences_file: self.create_bacon_preferences_file,
            synchronize_all_open_files_wait_millis: self.synchronize_all_open_files_wait_millis,
            diagnostics_data_supported: self.diagnostics_data_supported,
            backend: self.backend,
            cargo_command_args: self.cargo_command_args@,
            cargo_env: strings_view(self.cargo_env@),
        }
    }
}

impl Default for SessionConfig {
    fn default() -> (r: SessionConfig)
        ensures
            r@.locations_file == LOCATIONS_FILE@,
            r@.update_on_save,
            r@.update_on_save_wait_millis == 1000,
            !r@.update_on_change,
            r@.update_on_change_cooldown_millis == 5000,
            r@.validate_bacon_preferences,
            r@.run_bacon_in_background,
            r@.run_bacon_in_background_command == BACON_BACKGROUND_COMMAND@,
            r@.run_bacon_in_background_command_args == BACON_BACKGROUND_COMMAND_ARGS@,
            r@.create_bacon_preferences_file,
            r@.synchronize_all_open_files_wait_millis == 2000,
            !r@.diagnostics_data_supported,
            r@.backend == Backend::Cargo,
            r@.cargo_command_args == CARGO_COMMAND_ARGS@,
            r@.cargo_env.len() == 0,
    {
        SessionConfig {
            locations_file: LOCATIONS_FILE.to_owned(),
            update_on_save: true,
            update_on_save_wait_millis: 1000,
            update_on_change: false,
            update_on_change_cooldown_millis: 5000,
            validate_bacon_preferences: true,
            run_bacon_in_background: true,
            run_bacon_in_background_command: BACON_BACKGROUND_COMMAND.to_owned(),
            run_bacon_in_background_command_args: BACON_BACKGROUND_COMMAND_ARGS.to_owned(),
            create_bacon_preferences_file: true,
            synchronize_all_open_files_wait_millis: 2000,
            diagnostics_data_supported: false,
            backend: Backend::Cargo,
            cargo_command_args: CARGO_COMMAND_ARGS.to_owned(),
            cargo_env: Vec::new(),
        }
    }
}

/// The value of one start-up option, as the editor sent it.
pub enum OptionValue {
    Text(String),
    Number(u64),
    Flag(bool),
    /// Anything else: a negative or fractional number, a list, an object, null.
    Other,
}

/// An option whose value has the wrong type.
#[derive(Clone, Copy, Debug, PartialEq, Eq, Structural)]
pub enum ConfigError {
    InvalidParams,
}

/// The environment overrides written `KEY=VALUE, KEY=VALUE`: the comma-separated
/// pieces, each trimmed.
pub open spec fn env_list(s: Seq<char>) -> Seq<Seq<char>> {
    pieces(s, ',').map_values(|p: Seq<char>| trimmed(p))
}

/// The settings after the option `key` is set to `v`; `None` when `v` has the
/// wrong type for `key`. Unknown keys change nothing.
pub open spec fn option_applied(c: SessionConfigView, key: Seq<char>, v: OptionValue) -> Option<
    SessionConfigView,
> {
    if key == "locationsFile"@ {
        match v {
            OptionValue::Text(t) => Some(SessionConfigView { locations_file: t@, ..c }),
            _ => None,
        }
    } else if key == "updateOnSaveWaitMillis"@ {
        match v {
            OptionValue::Number(n) => Some(SessionConfigView { update_on_save_wait_millis: n, ..c }),
            _ => None,
        }
    } else if key == "runBaconInBackgroundCommandArguments"@ {
        match v {
            OptionValue::Text(t) => Some(
                SessionConfigView { run_bacon_in_background_command_args: t@, ..c },
            ),
            _ => None,
        }
    } else if key == "synchronizeAllOpenFilesWaitMillis"@ {
        match v {
            OptionValue::Number(n) => Some(
                SessionConfigView { synchronize_all_open_files_wait_millis: n, ..c },
            ),
            _ => None,
        }
    } else if key == "useCargoBackend"@ {
        match v {
            OptionValue::Flag(b) => Some(
                SessionConfigView {
                    backend: if b {
                        Backend::Cargo
                    } else {
                        Backend::Bacon
                    },
                    ..c
                },
            ),
            _ => None,
        }
    } else if key == "runBaconInBackground"@ {
        match v {
            OptionValue::Flag(b) => Some(SessionConfigView { run_bacon_in_background: b, ..c }),
            _ => None,
        }
    } else if key == "validateBaconPreferences"@ {
        match v {
            OptionValue::Flag(b) => Some(SessionConfigView { validate_bacon_preferences: b, ..c }),
            _ => None,
        }
    } else if key == "createBaconPreferencesFile"@ {
        match v {
            OptionValue::Flag(b) => Some(SessionConfigView { create_bacon_preferences_file: b, ..c }),
            _ => None,
        }
    } else if key == "updateOnSave"@ {
        match v {
            OptionValue::Flag(b) => Some(SessionConfigView { update_on_save: b, ..c }),
            _ => None,
        }
    } else if key == "cargoCommandArguments"@ {
        match v {
            OptionValue::Text(t) => Some(SessionConfigView { cargo_command_args: t@, ..c }),
            _ => None,
        }
    } else if key == "cargoEnv"@ {
        match v {
            OptionValue::Text(t) => Some(SessionConfigView { cargo_env: env_list(t@), ..c }),
            _ => None,
        }
    } else if key == "updateOnChange"@ {
        match v {
            OptionValue::Flag(b) => Some(SessionConfigView { update_on_change: b, ..c }),
            _ => None,
        }
    } else if key == "updateOnChangeCooldownMillis"@ {
        match v {
            OptionValue::Number(n) => Some(
                SessionConfigView { update_on_change_cooldown_millis: n, ..c },
            ),
            _ => None,
        }
    } else {
        Some(c)
    }
}

/// The settings once start-up options are in: the compiler backend runs no
/// bacon, checks no preferences, and refreshes on every save without waiting.
pub open spec fn initialized(c: SessionConfigView) -> SessionConfigView {
    if c.backend == Backend::Cargo {
        SessionConfigView {
            run_bacon_in_background: false,
            validate_bacon_preferences: false,
            create_bacon_preferences_file: false,
            update_on_save: true,
            update_on_save_wait_millis: 0,
            ..c
        }
    } else {
        c
    }
}

fn env_overrides(t: &String) -> (r: Vec<String>)
    ensures
        strings_view(r@) == env_list(t@),
{
    let parts = split_on(t.as_str(), ',');
    let mut r: Vec<String> = Vec::new();
    let mut i: usize = 0;
    while i < parts.len()
        invariant
            i <= parts.len(),
            strings_view(parts@) == pieces(t@, ','),
            strings_view(r@) == strings_view(parts@).subrange(0, i as int).map_values(
                |p: Seq<char>| trimmed(p),
            ),
        decreases parts.len() - i,
    {
        let trimmed_part = string_of(&trim_chars(&chars_of(parts[i].as_str())));
        assert(strings_view(r@.push(trimmed_part)) =~= strings_view(r@).push(trimmed_part@));
        assert(strings_view(parts@).subrange(0, i + 1).map_values(|p: Seq<char>| trimmed(p))
            =~= strings_view(parts@).subrange(0, i as int).map_values(|p: Seq<char>| trimmed(p)).push(
            trimmed(parts@[i as int]@),
        ));
        r.push(trimmed_part);
        i = i + 1;
    }
    assert(strings_view(parts@).subrange(0, parts@.len() as int) =~= strings_view(parts@));
    r
}

impl SessionConfig {
    /// Sets the start-up option `key` to `value`. A value of the wrong type is
    /// refused and changes nothing; an unknown key is ignored.
    pub fn apply_option(&mut self, key: &str, value: &OptionValue) -> (r: Result<(), ConfigError>)
        ensures
            r is Ok <==> option_applied(old(self)@, key@, *value) is Some,
            r is Ok ==> final(self)@ == option_applied(old(self)@, key@, *value)->0,
            r is Err ==> final(self)@ == old(self)@,
    {
        let k = chars_of(key);
        if chars_equal(&k, "locationsFile") {
            match value {
                OptionValue::Text(t) => {
                    self.locations_file = t.clone();
                    Ok(())
                },
                _ => Err(ConfigError::InvalidParams),
            }
        } else if chars_equal(&k, "updateOnSaveWaitMillis") {
            match value {
                OptionValue::Number(n) => {
                    self.update_on_save_wait_millis = *n;
                    Ok(())
                },
                _ => Err(ConfigError::InvalidParams),
            }
        } else if chars_equal(&k, "runBaconInBackgroundCommandArguments") {
            match value {
                OptionValue::Text(t) => {
                    self.run_bacon_in_background_command_args = t.clone();
                    Ok(())
                },
                _ => Err(ConfigError::InvalidParams),
            }
        } else if chars_equal(&k, "synchronizeAllOpenFilesWaitMillis") {
            match value {
                OptionValue::Number(n) => {
                    self.synchronize_all_open_files_wait_millis = *n;
                    Ok(())
                },
                _ => Err(ConfigError::InvalidParams),
            }
        } else if chars_equal(&k, "useCargoBackend") {
            match value {
                OptionValue::Flag(b) => {
                    self.backend = if *b {
                        Backend::Cargo
                    } else {
                        Backend::Bacon
                    };
                    Ok(())
                },
                _ => Err(ConfigError::InvalidParams),
            }
        } else if chars_equal(&k, "runBaconInBackground") {
            match value {
                OptionValue::Flag(b) => {
                    self.run_bacon_in_background = *b;
                    Ok(())
                },
                _ => Err(ConfigError::InvalidParams),
            }
        } else if chars_equal(&k, "validateBaconPreferences") {
            match value {
                OptionValue::Flag(b) => {
                    self.validate_bacon_preferences = *b;
                    Ok(())
                },
                _ => Err(ConfigError::InvalidParams),
            }
        } else if chars_equal(&k, "createBaconPreferencesFile") {
            match value {
                OptionValue::Flag(b) => {
                    self.create_bacon_preferences_file = *b;
                    Ok(())
                },
                _ => Err(ConfigError::InvalidParams),
            }
        } else if chars_equal(&k, "updateOnSave") {
            match value {
                OptionValue::Flag(b) => {
                    self.update_on_save = *b;
                    Ok(())
                },
                _ => Err(ConfigError::InvalidParams),
            }
        } else if chars_equal(&k, "cargoCommandArguments") {
            match value {
                OptionValue::Text(t) => {
                    self.cargo_command_args = t.clone();
                    Ok(())
                },
                _ => Err(ConfigError::InvalidParams),
            }
        } else if chars_equal(&k, "cargoEnv") {
            match value {
                OptionValue::Text(t) => {
                    self.cargo_env = env_overrides(t);
                    Ok(())
                },
                _ => Err(ConfigError::InvalidParams),
            }
        } else if chars_equal(&k, "updateOnChange") {
            match value {
                OptionValue::Flag(b) => {
                    self.update_on_change = *b;
                    Ok(())
                },
                _ => Err(ConfigError::InvalidParams),
            }
        } else if chars_equal(&k, "updateOnChangeCooldownMillis") {
            match value {
                OptionValue::Number(n) => {
                    self.update_on_change_cooldown_millis = *n;
                    Ok(())
                },
                _ => Err(ConfigError::InvalidParams),
            }
        } else {
            Ok(())
        }
    }

    /// Settles the settings once the start-up options are in. Returns whether
    /// the compiler should build in the repository itself (the compiler backend
    /// without refresh on change).
    pub fn finish_initialization(&mut self) -> (r: bool)
        ensures
            final(self)@ == initialized(old(self)@),
            r == (old(self)@.backend == Backend::Cargo && !old(self)@.update_on_change),
    {
        if self.backend == Backend::Cargo {
            self.run_bacon_in_background = false;
            self.validate_bacon_preferences = false;
            self.create_bacon_preferences_file = false;
            self.update_on_save = true;
            self.update_on_save_wait_millis = 0;
            !self.update_on_change
        } else {
            false
        }
    }
}

/// How long after one rebuild on change the next may start, in milliseconds.
pub const CHANGE_COOLDOWN_MILLIS: u64 = 5000;

impl SessionConfig {
    /// Whether the compiler builds a private copy of the sources, refreshed on
    /// every document event: with the compiler backend and refresh on change.
    pub fn keeps_build_copy(&self) -> (r: bool)
        ensures
            r == (self.backend == Backend::Cargo && self.update_on_change),
    {
        self.backend == Backend::Cargo && self.update_on_change
    }

    /// Whether an edit, `elapsed_millis` after the last rebuild on change,
    /// starts a new one: only with a build copy, and once the cooldown is over.
    pub fn rebuilds_on_change(&self, elapsed_millis: u64) -> (r: bool)
        ensures
            r == (self.backend == Backend::Cargo && self.update_on_change && elapsed_millis
                >= CHANGE_COOLDOWN_MILLIS),
    {
        self.keeps_build_copy() && elapsed_millis >= CHANGE_COOLDOWN_MILLIS
    }
}

/// Whether the output of a process is forwarded to the log: unless the setting
/// says `off`.
pub fn forwards_logs(setting: &str) -> (r: bool)
    ensures
        r == (setting@ != "off"@),
{
    !chars_equal(&chars_of(setting), "off")
}

impl Cargo {
    /// The arguments of a compiler run: the words of `command_args`, then a
    /// manifest override that points at `Cargo.toml` in `build_dir`.
    pub fn command_arguments(command_args: &str, build_dir: &str) -> (r: Vec<String>)
        ensures
            strings_view(r@) == words(command_args@).push("--manifest-path"@).push(
                joined_path(build_dir@, "Cargo.toml"@),
            ),
    {
        let mut r = split_words(command_args);
        let flag = "--manifest-path".to_owned();
        let manifest = string_of(&join_path(&chars_of(build_dir), &chars_of("Cargo.toml")));
        let ghost base = strings_view(r@);
        r.push(flag);
        assert(strings_view(r@) =~= base.push(flag@));
        let ghost with_flag = strings_view(r@);
        r.push(manifest);
        assert(strings_view(r@) =~= with_flag.push(manifest@));
        r
    }

    /// An environment override `KEY=VALUE` split at its first `=`; `None` when it
    /// has none.
    pub fn env_override(assignment: &str) -> (r: Option<(String, String)>)
        ensures
            first_index(assignment@, '=') < 0 ==> r is None,
            first_index(assignment@, '=') >= 0 ==> (r matches Some((k, v)) && k@
                == assignment@.subrange(0, first_index(assignment@, '=')) && v@
                == assignment@.subrange(first_index(assignment@, '=') + 1, assignment@.len() as int)),
    {
        let s = chars_of(assignment);
        match find_char(&s, '=') {
            Some(i) => Some((string_of(&slice_chars(&s, 0, i)), string_of(&slice_chars(&s, i + 1, s.len())))),
            None => None,
        }
    }
}

/// The analyzer bacon's job must use.
pub const BACON_ANALYZER: &'static str = "cargo_json";

/// The exporter bacon must use.
pub const BACON_EXPORTER: &'static str = "analyzer";

/// The record layout bacon must export.
pub const LINE_FORMAT: &'static str = "{diagnostic.level}|:|{span.file_name}|:|{span.line_start}|:|{span.line_end}|:|{span.column_start}|:|{span.column_end}|:|{diagnostic.message}|:|{diagnostic.rendered}|:|{span.suggested_replacement}";

/// What is reported of preferences that do not fit.
pub const PREFERENCES_ERROR: &'static str = "bacon configuration is not compatible with bacon-ls: please take a look to https://github.com/crisidev/bacon-ls?tab=readme-ov-file#configuration and adapt your bacon configuration";

/// The command of bacon's job that this service writes.
pub const BACON_JOB_COMMAND: &'static str = "cargo clippy --tests --all-targets --all-features --message-format json-diagnostic-rendered-ansi";

/// The parts of bacon's preferences that matter here: its job for this
/// service, and its export.
pub struct BaconPreferences {
    pub command: Vec<String>,
    pub analyzer: String,
    pub need_stdout: bool,
    pub auto: bool,
    pub exporter: String,
    pub line_format: String,
    pub path: String,
}

/// The preferences fit this service: the job's analyzer reads the compiler's
/// JSON with standard output, and the export is automatic, through the expected
/// exporter, in the record layout, to the export file.
pub open spec fn preferences_fit(p: BaconPreferences) -> bool {
    &&& p.analyzer@ == BACON_ANALYZER@
    &&& p.need_stdout
    &&& p.auto
    &&& p.exporter@ == BACON_EXPORTER@
    &&& p.line_format@ == LINE_FORMAT@
    &&& p.path@ == LOCATIONS_FILE@
}

impl Bacon {
    /// Checks bacon's preferences.
    pub fn validate_preferences_config(p: &BaconPreferences) -> (r: Result<(), String>)
        ensures
            r is Ok <==> preferences_fit(*p),
            r matches Err(e) ==> e@ == PREFERENCES_ERROR@,
    {
        if chars_equal(&chars_of(p.analyzer.as_str()), BACON_ANALYZER) && p.need_stdout && p.auto
            && chars_equal(&chars_of(p.exporter.as_str()), BACON_EXPORTER) && chars_equal(
            &chars_of(p.line_format.as_str()),
            LINE_FORMAT,
        ) && chars_equal(&chars_of(p.path.as_str()), LOCATIONS_FILE) {
            Ok(())
        } else {
            Err(PREFERENCES_ERROR.to_owned())
        }
    }

    /// The preferences this service writes when none exist.
    pub fn default_preferences() -> (r: BaconPreferences)
        ensures
            preferences_fit(r),
            strings_view(r.command@) == words(BACON_JOB_COMMAND@),
    {
        BaconPreferences {
            command: split_words(BACON_JOB_COMMAND),
            analyzer: BACON_ANALYZER.to_owned(),
            need_stdout: true,
            auto: true,
            exporter: BACON_EXPORTER.to_owned(),
            line_format: LINE_FORMAT.to_owned(),
            path: LOCATIONS_FILE.to_owned(),
        }
    }

    /// The preference files bacon lists, one per line.
    pub fn preference_paths(listing: &str) -> (r: Vec<String>)
        ensures
            strings_view(r@) == pieces(listing@, '\n'),
    {
        split_on(listing, '\n')
    }

    /// The preference file to create: the first one listed, when none of them
    /// exists (`exists[k]` tells of `paths[k]`) and creation is enabled.
    pub fn preferences_file_to_create(paths: &Vec<String>, exists: &Vec<bool>, create: bool) -> (r:
        Option<String>)
        requires
            exists@.len() == paths@.len(),
        ensures
            r is Some <==> create && paths@.len() > 0 && forall|k: int|
                0 <= k < exists@.len() ==> !#[trigger] exists@[k],
            r matches Some(p) ==> p@ == paths@[0]@,
    {
        if !create || paths.len() == 0 {
            return None;
        }
        let mut k: usize = 0;
        while k < exists.len()
            invariant
                k <= exists.len(),
                forall|j: int| 0 <= j < k ==> !#[trigger] exists@[j],
            decreases exists.len() - k,
        {
            if exists[k] {
                return None;
            }
            k = k + 1;
        }
        Some(paths[0].clone())
    }
}

} // verus!
