//! The state behind the interactive views: the filter bar, the log view,
//! the dialogs for opening files, connecting and saving.
use vstd::prelude::*;
use crate::filter::{CombineMode, FilterCriteria};
use crate::pattern::regex_valid;
use crate::text::{parse_u16, parse_u16_spec, trim, trim_of};

verus! {

/// The priority ceiling of each choice of the priority menu: all, info and
/// worse, notice and worse, warnings, errors, critical.
pub open spec fn priority_max_spec(choice: usize) -> u8 {
    if choice == 1 {
        6
    } else if choice == 2 {
        5
    } else if choice == 3 {
        4
    } else if choice == 4 {
        3
    } else if choice == 5 {
        2
    } else {
        7
    }
}

pub fn priority_max(choice: usize) -> (r: u8)
    ensures
        r == priority_max_spec(choice),
{
    match choice {
        1 => 6,
        2 => 5,
        3 => 4,
        4 => 3,
        5 => 2,
        _ => 7,
    }
}

/// The short label of a priority.
pub open spec fn priority_label_spec(p: u8) -> Seq<char> {
    if p == 0 {
        "EMERG"@
    } else if p == 1 {
        "ALERT"@
    } else if p == 2 {
        "CRIT"@
    } else if p == 3 {
        "ERR"@
    } else if p == 4 {
        "WARN"@
    } else if p == 5 {
        "NOTICE"@
    } else if p == 6 {
        "INFO"@
    } else if p == 7 {
        "DEBUG"@
    } else {
        "???"@
    }
}

pub fn priority_label(p: u8) -> (r: &'static str)
    ensures
        r@ == priority_label_spec(p),
{
    match p {
        0 => "EMERG",
        1 => "ALERT",
        2 => "CRIT",
        3 => "ERR",
        4 => "WARN",
        5 => "NOTICE",
        6 => "INFO",
        7 => "DEBUG",
        _ => "???",
    }
}

/// A copy of a list of strings.
pub fn clone_strings(v: &Vec<String>) -> (r: Vec<String>)
    ensures
        r@.map_values(|s: String| s@) == v@.map_values(|s: String| s@),
{
    let mut out: Vec<String> = Vec::new();
    let mut i: usize = 0;
    while i < v.len()
        invariant
            i <= v@.len(),
            out@.map_values(|s: String| s@) == v@.take(i as int).map_values(|s: String| s@),
        decreases v.len() - i,
    {
        out.push(v[i].clone());
        assert(v@.take(i + 1).map_values(|s: String| s@) =~= v@.take(i as int).map_values(|s: String| s@).push(v@[i as int]@));
        assert(out@.map_values(|s: String| s@) =~= v@.take(i + 1).map_values(|s: String| s@));
        i = i + 1;
    }
    assert(v@.take(v@.len() as int) =~= v@);
    out
}

/// The filter bar's inputs.
#[derive(Clone, Debug)]
pub struct FilterBar {
    pub pattern_text: String,
    pub pattern2_text: String,
    pub pattern_valid: bool,
    pub pattern2_valid: bool,
    pub selected_services: Vec<String>,
    /// index into the priority menu
    pub priority_choice: usize,
    pub combine_mode: CombineMode,
}

impl Default for FilterBar {
    fn default() -> (r: FilterBar)
        ensures
            r.pattern_text@.len() == 0,
            r.pattern2_text@.len() == 0,
            r.pattern_valid,
            r.pattern2_valid,
            r.selected_services@.len() == 0,
            r.priority_choice == 0,
            r.combine_mode == CombineMode::Match,
    {
        FilterBar {
            pattern_text: String::new(),
            pattern2_text: String::new(),
            pattern_valid: true,
            pattern2_valid: true,
            selected_services: Vec::new(),
            priority_choice: 0,
            combine_mode: CombineMode::Match,
        }
    }
}

impl FilterBar {
    /// Whether any input differs from its default.
    pub fn is_active(&self) -> (r: bool)
        ensures
            r == (self.pattern_text@.len() > 0 || self.pattern2_text@.len() > 0
                || self.selected_services@.len() > 0 || self.priority_choice != 0
                || self.combine_mode != CombineMode::Match),
    {
        !self.pattern_text.as_str().is_empty() || !self.pattern2_text.as_str().is_empty()
            || self.selected_services.len() > 0 || self.priority_choice != 0
            || self.combine_mode != CombineMode::Match
    }

    /// Rebuilds `filter` from the bar's inputs. A pattern text that does not
    /// compile leaves the filter's previous pattern in place; an empty text
    /// clears it.
    pub fn apply_to_filter(&self, filter: &mut FilterCriteria)
        ensures
            final(filter)@.units == self.selected_services@.map_values(|s: String| s@),
            final(filter)@.max_priority == priority_max_spec(self.priority_choice),
            final(filter)@.mode == self.combine_mode,
            final(filter)@.primary == (if self.pattern_text@.len() == 0 {
                None
            } else if regex_valid(self.pattern_text@) {
                Some(self.pattern_text@)
            } else {
                old(filter)@.primary
            }),
            final(filter)@.secondary == (if self.pattern2_text@.len() == 0 {
                None
            } else if regex_valid(self.pattern2_text@) {
                Some(self.pattern2_text@)
            } else {
                old(filter)@.secondary
            }),
    {
        filter.set_pattern(self.pattern_text.as_str());
        filter.set_pattern2(self.pattern2_text.as_str());
        filter.units = clone_strings(&self.selected_services);
        filter.max_priority = priority_max(self.priority_choice);
        filter.combine_mode = self.combine_mode;
    }
}

/// The log view's scrolling state.
#[derive(Debug)]
pub struct LogViewer {
    pub auto_scroll: bool,
    /// index into the stored entries of the selected row
    pub selected_entry: Option<usize>,
    pub new_entry_count: usize,
    pub is_at_bottom: bool,
    /// row of the filtered list to scroll to, consumed once used
    pub scroll_to_row: Option<usize>,
}

impl Default for LogViewer {
    fn default() -> (r: LogViewer)
        ensures
            r.auto_scroll,
            r.selected_entry is None,
            r.scroll_to_row is None,
            r.unseen() == 0,
            r.at_bottom(),
    {
        LogViewer {
            auto_scroll: true,
            selected_entry: None,
            new_entry_count: 0,
            is_at_bottom: true,
            scroll_to_row: None,
        }
    }
}

impl LogViewer {
    pub open spec fn unseen(&self) -> nat {
        self.new_entry_count as nat
    }

    pub open spec fn at_bottom(&self) -> bool {
        self.is_at_bottom
    }

    /// How many entries arrived that the user has not scrolled to.
    pub fn new_entry_count(&self) -> (r: usize)
        ensures
            r == self.unseen(),
    {
        self.new_entry_count
    }

    /// Records where the view is scrolled; reaching the bottom clears the
    /// count of unseen entries.
    pub fn set_at_bottom(&mut self, at_bottom: bool)
        ensures
            final(self).at_bottom() == at_bottom,
            final(self).unseen() == (if at_bottom { 0 } else { old(self).unseen() }),
            final(self).auto_scroll == old(self).auto_scroll,
            final(self).selected_entry == old(self).selected_entry,
            final(self).scroll_to_row == old(self).scroll_to_row,
    {
        self.is_at_bottom = at_bottom;
        if at_bottom {
            self.new_entry_count = 0;
        }
    }

    /// Counts `count` new entries as unseen, unless the view follows them
    /// (auto-scroll on, or scrolled to the bottom). The count saturates.
    pub fn notify_new_entries(&mut self, count: usize)
        ensures
            final(self).unseen() == (if !old(self).auto_scroll && !old(self).at_bottom() {
                if old(self).unseen() + count > usize::MAX {
                    usize::MAX as nat
                } else {
                    (old(self).unseen() + count) as nat
                }
            } else {
                old(self).unseen()
            }),
            final(self).auto_scroll == old(self).auto_scroll,
            final(self).at_bottom() == old(self).at_bottom(),
            final(self).selected_entry == old(self).selected_entry,
            final(self).scroll_to_row == old(self).scroll_to_row,
    {
        if !self.auto_scroll && !self.is_at_bottom {
            self.new_entry_count = self.new_entry_count.saturating_add(count);
        }
    }
}

/// The open-file dialog's inputs.
#[derive(Clone, Debug)]
pub struct OpenFileDialog {
    pub open: bool,
    pub path: String,
    pub error: Option<String>,
}

impl Default for OpenFileDialog {
    fn default() -> (r: OpenFileDialog)
        ensures
            !r.open,
            r.path@.len() == 0,
            r.error is None,
    {
        OpenFileDialog { open: false, path: String::new(), error: None }
    }
}

/// The form saved logs are written in.
#[derive(Clone, Copy, Debug, PartialEq, Eq, Structural)]
pub enum SaveFormat {
    Json,
    PlainText,
}

/// Where and how logs are saved.
#[derive(Clone, Debug)]
pub struct SaveSettings {
    pub destination: String,
    /// may hold `{host}`, `{date}` and `{time}`
    pub filename_template: String,
    pub format: SaveFormat,
    pub auto_save: bool,
    pub save_filtered_only: bool,
}

impl SaveSettings {
    /// The file extension of the format.
    pub fn extension(&self) -> (r: &'static str)
        ensures
            r@ == (if self.format == SaveFormat::Json {
                "json"@
            } else {
                "log"@
            }),
    {
        match self.format {
            SaveFormat::Json => "json",
            SaveFormat::PlainText => "log",
        }
    }
}

/// The save-settings dialog's inputs.
#[derive(Clone, Debug)]
pub struct SaveSettingsDialog {
    pub open: bool,
    pub destination: String,
    pub filename_template: String,
    pub format: SaveFormat,
    pub auto_save: bool,
    pub save_filtered_only: bool,
}

impl SaveSettingsDialog {
    /// A closed dialog holding `settings`.
    pub fn from_settings(settings: &SaveSettings) -> (r: SaveSettingsDialog)
        ensures
            !r.open,
            r.destination@ == settings.destination@,
            r.filename_template@ == settings.filename_template@,
            r.format == settings.format,
            r.auto_save == settings.auto_save,
            r.save_filtered_only == settings.save_filtered_only,
    {
        SaveSettingsDialog {
            open: false,
            destination: settings.destination.clone(),
            filename_template: settings.filename_template.clone(),
            format: settings.format,
            auto_save: settings.auto_save,
            save_filtered_only: settings.save_filtered_only,
        }
    }

    /// Fills the dialog's inputs from `settings`.
    pub fn load_from(&mut self, settings: &SaveSettings)
        ensures
            final(self).open == old(self).open,
            final(self).destination@ == settings.destination@,
            final(self).filename_template@ == settings.filename_template@,
            final(self).format == settings.format,
            final(self).auto_save == settings.auto_save,
            final(self).save_filtered_only == settings.save_filtered_only,
    {
        self.destination = settings.destination.clone();
        self.filename_template = settings.filename_template.clone();
        self.format = settings.format;
        self.auto_save = settings.auto_save;
        self.save_filtered_only = settings.save_filtered_only;
    }

    /// The settings the dialog's inputs describe.
    pub fn to_settings(&self) -> (r: SaveSettings)
        ensures
            r.destination@ == self.destination@,
            r.filename_template@ == self.filename_template@,
            r.format == self.format,
            r.auto_save == self.auto_save,
            r.save_filtered_only == self.save_filtered_only,
    {
        SaveSettings {
            destination: self.destination.clone(),
            filename_template: self.filename_template.clone(),
            format: self.format,
            auto_save: self.auto_save,
            save_filtered_only: self.save_filtered_only,
        }
    }
}

/// How a remote session authenticates.
#[derive(Clone, Debug)]
pub enum AuthMethod {
    Password(String),
    /// path of a private key file
    KeyFile(String),
    Agent,
}

/// A remote source: where to connect and which command streams the log.
#[derive(Clone, Debug)]
pub struct SshConfig {
    pub host: String,
    pub port: u16,
    pub username: String,
    pub auth: AuthMethod,
    pub command: String,
}

impl Default for SshConfig {
    /// No host yet, port 22, the agent, and a journal stream in JSON.
    fn default() -> (r: SshConfig)
        ensures
            r.host@.len() == 0,
            r.port == 22,
            r.username@.len() == 0,
            r.auth is Agent,
            r.command@ == "journalctl -o json --no-pager -n 10000 -f"@,
    {
        SshConfig {
            host: String::new(),
            port: 22,
            username: String::new(),
            auth: AuthMethod::Agent,
            command: "journalctl -o json --no-pager -n 10000 -f".to_owned(),
        }
    }
}

/// A saved connection profile.
#[derive(Clone, Debug)]
pub struct ConnectionProfile {
    pub name: String,
    pub host: String,
    pub port: u16,
    pub username: String,
    pub auth_choice: usize,
    pub key_path: String,
    pub command: String,
}

/// The connection dialog's inputs.
#[derive(Clone, Debug)]
pub struct ConnectionDialog {
    pub open: bool,
    pub host: String,
    pub port: String,
    pub username: String,
    /// 0 password, 1 key file, otherwise the agent
    pub auth_choice: usize,
    pub password: String,
    pub key_path: String,
    pub command: String,
    pub error: Option<String>,
    pub profiles: Vec<ConnectionProfile>,
    pub profile_name: String,
}

/// Why the connection dialog's inputs were refused.
#[derive(Clone, Copy, Debug, PartialEq, Eq, Structural)]
pub enum ConnectionError {
    MissingHost,
    MissingUsername,
    InvalidPort,
    MissingKeyFile,
}

impl ConnectionError {
    /// The message shown for the error.
    pub fn message(&self) -> (r: &'static str) {
        match self {
            ConnectionError::MissingHost => "Host is required",
            ConnectionError::MissingUsername => "Username is required",
            ConnectionError::InvalidPort => "Invalid port number",
            ConnectionError::MissingKeyFile => "Key file path is required",
        }
    }
}

impl ConnectionDialog {
    /// Fills the inputs from profile `index`, where there is one; the password
    /// is cleared.
    pub fn apply_profile(&mut self, index: usize)
        ensures
            index < old(self).profiles@.len() ==> {
                let p = old(self).profiles@[index as int];
                &&& final(self).host@ == p.host@
                &&& final(self).port@ == crate::text::decimal_of(p.port as nat)
                &&& final(self).username@ == p.username@
                &&& final(self).auth_choice == p.auth_choice
                &&& final(self).key_path@ == p.key_path@
                &&& final(self).command@ == p.command@
                &&& final(self).password@.len() == 0
                &&& final(self).profile_name@ == p.name@
                &&& final(self).error is None
            },
            index >= old(self).profiles@.len() ==> final(self).host@ == old(self).host@
                && final(self).port@ == old(self).port@,
    {
        if index < self.profiles.len() {
            let p = &self.profiles[index];
            let host = p.host.clone();
            let port = crate::text::decimal_string(p.port as u64);
            let username = p.username.clone();
            let auth_choice = p.auth_choice;
            let key_path = p.key_path.clone();
            let command = p.command.clone();
            let name = p.name.clone();
            self.host = host;
            self.port = port;
            self.username = username;
            self.auth_choice = auth_choice;
            self.key_path = key_path;
            self.command = command;
            self.password = String::new();
            self.profile_name = name;
            self.error = None;
        }
    }

    /// Checks the inputs and builds the connection they describe.
    pub fn validate(&self) -> (r: Result<SshConfig, ConnectionError>)
        ensures
            r == Err::<SshConfig, ConnectionError>(ConnectionError::MissingHost) <==> trim_of(
                self.host@,
            ).len() == 0,
            r == Err::<SshConfig, ConnectionError>(ConnectionError::MissingUsername) <==> trim_of(
                self.host@,
            ).len() > 0 && trim_of(self.username@).len() == 0,
            r == Err::<SshConfig, ConnectionError>(ConnectionError::InvalidPort) <==> trim_of(
                self.host@,
            ).len() > 0 && trim_of(self.username@).len() > 0 && parse_u16_spec(self.port@) is None,
            r == Err::<SshConfig, ConnectionError>(ConnectionError::MissingKeyFile) <==> trim_of(
                self.host@,
            ).len() > 0 && trim_of(self.username@).len() > 0 && parse_u16_spec(self.port@) is Some
                && self.auth_choice == 1 && trim_of(self.key_path@).len() == 0,
            r matches Ok(c) ==> c.host@ == trim_of(self.host@) && c.username@ == trim_of(
                self.username@,
            ) && parse_u16_spec(self.port@) == Some(c.port) && c.command@ == self.command@
                && match c.auth {
                AuthMethod::Password(p) => self.auth_choice == 0 && p@ == self.password@,
                AuthMethod::KeyFile(k) => self.auth_choice == 1 && k@ == self.key_path@,
                AuthMethod::Agent => self.auth_choice > 1,
            },
    {
        let host = trim(self.host.as_str());
        if host.is_empty() {
            return Err(ConnectionError::MissingHost);
        }
        let username = trim(self.username.as_str());
        if username.is_empty() {
            return Err(ConnectionError::MissingUsername);
        }
        let port = match parse_u16(self.port.as_str()) {
            Some(p) => p,
            None => return Err(ConnectionError::InvalidPort),
        };
        let auth = if self.auth_choice == 0 {
            AuthMethod::Password(self.password.clone())
        } else if self.auth_choice == 1 {
            if trim(self.key_path.as_str()).is_empty() {
                return Err(ConnectionError::MissingKeyFile);
            }
            AuthMethod::KeyFile(self.key_path.clone())
        } else {
            AuthMethod::Agent
        };
        Ok(
            SshConfig {
                host: host.to_owned(),
                port,
                username: username.to_owned(),
                auth,
                command: self.command.clone(),
            },
        )
    }
}

} // verus!
