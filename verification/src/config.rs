//! Runtime configuration.
//!
//! The configuration is a `blitzortung.conf` INI file with the sections
//! `[webservice]`, `[db]`, `[auth]` and `[statsd]`, searched in `.` then
//! `/etc/`; the `BO_CONFIG` variable names another file.  Environment variables
//! override the file, and built-in defaults fill what neither gives:
//!
//! * `BO_SERVICE_PORT` (default `8080`)
//! * `BO_SERVICE_PROTOCOL` (`http` or `lsp`, default `http`)
//! * `BO_DB_HOST` (default `localhost`), `BO_DB_PORT` (`5432`),
//!   `BO_DB_NAME` (`blitzortung`), `BO_DB_USER` (`blitzortung`),
//!   `BO_DB_PASSWORD` (empty), `BO_DB_CONNECTION_COUNT` (`3`)
//! * `BO_BLITZORTUNG_USERNAME`, `BO_BLITZORTUNG_PASSWORD` (empty)
//! * `BO_STATSD_HOST` (default `localhost`), `BO_STATSD_PORT` (`8125`),
//!   `BO_STATSD_PREFIX` (`org.blitzortung.service`)
//! * `BO_SERVICE_SERVICELOG` or `BO_SERVICE_LOG_DIR`, `BO_GEOIP_DB` or
//!   `BO_SERVICE_GEOIP_DB` (unset; an empty value clears the setting)

use vstd::prelude::*;
use vstd::slice::*;
use vstd::string::*;

use crate::number;
use crate::service_log;
use crate::text;

verus! {

/// Wire protocol of the service.
#[derive(Debug, Clone, Copy, PartialEq, Eq, Structural)]
pub enum Protocol {
    /// HTTP/1.1.
    Http,
    /// `Content-Length` framing on a raw TCP socket.
    Lsp,
}

impl Default for Protocol {
    fn default() -> (r: Protocol)
        ensures
            r == Protocol::Http,
    {
        Protocol::Http
    }
}

/// The protocol with the given name, in any case and with spaces around it.
pub open spec fn protocol_named(value: Seq<char>) -> Option<Protocol> {
    let name = text::lower(text::trim(value));
    if name == "http"@ || name == "https"@ {
        Some(Protocol::Http)
    } else if name == "lsp"@ || name == "netstring"@ || name == "tcp"@ {
        Some(Protocol::Lsp)
    } else {
        None
    }
}

impl Protocol {
    /// Parse a protocol name (`http`, `https`, `lsp`, `netstring`, `tcp`).
    pub fn parse(value: &str) -> (r: Option<Protocol>)
        ensures
            r == protocol_named(value@),
    {
        let chars = text::chars_of(value);
        let name = text::to_lower(text::trimmed(chars.as_slice()));
        let name = name.as_slice();
        if text::is_text(name, "http") || text::is_text(name, "https") {
            Some(Protocol::Http)
        } else if text::is_text(name, "lsp") || text::is_text(name, "netstring") || text::is_text(name, "tcp") {
            Some(Protocol::Lsp)
        } else {
            None
        }
    }

    /// The canonical lower case name.
    pub fn as_str(&self) -> (r: &'static str)
        ensures
            r@ == (match *self {
                Protocol::Http => "http"@,
                Protocol::Lsp => "lsp"@,
            }),
    {
        match self {
            Protocol::Http => "http",
            Protocol::Lsp => "lsp",
        }
    }
}

/// A canonical name reads back as its protocol.
pub proof fn canonical_names_read_back()
    ensures
        protocol_named("http"@) == Some(Protocol::Http),
        protocol_named("lsp"@) == Some(Protocol::Lsp),
{
    reveal_strlit("http");
    reveal_strlit("https");
    reveal_strlit("lsp");
    reveal_strlit("netstring");
    reveal_strlit("tcp");
    let h = "http"@;
    assert(text::trim_start(h) =~= h);
    assert(text::trim_end(h) =~= h);
    assert(text::lower(h) =~= h);
    let l = "lsp"@;
    assert(text::trim_start(l) =~= l);
    assert(text::trim_end(l) =~= l);
    assert(text::lower(l) =~= l);
    assert(l.len() == 3);
    assert("http"@.len() == 4 && "https"@.len() == 5);
}

// ---------------------------------------------------------------------
// INI files
// ---------------------------------------------------------------------

/// One `key = value` line of an INI file, with the section it stands in.
#[derive(Debug, Clone, PartialEq, Eq)]
pub struct IniEntry {
    pub section: String,
    pub key: String,
    pub value: String,
}

/// Section, key and value of an INI line.
pub struct Setting {
    pub section: Seq<char>,
    pub key: Seq<char>,
    pub value: Seq<char>,
}

impl View for IniEntry {
    type V = Setting;

    open spec fn view(&self) -> Setting {
        Setting { section: self.section@, key: self.key@, value: self.value@ }
    }
}

/// The settings of a list of INI lines.
pub open spec fn settings(entries: Seq<IniEntry>) -> Seq<Setting> {
    entries.map_values(|e: IniEntry| e@)
}

/// What a trimmed INI line is.
pub enum IniLine {
    /// An empty line, a comment, or a line without an equals sign.
    Other,
    /// The header of a section.
    Section(Seq<char>),
    /// A key and its value.
    Pair(Seq<char>, Seq<char>),
}

/// What an INI line is.
pub open spec fn ini_line(raw: Seq<char>) -> IniLine {
    let line = text::trim(raw);
    if line.len() == 0 || line[0] == '#' || line[0] == ';' {
        IniLine::Other
    } else if line[0] == '[' && line.last() == ']' {
        IniLine::Section(text::trim(line.subrange(1, line.len() - 1)))
    } else {
        match text::cut(line, '=') {
            Some((key, value)) => IniLine::Pair(text::trim(key), text::trim(value)),
            None => IniLine::Other,
        }
    }
}

/// The section that is open after the first `n` lines.
pub open spec fn open_section(lines: Seq<Seq<char>>, n: int) -> Option<Seq<char>>
    decreases n,
{
    if n <= 0 {
        None
    } else {
        match ini_line(lines[n - 1]) {
            IniLine::Section(name) => Some(name),
            _ => open_section(lines, n - 1),
        }
    }
}

/// The settings in the first `n` lines: the pairs that stand in a section.
pub open spec fn ini_settings(lines: Seq<Seq<char>>, n: int) -> Seq<Setting>
    decreases n,
{
    if n <= 0 {
        Seq::empty()
    } else {
        match (ini_line(lines[n - 1]), open_section(lines, n - 1)) {
            (IniLine::Pair(key, value), Some(section)) => ini_settings(lines, n - 1).push(
                Setting { section, key, value },
            ),
            _ => ini_settings(lines, n - 1),
        }
    }
}

/// Parse an INI file.
pub fn parse_ini(content: &str) -> (r: Vec<IniEntry>)
    ensures
        settings(r@) == ini_settings(text::lines(content@), text::lines(content@).len() as int),
{
    let chars = text::chars_of(content);
    let lines = text::lines_of(chars.as_slice());
    let mut entries: Vec<IniEntry> = Vec::new();
    let mut current: Option<String> = None;
    let mut i: usize = 0;
    assert(settings(entries@) =~= Seq::<Setting>::empty());
    while i < lines.len()
        invariant
            i <= lines@.len(),
            text::views(lines@) == text::lines(content@),
            text::opt_text(current) == open_section(text::lines(content@), i as int),
            settings(entries@) == ini_settings(text::lines(content@), i as int),
        decreases lines@.len() - i,
    {
        let line = text::trimmed(lines[i].as_slice());
        assert(text::views(lines@)[i as int] == lines@[i as int]@);
        let n: usize = line.len();
        if n > 0 && line[0] != '#' && line[0] != ';' {
            if line[0] == '[' && line[n - 1] == ']' {
                assert(n >= 2);
                current = Some(text::text_of(text::trimmed(slice_subrange(line, 1, n - 1))));
            } else if let Some(section) = &current {
                if let Some((key, value)) = text::cut_at(line, '=') {
                    let ghost before = entries@;
                    entries.push(
                        IniEntry {
                            section: section.clone(),
                            key: text::text_of(text::trimmed(key)),
                            value: text::text_of(text::trimmed(value)),
                        },
                    );
                    assert(settings(entries@) =~= settings(before).push(entries@.last()@));
                }
            }
        }
        i = i + 1;
    }
    entries
}

/// The value of a key of a section among the first `n` settings: the last one
/// counts.
pub open spec fn setting_value(ini: Seq<Setting>, section: Seq<char>, key: Seq<char>, n: int) -> Option<Seq<char>>
    decreases n,
{
    if n <= 0 {
        None
    } else if ini[n - 1].section == section && ini[n - 1].key == key {
        Some(ini[n - 1].value)
    } else {
        setting_value(ini, section, key, n - 1)
    }
}

/// The value of a key of a section.
pub open spec fn ini_value(ini: Seq<Setting>, section: Seq<char>, key: Seq<char>) -> Option<Seq<char>> {
    setting_value(ini, section, key, ini.len() as int)
}

/// Look up a key of a section.
pub fn get_setting(entries: &[IniEntry], section: &str, key: &str) -> (r: Option<String>)
    ensures
        text::opt_text(r) == ini_value(settings(entries@), section@, key@),
{
    let mut i: usize = entries.len();
    while i > 0
        invariant
            i <= entries@.len(),
            ini_value(settings(entries@), section@, key@) == setting_value(
                settings(entries@),
                section@,
                key@,
                i as int,
            ),
        decreases i,
    {
        let entry = &entries[i - 1];
        assert(settings(entries@)[i - 1] == entry@);
        if text::same_text(entry.section.as_str(), section) && text::same_text(entry.key.as_str(), key) {
            return Some(entry.value.clone());
        }
        i = i - 1;
    }
    None
}

// ---------------------------------------------------------------------
// the environment
// ---------------------------------------------------------------------

/// Names and values of environment variables.
pub open spec fn variables(vars: Seq<(String, String)>) -> Seq<(Seq<char>, Seq<char>)> {
    vars.map_values(|v: (String, String)| (v.0@, v.1@))
}

/// The value of a variable among those at or after `i`.
pub open spec fn variable_from(vars: Seq<(Seq<char>, Seq<char>)>, name: Seq<char>, i: int) -> Option<Seq<char>>
    decreases vars.len() - i,
{
    if i < 0 || i >= vars.len() {
        None
    } else if vars[i].0 == name {
        Some(vars[i].1)
    } else {
        variable_from(vars, name, i + 1)
    }
}

/// The value of a variable.
pub open spec fn variable(vars: Seq<(Seq<char>, Seq<char>)>, name: Seq<char>) -> Option<Seq<char>> {
    variable_from(vars, name, 0)
}

/// Look up an environment variable.
pub fn get_variable(vars: &[(String, String)], name: &str) -> (r: Option<String>)
    ensures
        text::opt_text(r) == variable(variables(vars@), name@),
{
    let mut i: usize = 0;
    while i < vars.len()
        invariant
            i <= vars@.len(),
            variable(variables(vars@), name@) == variable_from(variables(vars@), name@, i as int),
        decreases vars@.len() - i,
    {
        assert(variables(vars@)[i as int] == (vars@[i as int].0@, vars@[i as int].1@));
        if text::same_text(vars[i].0.as_str(), name) {
            return Some(vars[i].1.clone());
        }
        i = i + 1;
    }
    None
}

// ---------------------------------------------------------------------
// configuration
// ---------------------------------------------------------------------

/// The service configuration.
#[derive(Debug, Clone, PartialEq)]
pub struct Config {
    pub port: u16,
    pub protocol: Protocol,
    pub db_host: String,
    pub db_port: String,
    pub db_name: String,
    pub db_user: String,
    pub db_password: String,
    /// Size of the database connection pool.
    pub db_connection_count: u32,
    /// User name for the protected data feeds.
    pub auth_username: String,
    /// Password for the protected data feeds.
    pub auth_password: String,
    /// StatsD receiver host.
    pub statsd_host: String,
    /// StatsD receiver UDP port.
    pub statsd_port: u16,
    /// StatsD metric name prefix.
    pub statsd_prefix: String,
    /// Usage-log directory; `None` disables usage logging.
    pub service_log_dir: Option<String>,
    /// GeoIP database of the usage log.
    pub service_geoip_db: Option<String>,
}

/// What a [`Config`] holds.
pub struct ConfigModel {
    pub port: int,
    pub protocol: Protocol,
    pub db_host: Seq<char>,
    pub db_port: Seq<char>,
    pub db_name: Seq<char>,
    pub db_user: Seq<char>,
    pub db_password: Seq<char>,
    pub db_connection_count: int,
    pub auth_username: Seq<char>,
    pub auth_password: Seq<char>,
    pub statsd_host: Seq<char>,
    pub statsd_port: int,
    pub statsd_prefix: Seq<char>,
    pub service_log_dir: Option<Seq<char>>,
    pub service_geoip_db: Option<Seq<char>>,
}

impl View for Config {
    type V = ConfigModel;

    open spec fn view(&self) -> ConfigModel {
        ConfigModel {
            port: self.port as int,
            protocol: self.protocol,
            db_host: self.db_host@,
            db_port: self.db_port@,
            db_name: self.db_name@,
            db_user: self.db_user@,
            db_password: self.db_password@,
            db_connection_count: self.db_connection_count as int,
            auth_username: self.auth_username@,
            auth_password: self.auth_password@,
            statsd_host: self.statsd_host@,
            statsd_port: self.statsd_port as int,
            statsd_prefix: self.statsd_prefix@,
            service_log_dir: text::opt_text(self.service_log_dir),
            service_geoip_db: text::opt_text(self.service_geoip_db),
        }
    }
}

/// The built-in configuration.
pub open spec fn defaults() -> ConfigModel {
    ConfigModel {
        port: 8080,
        protocol: Protocol::Http,
        db_host: "localhost"@,
        db_port: "5432"@,
        db_name: "blitzortung"@,
        db_user: "blitzortung"@,
        db_password: Seq::empty(),
        db_connection_count: 3,
        auth_username: Seq::empty(),
        auth_password: Seq::empty(),
        statsd_host: "localhost"@,
        statsd_port: 8125,
        statsd_prefix: "org.blitzortung.service"@,
        service_log_dir: None,
        service_geoip_db: None,
    }
}

fn no_text() -> (r: String)
    ensures
        r@ == Seq::<char>::empty(),
{
    let r = String::new();
    assert(r@ =~= Seq::<char>::empty());
    r
}

impl Default for Config {
    /// The built-in configuration.
    fn default() -> (r: Config)
        ensures
            r@ == defaults(),
    {
        Config {
            port: 8080,
            protocol: Protocol::Http,
            db_host: String::from_str("localhost"),
            db_port: String::from_str("5432"),
            db_name: String::from_str("blitzortung"),
            db_user: String::from_str("blitzortung"),
            db_password: no_text(),
            db_connection_count: 3,
            auth_username: no_text(),
            auth_password: no_text(),
            statsd_host: String::from_str("localhost"),
            statsd_port: 8125,
            statsd_prefix: String::from_str("org.blitzortung.service"),
            service_log_dir: None,
            service_geoip_db: None,
        }
    }
}

/// Where a [`Config`] was loaded from.
#[derive(Debug, Clone, PartialEq, Eq)]
pub struct ConfigDiagnostics {
    /// The INI file that was read, if any.
    pub loaded_path: Option<String>,
    /// `BO_CONFIG` named a file that could not be read.
    pub explicit_but_missing: bool,
    /// The search locations, in order.
    pub searched_paths: Vec<String>,
}

impl ConfigDiagnostics {
    /// Whether no configuration file was read.
    pub fn is_missing(&self) -> (r: bool)
        ensures
            r == (self.loaded_path is None),
    {
        self.loaded_path.is_none()
    }

    /// A warning that no configuration file was found.
    pub fn missing_warning(&self) -> (r: String)
        ensures
            r@ == "no blitzortung configuration file found (searched: "@ + text::join(
                text::texts(self.searched_paths@),
                ", "@,
            )
                + "); using built-in defaults.  Set BO_CONFIG or create blitzortung.conf with a [db] section.  Note: the legacy YAML config.yml is NOT read."@,
    {
        let mut searched = no_text();
        text::push_joined(&mut searched, self.searched_paths.as_slice(), ", ");
        let mut out = String::from_str("no blitzortung configuration file found (searched: ");
        assert(searched@ =~= text::join(text::texts(self.searched_paths@), ", "@));
        out.append(searched.as_str());
        out.append(
            "); using built-in defaults.  Set BO_CONFIG or create blitzortung.conf with a [db] section.  Note: the legacy YAML config.yml is NOT read.",
        );
        out
    }
}

/// The text of a setting: from the environment, else from the file, else the
/// default.
pub open spec fn pick_text(env: Option<Seq<char>>, file: Option<Seq<char>>, default: Seq<char>) -> Seq<char> {
    match env {
        Some(v) => v,
        None => match file {
            Some(v) => v,
            None => default,
        },
    }
}

/// The number that a text writes, when it is at most `max`.
pub open spec fn number_in(value: Option<Seq<char>>, max: int) -> Option<int> {
    match value {
        Some(v) => number::within(number::unsigned_value(v), 0, max),
        None => None,
    }
}

/// The number of a setting; a text that is no such number does not count.
pub open spec fn pick_number(env: Option<Seq<char>>, file: Option<Seq<char>>, default: int, max: int) -> int {
    match number_in(env, max) {
        Some(n) => n,
        None => match number_in(file, max) {
            Some(n) => n,
            None => default,
        },
    }
}

/// The protocol that a text names.
pub open spec fn protocol_in(value: Option<Seq<char>>) -> Option<Protocol> {
    match value {
        Some(v) => protocol_named(v),
        None => None,
    }
}

/// The protocol of a setting; a text that names none does not count.
pub open spec fn pick_protocol(env: Option<Seq<char>>, file: Option<Seq<char>>) -> Protocol {
    match protocol_in(env) {
        Some(p) => p,
        None => match protocol_in(file) {
            Some(p) => p,
            None => Protocol::Http,
        },
    }
}

/// The first of two texts that is there.
pub open spec fn either(a: Option<Seq<char>>, b: Option<Seq<char>>) -> Option<Seq<char>> {
    match a {
        Some(v) => Some(v),
        None => b,
    }
}

/// The path of an optional setting; an empty text clears it.
pub open spec fn pick_path(env: Option<Seq<char>>, file: Option<Seq<char>>) -> Option<Seq<char>> {
    match either(env, file) {
        Some(v) => if v.len() == 0 {
            None
        } else {
            Some(v)
        },
        None => None,
    }
}

/// The configuration that the environment and the settings of a file give.
pub open spec fn configured(env: Seq<(Seq<char>, Seq<char>)>, ini: Seq<Setting>) -> ConfigModel {
    ConfigModel {
        port: pick_number(variable(env, "BO_SERVICE_PORT"@), ini_value(ini, "webservice"@, "port"@), 8080, 65535),
        protocol: pick_protocol(
            variable(env, "BO_SERVICE_PROTOCOL"@),
            ini_value(ini, "webservice"@, "protocol"@),
        ),
        db_host: pick_text(variable(env, "BO_DB_HOST"@), ini_value(ini, "db"@, "host"@), "localhost"@),
        db_port: pick_text(variable(env, "BO_DB_PORT"@), ini_value(ini, "db"@, "port"@), "5432"@),
        db_name: pick_text(variable(env, "BO_DB_NAME"@), ini_value(ini, "db"@, "dbname"@), "blitzortung"@),
        db_user: pick_text(variable(env, "BO_DB_USER"@), ini_value(ini, "db"@, "username"@), "blitzortung"@),
        db_password: pick_text(variable(env, "BO_DB_PASSWORD"@), ini_value(ini, "db"@, "password"@), Seq::empty()),
        db_connection_count: pick_number(
            variable(env, "BO_DB_CONNECTION_COUNT"@),
            ini_value(ini, "db"@, "connection_count"@),
            3,
            4294967295,
        ),
        auth_username: pick_text(
            variable(env, "BO_BLITZORTUNG_USERNAME"@),
            ini_value(ini, "auth"@, "username"@),
            Seq::empty(),
        ),
        auth_password: pick_text(
            variable(env, "BO_BLITZORTUNG_PASSWORD"@),
            ini_value(ini, "auth"@, "password"@),
            Seq::empty(),
        ),
        statsd_host: pick_text(variable(env, "BO_STATSD_HOST"@), ini_value(ini, "statsd"@, "host"@), "localhost"@),
        statsd_port: pick_number(
            variable(env, "BO_STATSD_PORT"@),
            ini_value(ini, "statsd"@, "port"@),
            8125,
            65535,
        ),
        statsd_prefix: pick_text(
            variable(env, "BO_STATSD_PREFIX"@),
            ini_value(ini, "statsd"@, "prefix"@),
            "org.blitzortung.service"@,
        ),
        service_log_dir: pick_path(
            either(
                variable(env, service_log::LOG_DIR_ENV@),
                variable(env, service_log::LOG_DIR_ENV_ALIAS@),
            ),
            either(
                ini_value(ini, "webservice"@, "servicelog"@),
                ini_value(ini, "webservice"@, "log_directory"@),
            ),
        ),
        service_geoip_db: pick_path(
            either(
                variable(env, service_log::GEOIP_DB_ENV@),
                variable(env, service_log::GEOIP_DB_ENV_ALIAS@),
            ),
            ini_value(ini, "webservice"@, "geoip_db"@),
        ),
    }
}

fn choose_text(env: Option<String>, file: Option<String>, default: &str) -> (r: String)
    ensures
        r@ == pick_text(text::opt_text(env), text::opt_text(file), default@),
{
    match env {
        Some(v) => v,
        None => match file {
            Some(v) => v,
            None => String::from_str(default),
        },
    }
}

fn parse_number(value: &Option<String>, max: u64) -> (r: Option<u64>)
    ensures
        r matches Some(n) ==> number_in(text::opt_text(*value), max as int) == Some(n as int) && n <= max,
        r is None ==> number_in(text::opt_text(*value), max as int) is None,
{
    match value {
        Some(v) => {
            let chars = text::chars_of(v.as_str());
            number::parse_unsigned(chars.as_slice(), max)
        },
        None => None,
    }
}

fn choose_number(env: Option<String>, file: Option<String>, default: u64, max: u64) -> (r: u64)
    requires
        default <= max,
    ensures
        r == pick_number(text::opt_text(env), text::opt_text(file), default as int, max as int),
        r <= max,
{
    match parse_number(&env, max) {
        Some(n) => n,
        None => match parse_number(&file, max) {
            Some(n) => n,
            None => default,
        },
    }
}

fn parse_protocol(value: &Option<String>) -> (r: Option<Protocol>)
    ensures
        r == protocol_in(text::opt_text(*value)),
{
    match value {
        Some(v) => Protocol::parse(v.as_str()),
        None => None,
    }
}

fn choose_protocol(env: Option<String>, file: Option<String>) -> (r: Protocol)
    ensures
        r == pick_protocol(text::opt_text(env), text::opt_text(file)),
{
    match parse_protocol(&env) {
        Some(p) => p,
        None => match parse_protocol(&file) {
            Some(p) => p,
            None => Protocol::Http,
        },
    }
}

fn first_of(a: Option<String>, b: Option<String>) -> (r: Option<String>)
    ensures
        text::opt_text(r) == either(text::opt_text(a), text::opt_text(b)),
{
    match a {
        Some(v) => Some(v),
        None => b,
    }
}

fn choose_path(env: Option<String>, file: Option<String>) -> (r: Option<String>)
    ensures
        text::opt_text(r) == pick_path(text::opt_text(env), text::opt_text(file)),
{
    match first_of(env, file) {
        Some(v) => if v.as_str().is_empty() {
            None
        } else {
            Some(v)
        },
        None => None,
    }
}

/// The explicit configuration path, when there is one.
pub open spec fn explicit_path(env: Seq<(Seq<char>, Seq<char>)>) -> Option<Seq<char>> {
    pick_path(variable(env, "BO_CONFIG"@), None)
}

/// The path that `BO_CONFIG` names; an empty one counts as none.
pub fn explicit_config_path(vars: &[(String, String)]) -> (r: Option<String>)
    ensures
        text::opt_text(r) == explicit_path(variables(vars@)),
{
    choose_path(get_variable(vars, "BO_CONFIG"), None)
}

/// The search locations of the configuration file, in order.
pub fn default_config_paths() -> (r: Vec<String>)
    ensures
        text::texts(r@) == seq!["./blitzortung.conf"@, "/etc/blitzortung.conf"@],
{
    let mut paths: Vec<String> = Vec::new();
    paths.push(String::from_str("./blitzortung.conf"));
    paths.push(String::from_str("/etc/blitzortung.conf"));
    assert(text::texts(paths@) =~= seq!["./blitzortung.conf"@, "/etc/blitzortung.conf"@]);
    paths
}

/// The paths at which the configuration file is looked for, in order: the one
/// that `BO_CONFIG` names alone, else the search locations.
pub open spec fn candidates(env: Seq<(Seq<char>, Seq<char>)>) -> Seq<Seq<char>> {
    match explicit_path(env) {
        Some(path) => seq![path],
        None => seq!["./blitzortung.conf"@, "/etc/blitzortung.conf"@],
    }
}

/// The paths at which the configuration file is looked for; the first one that
/// exists is read.
pub fn config_candidates(vars: &[(String, String)]) -> (r: Vec<String>)
    ensures
        text::texts(r@) == candidates(variables(vars@)),
{
    match explicit_config_path(vars) {
        Some(path) => {
            let mut paths: Vec<String> = Vec::new();
            paths.push(path);
            assert(text::texts(paths@) =~= seq![path@]);
            paths
        },
        None => default_config_paths(),
    }
}

/// The settings of a configuration file; none without a file.
pub open spec fn file_settings(content: Option<Seq<char>>) -> Seq<Setting> {
    match content {
        Some(c) => ini_settings(text::lines(c), text::lines(c).len() as int),
        None => Seq::empty(),
    }
}

/// Path and content of a configuration file.
pub open spec fn file_parts(file: Option<(String, String)>) -> (Option<Seq<char>>, Option<Seq<char>>) {
    match file {
        Some((path, content)) => (Some(path@), Some(content@)),
        None => (None, None),
    }
}

impl Config {
    /// The configuration that environment variables and a configuration file
    /// give.  `file` is the path and the content of the file that was read.
    pub fn from_env_with(vars: &[(String, String)], file: Option<(String, String)>) -> (r: Config)
        ensures
            r@ == configured(variables(vars@), file_settings(file_parts(file).1)),
    {
        Config::from_env_with_diagnostics(vars, file).0
    }

    /// Like [`Config::from_env_with`], with where the configuration came from.
    pub fn from_env_with_diagnostics(vars: &[(String, String)], file: Option<(String, String)>) -> (r: (
        Config,
        ConfigDiagnostics,
    ))
        ensures
            r.0@ == configured(variables(vars@), file_settings(file_parts(file).1)),
            text::opt_text(r.1.loaded_path) == file_parts(file).0,
            r.1.explicit_but_missing == (explicit_path(variables(vars@)) is Some && file is None),
            text::texts(r.1.searched_paths@) == seq!["./blitzortung.conf"@, "/etc/blitzortung.conf"@],
    {
        let explicit = explicit_config_path(vars);
        let (loaded_path, ini) = match file {
            Some((path, content)) => (Some(path), parse_ini(content.as_str())),
            None => {
                let none: Vec<IniEntry> = Vec::new();
                assert(settings(none@) =~= Seq::<Setting>::empty());
                (None, none)
            },
        };
        let ini = ini.as_slice();
        let diagnostics = ConfigDiagnostics {
            explicit_but_missing: explicit.is_some() && loaded_path.is_none(),
            loaded_path,
            searched_paths: default_config_paths(),
        };
        let config = Config {
            port: choose_number(
                get_variable(vars, "BO_SERVICE_PORT"),
                get_setting(ini, "webservice", "port"),
                8080,
                65535,
            ) as u16,
            protocol: choose_protocol(
                get_variable(vars, "BO_SERVICE_PROTOCOL"),
                get_setting(ini, "webservice", "protocol"),
            ),
            db_host: choose_text(get_variable(vars, "BO_DB_HOST"), get_setting(ini, "db", "host"), "localhost"),
            db_port: choose_text(get_variable(vars, "BO_DB_PORT"), get_setting(ini, "db", "port"), "5432"),
            db_name: choose_text(get_variable(vars, "BO_DB_NAME"), get_setting(ini, "db", "dbname"), "blitzortung"),
            db_user: choose_text(
                get_variable(vars, "BO_DB_USER"),
                get_setting(ini, "db", "username"),
                "blitzortung",
            ),
            db_password: choose_text(
                get_variable(vars, "BO_DB_PASSWORD"),
                get_setting(ini, "db", "password"),
                no_text().as_str(),
            ),
            db_connection_count: choose_number(
                get_variable(vars, "BO_DB_CONNECTION_COUNT"),
                get_setting(ini, "db", "connection_count"),
                3,
                4294967295,
            ) as u32,
            auth_username: choose_text(
                get_variable(vars, "BO_BLITZORTUNG_USERNAME"),
                get_setting(ini, "auth", "username"),
                no_text().as_str(),
            ),
            auth_password: choose_text(
                get_variable(vars, "BO_BLITZORTUNG_PASSWORD"),
                get_setting(ini, "auth", "password"),
                no_text().as_str(),
            ),
            statsd_host: choose_text(
                get_variable(vars, "BO_STATSD_HOST"),
                get_setting(ini, "statsd", "host"),
                "localhost",
            ),
            statsd_port: choose_number(
                get_variable(vars, "BO_STATSD_PORT"),
                get_setting(ini, "statsd", "port"),
                8125,
                65535,
            ) as u16,
            statsd_prefix: choose_text(
                get_variable(vars, "BO_STATSD_PREFIX"),
                get_setting(ini, "statsd", "prefix"),
                "org.blitzortung.service",
            ),
            service_log_dir: choose_path(
                first_of(
                    get_variable(vars, service_log::LOG_DIR_ENV),
                    get_variable(vars, service_log::LOG_DIR_ENV_ALIAS),
                ),
                first_of(
                    get_setting(ini, "webservice", "servicelog"),
                    get_setting(ini, "webservice", "log_directory"),
                ),
            ),
            service_geoip_db: choose_path(
                first_of(
                    get_variable(vars, service_log::GEOIP_DB_ENV),
                    get_variable(vars, service_log::GEOIP_DB_ENV_ALIAS),
                ),
                get_setting(ini, "webservice", "geoip_db"),
            ),
        };
        (config, diagnostics)
    }

    /// The user name for the protected data feeds.
    pub fn username(&self) -> (r: &str)
        ensures
            r@ == self.auth_username@,
    {
        self.auth_username.as_str()
    }

    /// The password for the protected data feeds.
    pub fn password(&self) -> (r: &str)
        ensures
            r@ == self.auth_password@,
    {
        self.auth_password.as_str()
    }

    /// The StatsD receiver that metrics are sent to.
    pub fn statsd_address(&self) -> (r: (&str, u16))
        ensures
            r.0@ == self.statsd_host@,
            r.1 == self.statsd_port,
    {
        (self.statsd_host.as_str(), self.statsd_port)
    }

    /// The configured usage-log directory; `None` when nothing was configured.
    pub fn configured_service_log_directory(&self) -> (r: Option<String>)
        ensures
            text::opt_text(r) == text::opt_text(self.service_log_dir),
    {
        text::copy_text(&self.service_log_dir)
    }

    /// The PostgreSQL connection string of the configuration.
    pub open spec fn connection_text(&self) -> Seq<char> {
        "host="@ + quoted_value(self.db_host@) + " port="@ + quoted_value(self.db_port@) + " dbname="@ + quoted_value(
            self.db_name@,
        ) + " user="@ + quoted_value(self.db_user@) + " password="@ + quoted_value(self.db_password@)
    }

    /// The usage-log directory, given whether the configured one can be written
    /// to: there is no fallback for a directory that cannot.
    pub fn service_log_directory(&self, writable: bool) -> (r: Option<String>)
        ensures
            text::opt_text(r) == (if writable {
                text::opt_text(self.service_log_dir)
            } else {
                None
            }),
    {
        if writable {
            text::copy_text(&self.service_log_dir)
        } else {
            None
        }
    }

    /// The GeoIP database of the usage log.
    pub fn service_geoip_db(&self) -> (r: String)
        ensures
            r@ == (match text::opt_text(self.service_geoip_db) {
                Some(path) => path,
                None => service_log::DEFAULT_GEOIP_DB@,
            }),
    {
        match &self.service_geoip_db {
            Some(path) => path.clone(),
            None => String::from_str(service_log::DEFAULT_GEOIP_DB),
        }
    }

    /// The PostgreSQL connection string: every field is present, also an empty
    /// one, and each value is quoted.
    pub fn db_connection_string(&self) -> (r: String)
        ensures
            r@ == self.connection_text(),
            r@ == "host="@ + quoted_value(self.db_host@) + " port="@ + quoted_value(self.db_port@) + " dbname="@
                + quoted_value(self.db_name@) + " user="@ + quoted_value(self.db_user@) + " password="@
                + quoted_value(self.db_password@),
    {
        let mut out = String::from_str("host=");
        out.append(quote_conninfo_value(self.db_host.as_str()).as_str());
        out.append(" port=");
        out.append(quote_conninfo_value(self.db_port.as_str()).as_str());
        out.append(" dbname=");
        out.append(quote_conninfo_value(self.db_name.as_str()).as_str());
        out.append(" user=");
        out.append(quote_conninfo_value(self.db_user.as_str()).as_str());
        out.append(" password=");
        out.append(quote_conninfo_value(self.db_password.as_str()).as_str());
        out
    }
}

// ---------------------------------------------------------------------
// connection strings
// ---------------------------------------------------------------------

/// The first `n` characters with backslashes and single quotes escaped.
pub open spec fn escaped(s: Seq<char>, n: int) -> Seq<char>
    decreases n,
{
    if n <= 0 {
        Seq::empty()
    } else if s[n - 1] == '\\' || s[n - 1] == '\'' {
        escaped(s, n - 1).push('\\').push(s[n - 1])
    } else {
        escaped(s, n - 1).push(s[n - 1])
    }
}

/// Whether a value has to be quoted: it is empty or holds a space.
pub open spec fn needs_quotes(s: Seq<char>) -> bool {
    s.len() == 0 || exists|i: int| 0 <= i < s.len() && text::is_space(#[trigger] s[i])
}

/// A value of a connection string.
pub open spec fn quoted_value(s: Seq<char>) -> Seq<char> {
    if needs_quotes(s) {
        seq!['\''] + escaped(s, s.len() as int) + seq!['\'']
    } else {
        escaped(s, s.len() as int)
    }
}

/// Quote a value of a connection string.
pub fn quote_conninfo_value(value: &str) -> (r: String)
    ensures
        r@ == quoted_value(value@),
{
    let chars = text::chars_of(value);
    let mut out = no_text();
    let mut spaced = false;
    let mut i: usize = 0;
    while i < chars.len()
        invariant
            i <= chars@.len(),
            chars@ == value@,
            out@ == escaped(value@, i as int),
            spaced == (exists|j: int| 0 <= j < i && text::is_space(#[trigger] value@[j])),
        decreases chars@.len() - i,
    {
        let c = chars[i];
        if text::is_space_char(c) {
            spaced = true;
            assert(text::is_space(value@[i as int]));
        }
        if c == '\\' || c == '\'' {
            out.push('\\');
        }
        out.push(c);
        i = i + 1;
    }
    if chars.len() == 0 || spaced {
        let mut quoted = no_text();
        quoted.push('\'');
        quoted.append(out.as_str());
        quoted.push('\'');
        assert(quoted@ =~= quoted_value(value@));
        quoted
    } else {
        out
    }
}

/// The text that `s` stands for from position `i` on, where a backslash
/// stands for the character behind it.
pub open spec fn unescaped(s: Seq<char>, i: int) -> Seq<char>
    decreases s.len() - i,
{
    if i < 0 || i >= s.len() {
        Seq::empty()
    } else if s[i] == '\\' && i + 1 < s.len() {
        seq![s[i + 1]] + unescaped(s, i + 2)
    } else {
        seq![s[i]] + unescaped(s, i + 1)
    }
}

/// The value that a quoted value stands for.
pub open spec fn unquoted_value(s: Seq<char>) -> Seq<char> {
    if s.len() >= 2 && s[0] == '\'' {
        unescaped(s.subrange(1, s.len() - 1), 0)
    } else {
        unescaped(s, 0)
    }
}

proof fn lemma_unescaped_append(s: Seq<char>, n: int, tail: Seq<char>)
    requires
        0 <= n <= s.len(),
    ensures
        unescaped(escaped(s, n) + tail, 0) == s.take(n) + unescaped(tail, 0),
    decreases n,
{
    if n == 0 {
        assert(escaped(s, 0) + tail =~= tail);
        assert(s.take(0) + unescaped(tail, 0) =~= unescaped(tail, 0));
    } else {
        let c = s[n - 1];
        let more = if c == '\\' || c == '\'' {
            seq!['\\', c] + tail
        } else {
            seq![c] + tail
        };
        assert(escaped(s, n) + tail =~= escaped(s, n - 1) + more);
        lemma_unescaped_append(s, n - 1, more);
        assert(more.skip(more.len() - tail.len()) =~= tail);
        lemma_unescaped_shift(more, tail, 0);
        assert(unescaped(more, 0) =~= seq![c] + unescaped(tail, 0));
        assert(s.take(n) =~= s.take(n - 1).push(c));
        assert(s.take(n - 1) + (seq![c] + unescaped(tail, 0)) =~= s.take(n) + unescaped(tail, 0));
    }
}

/// Reading from inside a text is reading what follows.
proof fn lemma_unescaped_shift(s: Seq<char>, tail: Seq<char>, i: int)
    requires
        0 <= i,
        s.len() >= tail.len(),
        s.skip(s.len() - tail.len()) == tail,
    ensures
        unescaped(s, s.len() - tail.len() + i) == unescaped(tail, i),
    decreases tail.len() - i,
{
    let k = s.len() - tail.len();
    if i < tail.len() {
        assert(s[k + i] == tail[i]);
        if i + 1 < tail.len() {
            assert(s[k + i + 1] == tail[i + 1]);
            lemma_unescaped_shift(s, tail, i + 2);
        }
        lemma_unescaped_shift(s, tail, i + 1);
    }
}

proof fn lemma_escaped_start(s: Seq<char>, n: int)
    requires
        0 < n <= s.len(),
    ensures
        escaped(s, n).len() > 0,
        escaped(s, n)[0] != '\'',
    decreases n,
{
    if n > 1 {
        lemma_escaped_start(s, n - 1);
    } else {
        assert(escaped(s, 0) =~= Seq::<char>::empty());
    }
}

/// A setting of the environment wins over the file: whatever two files say, a
/// text, a number or a protocol that the environment gives is the configured
/// one.
pub proof fn the_environment_wins(env: Seq<(Seq<char>, Seq<char>)>, ini: Seq<Setting>, other: Seq<Setting>)
    ensures
        number_in(variable(env, "BO_SERVICE_PORT"@), 65535) matches Some(n) ==> configured(env, ini).port == n,
        protocol_in(variable(env, "BO_SERVICE_PROTOCOL"@)) matches Some(p) ==> configured(env, ini).protocol == p,
        variable(env, "BO_DB_HOST"@) matches Some(v) ==> configured(env, ini).db_host == v,
        variable(env, "BO_DB_PORT"@) matches Some(v) ==> configured(env, ini).db_port == v,
        variable(env, "BO_DB_NAME"@) matches Some(v) ==> configured(env, ini).db_name == v,
        variable(env, "BO_DB_USER"@) matches Some(v) ==> configured(env, ini).db_user == v,
        variable(env, "BO_DB_PASSWORD"@) matches Some(v) ==> configured(env, ini).db_password == v,
        number_in(variable(env, "BO_DB_CONNECTION_COUNT"@), 4294967295) matches Some(n) ==> configured(
            env,
            ini,
        ).db_connection_count == n,
        variable(env, "BO_BLITZORTUNG_USERNAME"@) matches Some(v) ==> configured(env, ini).auth_username == v,
        variable(env, "BO_BLITZORTUNG_PASSWORD"@) matches Some(v) ==> configured(env, ini).auth_password == v,
        variable(env, "BO_STATSD_HOST"@) matches Some(v) ==> configured(env, ini).statsd_host == v,
        number_in(variable(env, "BO_STATSD_PORT"@), 65535) matches Some(n) ==> configured(env, ini).statsd_port == n,
        variable(env, "BO_STATSD_PREFIX"@) matches Some(v) ==> configured(env, ini).statsd_prefix == v,
        variable(env, service_log::LOG_DIR_ENV@) is Some ==> configured(env, ini).service_log_dir == configured(
            env,
            other,
        ).service_log_dir,
        variable(env, service_log::GEOIP_DB_ENV@) is Some ==> configured(env, ini).service_geoip_db == configured(
            env,
            other,
        ).service_geoip_db,
{
}

/// Quoting loses nothing: a quoted value stands for the value.
pub proof fn quoting_loses_nothing(value: Seq<char>)
    ensures
        unquoted_value(quoted_value(value)) == value,
{
    let n = value.len() as int;
    let inner = escaped(value, n);
    lemma_unescaped_append(value, n, Seq::empty());
    assert(inner + Seq::<char>::empty() =~= inner);
    assert(value.take(n) + unescaped(Seq::<char>::empty(), 0) =~= value);
    if needs_quotes(value) {
        let q = quoted_value(value);
        assert(q.subrange(1, q.len() - 1) =~= inner);
    } else {
        lemma_escaped_start(value, n);
    }
}

/// Without a variable, each setting of the file reaches the field that it is
/// named for.
pub proof fn the_file_counts_without_the_environment(ini: Seq<Setting>)
    ensures
        ({
            let c = configured(Seq::empty(), ini);
            &&& number_in(ini_value(ini, "webservice"@, "port"@), 65535) matches Some(n) ==> c.port == n
            &&& protocol_in(ini_value(ini, "webservice"@, "protocol"@)) matches Some(p) ==> c.protocol == p
            &&& ini_value(ini, "db"@, "host"@) matches Some(v) ==> c.db_host == v
            &&& ini_value(ini, "db"@, "port"@) matches Some(v) ==> c.db_port == v
            &&& ini_value(ini, "db"@, "dbname"@) matches Some(v) ==> c.db_name == v
            &&& ini_value(ini, "db"@, "username"@) matches Some(v) ==> c.db_user == v
            &&& ini_value(ini, "db"@, "password"@) matches Some(v) ==> c.db_password == v
            &&& number_in(ini_value(ini, "db"@, "connection_count"@), 4294967295) matches Some(n)
                ==> c.db_connection_count == n
            &&& ini_value(ini, "auth"@, "username"@) matches Some(v) ==> c.auth_username == v
            &&& ini_value(ini, "auth"@, "password"@) matches Some(v) ==> c.auth_password == v
            &&& ini_value(ini, "statsd"@, "host"@) matches Some(v) ==> c.statsd_host == v
            &&& number_in(ini_value(ini, "statsd"@, "port"@), 65535) matches Some(n) ==> c.statsd_port == n
            &&& ini_value(ini, "statsd"@, "prefix"@) matches Some(v) ==> c.statsd_prefix == v
            &&& ini_value(ini, "webservice"@, "servicelog"@) matches Some(v) ==> (v.len() > 0 ==> c.service_log_dir
                == Some(v)) && (v.len() == 0 ==> c.service_log_dir is None)
            &&& ini_value(ini, "webservice"@, "servicelog"@) is None ==> (ini_value(
                ini,
                "webservice"@,
                "log_directory"@,
            ) matches Some(v) ==> v.len() > 0 ==> c.service_log_dir == Some(v))
            &&& ini_value(ini, "webservice"@, "geoip_db"@) matches Some(v) ==> v.len() > 0 ==> c.service_geoip_db
                == Some(v)
        }),
        configured(Seq::empty(), Seq::empty()) == defaults(),
{
}

/// The two variables of the usage log and those of its GeoIP database: the
/// first one counts, the other one stands in for it, and an empty one clears
/// the setting whatever the file says.
pub proof fn usage_log_paths_come_from_two_variables(env: Seq<(Seq<char>, Seq<char>)>, ini: Seq<Setting>, path: Seq<char>)
    requires
        path.len() > 0,
    ensures
        variable(env, "BO_SERVICE_SERVICELOG"@) == Some(path) ==> configured(env, ini).service_log_dir == Some(path),
        variable(env, "BO_SERVICE_SERVICELOG"@) is None && variable(env, "BO_SERVICE_LOG_DIR"@) == Some(path)
            ==> configured(env, ini).service_log_dir == Some(path),
        variable(env, "BO_SERVICE_SERVICELOG"@) == Some(Seq::<char>::empty()) ==> configured(
            env,
            ini,
        ).service_log_dir is None,
        variable(env, "BO_GEOIP_DB"@) == Some(path) ==> configured(env, ini).service_geoip_db == Some(path),
        variable(env, "BO_GEOIP_DB"@) is None && variable(env, "BO_SERVICE_GEOIP_DB"@) == Some(path) ==> configured(
            env,
            ini,
        ).service_geoip_db == Some(path),
        variable(env, "BO_GEOIP_DB"@) == Some(Seq::<char>::empty()) ==> configured(env, ini).service_geoip_db is None,
{
}

/// A number that is too large for a port counts as none: the file is asked,
/// and then the built-in one stands.
pub proof fn ports_fit_in_sixteen_bits(env: Seq<(Seq<char>, Seq<char>)>, ini: Seq<Setting>)
    ensures
        0 <= configured(env, ini).port <= 65535,
        0 <= configured(env, ini).statsd_port <= 65535,
        0 <= configured(env, ini).db_connection_count <= 4294967295,
{
}

proof fn lemma_variable_from(vars: Seq<(Seq<char>, Seq<char>)>, name: Seq<char>, i: int, k: int)
    requires
        0 <= i <= k <= vars.len(),
        forall|j: int| i <= j < k ==> (#[trigger] vars[j]).0 != name,
        k < vars.len() ==> vars[k].0 == name,
    ensures
        variable_from(vars, name, i) == (if k < vars.len() {
            Some(vars[k].1)
        } else {
            None
        }),
    decreases k - i,
{
    if i < k {
        assert(vars[i].0 != name);
        lemma_variable_from(vars, name, i + 1, k);
    }
}

/// A variable is found by its name, wherever it stands, and a name that no
/// variable has is not found.
pub proof fn variables_are_found_by_name(vars: Seq<(Seq<char>, Seq<char>)>, k: int, name: Seq<char>)
    requires
        0 <= k < vars.len(),
        forall|j: int| 0 <= j < vars.len() && j != k ==> (#[trigger] vars[j]).0 != vars[k].0,
    ensures
        variable(vars, vars[k].0) == Some(vars[k].1),
        (forall|j: int| 0 <= j < vars.len() ==> (#[trigger] vars[j]).0 != name) ==> variable(vars, name) is None,
{
    lemma_variable_from(vars, vars[k].0, 0, k);
    if forall|j: int| 0 <= j < vars.len() ==> (#[trigger] vars[j]).0 != name {
        lemma_variable_from(vars, name, 0, vars.len() as int);
    }
}

/// The file that `BO_CONFIG` names is the only one that is looked for; without
/// it the one in the working directory comes before the one of the system.
pub proof fn a_named_file_is_the_only_candidate(env: Seq<(Seq<char>, Seq<char>)>)
    ensures
        forall|path: Seq<char>|
            #![trigger seq![path]]
            path.len() > 0 && variable(env, "BO_CONFIG"@) == Some(path) ==> candidates(env) == seq![path],
        variable(env, "BO_CONFIG"@) is None || variable(env, "BO_CONFIG"@)->0.len() == 0 ==> candidates(env)
            == seq!["./blitzortung.conf"@, "/etc/blitzortung.conf"@],
{
}

proof fn lemma_first_lines(lines: Seq<Seq<char>>, all: Seq<Seq<char>>, n: int)
    requires
        0 <= n <= lines.len() <= all.len(),
        forall|i: int| 0 <= i < lines.len() ==> #[trigger] all[i] == lines[i],
    ensures
        open_section(all, n) == open_section(lines, n),
        ini_settings(all, n) == ini_settings(lines, n),
    decreases n,
{
    if n > 0 {
        assert(all[n - 1] == lines[n - 1]);
        lemma_first_lines(lines, all, n - 1);
    }
}

proof fn lemma_first_settings(ini: Seq<Setting>, all: Seq<Setting>, section: Seq<char>, key: Seq<char>, n: int)
    requires
        0 <= n <= ini.len() <= all.len(),
        forall|i: int| 0 <= i < ini.len() ==> #[trigger] all[i] == ini[i],
    ensures
        setting_value(all, section, key, n) == setting_value(ini, section, key, n),
    decreases n,
{
    if n > 0 {
        assert(all[n - 1] == ini[n - 1]);
        lemma_first_settings(ini, all, section, key, n - 1);
    }
}

/// Whether a text stands in an INI file as it is: it is not empty, and no white
/// space stands at its ends.
pub open spec fn plain_word(s: Seq<char>) -> bool {
    s.len() > 0 && !text::is_space(s[0]) && !text::is_space(s.last())
}

proof fn lemma_header(section: Seq<char>)
    requires
        plain_word(section),
    ensures
        ini_line(seq!['['] + section + seq![']']) == IniLine::Section(section),
{
    let raw = seq!['['] + section + seq![']'];
    let none = Seq::<char>::empty();
    assert(none + raw + none =~= raw);
    assert(raw[0] == '[' && raw.last() == ']');
    text::white_space_around_a_text_is_trimmed(none, raw, none);
    assert(raw.subrange(1, raw.len() - 1) =~= section);
    assert(none + section + none =~= section);
    text::white_space_around_a_text_is_trimmed(none, section, none);
}

proof fn lemma_pair(indent: Seq<char>, key: Seq<char>, value: Seq<char>)
    requires
        forall|j: int| 0 <= j < indent.len() ==> text::is_space(#[trigger] indent[j]),
        plain_word(key),
        plain_word(value),
        !key.contains('='),
        key[0] != '#' && key[0] != ';' && key[0] != '[',
    ensures
        ini_line(indent + key + seq![' ', '=', ' '] + value) == IniLine::Pair(key, value),
        ini_line(indent + key + seq!['='] + value) == IniLine::Pair(key, value),
{
    let none = Seq::<char>::empty();
    let blank = seq![' '];
    assert(text::is_space(' '));
    let wide = key + blank + seq!['='] + (blank + value);
    assert(indent + wide + none =~= indent + key + seq![' ', '=', ' '] + value);
    assert(wide.last() == value.last());
    text::white_space_around_a_text_is_trimmed(indent, wide, none);
    assert(!(key + blank).contains('=')) by {
        assert forall|j: int| 0 <= j < (key + blank).len() implies (key + blank)[j] != '=' by {
            if j < key.len() {
                assert(key.contains(key[j]));
            }
        }
    }
    text::the_first_separator_cuts(key + blank, '=', blank + value);
    assert(none + key + blank =~= key + blank);
    text::white_space_around_a_text_is_trimmed(none, key, blank);
    assert(blank + value + none =~= blank + value);
    text::white_space_around_a_text_is_trimmed(blank, value, none);
    let tight = key + seq!['='] + value;
    assert(indent + tight + none =~= indent + key + seq!['='] + value);
    assert(tight.last() == value.last());
    text::white_space_around_a_text_is_trimmed(indent, tight, none);
    text::the_first_separator_cuts(key, '=', value);
    assert(none + key + none =~= key);
    text::white_space_around_a_text_is_trimmed(none, key, none);
    assert(none + value + none =~= value);
    text::white_space_around_a_text_is_trimmed(none, value, none);
}

/// A pair below the header of its section sets the key to the value, over what
/// was set before, and leaves every other key as it was.
pub proof fn a_pair_sets_its_key(
    lines: Seq<Seq<char>>,
    section: Seq<char>,
    key: Seq<char>,
    value: Seq<char>,
    other_section: Seq<char>,
    other_key: Seq<char>,
)
    requires
        plain_word(section),
        plain_word(key),
        plain_word(value),
        !key.contains('='),
        key[0] != '#' && key[0] != ';' && key[0] != '[',
        other_section != section || other_key != key,
    ensures
        ({
            let all = lines + seq![seq!['['] + section + seq![']'], key + seq![' ', '=', ' '] + value];
            let before = ini_settings(lines, lines.len() as int);
            let after = ini_settings(all, all.len() as int);
            &&& ini_value(after, section, key) == Some(value)
            &&& ini_value(after, other_section, other_key) == ini_value(before, other_section, other_key)
        }),
{
    let header = seq!['['] + section + seq![']'];
    let pair = key + seq![' ', '=', ' '] + value;
    let all = lines + seq![header, pair];
    let n = lines.len() as int;
    lemma_header(section);
    lemma_pair(Seq::empty(), key, value);
    assert(Seq::<char>::empty() + key + seq![' ', '=', ' '] + value =~= pair);
    lemma_first_lines(lines, all, n);
    assert(all[n] == header && all[n + 1] == pair);
    let before = ini_settings(lines, n);
    assert(open_section(all, n + 1) == Some(section));
    assert(ini_settings(all, n + 1) == before);
    let after = ini_settings(all, n + 2);
    assert(after == before.push(Setting { section, key, value }));
    lemma_first_settings(before, after, other_section, other_key, before.len() as int);
}

/// A comment, an empty line and a line without an equals sign set nothing and
/// open no section.
pub proof fn comments_set_nothing(lines: Seq<Seq<char>>, comment: Seq<char>)
    requires
        comment.len() > 0 ==> comment[0] == '#' || comment[0] == ';' || (!comment.contains('=') && comment[0] != '['),
        comment.len() > 0 ==> !text::is_space(comment.last()) && !text::is_space(comment[0]),
    ensures
        ini_settings(lines.push(comment), lines.len() as int + 1) == ini_settings(lines, lines.len() as int),
        open_section(lines.push(comment), lines.len() as int + 1) == open_section(lines, lines.len() as int),
{
    let all = lines.push(comment);
    lemma_first_lines(lines, all, lines.len() as int);
    assert(all[lines.len() as int] == comment);
    let none = Seq::<char>::empty();
    assert(none + comment + none =~= comment);
    if comment.len() > 0 {
        text::white_space_around_a_text_is_trimmed(none, comment, none);
        if comment[0] != '#' && comment[0] != ';' {
            text::the_first_separator_cuts(comment, '=', none);
        }
    } else {
        text::white_space_alone_is_trimmed_away(comment);
    }
}

/// A protocol is known by its names in any case and between white space.
pub proof fn protocols_have_their_names(value: Seq<char>)
    ensures
        ({
            let name = text::lower(text::trim(value));
            &&& protocol_named(value) == Some(Protocol::Http) <==> name == "http"@ || name == "https"@
            &&& protocol_named(value) == Some(Protocol::Lsp) <==> name == "lsp"@ || name == "netstring"@ || name
                == "tcp"@
        }),
{
    reveal_strlit("http");
    reveal_strlit("https");
    reveal_strlit("lsp");
    reveal_strlit("netstring");
    reveal_strlit("tcp");
    assert("http"@.len() == 4 && "https"@.len() == 5 && "lsp"@.len() == 3 && "netstring"@.len() == 9 && "tcp"@.len()
        == 3);
    assert("lsp"@[0] == 'l' && "tcp"@[0] == 't');
}

/// The connection string names each setting of the database behind its own
/// word; a value without white space, quotes and backslashes stands as it is,
/// and an empty one between quotes.
pub proof fn connections_name_their_settings(config: Config)
    requires
        !needs_quotes(config.db_host@) && !needs_quotes(config.db_port@) && !needs_quotes(config.db_name@)
            && !needs_quotes(config.db_user@),
        config.db_password@.len() == 0,
        forall|s: Seq<char>|
            s == config.db_host@ || s == config.db_port@ || s == config.db_name@ || s == config.db_user@ ==> !(
            #[trigger] s.contains('\\')) && !s.contains('\''),
    ensures
        config.connection_text() == "host="@ + config.db_host@ + " port="@ + config.db_port@ + " dbname="@
            + config.db_name@ + " user="@ + config.db_user@ + " password="@ + seq!['\'', '\''],
{
    lemma_unescaped_text(config.db_host@, config.db_host@.len() as int);
    lemma_unescaped_text(config.db_port@, config.db_port@.len() as int);
    lemma_unescaped_text(config.db_name@, config.db_name@.len() as int);
    lemma_unescaped_text(config.db_user@, config.db_user@.len() as int);
    let none = config.db_password@;
    assert(escaped(none, 0) =~= Seq::<char>::empty());
    assert(quoted_value(none) =~= seq!['\'', '\'']);
    assert(config.db_host@.take(config.db_host@.len() as int) =~= config.db_host@);
    assert(config.db_port@.take(config.db_port@.len() as int) =~= config.db_port@);
    assert(config.db_name@.take(config.db_name@.len() as int) =~= config.db_name@);
    assert(config.db_user@.take(config.db_user@.len() as int) =~= config.db_user@);
}

proof fn lemma_unescaped_text(s: Seq<char>, n: int)
    requires
        0 <= n <= s.len(),
        !s.contains('\\') && !s.contains('\''),
    ensures
        escaped(s, n) == s.take(n),
    decreases n,
{
    if n > 0 {
        lemma_unescaped_text(s, n - 1);
        assert(s.contains(s[n - 1]));
        assert(s.take(n) =~= s.take(n - 1).push(s[n - 1]));
    } else {
        assert(s.take(0) =~= Seq::<char>::empty());
    }
}

} // verus!
