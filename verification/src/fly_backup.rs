//! The command-line tool that backs up the data of the app on Fly.io: its
//! arguments, and the choice of the Fly machine that holds the data volume.
use vstd::prelude::*;
use crate::text::{nat_digits, padded_digits, push_padded_digits, starts_with_char, str_eq, trim_end_slashes, trim_trailing_slashes, u64_text};

verus! {

/// The settings of a backup run.
pub struct Config {
    pub output_dir: String,
    pub app: String,
    pub backend_origin: String,
    pub unlock_pattern: String,
    pub remote_data_dir: String,
    pub flyctl: String,
}

/// The settings of a backup run, as text.
pub struct ConfigView {
    pub output_dir: Seq<char>,
    pub app: Seq<char>,
    pub backend_origin: Seq<char>,
    pub unlock_pattern: Seq<char>,
    pub remote_data_dir: Seq<char>,
    pub flyctl: Seq<char>,
}

impl View for Config {
    type V = ConfigView;

    open spec fn view(&self) -> ConfigView {
        ConfigView {
            output_dir: self.output_dir@,
            app: self.app@,
            backend_origin: self.backend_origin@,
            unlock_pattern: self.unlock_pattern@,
            remote_data_dir: self.remote_data_dir@,
            flyctl: self.flyctl@,
        }
    }
}

/// The settings read so far; the required ones may still be missing.
pub struct ConfigDraft {
    pub output_dir: Option<Seq<char>>,
    pub app: Seq<char>,
    pub backend_origin: Option<Seq<char>>,
    pub unlock_pattern: Option<Seq<char>>,
    pub remote_data_dir: Seq<char>,
    pub flyctl: Seq<char>,
}

/// The kinds of argument errors.
#[derive(Debug, Clone, Copy, PartialEq, Eq)]
pub enum ConfigErrorKind {
    /// An argument is not valid UTF-8.
    ArgumentNotUtf8,
    /// An option is the last argument and has no value.
    MissingValue,
    /// The value of an option is not valid UTF-8.
    ValueNotUtf8,
    /// An argument starts with `-` and is no known option.
    UnknownOption,
    /// An argument that is no option.
    UnexpectedArgument,
    /// `--out-dir` was not given.
    MissingOutDir,
    /// `--url` was not given.
    MissingUrl,
    /// `--unlock-pattern` was not given.
    MissingUnlockPattern,
}

/// An argument error and the option or argument it concerns (empty when it
/// concerns none).
pub struct ConfigError {
    pub kind: ConfigErrorKind,
    pub text: String,
}

/// The text of an argument error about `text`.
pub open spec fn config_error_text(kind: ConfigErrorKind, text: Seq<char>) -> Seq<char> {
    match kind {
        ConfigErrorKind::ArgumentNotUtf8 => "arguments must be valid UTF-8"@,
        ConfigErrorKind::MissingValue => "missing value for "@ + text,
        ConfigErrorKind::ValueNotUtf8 => text + " value must be valid UTF-8"@,
        ConfigErrorKind::UnknownOption => "unknown option: "@ + text,
        ConfigErrorKind::UnexpectedArgument => "unexpected positional argument: "@ + text,
        ConfigErrorKind::MissingOutDir => "missing --out-dir argument"@,
        ConfigErrorKind::MissingUrl => "missing --url argument"@,
        ConfigErrorKind::MissingUnlockPattern => "missing --unlock-pattern argument"@,
    }
}

impl ConfigError {
    /// The text of the error.
    pub fn message(&self) -> (r: String)
        ensures
            r@ == config_error_text(self.kind, self.text@),
    {
        let mut m = String::new();
        match self.kind {
            ConfigErrorKind::ArgumentNotUtf8 => m.append("arguments must be valid UTF-8"),
            ConfigErrorKind::MissingValue => {
                m.append("missing value for ");
                m.append(self.text.as_str());
            },
            ConfigErrorKind::ValueNotUtf8 => {
                m.append(self.text.as_str());
                m.append(" value must be valid UTF-8");
            },
            ConfigErrorKind::UnknownOption => {
                m.append("unknown option: ");
                m.append(self.text.as_str());
            },
            ConfigErrorKind::UnexpectedArgument => {
                m.append("unexpected positional argument: ");
                m.append(self.text.as_str());
            },
            ConfigErrorKind::MissingOutDir => m.append("missing --out-dir argument"),
            ConfigErrorKind::MissingUrl => m.append("missing --url argument"),
            ConfigErrorKind::MissingUnlockPattern => m.append("missing --unlock-pattern argument"),
        }
        m
    }
}

/// What parsing the arguments gives: the settings and whether usage was asked
/// for, or an error kind and the text it concerns.
pub type ParsedArgs = Result<(ConfigView, bool), (ConfigErrorKind, Seq<char>)>;

/// The settings before any argument is read.
pub open spec fn default_draft() -> ConfigDraft {
    ConfigDraft {
        output_dir: None,
        app: "tallytail"@,
        backend_origin: None,
        unlock_pattern: None,
        remote_data_dir: "/app/data"@,
        flyctl: "flyctl"@,
    }
}

/// The value of `option`, the argument at `j`.
pub open spec fn option_value(args: Seq<Option<Seq<char>>>, j: int, option: Seq<char>) -> Result<Seq<char>, (ConfigErrorKind, Seq<char>)> {
    if j >= args.len() {
        Err((ConfigErrorKind::MissingValue, option))
    } else {
        match args[j] {
            None => Err((ConfigErrorKind::ValueNotUtf8, option)),
            Some(v) => Ok(v),
        }
    }
}

/// The settings once all arguments are read: fails when a required one is missing.
pub open spec fn finish_draft(d: ConfigDraft) -> ParsedArgs {
    if d.output_dir is None {
        Err((ConfigErrorKind::MissingOutDir, seq![]))
    } else if d.backend_origin is None {
        Err((ConfigErrorKind::MissingUrl, seq![]))
    } else if d.unlock_pattern is None {
        Err((ConfigErrorKind::MissingUnlockPattern, seq![]))
    } else {
        Ok((ConfigView {
            output_dir: d.output_dir.unwrap(),
            app: d.app,
            backend_origin: d.backend_origin.unwrap(),
            unlock_pattern: d.unlock_pattern.unwrap(),
            remote_data_dir: d.remote_data_dir,
            flyctl: d.flyctl,
        }, false))
    }
}

/// Parsing `args[i..]` with the settings `d` read so far. `-h` and `--help`
/// stop parsing and give settings without output directory, origin or pattern.
pub open spec fn parse_from(args: Seq<Option<Seq<char>>>, i: int, d: ConfigDraft) -> ParsedArgs
    decreases args.len() - i,
{
    if i < 0 || i >= args.len() {
        finish_draft(d)
    } else {
        match args[i] {
            None => Err((ConfigErrorKind::ArgumentNotUtf8, seq![])),
            Some(a) => {
                if a == "-h"@ || a == "--help"@ {
                    Ok((ConfigView {
                        output_dir: seq![],
                        app: d.app,
                        backend_origin: seq![],
                        unlock_pattern: seq![],
                        remote_data_dir: d.remote_data_dir,
                        flyctl: d.flyctl,
                    }, true))
                } else if a == "--out-dir"@ || a == "--app"@ || a == "--url"@ || a == "--unlock-pattern"@
                    || a == "--remote-data-dir"@ || a == "--flyctl"@ {
                    match option_value(args, i + 1, a) {
                        Err(e) => Err(e),
                        Ok(v) => parse_from(args, i + 2, if a == "--out-dir"@ {
                            ConfigDraft { output_dir: Some(v), ..d }
                        } else if a == "--app"@ {
                            ConfigDraft { app: v, ..d }
                        } else if a == "--url"@ {
                            ConfigDraft { backend_origin: Some(v), ..d }
                        } else if a == "--unlock-pattern"@ {
                            ConfigDraft { unlock_pattern: Some(v), ..d }
                        } else if a == "--remote-data-dir"@ {
                            ConfigDraft { remote_data_dir: v, ..d }
                        } else {
                            ConfigDraft { flyctl: v, ..d }
                        }),
                    }
                } else if a.len() > 0 && a[0] == '-' {
                    Err((ConfigErrorKind::UnknownOption, a))
                } else {
                    Err((ConfigErrorKind::UnexpectedArgument, a))
                }
            },
        }
    }
}

/// What `Config::parse` gives for `args` (`None` for an argument that is not
/// valid UTF-8).
pub open spec fn parsed_args(args: Seq<Option<Seq<char>>>) -> ParsedArgs {
    parse_from(args, 0, default_draft())
}

pub open spec fn opt_view(o: Option<String>) -> Option<Seq<char>> {
    match o {
        Some(s) => Some(s@),
        None => None,
    }
}

pub open spec fn args_view(args: Seq<Option<String>>) -> Seq<Option<Seq<char>>> {
    args.map_values(|a: Option<String>| opt_view(a))
}

fn clone_opt(o: &Option<String>) -> (r: Option<String>)
    ensures
        opt_view(r) == opt_view(*o),
{
    match o {
        Some(s) => Some(s.clone()),
        None => None,
    }
}

impl Config {
    /// Parses the command-line arguments (without the program name); `None`
    /// stands for an argument that is not valid UTF-8. Gives the settings and
    /// whether usage was asked for.
    pub fn parse(args: Vec<Option<String>>) -> (r: Result<(Config, bool), ConfigError>)
        ensures
            match r {
                Ok((c, help)) => parsed_args(args_view(args@)) == Ok::<(ConfigView, bool), (ConfigErrorKind, Seq<char>)>((c@, help)),
                Err(e) => parsed_args(args_view(args@)) == Err::<(ConfigView, bool), (ConfigErrorKind, Seq<char>)>((e.kind, e.text@)),
            },
    {
        let ghost av = args_view(args@);
        let mut output_dir: Option<String> = None;
        let mut app = "tallytail".to_owned();
        let mut backend_origin: Option<String> = None;
        let mut unlock_pattern: Option<String> = None;
        let mut remote_data_dir = "/app/data".to_owned();
        let mut flyctl = "flyctl".to_owned();
        let mut i: usize = 0;
        while i < args.len()
            invariant
                i <= args.len(),
                av == args_view(args@),
                av.len() == args@.len(),
                parsed_args(av) == parse_from(av, i as int, ConfigDraft {
                    output_dir: opt_view(output_dir),
                    app: app@,
                    backend_origin: opt_view(backend_origin),
                    unlock_pattern: opt_view(unlock_pattern),
                    remote_data_dir: remote_data_dir@,
                    flyctl: flyctl@,
                }),
            decreases args.len() - i,
        {
            let arg = match &args[i] {
                Some(a) => a,
                None => {
                    return Err(ConfigError { kind: ConfigErrorKind::ArgumentNotUtf8, text: String::new() });
                },
            };
            assert(av[i as int] == Some(arg@));
            if str_eq(arg.as_str(), "-h") || str_eq(arg.as_str(), "--help") {
                let config = Config {
                    output_dir: String::new(),
                    app,
                    backend_origin: String::new(),
                    unlock_pattern: String::new(),
                    remote_data_dir,
                    flyctl,
                };
                return Ok((config, true));
            }
            let is_out_dir = str_eq(arg.as_str(), "--out-dir");
            let is_app = str_eq(arg.as_str(), "--app");
            let is_url = str_eq(arg.as_str(), "--url");
            let is_pattern = str_eq(arg.as_str(), "--unlock-pattern");
            let is_remote = str_eq(arg.as_str(), "--remote-data-dir");
            let is_flyctl = str_eq(arg.as_str(), "--flyctl");
            if is_out_dir || is_app || is_url || is_pattern || is_remote || is_flyctl {
                if i + 1 >= args.len() {
                    return Err(ConfigError { kind: ConfigErrorKind::MissingValue, text: arg.clone() });
                }
                let value = match &args[i + 1] {
                    Some(v) => v.clone(),
                    None => {
                        return Err(ConfigError { kind: ConfigErrorKind::ValueNotUtf8, text: arg.clone() });
                    },
                };
                assert(av[i + 1] == Some(value@));
                if is_out_dir {
                    output_dir = Some(value);
                } else if is_app {
                    app = value;
                } else if is_url {
                    backend_origin = Some(value);
                } else if is_pattern {
                    unlock_pattern = Some(value);
                } else if is_remote {
                    remote_data_dir = value;
                } else {
                    flyctl = value;
                }
                i += 2;
            } else if starts_with_char(arg.as_str(), '-') {
                return Err(ConfigError { kind: ConfigErrorKind::UnknownOption, text: arg.clone() });
            } else {
                return Err(ConfigError { kind: ConfigErrorKind::UnexpectedArgument, text: arg.clone() });
            }
        }
        let output_dir = match output_dir {
            Some(v) => v,
            None => {
                return Err(ConfigError { kind: ConfigErrorKind::MissingOutDir, text: String::new() });
            },
        };
        let backend_origin = match backend_origin {
            Some(v) => v,
            None => {
                return Err(ConfigError { kind: ConfigErrorKind::MissingUrl, text: String::new() });
            },
        };
        let unlock_pattern = match unlock_pattern {
            Some(v) => v,
            None => {
                return Err(ConfigError { kind: ConfigErrorKind::MissingUnlockPattern, text: String::new() });
            },
        };
        Ok((Config { output_dir, app, backend_origin, unlock_pattern, remote_data_dir, flyctl }, false))
    }
}

/// A mount of a Fly machine.
pub struct FlyMachineMount {
    pub path: String,
}

/// The configuration of a Fly machine.
pub struct FlyMachineConfig {
    pub mounts: Option<Vec<FlyMachineMount>>,
}

/// A Fly machine as `flyctl machine list --json` describes it.
pub struct FlyMachine {
    pub id: String,
    pub state: String,
    pub config: Option<FlyMachineConfig>,
}

/// The machine mounts a volume at `path` (its mount paths compared without
/// trailing `/`).
pub open spec fn machine_has_mount_at(m: FlyMachine, path: Seq<char>) -> bool {
    &&& m.config is Some
    &&& m.config.unwrap().mounts is Some
    &&& exists|i: int| 0 <= i < m.config.unwrap().mounts.unwrap()@.len()
        && trim_trailing_slashes((#[trigger] m.config.unwrap().mounts.unwrap()@[i]).path@) == path
}

impl FlyMachine {
    /// Whether the machine mounts a volume at `path`.
    pub fn has_mount_at(&self, path: &str) -> (r: bool)
        ensures
            r == machine_has_mount_at(*self, path@),
    {
        match &self.config {
            None => false,
            Some(config) => match &config.mounts {
                None => false,
                Some(mounts) => {
                    let mut i: usize = 0;
                    while i < mounts.len()
                        invariant
                            i <= mounts.len(),
                            self.config is Some,
                            self.config.unwrap().mounts is Some,
                            self.config.unwrap().mounts.unwrap()@ == mounts@,
                            forall|j: int| 0 <= j < i ==> trim_trailing_slashes((#[trigger] mounts@[j]).path@) != path@,
                        decreases mounts.len() - i,
                    {
                        let trimmed = trim_end_slashes(mounts[i].path.as_str());
                        if str_eq(trimmed.as_str(), path) {
                            assert(self.config.unwrap().mounts.unwrap()@[i as int] == mounts@[i as int]);
                            assert(trim_trailing_slashes((self.config.unwrap().mounts.unwrap()@[i as int]).path@) == path@);
                            return true;
                        }
                        i += 1;
                    }
                    false
                },
            },
        }
    }
}

/// The errors of `select_machine`.
#[derive(Debug, Clone, Copy, PartialEq, Eq)]
pub enum SelectMachineError {
    /// The app has no machine.
    NoMachines,
    /// No machine mounts the data directory.
    NoMount,
}

/// The index of the machine to back up from: the first started machine that
/// mounts `dir`, else the first machine that mounts it.
pub open spec fn chosen_machine(ms: Seq<FlyMachine>, dir: Seq<char>) -> Option<int> {
    if exists|i: int| 0 <= i < ms.len() && machine_has_mount_at(#[trigger] ms[i], dir) && ms[i].state@ == "started"@ {
        Some(choose|i: int| 0 <= i < ms.len() && machine_has_mount_at(#[trigger] ms[i], dir) && ms[i].state@ == "started"@
            && forall|j: int| 0 <= j < i ==> !(machine_has_mount_at(#[trigger] ms[j], dir) && ms[j].state@ == "started"@))
    } else if exists|i: int| 0 <= i < ms.len() && machine_has_mount_at(#[trigger] ms[i], dir) {
        Some(choose|i: int| 0 <= i < ms.len() && machine_has_mount_at(#[trigger] ms[i], dir)
            && forall|j: int| 0 <= j < i ==> !machine_has_mount_at(#[trigger] ms[j], dir))
    } else {
        None
    }
}

/// The index of the machine to back up from among `machines`, given the
/// remote data directory (compared without trailing `/`): the first started
/// machine that mounts it, else the first that mounts it.
pub fn select_machine(machines: &Vec<FlyMachine>, remote_data_dir: &str) -> (r: Result<usize, SelectMachineError>)
    ensures
        machines.len() == 0 ==> r == Err::<usize, SelectMachineError>(SelectMachineError::NoMachines),
        machines.len() > 0 ==> match chosen_machine(machines@, trim_trailing_slashes(remote_data_dir@)) {
            Some(i) => r == Ok::<usize, SelectMachineError>(i as usize),
            None => r == Err::<usize, SelectMachineError>(SelectMachineError::NoMount),
        },
{
    if machines.len() == 0 {
        return Err(SelectMachineError::NoMachines);
    }
    let dir = trim_end_slashes(remote_data_dir);
    let ghost d = dir@;
    let mut first_mounted: Option<usize> = None;
    let mut i: usize = 0;
    while i < machines.len()
        invariant
            i <= machines.len(),
            d == trim_trailing_slashes(remote_data_dir@),
            d == dir@,
            forall|j: int| 0 <= j < i ==> !(machine_has_mount_at(#[trigger] machines@[j], d) && machines@[j].state@ == "started"@),
            match first_mounted {
                Some(k) => k < i && machine_has_mount_at(machines@[k as int], d)
                    && forall|j: int| 0 <= j < k ==> !machine_has_mount_at(#[trigger] machines@[j], d),
                None => forall|j: int| 0 <= j < i ==> !machine_has_mount_at(#[trigger] machines@[j], d),
            },
        decreases machines.len() - i,
    {
        if machines[i].has_mount_at(dir.as_str()) {
            if str_eq(machines[i].state.as_str(), "started") {
                let ghost ms = machines@;
                assert(machine_has_mount_at(ms[i as int], d) && ms[i as int].state@ == "started"@);
                let ghost c = chosen_machine(ms, d);
                assert(c == Some(i as int)) by {
                    let k = choose|k: int| 0 <= k < ms.len() && machine_has_mount_at(#[trigger] ms[k], d) && ms[k].state@ == "started"@
                        && forall|j: int| 0 <= j < k ==> !(machine_has_mount_at(#[trigger] ms[j], d) && ms[j].state@ == "started"@);
                    if k < i {
                    } else if k > i {
                        assert(!(machine_has_mount_at(ms[i as int], d) && ms[i as int].state@ == "started"@));
                    }
                }
                return Ok(i);
            }
            if first_mounted.is_none() {
                first_mounted = Some(i);
            }
        }
        i += 1;
    }
    let ghost ms = machines@;
    match first_mounted {
        Some(k) => {
            assert(chosen_machine(ms, d) == Some(k as int)) by {
                let c = choose|c: int| 0 <= c < ms.len() && machine_has_mount_at(#[trigger] ms[c], d)
                    && forall|j: int| 0 <= j < c ==> !machine_has_mount_at(#[trigger] ms[j], d);
                if c < k {
                } else if c > k {
                    assert(!machine_has_mount_at(ms[k as int], d));
                }
            }
            Ok(k)
        },
        None => Err(SelectMachineError::NoMount),
    }
}


/// The URL of `request` at the back end `origin`, the origin taken without
/// trailing `/`.
pub open spec fn backend_url(origin: Seq<char>, request: Seq<char>) -> Seq<char> {
    trim_trailing_slashes(origin) + "/"@ + request
}

/// The URL of `request` at the back end `origin`.
pub fn backend_request_url(origin: &str, request: &str) -> (r: String)
    ensures
        r@ == backend_url(origin@, request@),
{
    trim_end_slashes(origin).concat("/").concat(request)
}

/// The year as `%Y` writes it: four digits, or a `+` and all its digits
/// after the year 9999.
pub open spec fn year_text(year: nat) -> Seq<char> {
    if year <= 9999 {
        padded_digits(year, 4)
    } else {
        "+"@ + nat_digits(year)
    }
}

/// The time stamp of a backup file, as `%Y%m%d-%H%M%S`: the year, then two
/// digits each of month, day, hour, minute and second.
pub open spec fn backup_timestamp(year: nat, month: nat, day: nat, hour: nat, minute: nat, second: nat) -> Seq<char> {
    year_text(year) + padded_digits(month, 2) + padded_digits(day, 2) + "-"@
        + padded_digits(hour, 2) + padded_digits(minute, 2) + padded_digits(second, 2)
}

/// The name of the backup file of `app` made at `timestamp`.
pub open spec fn backup_name(app: Seq<char>, timestamp: Seq<char>) -> Seq<char> {
    app + "-data-"@ + timestamp + ".tar.gz"@
}

/// The name of the backup file of `app` made at the given local date and time
/// of day: `{app}-data-{%Y%m%d-%H%M%S}.tar.gz`.
pub fn backup_file_name(app: &str, year: u32, month: u8, day: u8, hour: u8, minute: u8, second: u8) -> (r: String)
    ensures
        r@ == backup_name(
            app@,
            backup_timestamp(year as nat, month as nat, day as nat, hour as nat, minute as nat, second as nat),
        ),
{
    let mut t = String::new();
    if year <= 9999 {
        push_padded_digits(&mut t, year as u64, 4);
    } else {
        t.append("+");
        t.append(u64_text(year as u64).as_str());
    }
    push_padded_digits(&mut t, month as u64, 2);
    push_padded_digits(&mut t, day as u64, 2);
    t.append("-");
    push_padded_digits(&mut t, hour as u64, 2);
    push_padded_digits(&mut t, minute as u64, 2);
    push_padded_digits(&mut t, second as u64, 2);
    app.to_owned().concat("-data-").concat(t.as_str()).concat(".tar.gz")
}

/// Whether the machine has to be started before the backup: it is not in
/// the state `started`.
pub fn needs_start(machine: &FlyMachine) -> (r: bool)
    ensures
        r == (machine.state@ != "started"@),
{
    !str_eq(machine.state.as_str(), "started")
}

} // verus!
