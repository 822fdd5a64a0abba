//! Launch arguments and ownership of the login (autostart) registration.
use vstd::prelude::*;
use vstd::string::*;
use crate::text::{
    chars_of, concat2, contains, contains_chars, eq_chars, eq_str, lower, lower_chars, owned, string_of,
};

verus! {

/// Argument that marks a launch by the login registration.
pub const AUTOSTART_ARG: &'static str = "--autostart";
/// The exact argument list of the uninstaller's cleanup call.
pub const INSTALLER_REMOVE_LOGIN: &'static str = "--installer-remove-login";

/// Settings that decide how the application starts.
#[derive(Debug, Clone, Copy, PartialEq, Eq, Structural)]
pub struct AppSettings {
    /// Keep the window hidden when launched by the login registration.
    pub silent_startup: bool,
    /// The user wants a login registration.
    pub launch_at_login: bool,
}

impl Default for AppSettings {
    fn default() -> (r: Self)
        ensures
            !r.silent_startup,
            !r.launch_at_login,
    {
        AppSettings { silent_startup: false, launch_at_login: false }
    }
}

/// The uninstaller asks only for login-entry cleanup: exactly one argument,
/// exactly the cleanup flag.
pub fn installer_cleanup_requested(args: &[String]) -> (r: bool)
    ensures
        r == (args@.len() == 1 && args@[0]@ == INSTALLER_REMOVE_LOGIN@),
{
    args.len() == 1 && eq_str(args[0].as_str(), INSTALLER_REMOVE_LOGIN)
}

pub open spec fn launched_by_login(args: Seq<String>) -> bool {
    exists|i: int| 0 <= i < args.len() && (#[trigger] args[i])@ == AUTOSTART_ARG@
}

/// The window is shown unless silent startup is on and the login registration
/// launched the application; a manual launch always shows it.
pub fn show_initial_window(settings: &AppSettings, args: &[String]) -> (r: bool)
    ensures
        r == !(settings.silent_startup && launched_by_login(args@)),
{
    let mut found = false;
    let mut i: usize = 0;
    while i < args.len()
        invariant
            i <= args.len(),
            found == exists|k: int| 0 <= k < i && (#[trigger] args@[k])@ == AUTOSTART_ARG@,
        decreases args.len() - i,
    {
        if eq_str(args[i].as_str(), AUTOSTART_ARG) {
            found = true;
        }
        i = i + 1;
    }
    !(settings.silent_startup && found)
}

/// The login command written for an executable: the quoted path and the
/// autostart flag.
pub open spec fn spec_login_command(executable: Seq<char>) -> Seq<char> {
    "\""@ + executable + "\" "@ + AUTOSTART_ARG@
}

pub fn quoted_login_command(executable: &str) -> (r: String)
    ensures
        r@ == spec_login_command(executable@),
{
    let mut s = concat2("\"", executable);
    s.append("\" ");
    s.append(AUTOSTART_ARG);
    s
}

/// A path separator: the platform's own, or `/`, which every platform accepts.
pub open spec fn is_sep(c: char, sep: char) -> bool {
    c == sep || c == '/'
}

/// Index of the last separator in `p`, or -1.
pub open spec fn last_sep(p: Seq<char>, sep: char) -> int
    decreases p.len(),
{
    if p.len() == 0 {
        -1
    } else if is_sep(p.last(), sep) {
        p.len() - 1
    } else {
        last_sep(p.drop_last(), sep)
    }
}

/// Start of the run of separators that ends just before index `i`.
pub open spec fn run_start(p: Seq<char>, i: int, sep: char) -> int
    decreases i,
{
    if 0 < i <= p.len() && is_sep(p[i - 1], sep) {
        run_start(p, i - 1, sep)
    } else {
        i
    }
}

/// The path of a file named `name` in the directory of `executable`: the text
/// before the separators that precede its last component, the platform's
/// separator, then `name`.
pub open spec fn sibling(executable: Seq<char>, sep: char, name: Seq<char>) -> Seq<char> {
    let i = last_sep(executable, sep);
    if i < 0 {
        name
    } else {
        executable.subrange(0, run_start(executable, i, sep)) + seq![sep] + name
    }
}

/// The exact command forms that current and legacy autostart registrations use
/// for `path`, including the old trailing space without arguments.
pub open spec fn is_entry_form(command: Seq<char>, path: Seq<char>) -> bool {
    let c = lower(command);
    ||| c == lower("\""@ + path + "\""@)
    ||| c == lower("\""@ + path + "\" "@ + AUTOSTART_ARG@)
    ||| c == lower(path)
    ||| c == lower(path + " "@)
    ||| c == lower(path + " "@ + AUTOSTART_ARG@)
}

/// A login command belongs to this installation: it launches `routedeck.exe` or
/// `serylane.exe` beside the running executable in one of the exact forms, compared
/// without regard to ASCII case. Prefixes and extra arguments never match.
pub open spec fn owns_entry(command: Seq<char>, executable: Seq<char>, sep: char) -> bool {
    executable.len() > 0 && (is_entry_form(command, sibling(executable, sep, "routedeck.exe"@))
        || is_entry_form(command, sibling(executable, sep, "serylane.exe"@)))
}

fn last_sep_index(p: &Vec<char>, sep: char) -> (r: Option<usize>)
    ensures
        match r {
            Some(i) => i < p.len() && last_sep(p@, sep) == i,
            None => last_sep(p@, sep) == -1,
        },
{
    let mut i = p.len();
    assert(p@.take(i as int) =~= p@);
    while i > 0 && p[i - 1] != sep && p[i - 1] != '/'
        invariant
            i <= p.len(),
            last_sep(p@, sep) == last_sep(p@.take(i as int), sep),
        decreases i,
    {
        proof {
            assert(p@.take(i as int).drop_last() =~= p@.take(i - 1));
        }
        i = i - 1;
    }
    if i == 0 {
        assert(p@.take(0) =~= Seq::<char>::empty());
        None
    } else {
        Some(i - 1)
    }
}

fn sibling_path(executable: &Vec<char>, sep: char, name: &str) -> (r: Vec<char>)
    ensures
        r@ == sibling(executable@, sep, name@),
{
    let n = chars_of(name);
    match last_sep_index(executable, sep) {
        None => n,
        Some(last) => {
            let mut i = last;
            while i > 0 && (executable[i - 1] == sep || executable[i - 1] == '/')
                invariant
                    i <= last < executable.len(),
                    run_start(executable@, i as int, sep) == run_start(executable@, last as int, sep),
                decreases i,
            {
                i = i - 1;
            }
            let mut out: Vec<char> = Vec::new();
            let mut k: usize = 0;
            while k < i
                invariant
                    k <= i,
                    i < executable.len(),
                    out@ == executable@.subrange(0, k as int),
                decreases i - k,
            {
                out.push(executable[k]);
                k = k + 1;
            }
            out.push(sep);
            let mut j: usize = 0;
            let ghost base = out@;
            while j < n.len()
                invariant
                    j <= n.len(),
                    out@ == base + n@.take(j as int),
                decreases n.len() - j,
            {
                out.push(n[j]);
                j = j + 1;
                assert(out@ =~= base + n@.take(j as int));
            }
            assert(n@.take(n.len() as int) =~= n@);
            out
        },
    }
}

fn same_ignoring_case(command: &Vec<char>, expected: &String) -> (r: bool)
    ensures
        r == (lower(command@) == lower(expected@)),
{
    let a = lower_chars(command);
    let b = lower_chars(&chars_of(expected.as_str()));
    eq_chars(&a, &b)
}

fn entry_form(command: &Vec<char>, path: &Vec<char>) -> (r: bool)
    ensures
        r == is_entry_form(command@, path@),
{
    let p = string_of(path);
    let mut quoted = concat2("\"", p.as_str());
    quoted.append("\"");
    let mut quoted_flag = concat2("\"", p.as_str());
    quoted_flag.append("\" ");
    quoted_flag.append(AUTOSTART_ARG);
    let bare = owned(p.as_str());
    let spaced = concat2(p.as_str(), " ");
    let mut flagged = concat2(p.as_str(), " ");
    flagged.append(AUTOSTART_ARG);
    same_ignoring_case(command, &quoted) || same_ignoring_case(command, &quoted_flag)
        || same_ignoring_case(command, &bare) || same_ignoring_case(command, &spaced)
        || same_ignoring_case(command, &flagged)
}

/// Whether a login command is one of this installation's own registrations.
/// `separator` is the platform's path separator.
pub fn owns_legacy_entry(command: &str, executable: &str, separator: char) -> (r: bool)
    ensures
        r == owns_entry(command@, executable@, separator),
{
    let exe = chars_of(executable);
    if exe.len() == 0 {
        return false;
    }
    let c = chars_of(command);
    let legacy = sibling_path(&exe, separator, "routedeck.exe");
    let current = sibling_path(&exe, separator, "serylane.exe");
    entry_form(&c, &legacy) || entry_form(&c, &current)
}


/// What to do with the login entries found at startup.
#[derive(Debug, Clone, Copy, PartialEq, Eq, Structural)]
pub struct LoginMigration {
    /// Rewrite the existing `Serylane` entry in the quoted form.
    pub rewrite_current: bool,
    /// The legacy `RouteDeck` entry is ours: carry it over and delete it.
    pub migrate_legacy: bool,
    /// Carry its approval state over and (re)write the `Serylane` entry.
    pub enable_current: bool,
}

pub open spec fn owned_value(value: Option<String>, executable: Seq<char>, sep: char) -> bool {
    value matches Some(v) && owns_entry(v@, executable, sep)
}

/// Only our own existing entries are migrated: a missing or externally
/// disabled entry is never enabled, and an entry of another copy is never
/// touched.
pub open spec fn spec_login_migration(
    current: Option<String>,
    legacy: Option<String>,
    launch_at_login: bool,
    executable: Seq<char>,
    sep: char,
) -> LoginMigration {
    if current is Some && !owned_value(current, executable, sep) {
        LoginMigration { rewrite_current: false, migrate_legacy: false, enable_current: false }
    } else {
        let legacy_ours = owned_value(legacy, executable, sep);
        LoginMigration {
            rewrite_current: current is Some,
            migrate_legacy: legacy_ours,
            enable_current: legacy_ours && launch_at_login,
        }
    }
}

/// Decides the login-entry migration from the values of the `Serylane` and
/// legacy `RouteDeck` entries.
pub fn login_migration(
    current: &Option<String>,
    legacy: &Option<String>,
    launch_at_login: bool,
    executable: &str,
    separator: char,
) -> (r: LoginMigration)
    ensures
        r == spec_login_migration(*current, *legacy, launch_at_login, executable@, separator),
{
    let current_ours = match current {
        Some(c) => owns_legacy_entry(c.as_str(), executable, separator),
        None => true,
    };
    if !current_ours {
        return LoginMigration { rewrite_current: false, migrate_legacy: false, enable_current: false };
    }
    let legacy_ours = match legacy {
        Some(l) => owns_legacy_entry(l.as_str(), executable, separator),
        None => false,
    };
    LoginMigration {
        rewrite_current: current.is_some(),
        migrate_legacy: legacy_ours,
        enable_current: legacy_ours && launch_at_login,
    }
}

/// An entry is removed at uninstall only when it launches this installation.
pub fn removable_entry(value: &Option<String>, executable: &str, separator: char) -> (r: bool)
    ensures
        r == owned_value(*value, executable@, separator),
{
    match value {
        Some(v) => owns_legacy_entry(v.as_str(), executable, separator),
        None => false,
    }
}


/// Seconds the core gets to answer after starting: more when it must first set
/// up the TUN device.
pub open spec fn spec_ready_timeout(tun_mode: bool) -> u64 {
    if tun_mode {
        30
    } else {
        8
    }
}

pub fn ready_timeout_seconds(tun_mode: bool) -> (r: u64)
    ensures
        r == spec_ready_timeout(tun_mode),
{
    if tun_mode {
        30
    } else {
        8
    }
}

/// One line of the core's log.
#[derive(Debug, Clone)]
pub struct LogLine {
    pub timestamp: u64,
    pub level: String,
    pub message: String,
}

/// What `str::to_lowercase` makes of a text (full Unicode case mapping).
pub uninterp spec fn lowercase_of(text: Seq<char>) -> Seq<char>;

/// `str::to_lowercase`; its Unicode tables are not restated.
#[verifier::external_body]
fn to_lowercase(text: &str) -> (r: String)
    ensures
        r@ == lowercase_of(text@),
{
    text.to_lowercase()
}

/// A log line written since the core started that reports a TUN, permission or
/// route failure.
pub open spec fn tun_failure(line: LogLine, started_at: Option<u64>) -> bool {
    &&& started_at matches Some(t) && line.timestamp >= t
    &&& line.level@ == "error"@
    &&& {
        let m = lowercase_of(line.message@);
        contains(m, "tun"@) || contains(m, "permission"@) || contains(m, "route"@)
    }
}

/// Index of the newest line among the first `n` that reports a TUN failure, or -1.
pub open spec fn newest_tun_failure(logs: Seq<LogLine>, started_at: Option<u64>, n: int) -> int
    decreases n,
{
    if n <= 0 {
        -1
    } else if tun_failure(logs[n - 1], started_at) {
        n - 1
    } else {
        newest_tun_failure(logs, started_at, n - 1)
    }
}

fn is_tun_failure(line: &LogLine, started_at: Option<u64>) -> (r: bool)
    ensures
        r == tun_failure(*line, started_at),
{
    let recent = match started_at {
        Some(t) => line.timestamp >= t,
        None => false,
    };
    if !recent || !eq_str(line.level.as_str(), "error") {
        return false;
    }
    let m = chars_of(to_lowercase(line.message.as_str()).as_str());
    contains_chars(&m, &chars_of("tun")) || contains_chars(&m, &chars_of("permission"))
        || contains_chars(&m, &chars_of("route"))
}

/// The message of the newest log line, oldest first in `logs`, that shows the
/// TUN start failed: written since `started_at`, at level `error`, and naming
/// TUN, a permission or a route. Such a line stops the start with its message.
pub fn tun_start_failure(logs: &Vec<LogLine>, started_at: Option<u64>) -> (r: Option<String>)
    ensures
        match r {
            Some(m) => {
                let i = newest_tun_failure(logs@, started_at, logs@.len() as int);
                i >= 0 && m@ == logs@[i].message@
            },
            None => newest_tun_failure(logs@, started_at, logs@.len() as int) == -1,
        },
{
    let mut n = logs.len();
    while n > 0
        invariant
            n <= logs.len(),
            newest_tun_failure(logs@, started_at, logs@.len() as int) == newest_tun_failure(
                logs@,
                started_at,
                n as int,
            ),
        decreases n,
    {
        if is_tun_failure(&logs[n - 1], started_at) {
            return Some(owned(logs[n - 1].message.as_str()));
        }
        n = n - 1;
    }
    None
}


/// An error-level line written at or after the start stops a TUN start exactly
/// when its lower-cased message names TUN, a permission or a route; any one of
/// the three is enough, and lines before the start, lines of other levels and a
/// start time that is not known never count.
pub proof fn tun_failures_are_recent_errors_naming_tun_permission_or_route(line: LogLine, started_at: Option<u64>)
    ensures
        tun_failure(line, started_at) <==> ({
            let m = lowercase_of(line.message@);
            &&& started_at is Some
            &&& line.timestamp >= started_at->0
            &&& line.level@ == "error"@
            &&& (contains(m, "tun"@) || contains(m, "permission"@) || contains(m, "route"@))
        }),
{
}

/// The line reported is a failure line and no later line is one: the newest.
pub proof fn the_newest_failure_is_reported(logs: Seq<LogLine>, started_at: Option<u64>, n: int)
    requires
        0 <= n <= logs.len(),
    ensures
        newest_tun_failure(logs, started_at, n) == -1 ==> forall|j: int| 0 <= j < n ==> !tun_failure(
            #[trigger] logs[j],
            started_at,
        ),
        newest_tun_failure(logs, started_at, n) != -1 ==> {
            let i = newest_tun_failure(logs, started_at, n);
            &&& 0 <= i < n
            &&& tun_failure(logs[i], started_at)
            &&& forall|j: int| i < j < n ==> !tun_failure(#[trigger] logs[j], started_at)
        },
    decreases n,
{
    if n > 0 {
        the_newest_failure_is_reported(logs, started_at, n - 1);
    }
}

} // verus!
