//! The host sources `get host` enumerates.
//!
//! Two files say which hosts this shell knows besides the links it holds: the OpenSSH client
//! configuration, because the ssh transport runs `ssh <host>` and that is where `ssh` learns
//! what a host name means; and the shell's own host file under its configuration directory. The
//! first is read and never written; the second is the shell's, and is rewritten whole. Reading
//! and writing them is the caller's; what a file's text means is decided here.

use vstd::prelude::*;

use crate::text::{
    ascii_lowercase, chars_of, copy_chars, eq_str, is_ws, split, split_words, string_of, trim,
    trimmed, words,
};

verus! {

/// The name of the shell's own host file inside its configuration directory.
pub const OWN_FILE: &'static str = "hosts.json";

/// The name of the pinned host keys file inside the configuration directory.
pub const STORE_FILE: &'static str = "known-hosts.json";

/// The name of the authorized client keys file inside the configuration directory.
pub const AUTHORIZED_CLIENTS_FILE: &'static str = "authorized-clients.json";

/// One host as a source records it.
#[derive(Debug, Clone, PartialEq, Eq)]
pub struct HostEntry {
    /// The host's name, the word `link host` takes.
    pub name: String,
    /// An address or DNS name, when the source records one.
    pub address: Option<String>,
    /// The port, when the source records one.
    pub port: Option<u16>,
    /// The login user, when the source records one.
    pub user: Option<String>,
}

/// A host entry as plain text.
pub struct HostEntryView {
    pub name: Seq<char>,
    pub address: Option<Seq<char>>,
    pub port: Option<u16>,
    pub user: Option<Seq<char>>,
}

/// An optional string's text.
pub open spec fn opt_view(o: Option<String>) -> Option<Seq<char>> {
    match o {
        Some(s) => Some(s@),
        None => None,
    }
}

impl View for HostEntry {
    type V = HostEntryView;

    open spec fn view(&self) -> HostEntryView {
        HostEntryView {
            name: self.name@,
            address: opt_view(self.address),
            port: self.port,
            user: opt_view(self.user),
        }
    }
}

/// An entry with only a name.
pub open spec fn named_view(name: Seq<char>) -> HostEntryView {
    HostEntryView { name, address: None, port: None, user: None }
}

impl HostEntry {
    /// An entry with only a name.
    pub fn named(name: &str) -> (r: Self)
        ensures
            r@ == named_view(name@),
    {
        HostEntry { name: string_of(chars_of(name).as_slice()), address: None, port: None, user: None }
    }
}

fn copy_string(s: &String) -> (r: String)
    ensures
        r@ == s@,
{
    s.clone()
}

/// A copy of an optional string.
pub(crate) fn copy_opt(o: &Option<String>) -> (r: Option<String>)
    ensures
        opt_view(r) == opt_view(*o),
{
    match o {
        Some(s) => Some(copy_string(s)),
        None => None,
    }
}

// --- where the sources are ---------------------------------------------------------------------

/// `component` under the directory `base`, as `PathBuf::join` places a relative component:
/// after a `/` unless `base` is empty or already ends with one.
pub open spec fn path_join(base: Seq<char>, component: Seq<char>) -> Seq<char> {
    if base.len() == 0 {
        component
    } else if base.last() == '/' {
        base + component
    } else {
        base + seq!['/'] + component
    }
}

/// `component` under the directory `base`.
pub fn join_path(base: &str, component: &str) -> (r: String)
    ensures
        r@ == path_join(base@, component@),
{
    let b = chars_of(base);
    let c = chars_of(component);
    if b.len() == 0 {
        return string_of(c.as_slice());
    }
    if b[b.len() - 1] == '/' {
        return string_of(crate::text::concat(b.as_slice(), c.as_slice()).as_slice());
    }
    let mut with_slash = copy_chars(b.as_slice());
    with_slash.push('/');
    assert(with_slash@ =~= b@ + seq!['/']);
    string_of(crate::text::concat(with_slash.as_slice(), c.as_slice()).as_slice())
}

/// The value of the first variable named `name`.
pub open spec fn env_value(env: Seq<(Seq<char>, Seq<char>)>, name: Seq<char>) -> Option<Seq<char>> {
    crate::expand::assoc(env, name)
}

/// The configuration directory: `ONO_CONFIG_DIR`, then `XDG_CONFIG_HOME/ono`, then
/// `~/.config/ono`.
pub open spec fn config_dir_spec(env: Seq<(Seq<char>, Seq<char>)>) -> Option<Seq<char>> {
    match env_value(env, "ONO_CONFIG_DIR"@) {
        Some(dir) => Some(dir),
        None => match env_value(env, "XDG_CONFIG_HOME"@) {
            Some(base) => Some(path_join(base, "ono"@)),
            None => match env_value(env, "HOME"@) {
                Some(home) => Some(path_join(path_join(home, ".config"@), "ono"@)),
                None => None,
            },
        },
    }
}

fn env_lookup(environment: &Vec<(String, String)>, name: &str) -> (r: Option<String>)
    ensures
        opt_view(r) == env_value(crate::expand::pairs_view(environment@), name@),
{
    let mut i: usize = 0;
    let ghost all = crate::expand::pairs_view(environment@);
    assert(all.skip(0) =~= all);
    while i < environment.len()
        invariant
            i <= environment.len(),
            all == crate::expand::pairs_view(environment@),
            crate::expand::assoc(all, name@) == crate::expand::assoc(all.skip(i as int), name@),
        decreases environment.len() - i,
    {
        let key = chars_of(environment[i].0.as_str());
        assert(all.skip(i as int)[0] == (environment@[i as int].0@, environment@[i as int].1@));
        if eq_str(key.as_slice(), name) {
            return Some(copy_string(&environment[i].1));
        }
        assert(all.skip(i as int).drop_first() =~= all.skip(i + 1));
        i = i + 1;
    }
    assert(all.skip(i as int).len() == 0);
    None
}

/// The configuration directory an environment points at.
pub fn config_dir_from_environment(environment: &Vec<(String, String)>) -> (r: Option<String>)
    ensures
        opt_view(r) == config_dir_spec(crate::expand::pairs_view(environment@)),
{
    if let Some(dir) = env_lookup(environment, "ONO_CONFIG_DIR") {
        return Some(dir);
    }
    if let Some(base) = env_lookup(environment, "XDG_CONFIG_HOME") {
        return Some(join_path(base.as_str(), "ono"));
    }
    if let Some(home) = env_lookup(environment, "HOME") {
        let config = join_path(home.as_str(), ".config");
        return Some(join_path(config.as_str(), "ono"));
    }
    None
}

/// Where the sources live for one session.
#[derive(Debug, Clone, Default, PartialEq, Eq)]
pub struct HostSources {
    /// `~/.ssh/config`, read-only.
    pub ssh_config: Option<String>,
    /// The shell's own host file, read and written.
    pub own: Option<String>,
    /// The pinned host keys, read and written.
    pub trust_store: Option<String>,
    /// The client keys this machine authorizes, read and written.
    pub authorized_clients: Option<String>,
    /// The configuration directory this shell's own peer identity lives in.
    pub config_dir: Option<String>,
}

/// `component` under `dir`, when there is a directory.
pub open spec fn under(dir: Option<Seq<char>>, component: Seq<char>) -> Option<Seq<char>> {
    match dir {
        Some(d) => Some(path_join(d, component)),
        None => None,
    }
}

fn join_opt(dir: &Option<String>, component: &str) -> (r: Option<String>)
    ensures
        opt_view(r) == under(opt_view(*dir), component@),
{
    match dir {
        Some(d) => Some(join_path(d.as_str(), component)),
        None => None,
    }
}

impl HostSources {
    /// The sources an environment points at: `~/.ssh/config` under `HOME`, and the shell's
    /// files under the configuration directory (`ONO_CONFIG_DIR`, then
    /// `XDG_CONFIG_HOME/ono`, then `~/.config/ono`).
    pub fn from_environment(environment: Vec<(String, String)>) -> (r: Self)
        ensures
            opt_view(r.ssh_config) == under(
                under(env_value(crate::expand::pairs_view(environment@), "HOME"@), ".ssh"@),
                "config"@,
            ),
            opt_view(r.config_dir) == config_dir_spec(crate::expand::pairs_view(environment@)),
            opt_view(r.own) == under(opt_view(r.config_dir), OWN_FILE@),
            opt_view(r.trust_store) == under(opt_view(r.config_dir), STORE_FILE@),
            opt_view(r.authorized_clients) == under(
                opt_view(r.config_dir),
                AUTHORIZED_CLIENTS_FILE@,
            ),
    {
        let home = env_lookup(&environment, "HOME");
        let config_dir = config_dir_from_environment(&environment);
        let ssh_dir = join_opt(&home, ".ssh");
        HostSources {
            ssh_config: join_opt(&ssh_dir, "config"),
            own: join_opt(&config_dir, OWN_FILE),
            trust_store: join_opt(&config_dir, STORE_FILE),
            authorized_clients: join_opt(&config_dir, AUTHORIZED_CLIENTS_FILE),
            config_dir,
        }
    }
}

/// What reading one of the host files found; the reading is the caller's.
#[derive(Debug, Clone)]
pub enum HostFileRead {
    /// The file does not exist.
    Missing,
    /// It exists and could not be read, for the reason given.
    Unreadable(String),
    /// It read as this text.
    Text(String),
}

/// What reading the shell's own host file and decoding it found; both are the caller's.
#[derive(Debug, Clone)]
pub enum OwnFileRead {
    /// The file does not exist.
    Missing,
    /// It exists and could not be read, for the reason given.
    Unreadable(String),
    /// It read and is not a host file, for the reason given.
    Malformed(String),
    /// It read as these hosts, in file order.
    Hosts(Vec<HostEntry>),
}

/// Why a host source yields no hosts.
#[derive(Debug, Clone, PartialEq, Eq)]
pub enum HostFileError {
    /// The file exists and cannot be read.
    Unreadable(String),
    /// The file is not the shell's host file format.
    NotAHostFile(String),
    /// No configuration directory is known, so there is nowhere to record a host.
    NoConfigDir,
}

impl HostSources {
    /// The hosts the shell's own file records, in file order, given what reading it found. A
    /// file that does not exist, or no file at all, is an empty source, not a failure.
    pub fn own_hosts(&self, read: OwnFileRead) -> (r: Result<Vec<HostEntry>, HostFileError>)
        ensures
            self.own is None ==> (r matches Ok(v) && v.len() == 0),
            self.own is Some ==> match read {
                OwnFileRead::Missing => r matches Ok(v) && v.len() == 0,
                OwnFileRead::Unreadable(e) => r == Err::<Vec<HostEntry>, HostFileError>(HostFileError::Unreadable(e)),
                OwnFileRead::Malformed(e) => r == Err::<Vec<HostEntry>, HostFileError>(HostFileError::NotAHostFile(e)),
                OwnFileRead::Hosts(hosts) => r == Ok::<Vec<HostEntry>, HostFileError>(hosts),
            },
    {
        if self.own.is_none() {
            return Ok(Vec::new());
        }
        match read {
            OwnFileRead::Missing => Ok(Vec::new()),
            OwnFileRead::Unreadable(e) => Err(HostFileError::Unreadable(e)),
            OwnFileRead::Malformed(e) => Err(HostFileError::NotAHostFile(e)),
            OwnFileRead::Hosts(hosts) => Ok(hosts),
        }
    }

    /// The `Host` entries of the OpenSSH client configuration, in file order, given what
    /// reading it found. A missing file, or none, is an empty source.
    pub fn ssh_hosts(&self, read: HostFileRead) -> (r: Result<Vec<HostEntry>, HostFileError>)
        ensures
            self.ssh_config is None ==> (r matches Ok(v) && v.len() == 0),
            self.ssh_config is Some ==> match read {
                HostFileRead::Missing => r matches Ok(v) && v.len() == 0,
                HostFileRead::Unreadable(e) => r == Err::<Vec<HostEntry>, HostFileError>(HostFileError::Unreadable(e)),
                HostFileRead::Text(t) => r matches Ok(v) && v@.map_values(|e: HostEntry| e@) == ssh_config_entries(t@),
            },
    {
        if self.ssh_config.is_none() {
            return Ok(Vec::new());
        }
        match read {
            HostFileRead::Missing => Ok(Vec::new()),
            HostFileRead::Unreadable(e) => Err(HostFileError::Unreadable(e)),
            HostFileRead::Text(t) => Ok(parse_ssh_config(t.as_str())),
        }
    }

    /// Where the shell's own host file is rewritten: nowhere when no configuration directory is
    /// known.
    pub fn own_target(&self) -> (r: Result<String, HostFileError>)
        ensures
            match self.own {
                Some(p) => r matches Ok(t) && t@ == p@,
                None => r == Err::<String, HostFileError>(HostFileError::NoConfigDir),
            },
    {
        match &self.own {
            Some(p) => Ok(p.as_str().to_owned()),
            None => Err(HostFileError::NoConfigDir),
        }
    }
}

// --- the OpenSSH client configuration ----------------------------------------------------------

/// A character that ends an OpenSSH keyword: `=`, a space or a tab.
pub open spec fn is_keyword_end(c: char) -> bool {
    c == '=' || c == ' ' || c == '\t'
}

/// The first index at or after `i` that ends a keyword.
pub open spec fn first_keyword_end(v: Seq<char>, i: int) -> Option<int>
    decreases v.len() - i,
{
    if i < 0 || i >= v.len() {
        None
    } else if is_keyword_end(v[i]) {
        Some(i)
    } else {
        first_keyword_end(v, i + 1)
    }
}

/// `v` without its leading keyword-ending characters.
pub open spec fn skip_keyword_ends(v: Seq<char>) -> Seq<char>
    decreases v.len(),
{
    if v.len() > 0 && is_keyword_end(v[0]) {
        skip_keyword_ends(v.drop_first())
    } else {
        v
    }
}

/// A trimmed line split into its keyword and its argument text.
pub open spec fn keyword_and_rest(line: Seq<char>) -> (Seq<char>, Seq<char>) {
    match first_keyword_end(line, 0) {
        Some(k) => (trimmed(line.take(k)), trimmed(skip_keyword_ends(line.skip(k + 1)))),
        None => (line, seq![]),
    }
}

/// The value of a run of ASCII digits.
pub open spec fn digits_value(d: Seq<char>) -> int
    decreases d.len(),
{
    if d.len() == 0 {
        0
    } else {
        digits_value(d.drop_last()) * 10 + ((d.last() as u32) - ('0' as u32))
    }
}

/// `u16`'s reading of a decimal text: an optional `+`, then one or more digits, for a value
/// that fits.
pub open spec fn parse_u16_spec(s: Seq<char>) -> Option<u16> {
    if unsigned_digits(s).len() > 0 && all_digits(unsigned_digits(s)) && digits_value(
        unsigned_digits(s),
    ) <= 65535 {
        Some(digits_value(unsigned_digits(s)) as u16)
    } else {
        None
    }
}

/// The text without the one `+` it may begin with.
pub open spec fn unsigned_digits(s: Seq<char>) -> Seq<char> {
    if s.len() > 0 && s[0] == '+' {
        s.drop_first()
    } else {
        s
    }
}

/// Every character is an ASCII digit.
pub open spec fn all_digits(d: Seq<char>) -> bool {
    forall|i: int| 0 <= i < d.len() ==> crate::text::is_ascii_digit(#[trigger] d[i])
}

proof fn lemma_digits_value_nonneg(d: Seq<char>)
    requires
        forall|i: int| 0 <= i < d.len() ==> crate::text::is_ascii_digit(#[trigger] d[i]),
    ensures
        digits_value(d) >= 0,
    decreases d.len(),
{
    if d.len() > 0 {
        lemma_digits_value_nonneg(d.drop_last());
    }
}

/// Reads a port number.
pub fn parse_u16(s: &[char]) -> (r: Option<u16>)
    ensures
        r == parse_u16_spec(s@),
{
    let start: usize = if s.len() > 0 && s[0] == '+' {
        1
    } else {
        0
    };
    let ghost d = unsigned_digits(s@);
    assert(d =~= s@.skip(start as int));
    if start >= s.len() {
        return None;
    }
    let mut value: u32 = 0;
    let mut i: usize = start;
    while i < s.len()
        invariant
            start <= i <= s.len(),
            d == s@.skip(start as int),
            d == unsigned_digits(s@),
            forall|j: int| 0 <= j < i - start ==> crate::text::is_ascii_digit(#[trigger] d[j]),
            value as int == digits_value(d.take(i - start)),
            value <= 65535,
        decreases s.len() - i,
    {
        let c = s[i];
        assert(d[i - start] == c);
        if !('0' <= c && c <= '9') {
            assert(!crate::text::is_ascii_digit(d[i - start]));
            assert(!all_digits(d));
            return None;
        }
        let digit = (c as u32) - ('0' as u32);
        assert(d.take(i - start + 1).drop_last() =~= d.take(i - start));
        assert(d.take(i - start + 1).last() == c);
        let next = value * 10 + digit;
        assert(next as int == digits_value(d.take(i - start + 1)));
        i = i + 1;
        if next > 65535 {
            proof {
                assert forall|j: int| 0 <= j < i - start implies crate::text::is_ascii_digit(
                    #[trigger] d[j],
                ) by {}
                lemma_digits_grow(d, i - start);
            }
            assert(parse_u16_spec(s@) is None);
            return None;
        }
        value = next;
    }
    assert(d.take(s.len() - start) =~= d);
    Some(value as u16)
}

proof fn lemma_digits_grow(d: Seq<char>, k: int)
    requires
        0 <= k <= d.len(),
        forall|j: int| 0 <= j < k ==> crate::text::is_ascii_digit(#[trigger] d[j]),
        digits_value(d.take(k)) > 65535,
    ensures
        !all_digits(d) || digits_value(d) > 65535,
    decreases d.len() - k,
{
    if k < d.len() {
        if crate::text::is_ascii_digit(d[k]) {
            assert(d.take(k + 1).drop_last() =~= d.take(k));
            lemma_digits_grow(d, k + 1);
        }
    } else {
        assert(d.take(k) =~= d);
    }
}

/// Whether a host word names a class of hosts rather than one: a `*`, a `?` or a negation.
pub open spec fn is_host_pattern(word: Seq<char>) -> bool {
    word.contains('*') || word.contains('?') || word.contains('!')
}

/// The entries and the indices the current `Host` line opened, as a configuration is read.
pub struct SshState {
    pub entries: Seq<HostEntryView>,
    pub current: Seq<int>,
}

/// The `Host` line's entries appended, one per literal word in order.
pub open spec fn open_hosts(state: SshState, patterns: Seq<Seq<char>>) -> SshState
    decreases patterns.len(),
{
    if patterns.len() == 0 {
        state
    } else {
        let last = patterns.last();
        let before = open_hosts(state, patterns.drop_last());
        if is_host_pattern(last) {
            before
        } else {
            SshState {
                entries: before.entries.push(named_view(last)),
                current: before.current.push(before.entries.len() as int),
            }
        }
    }
}

/// Which field a keyword sets.
pub enum HostField {
    Address(Seq<char>),
    Port(Option<u16>),
    User(Seq<char>),
}

/// `entry` with `field` set.
pub open spec fn with_field(entry: HostEntryView, field: HostField) -> HostEntryView {
    match field {
        HostField::Address(a) => HostEntryView { address: Some(a), ..entry },
        HostField::Port(p) => HostEntryView { port: p, ..entry },
        HostField::User(u) => HostEntryView { user: Some(u), ..entry },
    }
}

/// Every entry the current `Host` line opened, with `field` set.
pub open spec fn set_current(state: SshState, field: HostField) -> SshState {
    SshState {
        entries: Seq::new(
            state.entries.len(),
            |i: int|
                if state.current.contains(i) {
                    with_field(state.entries[i], field)
                } else {
                    state.entries[i]
                },
        ),
        current: state.current,
    }
}

/// One line of an OpenSSH client configuration, read.
pub open spec fn ssh_step(state: SshState, raw: Seq<char>) -> SshState {
    let line = trimmed(raw);
    if line.len() == 0 || line[0] == '#' {
        state
    } else {
        let (keyword, rest) = keyword_and_rest(line);
        let lower = ascii_lowercase(keyword);
        if lower == "host"@ {
            open_hosts(SshState { entries: state.entries, current: seq![] }, words(rest))
        } else if lower == "match"@ {
            SshState { entries: state.entries, current: seq![] }
        } else if lower == "hostname"@ {
            set_current(state, HostField::Address(rest))
        } else if lower == "port"@ {
            set_current(state, HostField::Port(parse_u16_spec(rest)))
        } else if lower == "user"@ {
            set_current(state, HostField::User(rest))
        } else {
            state
        }
    }
}

/// The configuration read line by line.
pub open spec fn ssh_lines(lines: Seq<Seq<char>>) -> SshState
    decreases lines.len(),
{
    if lines.len() == 0 {
        SshState { entries: seq![], current: seq![] }
    } else {
        ssh_step(ssh_lines(lines.drop_last()), lines.last())
    }
}

/// The `Host` entries an OpenSSH client configuration names.
///
/// Lines are taken between newlines; each is trimmed, so a `\r` before a newline and a final
/// newline change nothing, exactly as reading by `str::lines` would.
pub open spec fn ssh_config_entries(text: Seq<char>) -> Seq<HostEntryView> {
    ssh_lines(crate::text::split_on(text, '\n')).entries
}

/// Every index of `current` names one of `count` entries.
pub open spec fn indices_ok(count: int, current: Seq<int>) -> bool {
    forall|i: int| 0 <= i < current.len() ==> 0 <= #[trigger] current[i] < count
}

/// Sets `field` on every entry `current` names.
fn apply_field(
    entries: &mut Vec<HostEntry>,
    current: &Vec<usize>,
    address: Option<&Vec<char>>,
    port: Option<Option<u16>>,
    user: Option<&Vec<char>>,
    ghost_field: Ghost<HostField>,
)
    requires
        forall|i: int| 0 <= i < current.len() ==> #[trigger] current@[i] < old(entries).len(),
        match ghost_field@ {
            HostField::Address(a) => address matches Some(v) && v@ == a && port is None && user is None,
            HostField::Port(p) => port == Some(p) && address is None && user is None,
            HostField::User(u) => user matches Some(v) && v@ == u && port is None && address is None,
        },
    ensures
        final(entries).len() == old(entries).len(),
        final(entries)@.map_values(|e: HostEntry| e@) == set_current(
            SshState { entries: old(entries)@.map_values(|e: HostEntry| e@), current: current@.map_values(|i: usize| i as int) },
            ghost_field@,
        ).entries,
{
    let ghost start = old(entries)@.map_values(|e: HostEntry| e@);
    let ghost cur = current@.map_values(|i: usize| i as int);
    let mut k: usize = 0;
    while k < current.len()
        invariant
            k <= current.len(),
            entries@.len() == start.len(),
            cur == current@.map_values(|i: usize| i as int),
            start.len() == old(entries)@.len(),
            forall|i: int| 0 <= i < current.len() ==> #[trigger] current@[i] < start.len(),
            match ghost_field@ {
                HostField::Address(a) => address matches Some(v) && v@ == a && port is None && user is None,
                HostField::Port(p) => port == Some(p) && address is None && user is None,
                HostField::User(u) => user matches Some(v) && v@ == u && port is None && address is None,
            },
            forall|i: int|
                0 <= i < start.len() ==> #[trigger] entries@[i]@ == if cur.take(k as int).contains(i) {
                    with_field(start[i], ghost_field@)
                } else {
                    start[i]
                },
        decreases current.len() - k,
    {
        let index = current[k];
        assert(cur[k as int] == index as int);
        assert(index < entries.len());
        let old_entry = &entries[index];
        let ghost was = entries@[index as int]@;
        let updated = HostEntry {
            name: copy_string(&old_entry.name),
            address: match address {
                Some(a) => Some(string_of(a.as_slice())),
                None => copy_opt(&old_entry.address),
            },
            port: match port {
                Some(p) => p,
                None => old_entry.port,
            },
            user: match user {
                Some(u) => Some(string_of(u.as_slice())),
                None => copy_opt(&old_entry.user),
            },
        };
        proof {
            assert(updated@ == with_field(start[index as int], ghost_field@)) by {
                if cur.take(k as int).contains(index as int) {
                    let w = choose|w: int| 0 <= w < k && #[trigger] cur.take(k as int)[w] == index as int;
                    assert(cur.take(k as int)[w] == index as int);
                    assert(was == with_field(start[index as int], ghost_field@));
                } else {
                    assert(was == start[index as int]);
                }
            }
        }
        entries.set(index, updated);
        k = k + 1;
        proof {
            assert forall|i: int| 0 <= i < start.len() implies #[trigger] entries@[i]@ == if cur.take(
                k as int,
            ).contains(i) {
                with_field(start[i], ghost_field@)
            } else {
                start[i]
            } by {
                if cur.take(k as int).contains(i) && i != index as int {
                    let w = choose|w: int| 0 <= w < k && #[trigger] cur.take(k as int)[w] == i;
                    assert(cur.take(k - 1)[w] == i);
                }
                if cur.take(k - 1).contains(i) {
                    let w = choose|w: int| 0 <= w < k - 1 && #[trigger] cur.take(k - 1)[w] == i;
                    assert(cur.take(k as int)[w] == i);
                }
                if i == index as int {
                    assert(cur.take(k as int)[k - 1] == i);
                }
            }
        }
    }
    assert(cur.take(current.len() as int) =~= cur);
    assert(entries@.map_values(|e: HostEntry| e@) =~= set_current(
        SshState { entries: start, current: cur },
        ghost_field@,
    ).entries);
}

proof fn lemma_skip_keyword_ends(v: Seq<char>, j: int)
    requires
        0 <= j <= v.len(),
        forall|i: int| 0 <= i < j ==> is_keyword_end(#[trigger] v[i]),
    ensures
        skip_keyword_ends(v) == skip_keyword_ends(v.skip(j)),
    decreases j,
{
    if j > 0 {
        assert(v.drop_first().skip(j - 1) =~= v.skip(j));
        lemma_skip_keyword_ends(v.drop_first(), j - 1);
    } else {
        assert(v.skip(0) =~= v);
    }
}

/// Splits a trimmed line into its keyword and its argument text, at the first `=`, space or tab.
fn split_keyword(line: &[char]) -> (r: (Vec<char>, Vec<char>))
    ensures
        (r.0@, r.1@) == keyword_and_rest(line@),
{
    let mut k: usize = 0;
    while k < line.len() && !(line[k] == '=' || line[k] == ' ' || line[k] == '\t')
        invariant
            k <= line.len(),
            first_keyword_end(line@, 0) == first_keyword_end(line@, k as int),
        decreases line.len() - k,
    {
        k = k + 1;
    }
    if k == line.len() {
        return (copy_chars(line), Vec::new());
    }
    let keyword = trim(crate::text::prefix_to(line, k).as_slice());
    let after = crate::text::suffix_from(line, k + 1);
    let mut j: usize = 0;
    while j < after.len() && (after[j] == '=' || after[j] == ' ' || after[j] == '\t')
        invariant
            j <= after.len(),
            forall|i: int| 0 <= i < j ==> is_keyword_end(#[trigger] after@[i]),
        decreases after.len() - j,
    {
        j = j + 1;
    }
    proof {
        lemma_skip_keyword_ends(after@, j as int);
    }
    let rest = crate::text::suffix_from(after.as_slice(), j);
    assert(skip_keyword_ends(rest@) == rest@);
    (keyword, trim(rest.as_slice()))
}

/// The `Host` blocks of an OpenSSH client configuration.
///
/// Only the keywords that say where a host is are read — `HostName`, `Port`, `User` — and only
/// for literal host names: a pattern (`*`, `?`, a negation) names a class of hosts, not one.
/// `Match` blocks end the current `Host` block and are otherwise skipped, and `Include` is not
/// followed.
pub fn parse_ssh_config(text: &str) -> (r: Vec<HostEntry>)
    ensures
        r@.map_values(|e: HostEntry| e@) == ssh_config_entries(text@),
{
    let all = chars_of(text);
    let lines = split(all.as_slice(), '\n');
    let ghost line_views = lines@.map_values(|p: Vec<char>| p@);
    let mut entries: Vec<HostEntry> = Vec::new();
    let mut current: Vec<usize> = Vec::new();
    let mut n: usize = 0;
    assert(line_views.take(0) =~= seq![]);
    assert(entries@.map_values(|e: HostEntry| e@) =~= seq![]);
    assert(current@.map_values(|i: usize| i as int) =~= seq![]);
    while n < lines.len()
        invariant
            n <= lines.len(),
            line_views == lines@.map_values(|p: Vec<char>| p@),
            line_views == crate::text::split_on(text@, '\n'),
            ssh_lines(line_views.take(n as int)).entries == entries@.map_values(|e: HostEntry| e@),
            ssh_lines(line_views.take(n as int)).current == current@.map_values(|i: usize| i as int),
            forall|i: int| 0 <= i < current.len() ==> #[trigger] current@[i] < entries.len(),
        decreases lines.len() - n,
    {
        assert(line_views.take(n + 1).drop_last() =~= line_views.take(n as int));
        let ghost before = ssh_lines(line_views.take(n as int));
        let line = trim(lines[n].as_slice());
        n = n + 1;
        if line.len() == 0 || line[0] == '#' {
            continue;
        }
        let (keyword, rest) = split_keyword(line.as_slice());
        let lower = crate::text::to_ascii_lowercase(keyword.as_slice());
        if eq_str(lower.as_slice(), "host") {
            current = Vec::new();
            assert(current@.map_values(|i: usize| i as int) =~= seq![]);
            let patterns = split_words(rest.as_slice());
            let ghost pats = patterns@.map_values(|p: Vec<char>| p@);
            let mut w: usize = 0;
            assert(pats.take(0) =~= seq![]);
            while w < patterns.len()
                invariant
                    w <= patterns.len(),
                    pats == patterns@.map_values(|p: Vec<char>| p@),
                    open_hosts(SshState { entries: before.entries, current: seq![] }, pats.take(w as int)).entries == entries@.map_values(|e: HostEntry| e@),
                    open_hosts(SshState { entries: before.entries, current: seq![] }, pats.take(w as int)).current == current@.map_values(|i: usize| i as int),
                    forall|i: int| 0 <= i < current.len() ==> #[trigger] current@[i] < entries.len(),
                decreases patterns.len() - w,
            {
                assert(pats.take(w + 1).drop_last() =~= pats.take(w as int));
                let pattern = &patterns[w];
                let skip = crate::text::contains_char(pattern.as_slice(), '*')
                    || crate::text::contains_char(pattern.as_slice(), '?')
                    || crate::text::contains_char(pattern.as_slice(), '!');
                assert(skip == is_host_pattern(pats[w as int]));
                if !skip {
                    let ghost prev_entries = entries@.map_values(|e: HostEntry| e@);
                    let ghost prev_current = current@.map_values(|i: usize| i as int);
                    current.push(entries.len());
                    let name = string_of(pattern.as_slice());
                    let entry = HostEntry { name, address: None, port: None, user: None };
                    assert(entry@ == named_view(pats[w as int]));
                    entries.push(entry);
                    assert(entries@.map_values(|e: HostEntry| e@) =~= prev_entries.push(named_view(pats[w as int])));
                    assert(current@.map_values(|i: usize| i as int) =~= prev_current.push(prev_entries.len() as int));
                }
                w = w + 1;
            }
            assert(pats.take(patterns.len() as int) =~= pats);
        } else if eq_str(lower.as_slice(), "match") {
            current = Vec::new();
            assert(current@.map_values(|i: usize| i as int) =~= seq![]);
        } else if eq_str(lower.as_slice(), "hostname") {
            apply_field(&mut entries, &current, Some(&rest), None, None, Ghost(HostField::Address(rest@)));
        } else if eq_str(lower.as_slice(), "port") {
            let port = parse_u16(rest.as_slice());
            apply_field(&mut entries, &current, None, Some(port), None, Ghost(HostField::Port(port)));
        } else if eq_str(lower.as_slice(), "user") {
            apply_field(&mut entries, &current, None, None, Some(&rest), Ghost(HostField::User(rest@)));
        }
    }
    assert(line_views.take(lines.len() as int) =~= line_views);
    entries
}

// --- laws --------------------------------------------------------------------------------------

/// Every entry names one host: a non-empty name that is no pattern.
pub open spec fn literal_names(entries: Seq<HostEntryView>) -> bool {
    forall|i: int| 0 <= i < entries.len() ==> (#[trigger] entries[i]).name.len() > 0 && !is_host_pattern(entries[i].name)
}

proof fn lemma_words_nonempty(v: Seq<char>, i: int, cur: Seq<char>)
    requires
        0 <= i,
    ensures
        forall|k: int| 0 <= k < crate::text::words_from(v, i, cur).len() ==> (#[trigger] crate::text::words_from(v, i, cur)[k]).len() > 0,
    decreases v.len() - i,
{
    let w = crate::text::words_from(v, i, cur);
    let head: Seq<Seq<char>> = if cur.len() > 0 { seq![cur] } else { seq![] };
    if i >= v.len() {
        assert(w == head);
    } else if crate::text::is_ws(v[i]) {
        lemma_words_nonempty(v, i + 1, seq![]);
        let rest = crate::text::words_from(v, i + 1, seq![]);
        assert(w == head + rest);
        assert forall|k: int| 0 <= k < w.len() implies (#[trigger] w[k]).len() > 0 by {
            if k >= head.len() {
                assert(w[k] == rest[k - head.len()]);
            } else {
                assert(w[k] == cur);
            }
        }
    } else {
        lemma_words_nonempty(v, i + 1, cur.push(v[i]));
        assert(w == crate::text::words_from(v, i + 1, cur.push(v[i])));
    }
}

proof fn lemma_open_hosts_literal(state: SshState, patterns: Seq<Seq<char>>)
    requires
        literal_names(state.entries),
        forall|k: int| 0 <= k < patterns.len() ==> (#[trigger] patterns[k]).len() > 0,
    ensures
        literal_names(open_hosts(state, patterns).entries),
    decreases patterns.len(),
{
    if patterns.len() > 0 {
        let front = patterns.drop_last();
        assert forall|k: int| 0 <= k < front.len() implies (#[trigger] front[k]).len() > 0 by {
            assert(front[k] == patterns[k]);
        }
        lemma_open_hosts_literal(state, front);
        assert(patterns.last() == patterns[patterns.len() - 1]);
    }
}

proof fn lemma_ssh_lines_literal(lines: Seq<Seq<char>>)
    ensures
        literal_names(ssh_lines(lines).entries),
    decreases lines.len(),
{
    if lines.len() > 0 {
        lemma_ssh_lines_literal(lines.drop_last());
        let state = ssh_lines(lines.drop_last());
        let line = trimmed(lines.last());
        if !(line.len() == 0 || line[0] == '#') {
            let (keyword, rest) = keyword_and_rest(line);
            lemma_words_nonempty(rest, 0, seq![]);
            lemma_open_hosts_literal(SshState { entries: state.entries, current: seq![] }, words(rest));
            let f1 = HostField::Address(rest);
            let f2 = HostField::Port(parse_u16_spec(rest));
            let f3 = HostField::User(rest);
            assert(literal_names(set_current(state, f1).entries));
            assert(literal_names(set_current(state, f2).entries));
            assert(literal_names(set_current(state, f3).entries));
        }
    }
}

/// The hosts an OpenSSH client configuration yields are hosts, not classes of them: every
/// entry has a non-empty name holding no `*`, `?` or `!`.
pub proof fn law_ssh_hosts_are_literal(text: Seq<char>)
    ensures
        literal_names(ssh_config_entries(text)),
{
    lemma_ssh_lines_literal(crate::text::split_on(text, '\n'));
}

/// The names of some entries, in order.
pub open spec fn entry_names(entries: Seq<HostEntryView>) -> Seq<Seq<char>> {
    entries.map_values(|e: HostEntryView| e.name)
}

/// The host names one line contributes: the words after a `Host` keyword, in any case, that are
/// no pattern; nothing for any other line, an empty one or a comment.
pub open spec fn host_line_names(raw: Seq<char>) -> Seq<Seq<char>> {
    let line = trimmed(raw);
    if line.len() == 0 || line[0] == '#' {
        seq![]
    } else {
        let (keyword, rest) = keyword_and_rest(line);
        if ascii_lowercase(keyword) == "host"@ {
            words(rest).filter(|w: Seq<char>| !is_host_pattern(w))
        } else {
            seq![]
        }
    }
}

/// The host names of the lines, line by line in order.
pub open spec fn host_names(lines: Seq<Seq<char>>) -> Seq<Seq<char>>
    decreases lines.len(),
{
    if lines.len() == 0 {
        seq![]
    } else {
        host_names(lines.drop_last()) + host_line_names(lines.last())
    }
}

proof fn lemma_open_hosts_names(state: SshState, patterns: Seq<Seq<char>>)
    ensures
        entry_names(open_hosts(state, patterns).entries) == entry_names(state.entries) + patterns.filter(
            |w: Seq<char>| !is_host_pattern(w),
        ),
    decreases patterns.len(),
{
    reveal(Seq::filter);
    let keep = |w: Seq<char>| !is_host_pattern(w);
    if patterns.len() == 0 {
        assert(entry_names(state.entries) + patterns.filter(keep) =~= entry_names(state.entries));
    } else {
        lemma_open_hosts_names(state, patterns.drop_last());
        let before = open_hosts(state, patterns.drop_last());
        if !is_host_pattern(patterns.last()) {
            assert(entry_names(before.entries.push(named_view(patterns.last()))) =~= entry_names(before.entries).push(
                patterns.last(),
            ));
            assert(entry_names(state.entries) + patterns.drop_last().filter(keep).push(patterns.last()) =~= (entry_names(
                state.entries,
            ) + patterns.drop_last().filter(keep)).push(patterns.last()));
        }
    }
}

proof fn lemma_ssh_lines_names(lines: Seq<Seq<char>>)
    ensures
        entry_names(ssh_lines(lines).entries) == host_names(lines),
    decreases lines.len(),
{
    if lines.len() > 0 {
        lemma_ssh_lines_names(lines.drop_last());
        let state = ssh_lines(lines.drop_last());
        let line = trimmed(lines.last());
        if line.len() == 0 || line[0] == '#' {
            assert(host_names(lines) =~= host_names(lines.drop_last()));
        } else {
            let (keyword, rest) = keyword_and_rest(line);
            let lower = ascii_lowercase(keyword);
            if lower == "host"@ {
                lemma_open_hosts_names(SshState { entries: state.entries, current: seq![] }, words(rest));
            } else {
                assert(host_names(lines) =~= host_names(lines.drop_last()));
                let f1 = HostField::Address(rest);
                let f2 = HostField::Port(parse_u16_spec(rest));
                let f3 = HostField::User(rest);
                assert(entry_names(set_current(state, f1).entries) =~= entry_names(state.entries));
                assert(entry_names(set_current(state, f2).entries) =~= entry_names(state.entries));
                assert(entry_names(set_current(state, f3).entries) =~= entry_names(state.entries));
            }
        }
    }
}

/// The hosts an OpenSSH client configuration yields are named, in file order, by the words after
/// each `Host` keyword, in any case, less the patterns (words with `*`, `?` or `!`); an empty
/// line, a comment and every other keyword name none.
pub proof fn law_ssh_host_names(text: Seq<char>)
    ensures
        entry_names(ssh_config_entries(text)) == host_names(crate::text::split_on(text, '\n')),
{
    lemma_ssh_lines_names(crate::text::split_on(text, '\n'));
}

} // verus!
