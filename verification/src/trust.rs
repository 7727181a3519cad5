//! Whose keys this machine accepts.
//!
//! Publisher trust is a different question from "did a key sign these bytes", and its answer
//! lives somewhere a package cannot reach: two stores outside the plugin home, one the machine's
//! administrator writes and one the operator writes. A valid signature from a key that is in
//! neither is `unknown`, never trusted — the signature proves who signed, not whether to care.

use vstd::prelude::*;

use crate::hosts::{opt_view, path_join};
use crate::text::{chars_of, eq_str, string_of};

verus! {

/// The file both stores are called.
pub const TRUST_FILE: &'static str = "trust.yaml";

/// The `format:` line a trust store opens with.
pub const TRUST_FORMAT: &'static str = "kuang-trust/1";

/// Where the system-wide store lives when the environment names no other.
pub const SYSTEM_TRUST_PATH: &'static str = "/etc/ono/kuang/trust.yaml";

/// Which store an entry came from — a machine-wide decision or the operator's own.
#[derive(Debug, Clone, Copy, PartialEq, Eq, Structural)]
pub enum Origin {
    /// `/etc/ono/kuang/trust.yaml`: whoever administers the machine.
    System,
    /// The operator's configuration directory.
    User,
}

/// What a store says about one key.
#[derive(Debug, Clone, Copy, PartialEq, Eq, Structural)]
pub enum Standing {
    /// Accepted.
    Trusted,
    /// Accepted once and no longer. A positive statement, not an absence.
    Revoked,
}

/// The answer to "do I trust that key or publisher?", in the vocabulary
/// `ono.verification-result/1` declares.
#[derive(Debug, Clone, Copy, PartialEq, Eq, Structural)]
pub enum Trust {
    /// The key is trusted machine-wide.
    SystemTrusted,
    /// The key is trusted by this operator.
    UserTrusted,
    /// The key is revoked in a store. This blocks.
    Untrusted,
    /// No store says anything about the key, or there is no key to ask about.
    Unknown,
}

/// The word a trust answer is written as.
pub open spec fn trust_name(t: Trust) -> Seq<char> {
    match t {
        Trust::SystemTrusted => "system-trusted"@,
        Trust::UserTrusted => "user-trusted"@,
        Trust::Untrusted => "untrusted"@,
        Trust::Unknown => "unknown"@,
    }
}

impl Trust {
    /// The word `ono.verification-result/1.trust` carries.
    pub fn name(self) -> (r: &'static str)
        ensures
            r@ == trust_name(self),
    {
        match self {
            Trust::SystemTrusted => "system-trusted",
            Trust::UserTrusted => "user-trusted",
            Trust::Untrusted => "untrusted",
            Trust::Unknown => "unknown",
        }
    }

    /// Whether this answer prevents installing and loading.
    pub fn blocks(self) -> (r: bool)
        ensures
            r == (self == Trust::Untrusted),
    {
        matches!(self, Trust::Untrusted)
    }
}

/// One enrolled key.
#[derive(Debug, Clone)]
pub struct TrustEntry {
    /// Which store enrolled it.
    pub origin: Origin,
    /// The publisher the key signs for.
    pub publisher: String,
    /// The key, in its written form (`ed25519:…`).
    pub key: String,
    /// Trusted or revoked.
    pub standing: Standing,
}

/// An enrolled key as plain values.
pub struct EntryView {
    pub origin: Origin,
    pub publisher: Seq<char>,
    pub key: Seq<char>,
    pub standing: Standing,
}

impl View for TrustEntry {
    type V = EntryView;

    open spec fn view(&self) -> EntryView {
        EntryView {
            origin: self.origin,
            publisher: self.publisher@,
            key: self.key@,
            standing: self.standing,
        }
    }
}

/// The keys this machine accepts, system store first.
#[derive(Debug, Clone, Default)]
pub struct TrustStore {
    entries: Vec<TrustEntry>,
}

impl View for TrustStore {
    type V = Seq<EntryView>;

    closed spec fn view(&self) -> Seq<EntryView> {
        self.entries@.map_values(|e: TrustEntry| e@)
    }
}

/// Whether an entry enrolls `key` for `publisher`.
pub open spec fn enrolls(e: EntryView, publisher: Seq<char>, key: Seq<char>) -> bool {
    e.publisher == publisher && e.key == key
}

/// Whether some entry enrolls `key` for `publisher` from `origin` (any, when `None`) with
/// `standing`.
pub open spec fn says(
    entries: Seq<EntryView>,
    publisher: Seq<char>,
    key: Seq<char>,
    origin: Option<Origin>,
    standing: Standing,
) -> bool {
    exists|i: int|
        0 <= i < entries.len() && enrolls(#[trigger] entries[i], publisher, key)
            && entries[i].standing == standing && (origin matches Some(o) ==> entries[i].origin
            == o)
}

/// What the stores say about `key` signing for `publisher`: a revocation anywhere, else the
/// machine's trust, else the operator's, else nothing.
pub open spec fn judge_spec(entries: Seq<EntryView>, publisher: Seq<char>, key: Seq<char>) -> Trust {
    if says(entries, publisher, key, None, Standing::Revoked) {
        Trust::Untrusted
    } else if says(entries, publisher, key, Some(Origin::System), Standing::Trusted) {
        Trust::SystemTrusted
    } else if says(entries, publisher, key, Some(Origin::User), Standing::Trusted) {
        Trust::UserTrusted
    } else {
        Trust::Unknown
    }
}

impl TrustStore {
    /// A store holding `system`'s keys, then `user`'s.
    pub fn new(system: Vec<TrustEntry>, user: Vec<TrustEntry>) -> (r: Self)
        ensures
            r@ == system@.map_values(|e: TrustEntry| e@) + user@.map_values(|e: TrustEntry| e@),
    {
        let mut entries = system;
        let mut user = user;
        let ghost a = entries@;
        let ghost b = user@;
        entries.append(&mut user);
        assert(entries@.map_values(|e: TrustEntry| e@) =~= a.map_values(|e: TrustEntry| e@)
            + b.map_values(|e: TrustEntry| e@));
        TrustStore { entries }
    }

    /// The stores read, system first: the entries of each store that read, and the problem of
    /// each that did not — a store that does not read is shown, never treated as empty.
    pub fn combine(
        system: Result<Vec<TrustEntry>, TrustStoreError>,
        user: Result<Vec<TrustEntry>, TrustStoreError>,
    ) -> (r: (Self, Vec<TrustStoreError>))
        ensures
            r.0@ == (match system {
                Ok(v) => v@.map_values(|e: TrustEntry| e@),
                Err(_) => seq![],
            }) + (match user {
                Ok(v) => v@.map_values(|e: TrustEntry| e@),
                Err(_) => seq![],
            }),
            r.1@ == (match system {
                Ok(_) => seq![],
                Err(e) => seq![e],
            }) + (match user {
                Ok(_) => seq![],
                Err(e) => seq![e],
            }),
    {
        let mut problems: Vec<TrustStoreError> = Vec::new();
        let from_system = match system {
            Ok(v) => v,
            Err(e) => {
                problems.push(e);
                let none: Vec<TrustEntry> = Vec::new();
                assert(none@.map_values(|e: TrustEntry| e@) =~= seq![]);
                none
            },
        };
        let from_user = match user {
            Ok(v) => v,
            Err(e) => {
                problems.push(e);
                let none: Vec<TrustEntry> = Vec::new();
                assert(none@.map_values(|e: TrustEntry| e@) =~= seq![]);
                none
            },
        };
        assert(problems@ =~= (match system {
            Ok(_) => seq![],
            Err(e) => seq![e],
        }) + (match user {
            Ok(_) => seq![],
            Err(e) => seq![e],
        }));
        let store = TrustStore::new(from_system, from_user);
        (store, problems)
    }

    /// Whether some entry enrolls `key` for `publisher`, from `origin` when given, with
    /// `standing`.
    fn any_says(&self, publisher: &[char], key: &[char], origin: Option<Origin>, standing: Standing) -> (r: bool)
        ensures
            r == says(self@, publisher@, key@, origin, standing),
    {
        let mut i: usize = 0;
        while i < self.entries.len()
            invariant
                i <= self.entries.len(),
                self@ == self.entries@.map_values(|e: TrustEntry| e@),
                forall|j: int|
                    0 <= j < i ==> !(enrolls(#[trigger] self@[j], publisher@, key@)
                        && self@[j].standing == standing && (origin matches Some(o)
                        ==> self@[j].origin == o)),
            decreases self.entries.len() - i,
        {
            let entry = &self.entries[i];
            let p = chars_of(entry.publisher.as_str());
            let k = chars_of(entry.key.as_str());
            let origin_ok = match origin {
                Some(o) => entry.origin == o,
                None => true,
            };
            assert(self@[i as int] == entry@);
            if crate::text::chars_eq(p.as_slice(), publisher) && crate::text::chars_eq(
                k.as_slice(),
                key,
            ) && entry.standing == standing && origin_ok {
                return true;
            }
            i = i + 1;
        }
        false
    }

    /// What the stores say about `key` signing for `publisher`.
    ///
    /// Both must match. A key enrolled for one publisher does not vouch for another, which is
    /// what stops one accepted key from covering every namespace. A revocation wins over a
    /// trust, wherever either was written.
    pub fn judge(&self, publisher: &str, key: &str) -> (r: Trust)
        ensures
            r == judge_spec(self@, publisher@, key@),
    {
        let p = chars_of(publisher);
        let k = chars_of(key);
        if self.any_says(p.as_slice(), k.as_slice(), None, Standing::Revoked) {
            return Trust::Untrusted;
        }
        if self.any_says(p.as_slice(), k.as_slice(), Some(Origin::System), Standing::Trusted) {
            Trust::SystemTrusted
        } else if self.any_says(p.as_slice(), k.as_slice(), Some(Origin::User), Standing::Trusted) {
            Trust::UserTrusted
        } else {
            Trust::Unknown
        }
    }

    /// How many keys are enrolled, over both stores.
    pub fn len(&self) -> (r: usize)
        ensures
            r == self@.len(),
    {
        self.entries.len()
    }

    /// Whether no store enrolls anything.
    pub fn is_empty(&self) -> (r: bool)
        ensures
            r == (self@.len() == 0),
    {
        self.entries.len() == 0
    }
}

// --- where the stores are, and what a store's text means ---------------------------------------

/// Where the machine-wide store is: the one the environment names, else the standard path.
pub fn system_path(named: Option<String>) -> (r: String)
    ensures
        r@ == match named {
            Some(n) => n@,
            None => SYSTEM_TRUST_PATH@,
        },
{
    match named {
        Some(n) => n,
        None => string_of(chars_of(SYSTEM_TRUST_PATH).as_slice()),
    }
}

/// Where the operator's store is, under the configuration directory.
pub fn user_path(config_dir: Option<String>) -> (r: Option<String>)
    ensures
        opt_view(r) == match opt_view(config_dir) {
            Some(d) => Some(path_join(path_join(d, "kuang"@), TRUST_FILE@)),
            None => None,
        },
{
    match config_dir {
        Some(dir) => {
            let kuang = crate::hosts::join_path(dir.as_str(), "kuang");
            Some(crate::hosts::join_path(kuang.as_str(), TRUST_FILE))
        },
        None => None,
    }
}

/// The standing a store line without a `trust:` word has: a key listed is a key trusted.
pub fn trusted_word() -> (r: String)
    ensures
        r@ == "trusted"@,
{
    "trusted".to_owned()
}

/// One line of a store, as written.
#[derive(Debug, Clone)]
pub struct RawTrustEntry {
    /// The publisher.
    pub publisher: String,
    /// The key.
    pub key: String,
    /// `trusted` or `revoked`.
    pub trust: String,
}

/// Why a store that exists is not read.
#[derive(Debug, Clone, PartialEq, Eq)]
pub enum TrustStoreError {
    /// The document does not parse as YAML of the store's shape.
    Unreadable(String),
    /// The `format:` line names another format.
    UnknownFormat(String),
    /// A key's `trust:` is neither `trusted` nor `revoked`.
    UnknownStanding(String),
}

/// What a store document's lines mean, checked: a `kuang-trust/1` store of `trusted` and
/// `revoked` keys.
pub open spec fn entries_spec(
    origin: Origin,
    format: Seq<char>,
    raw: Seq<(Seq<char>, Seq<char>, Seq<char>)>,
) -> Result<Seq<EntryView>, Seq<char>> {
    if format != TRUST_FORMAT@ {
        Err(format)
    } else if exists|i: int|
        0 <= i < raw.len() && (#[trigger] raw[i]).2 != "trusted"@ && raw[i].2 != "revoked"@ {
        Err(raw[choose|i: int| 0 <= i < raw.len() && (#[trigger] raw[i]).2 != "trusted"@ && raw[i].2 != "revoked"@].2)
    } else {
        Ok(
            raw.map_values(
                |r: (Seq<char>, Seq<char>, Seq<char>)|
                    EntryView {
                        origin,
                        publisher: r.0,
                        key: r.1,
                        standing: if r.2 == "trusted"@ {
                            Standing::Trusted
                        } else {
                            Standing::Revoked
                        },
                    },
            ),
        )
    }
}

/// The lines of a store as plain text.
pub open spec fn raw_view(raw: Seq<RawTrustEntry>) -> Seq<(Seq<char>, Seq<char>, Seq<char>)> {
    raw.map_values(|r: RawTrustEntry| (r.publisher@, r.key@, r.trust@))
}

/// The entries a store document enrolls, from the store at `origin`.
pub fn entries_of(origin: Origin, format: &str, raw: Vec<RawTrustEntry>) -> (r: Result<
    Vec<TrustEntry>,
    TrustStoreError,
>)
    ensures
        match r {
            Ok(v) => entries_spec(origin, format@, raw_view(raw@)) == Ok::<Seq<EntryView>, Seq<char>>(v@.map_values(|e: TrustEntry| e@)),
            Err(TrustStoreError::UnknownFormat(f)) => format@ != TRUST_FORMAT@ && f@ == format@,
            Err(TrustStoreError::UnknownStanding(w)) => format@ == TRUST_FORMAT@ && entries_spec(origin, format@, raw_view(raw@)) is Err && raw_view(raw@).map_values(|r: (Seq<char>, Seq<char>, Seq<char>)| r.2).contains(w@) && w@ != "trusted"@ && w@ != "revoked"@,
            Err(TrustStoreError::Unreadable(_)) => false,
        },
{
    let f = chars_of(format);
    if !eq_str(f.as_slice(), TRUST_FORMAT) {
        return Err(TrustStoreError::UnknownFormat(string_of(f.as_slice())));
    }
    let ghost rv = raw_view(raw@);
    let mut entries: Vec<TrustEntry> = Vec::new();
    let mut i: usize = 0;
    while i < raw.len()
        invariant
            i <= raw.len(),
            rv == raw_view(raw@),
            format@ == TRUST_FORMAT@,
            forall|j: int| 0 <= j < i ==> (#[trigger] rv[j]).2 == "trusted"@ || rv[j].2 == "revoked"@,
            entries@.map_values(|e: TrustEntry| e@) == rv.take(i as int).map_values(
                |r: (Seq<char>, Seq<char>, Seq<char>)|
                    EntryView {
                        origin,
                        publisher: r.0,
                        key: r.1,
                        standing: if r.2 == "trusted"@ {
                            Standing::Trusted
                        } else {
                            Standing::Revoked
                        },
                    },
            ),
        decreases raw.len() - i,
    {
        let line = &raw[i];
        let word = chars_of(line.trust.as_str());
        assert(rv[i as int].2 == word@);
        let standing = if eq_str(word.as_slice(), "trusted") {
            Standing::Trusted
        } else if eq_str(word.as_slice(), "revoked") {
            Standing::Revoked
        } else {
            proof {
                assert(raw_view(raw@).map_values(|r: (Seq<char>, Seq<char>, Seq<char>)| r.2)[i as int] == word@);
                assert(rv[i as int].2 != "trusted"@ && rv[i as int].2 != "revoked"@);
                assert(format@ == TRUST_FORMAT@);
                assert(entries_spec(origin, format@, rv) is Err);
            }
            return Err(TrustStoreError::UnknownStanding(string_of(word.as_slice())));
        };
        let ghost prev = entries@.map_values(|e: TrustEntry| e@);
        let entry = TrustEntry {
            origin,
            publisher: line.publisher.clone(),
            key: line.key.clone(),
            standing,
        };
        entries.push(entry);
        i = i + 1;
        assert(rv.take(i as int) =~= rv.take(i - 1).push(rv[i - 1]));
        assert(entries@.map_values(|e: TrustEntry| e@) =~= prev.push(entry@));
    }
    assert(rv.take(raw.len() as int) =~= rv);
    Ok(entries)
}


/// What reading a store's file found.
#[derive(Debug, Clone)]
pub enum TrustStoreRead {
    /// There is no file: the store enrols nothing.
    Missing,
    /// The file exists and could not be read.
    Unreadable(String),
    /// The file does not parse as a store document.
    Malformed(String),
    /// The document: its `format:` line and its key lines.
    Document { format: String, keys: Vec<RawTrustEntry> },
}

/// The entries of a store, from what reading its file found: a missing file enrols nothing, and a
/// file that exists but cannot be read or parsed is refused, never taken for an empty store.
pub fn store_entries(origin: Origin, read: TrustStoreRead) -> (r: Result<Vec<TrustEntry>, TrustStoreError>)
    ensures
        match read {
            TrustStoreRead::Missing => r matches Ok(v) && v.len() == 0,
            TrustStoreRead::Unreadable(reason) => r == Err::<Vec<TrustEntry>, TrustStoreError>(TrustStoreError::Unreadable(reason)),
            TrustStoreRead::Malformed(reason) => r == Err::<Vec<TrustEntry>, TrustStoreError>(TrustStoreError::Unreadable(reason)),
            TrustStoreRead::Document { format, keys } => match r {
                Ok(v) => entries_spec(origin, format@, raw_view(keys@)) == Ok::<Seq<EntryView>, Seq<char>>(v@.map_values(|e: TrustEntry| e@)),
                Err(TrustStoreError::UnknownFormat(f)) => format@ != TRUST_FORMAT@ && f@ == format@,
                Err(TrustStoreError::UnknownStanding(w)) => format@ == TRUST_FORMAT@ && entries_spec(origin, format@, raw_view(keys@)) is Err && raw_view(keys@).map_values(|r: (Seq<char>, Seq<char>, Seq<char>)| r.2).contains(w@) && w@ != "trusted"@ && w@ != "revoked"@,
                Err(TrustStoreError::Unreadable(_)) => false,
            },
        },
{
    match read {
        TrustStoreRead::Missing => Ok(Vec::new()),
        TrustStoreRead::Unreadable(reason) => Err(TrustStoreError::Unreadable(reason)),
        TrustStoreRead::Malformed(reason) => Err(TrustStoreError::Unreadable(reason)),
        TrustStoreRead::Document { format, keys } => entries_of(origin, format.as_str(), keys),
    }
}

// --- laws --------------------------------------------------------------------------------------

/// A revocation wins: when any store revokes a key for a publisher, the answer is `untrusted`
/// whatever else any store says about it.
pub proof fn law_revocation_wins(
    entries: Seq<EntryView>,
    publisher: Seq<char>,
    key: Seq<char>,
    i: int,
)
    requires
        0 <= i < entries.len(),
        enrolls(entries[i], publisher, key),
        entries[i].standing == Standing::Revoked,
    ensures
        judge_spec(entries, publisher, key) == Trust::Untrusted,
{
}

/// A key enrolled for one publisher does not vouch for another: entries for other publishers
/// change nothing about the answer.
pub proof fn law_publisher_isolation(
    entries: Seq<EntryView>,
    others: Seq<EntryView>,
    publisher: Seq<char>,
    key: Seq<char>,
)
    requires
        forall|i: int| 0 <= i < others.len() ==> (#[trigger] others[i]).publisher != publisher,
    ensures
        judge_spec(entries + others, publisher, key) == judge_spec(entries, publisher, key),
{
    let all = entries + others;
    assert forall|o: Option<Origin>, s: Standing| says(all, publisher, key, o, s) == says(
        entries,
        publisher,
        key,
        o,
        s,
    ) by {
        if says(all, publisher, key, o, s) {
            let i = choose|i: int|
                0 <= i < all.len() && enrolls(#[trigger] all[i], publisher, key)
                    && all[i].standing == s && (o matches Some(x) ==> all[i].origin == x);
            if i >= entries.len() {
                assert(others[i - entries.len()] == all[i]);
            }
            assert(entries[i] == all[i]);
        }
        if says(entries, publisher, key, o, s) {
            let i = choose|i: int|
                0 <= i < entries.len() && enrolls(#[trigger] entries[i], publisher, key)
                    && entries[i].standing == s && (o matches Some(x) ==> entries[i].origin == x);
            assert(all[i] == entries[i]);
        }
    }
}

/// A store that says nothing answers `unknown`: a signature alone is never trust.
pub proof fn law_empty_store_is_unknown(publisher: Seq<char>, key: Seq<char>)
    ensures
        judge_spec(seq![], publisher, key) == Trust::Unknown,
{
}

/// The machine's trust outranks the operator's: a key the system store trusts and nothing
/// revokes is `system-trusted`, whatever the user store says.
pub proof fn law_system_outranks_user(
    entries: Seq<EntryView>,
    publisher: Seq<char>,
    key: Seq<char>,
    i: int,
)
    requires
        0 <= i < entries.len(),
        enrolls(entries[i], publisher, key),
        entries[i].standing == Standing::Trusted,
        entries[i].origin == Origin::System,
        !says(entries, publisher, key, None, Standing::Revoked),
    ensures
        judge_spec(entries, publisher, key) == Trust::SystemTrusted,
{
}

/// A store line becomes an entry that keeps its publisher and key and stands as its word says: a
/// `trusted` line is trusted and a `revoked` one revoked; and a `kuang-trust/1` store whose every
/// word is one of the two is read whole, line by line.
pub proof fn law_a_line_stands_as_its_word_says(
    origin: Origin,
    format: Seq<char>,
    raw: Seq<(Seq<char>, Seq<char>, Seq<char>)>,
)
    ensures
        entries_spec(origin, format, raw) matches Ok(es) ==> es.len() == raw.len() && forall|i: int|
            0 <= i < raw.len() ==> {
                &&& (#[trigger] es[i]).origin == origin
                &&& es[i].publisher == raw[i].0
                &&& es[i].key == raw[i].1
                &&& (raw[i].2 == "trusted"@ ==> es[i].standing == Standing::Trusted)
                &&& (raw[i].2 == "revoked"@ ==> es[i].standing == Standing::Revoked)
            },
        format == TRUST_FORMAT@ && (forall|i: int| 0 <= i < raw.len() ==> (#[trigger] raw[i]).2 == "trusted"@ || raw[i].2
            == "revoked"@) ==> entries_spec(origin, format, raw) is Ok,
{
    reveal_strlit("trusted");
    reveal_strlit("revoked");
    assert("trusted"@ != "revoked"@) by {
        assert("trusted"@[0] != "revoked"@[0]);
    }
}

} // verus!
