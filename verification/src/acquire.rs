//! How a package payload reaches this host: a catalog release fetched over the network, a local
//! directory, or a payload an operating-system package placed under a system source root.
//!
//! Everything decided here is *acquisition*: which roots are searched, which of them may be
//! trusted to be read-only, what an archive entry may be, whether a fetched payload is the one a
//! catalog vouched for. None of it confers trust, permission or activation, and nothing here
//! runs a package. The reading and writing of files and the network are the caller's.

use vstd::prelude::*;

use crate::hosts::opt_view;
use crate::invocation::strings_view;
use crate::text::{chars_of, concat, eq_str, has_prefix, split, split_on, starts_with, string_of};

verus! {

broadcast use vstd::string::group_string_axioms;

/// The default Linux system source root.
pub const DEFAULT_SYSTEM_ROOT: &'static str = "/usr/lib/ono-sendai/plugin-sources";

/// The variable that names other system source roots, separated by `:`.
pub const SYSTEM_SOURCES_VARIABLE: &'static str = "ONO_PLUGIN_SYSTEM_SOURCES";

/// The format word a system sidecar starts with.
pub const SYSTEM_ORIGIN_FORMAT: &'static str = "kuang-system-origin/1";

/// The largest artifact this host will fetch: a plugin is a program and its documents, not a
/// data set.
pub const MAX_ARTIFACT_BYTES: u64 = 268435456;

/// The kind of source a package was acquired through.
#[derive(Debug, Clone, Copy, PartialEq, Eq, Structural)]
pub enum SourceKind {
    /// A catalog release fetched over the network.
    CatalogNetwork,
    /// A package directory on this machine.
    LocalPath,
    /// A payload an operating-system package placed.
    SystemPackage,
}

/// The word a source kind is recorded as.
pub open spec fn source_kind_id(kind: SourceKind) -> Seq<char> {
    match kind {
        SourceKind::CatalogNetwork => "catalog-network"@,
        SourceKind::LocalPath => "local-path"@,
        SourceKind::SystemPackage => "system-package"@,
    }
}

/// The source kind a recorded word names, if any.
pub open spec fn kind_of_id(id: Seq<char>) -> Option<SourceKind> {
    if id == source_kind_id(SourceKind::CatalogNetwork) {
        Some(SourceKind::CatalogNetwork)
    } else if id == source_kind_id(SourceKind::LocalPath) {
        Some(SourceKind::LocalPath)
    } else if id == source_kind_id(SourceKind::SystemPackage) {
        Some(SourceKind::SystemPackage)
    } else {
        None
    }
}

impl SourceKind {
    /// The word this kind is recorded as.
    pub fn id(self) -> (r: &'static str)
        ensures
            r@ == source_kind_id(self),
    {
        match self {
            SourceKind::CatalogNetwork => "catalog-network",
            SourceKind::LocalPath => "local-path",
            SourceKind::SystemPackage => "system-package",
        }
    }

    /// The kind a recorded word names.
    pub fn from_id(id: &str) -> (r: Option<SourceKind>)
        ensures
            r == kind_of_id(id@),
    {
        let v = chars_of(id);
        if eq_str(v.as_slice(), "catalog-network") {
            Some(SourceKind::CatalogNetwork)
        } else if eq_str(v.as_slice(), "local-path") {
            Some(SourceKind::LocalPath)
        } else if eq_str(v.as_slice(), "system-package") {
            Some(SourceKind::SystemPackage)
        } else {
            None
        }
    }
}

/// Where an installed package came from, remembered with it: enough to answer later which kind
/// of source, which location, which catalog lineage and which distribution package supplied the
/// release.
#[derive(Debug, Clone)]
pub struct Origin {
    /// The kind of source, `catalog-network`, `local-path` or `system-package`.
    pub kind: String,
    /// The source reference: a URL, a `path:` reference, or the system payload's path.
    pub identity: String,
    /// The outer distribution package, when the system source said.
    pub system_package: Option<String>,
    /// The package manager that placed it, when known.
    pub package_manager: Option<String>,
    /// The directory the payload was read from, for a local or system source.
    pub source_path: Option<String>,
    /// The catalog that resolved it, when one did.
    pub catalog: Option<String>,
    /// The content digest verified at acquisition, which the installed copy is pinned to.
    pub digest: String,
}

/// Whether the source an origin records can still supply `version`, given the version the
/// payload now at its directory declares (`None` when nothing readable is there). A network
/// artifact is not probed, so its answer is unknown.
pub open spec fn available_spec(
    kind: Seq<char>,
    source_path: Option<Seq<char>>,
    version: Seq<char>,
    found: Option<Seq<char>>,
) -> Option<bool> {
    match kind_of_id(kind) {
        None => None,
        Some(SourceKind::CatalogNetwork) => None,
        Some(_) => match source_path {
            None => None,
            Some(_) => Some(found == Some(version)),
        },
    }
}

impl Origin {
    /// The kind as a source kind.
    pub fn source_kind(&self) -> (r: Option<SourceKind>)
        ensures
            r == kind_of_id(self.kind@),
    {
        SourceKind::from_id(self.kind.as_str())
    }

    /// Whether the source can still supply `version`. `found` is the version the package at
    /// `source_path` declares now, or `None` where none reads there; the caller reads it.
    pub fn available(&self, version: &str, found: Option<&str>) -> (r: Option<bool>)
        ensures
            r == available_spec(
                self.kind@,
                opt_view(self.source_path),
                version@,
                match found {
                    Some(f) => Some(f@),
                    None => None,
                },
            ),
    {
        match self.source_kind() {
            None => None,
            Some(SourceKind::CatalogNetwork) => None,
            Some(_) => match &self.source_path {
                None => None,
                Some(_) => match found {
                    None => Some(false),
                    Some(f) => {
                        let a = chars_of(f);
                        Some(eq_str(a.as_slice(), version))
                    },
                },
            },
        }
    }
}

/// What a sidecar says about the distribution package that placed a payload.
#[derive(Debug, Clone, PartialEq, Eq)]
pub struct SystemOrigin {
    /// The distribution package.
    pub package: String,
    /// The package manager.
    pub manager: String,
}

/// A payload a system package placed: `<root>/<id>/<version>/`, read but never installed by
/// being there.
#[derive(Debug, Clone)]
pub struct SystemCandidate {
    /// The payload's directory.
    pub directory: String,
    /// The root it sits under.
    pub root: String,
    /// What the sidecar said about the distribution package, when one was there.
    pub origin: Option<SystemOrigin>,
}

impl SystemCandidate {
    /// The origin record an install from this candidate carries; `digest` is the content
    /// digest of the payload's directory.
    pub fn origin_record(&self, catalog: Option<&str>, digest: &str) -> (r: Origin)
        ensures
            r.kind@ == source_kind_id(SourceKind::SystemPackage),
            r.identity@ == "system:"@ + self.directory@,
            opt_view(r.system_package) == match self.origin {
                Some(o) => Some(o.package@),
                None => None::<Seq<char>>,
            },
            opt_view(r.package_manager) == match self.origin {
                Some(o) => Some(o.manager@),
                None => None::<Seq<char>>,
            },
            opt_view(r.source_path) == Some(self.directory@),
            opt_view(r.catalog) == match catalog {
                Some(c) => Some(c@),
                None => None::<Seq<char>>,
            },
            r.digest@ == digest@,
    {
        let kind = string_of(chars_of(SourceKind::SystemPackage.id()).as_slice());
        let dir = chars_of(self.directory.as_str());
        let identity = string_of(concat(chars_of("system:").as_slice(), dir.as_slice()).as_slice());
        let (system_package, package_manager) = match &self.origin {
            Some(o) => (
                Some(string_of(chars_of(o.package.as_str()).as_slice())),
                Some(string_of(chars_of(o.manager.as_str()).as_slice())),
            ),
            None => (None, None),
        };
        let catalog = match catalog {
            Some(c) => Some(string_of(chars_of(c).as_slice())),
            None => None,
        };
        Origin {
            kind,
            identity,
            system_package,
            package_manager,
            source_path: Some(string_of(dir.as_slice())),
            catalog,
            digest: string_of(chars_of(digest).as_slice()),
        }
    }
}

/// The roots searched: those the variable names, split at `:` as the platform's path lists
/// are, or the standard root, which needs no configuration.
pub open spec fn system_roots_spec(configured: Option<Seq<char>>) -> Seq<Seq<char>> {
    match configured {
        Some(list) => split_on(list, ':'),
        None => seq![DEFAULT_SYSTEM_ROOT@],
    }
}

/// The system source roots this host searches: `ONO_PLUGIN_SYSTEM_SOURCES` as `env` answers
/// it, or the standard root.
pub fn system_roots<F: Fn(&str) -> Option<String>>(env: F) -> (r: Vec<String>)
    requires
        call_requires(env, (SYSTEM_SOURCES_VARIABLE,)),
    ensures
        exists|v: Option<String>|
            call_ensures(env, (SYSTEM_SOURCES_VARIABLE,), v) && #[trigger] strings_view(r@)
                == system_roots_spec(opt_view(v)),
{
    let configured = env(SYSTEM_SOURCES_VARIABLE);
    let r = roots_from(&configured);
    r
}

/// The roots a configured list names, or the standard root where none is configured.
pub fn roots_from(configured: &Option<String>) -> (r: Vec<String>)
    ensures
        strings_view(r@) == system_roots_spec(opt_view(*configured)),
{
    match configured {
        Some(list) => {
            let pieces = split(chars_of(list.as_str()).as_slice(), ':');
            let mut r: Vec<String> = Vec::new();
            let mut i: usize = 0;
            while i < pieces.len()
                invariant
                    i <= pieces.len(),
                    pieces@.map_values(|p: Vec<char>| p@) == split_on(list@, ':'),
                    strings_view(r@) == pieces@.map_values(|p: Vec<char>| p@).take(i as int),
                decreases pieces.len() - i,
            {
                let s = string_of(pieces[i].as_slice());
                let ghost before = strings_view(r@);
                r.push(s);
                assert(strings_view(r@) =~= before.push(s@));
                assert(pieces@.map_values(|p: Vec<char>| p@).take(i + 1) =~= pieces@.map_values(
                    |p: Vec<char>| p@,
                ).take(i as int).push(pieces@[i as int]@));
                i = i + 1;
            }
            assert(pieces@.map_values(|p: Vec<char>| p@).take(pieces.len() as int)
                =~= pieces@.map_values(|p: Vec<char>| p@));
            r
        },
        None => {
            let mut r: Vec<String> = Vec::new();
            r.push(string_of(chars_of(DEFAULT_SYSTEM_ROOT).as_slice()));
            assert(strings_view(r@) =~= seq![DEFAULT_SYSTEM_ROOT@]);
            r
        },
    }
}

/// Why a root is not a system source: a directory ordinary users can write to is not one,
/// whatever its path says.
#[derive(Debug, Clone, Copy, PartialEq, Eq, Structural)]
pub enum RootRefusal {
    /// The root is not a directory.
    NotADirectory,
    /// Group or others may write to it; `mode` is its permission bits.
    Writable { by_everyone: bool, mode: u32 },
    /// It is owned by neither root nor the user running the shell.
    ForeignOwner { owner: u32 },
}

/// Whether a root may be searched: a directory, not writable by group or others, owned by
/// root or by the user running the shell.
pub open spec fn root_policy_spec(is_dir: bool, mode: u32, owner: u32, me: u32) -> Result<(), RootRefusal> {
    if !is_dir {
        Err(RootRefusal::NotADirectory)
    } else if mode & 0o22u32 != 0 {
        Err(RootRefusal::Writable { by_everyone: mode & 0o2u32 != 0, mode: mode & 0o7777u32 })
    } else if owner != 0 && owner != me {
        Err(RootRefusal::ForeignOwner { owner })
    } else {
        Ok(())
    }
}

/// Whether the root whose metadata says `is_dir`, `mode` and `owner` may be searched by the
/// user `me`.
pub fn root_policy(is_dir: bool, mode: u32, owner: u32, me: u32) -> (r: Result<(), RootRefusal>)
    ensures
        r == root_policy_spec(is_dir, mode, owner, me),
{
    if !is_dir {
        Err(RootRefusal::NotADirectory)
    } else if mode & 0o22u32 != 0 {
        Err(RootRefusal::Writable { by_everyone: mode & 0o2u32 != 0, mode: mode & 0o7777u32 })
    } else if owner != 0 && owner != me {
        Err(RootRefusal::ForeignOwner { owner })
    } else {
        Ok(())
    }
}

/// Whether a payload found at `<root>/<dir_id>/<dir_version>/` is where it says it is: the
/// layout is the id and the version, and a payload that says otherwise is offered under neither.
pub fn in_its_place(dir_id: Option<&str>, dir_version: Option<&str>, id: &str, version: &str) -> (r: bool)
    ensures
        r == (match (dir_id, dir_version) {
            (Some(a), Some(b)) => a@ == id@ && b@ == version@,
            _ => false,
        }),
{
    match (dir_id, dir_version) {
        (Some(a), Some(b)) => {
            let x = chars_of(a);
            let y = chars_of(b);
            eq_str(x.as_slice(), id) && eq_str(y.as_slice(), version)
        },
        _ => false,
    }
}

/// The file name of the sidecar beside a payload directory named `version_dir`.
pub fn sidecar_name(version_dir: &str) -> (r: String)
    ensures
        r@ == version_dir@ + ".origin.yaml"@,
{
    string_of(concat(chars_of(version_dir).as_slice(), chars_of(".origin.yaml").as_slice()).as_slice())
}

/// The sidecar text a distribution package installs beside its payload.
pub open spec fn sidecar_spec(package: Seq<char>, manager: Seq<char>) -> Seq<char> {
    "format: "@ + SYSTEM_ORIGIN_FORMAT@ + "\npackage: "@ + package + "\nmanager: "@ + manager + "\n"@
}

/// Writes the sidecar a distribution package installs beside its payload.
pub fn sidecar_text(package: &str, manager: &str) -> (r: String)
    ensures
        r@ == sidecar_spec(package@, manager@),
{
    let a = concat(chars_of("format: ").as_slice(), chars_of(SYSTEM_ORIGIN_FORMAT).as_slice());
    let b = concat(a.as_slice(), chars_of("\npackage: ").as_slice());
    let c = concat(b.as_slice(), chars_of(package).as_slice());
    let d = concat(c.as_slice(), chars_of("\nmanager: ").as_slice());
    let e = concat(d.as_slice(), chars_of(manager).as_slice());
    let f = concat(e.as_slice(), chars_of("\n").as_slice());
    string_of(f.as_slice())
}

/// Why an artifact is not fetched.
#[derive(Debug, Clone, Copy, PartialEq, Eq, Structural)]
pub enum FetchRefusal {
    /// A plain `http://` artifact from a catalog that did not allow one.
    PlainHttp,
    /// Not an artifact this build can fetch at all.
    Unsupported,
}

/// Whether `url` may be fetched: over HTTPS, or plain HTTP where the catalog allowed it.
pub open spec fn fetch_policy_spec(url: Seq<char>, allow_insecure: bool) -> Result<(), FetchRefusal> {
    if starts_with(url, "http://"@) && !allow_insecure {
        Err(FetchRefusal::PlainHttp)
    } else if !starts_with(url, "https://"@) && !starts_with(url, "http://"@) {
        Err(FetchRefusal::Unsupported)
    } else {
        Ok(())
    }
}

/// Whether `url` may be fetched; the caller fetches it.
pub fn fetch_policy(url: &str, allow_insecure: bool) -> (r: Result<(), FetchRefusal>)
    ensures
        r == fetch_policy_spec(url@, allow_insecure),
{
    let u = chars_of(url);
    let http = has_prefix(u.as_slice(), chars_of("http://").as_slice());
    let https = has_prefix(u.as_slice(), chars_of("https://").as_slice());
    if http && !allow_insecure {
        Err(FetchRefusal::PlainHttp)
    } else if !https && !http {
        Err(FetchRefusal::Unsupported)
    } else {
        Ok(())
    }
}

/// What kind of entry an archive holds.
#[derive(Debug, Clone, Copy, PartialEq, Eq, Structural)]
pub enum EntryKind {
    /// A regular file.
    Regular,
    /// A directory.
    Directory,
    /// Anything else: a link, a device, a fifo.
    Other,
}

/// Whether an entry's path leaves the directory it is unpacked into: an absolute path, a
/// leading `.` component, or a `..` anywhere.
pub open spec fn leaves_directory(path: Seq<char>) -> bool {
    let parts = split_on(path, '/');
    ||| (path.len() > 0 && path[0] == '/')
    ||| parts[0] == "."@
    ||| exists|i: int| 0 <= i < parts.len() && #[trigger] parts[i] == ".."@
}

/// Whether an archive entry's path leaves the directory it is unpacked into.
pub fn entry_leaves(path: &str) -> (r: bool)
    ensures
        r == leaves_directory(path@),
{
    let v = chars_of(path);
    let parts = split(v.as_slice(), '/');
    let ghost views = parts@.map_values(|p: Vec<char>| p@);
    assert(views.len() > 0) by {
        reveal_with_fuel(crate::text::split_from, 1);
        lemma_split_nonempty(v@, '/', 0, seq![]);
    }
    if v.len() > 0 && v[0] == '/' {
        return true;
    }
    assert(views[0] == parts@[0]@);
    if eq_str(parts[0].as_slice(), ".") {
        return true;
    }
    let mut i: usize = 0;
    while i < parts.len()
        invariant
            i <= parts.len(),
            views == parts@.map_values(|p: Vec<char>| p@),
            views == split_on(v@, '/'),
            v@ == path@,
            forall|j: int| 0 <= j < i ==> views[j] != ".."@,
        decreases parts.len() - i,
    {
        assert(views[i as int] == parts@[i as int]@);
        if eq_str(parts[i].as_slice(), "..") {
            assert(split_on(path@, '/')[i as int] == ".."@);
            return true;
        }
        i = i + 1;
    }
    false
}

proof fn lemma_split_nonempty(v: Seq<char>, sep: char, i: int, cur: Seq<char>)
    ensures
        crate::text::split_from(v, sep, i, cur).len() > 0,
    decreases v.len() - i,
{
    if i < v.len() {
        if v[i] == sep {
            lemma_split_nonempty(v, sep, i + 1, seq![]);
        } else {
            lemma_split_nonempty(v, sep, i + 1, cur.push(v[i]));
        }
    }
}

/// What becomes of one archive entry.
#[derive(Debug, Clone, Copy, PartialEq, Eq, Structural)]
pub enum EntryAction {
    /// A directory to create.
    MakeDirectory,
    /// A regular file to write, which counts toward the payload.
    WriteFile,
}

/// Why an archive is not unpacked: a payload chooses no path on this machine and holds only
/// regular files.
#[derive(Debug, Clone, PartialEq, Eq)]
pub enum UnpackRefusal {
    /// An entry is neither a regular file nor a directory.
    NotRegular,
    /// An entry's path leaves the package directory.
    LeavesDirectory,
    /// The archive holds no file.
    Empty,
}

/// What becomes of an entry of `kind` at `path`.
pub open spec fn entry_action_spec(kind: EntryKind, path: Seq<char>) -> Result<EntryAction, UnpackRefusal> {
    if kind == EntryKind::Other {
        Err(UnpackRefusal::NotRegular)
    } else if leaves_directory(path) {
        Err(UnpackRefusal::LeavesDirectory)
    } else if kind == EntryKind::Directory {
        Ok(EntryAction::MakeDirectory)
    } else {
        Ok(EntryAction::WriteFile)
    }
}

/// What becomes of an archive entry of `kind` at `path`: only regular files and directories
/// under relative paths with no `..` are unpacked.
pub fn entry_action(kind: EntryKind, path: &str) -> (r: Result<EntryAction, UnpackRefusal>)
    ensures
        r == entry_action_spec(kind, path@),
{
    if kind == EntryKind::Other {
        Err(UnpackRefusal::NotRegular)
    } else if entry_leaves(path) {
        Err(UnpackRefusal::LeavesDirectory)
    } else if kind == EntryKind::Directory {
        Ok(EntryAction::MakeDirectory)
    } else {
        Ok(EntryAction::WriteFile)
    }
}

/// The permission bits a written file gets from the mode its entry carries: what travels is
/// whether it is executable; it is always readable and writable by its owner.
pub fn unpacked_mode(mode: u32) -> (r: u32)
    ensures
        r == (mode & 0o755u32) | 0o600u32,
{
    (mode & 0o755u32) | 0o600u32
}

/// Whether an unpacked archive that wrote `files` regular files is a payload at all.
pub fn unpacked_enough(files: usize) -> (r: Result<(), UnpackRefusal>)
    ensures
        files == 0 ==> r == Err::<(), UnpackRefusal>(UnpackRefusal::Empty),
        files > 0 ==> r is Ok,
{
    if files == 0 {
        Err(UnpackRefusal::Empty)
    } else {
        Ok(())
    }
}

/// Why a fetched payload is not accepted into the package cache.
#[derive(Debug, Clone, PartialEq, Eq)]
pub enum AcquireRefusal {
    /// The payload's content digest is not the one the catalog vouched for.
    DigestMismatch,
    /// The payload holds no manifest.
    NoManifest,
    /// The payload identifies as another package or version than the catalog release.
    NotTheRelease,
}

/// Whether an unpacked payload is the release the catalog vouched for: its digest first, then
/// a manifest, then the id and version that manifest declares.
pub open spec fn acquired_spec(
    id: Seq<char>,
    version: Seq<char>,
    expected_digest: Seq<char>,
    actual_digest: Seq<char>,
    manifest: Option<(Seq<char>, Seq<char>)>,
) -> Result<(), AcquireRefusal> {
    if actual_digest != expected_digest {
        Err(AcquireRefusal::DigestMismatch)
    } else {
        match manifest {
            None => Err(AcquireRefusal::NoManifest),
            Some((mid, mversion)) => if mid != id || mversion != version {
                Err(AcquireRefusal::NotTheRelease)
            } else {
                Ok(())
            },
        }
    }
}

/// Whether the payload unpacked into staging may move into the cache as `id` `version`:
/// `actual_digest` is its content digest and `manifest` the id and version its manifest
/// declares, where it has one.
pub fn check_acquired(
    id: &str,
    version: &str,
    expected_digest: &str,
    actual_digest: &str,
    manifest: Option<(&str, &str)>,
) -> (r: Result<(), AcquireRefusal>)
    ensures
        r == acquired_spec(
            id@,
            version@,
            expected_digest@,
            actual_digest@,
            match manifest {
                Some((a, b)) => Some((a@, b@)),
                None => None,
            },
        ),
{
    let actual = chars_of(actual_digest);
    if !eq_str(actual.as_slice(), expected_digest) {
        return Err(AcquireRefusal::DigestMismatch);
    }
    match manifest {
        None => Err(AcquireRefusal::NoManifest),
        Some((mid, mversion)) => {
            let a = chars_of(mid);
            let b = chars_of(mversion);
            if !eq_str(a.as_slice(), id) || !eq_str(b.as_slice(), version) {
                Err(AcquireRefusal::NotTheRelease)
            } else {
                Ok(())
            }
        },
    }
}

/// What a person may name with `--source`.
#[derive(Debug, Clone, Copy, PartialEq, Eq, Structural)]
pub enum Preference {
    /// The default: the installed package's own lineage, then a system package, then a local
    /// copy, then the network.
    Default,
    /// Only a system-provided payload.
    System,
    /// Only the catalog's artifact, fetched or the cached copy of it.
    Catalog,
    /// Only a local package directory or source.
    Local,
    /// The lineage an installed package was acquired through, which an upgrade keeps until a
    /// person names another source.
    Lineage(SourceKind),
}

/// A word that is not a source kind.
#[derive(Debug, Clone, PartialEq, Eq)]
pub struct NotASourceKind {
    /// The word given.
    pub word: String,
}

/// What `--source` reads as.
pub open spec fn preference_of(word: Option<Seq<char>>) -> Option<Preference> {
    match word {
        None => Some(Preference::Default),
        Some(w) => if w == "system"@ {
            Some(Preference::System)
        } else if w == "catalog"@ {
            Some(Preference::Catalog)
        } else if w == "local"@ {
            Some(Preference::Local)
        } else {
            None
        },
    }
}

/// Whether a candidate of `kind` may be chosen under `p`.
pub open spec fn admits_spec(p: Preference, kind: SourceKind) -> bool {
    match p {
        Preference::Default => true,
        Preference::System => kind == SourceKind::SystemPackage,
        Preference::Catalog => kind == SourceKind::CatalogNetwork,
        Preference::Local => kind == SourceKind::LocalPath,
        Preference::Lineage(lineage) => kind == lineage,
    }
}

/// The word a preference is shown as.
pub open spec fn preference_word(p: Preference) -> Seq<char> {
    match p {
        Preference::Default => "default"@,
        Preference::System => "system"@,
        Preference::Catalog => "catalog"@,
        Preference::Local => "local"@,
        Preference::Lineage(SourceKind::SystemPackage) => "system"@,
        Preference::Lineage(SourceKind::CatalogNetwork) => "catalog"@,
        Preference::Lineage(SourceKind::LocalPath) => "local"@,
    }
}

impl Preference {
    /// Reads `--source`: absent is the default, and `system`, `catalog` and `local` are the
    /// three a person may name.
    pub fn parse(word: Option<&str>) -> (r: Result<Preference, NotASourceKind>)
        ensures
            match preference_of(
                match word {
                    Some(w) => Some(w@),
                    None => None,
                },
            ) {
                Some(p) => r == Ok::<Preference, NotASourceKind>(p),
                None => r matches Err(e) && word matches Some(w) && e.word@ == w@,
            },
    {
        match word {
            None => Ok(Preference::Default),
            Some(w) => {
                let v = chars_of(w);
                if eq_str(v.as_slice(), "system") {
                    Ok(Preference::System)
                } else if eq_str(v.as_slice(), "catalog") {
                    Ok(Preference::Catalog)
                } else if eq_str(v.as_slice(), "local") {
                    Ok(Preference::Local)
                } else {
                    Err(NotASourceKind { word: string_of(v.as_slice()) })
                }
            },
        }
    }

    /// Whether a candidate of `kind` may be chosen under this preference.
    pub fn admits(self, kind: SourceKind) -> (r: bool)
        ensures
            r == admits_spec(self, kind),
    {
        match self {
            Preference::Default => true,
            Preference::System => kind == SourceKind::SystemPackage,
            Preference::Catalog => kind == SourceKind::CatalogNetwork,
            Preference::Local => kind == SourceKind::LocalPath,
            Preference::Lineage(lineage) => kind == lineage,
        }
    }

    /// The word, for messages.
    pub fn word(self) -> (r: &'static str)
        ensures
            r@ == preference_word(self),
    {
        match self {
            Preference::Default => "default",
            Preference::System => "system",
            Preference::Catalog => "catalog",
            Preference::Local => "local",
            Preference::Lineage(SourceKind::SystemPackage) => "system",
            Preference::Lineage(SourceKind::CatalogNetwork) => "catalog",
            Preference::Lineage(SourceKind::LocalPath) => "local",
        }
    }
}

// --- laws --------------------------------------------------------------------------------------

/// A payload chooses no path on this machine: an entry that is unpacked at all has a relative
/// path with no `..` and no leading `.` component, and is a regular file or a directory.
pub proof fn law_unpacked_entries_stay_inside(kind: EntryKind, path: Seq<char>)
    ensures
        entry_action_spec(kind, path) is Ok ==> {
            &&& !(path.len() > 0 && path[0] == '/')
            &&& forall|i: int| 0 <= i < split_on(path, '/').len() ==> #[trigger] split_on(path, '/')[i] != ".."@
            &&& kind != EntryKind::Other
        },
{
}

/// A plain `http://` artifact is fetched only where the catalog allowed it.
pub proof fn law_plain_http_needs_consent(url: Seq<char>)
    requires
        starts_with(url, "http://"@),
    ensures
        fetch_policy_spec(url, false) == Err::<(), FetchRefusal>(FetchRefusal::PlainHttp),
        fetch_policy_spec(url, true) is Ok,
{
}

/// A root ordinary users can write to is never searched, whoever owns it.
pub proof fn law_writable_roots_are_refused(mode: u32, owner: u32, me: u32)
    requires
        mode & 0o22u32 != 0,
    ensures
        root_policy_spec(true, mode, owner, me) is Err,
{
}

/// Only the release the catalog vouched for enters the cache: a payload is accepted exactly when
/// its content digest is the one expected and its manifest names the release's id and version,
/// and a digest that differs is refused as such, whatever the payload holds.
pub proof fn law_only_the_vouched_release_is_accepted(
    id: Seq<char>,
    version: Seq<char>,
    expected_digest: Seq<char>,
    actual_digest: Seq<char>,
    manifest: Option<(Seq<char>, Seq<char>)>,
)
    ensures
        acquired_spec(id, version, expected_digest, actual_digest, manifest) is Ok <==> (actual_digest == expected_digest
            && manifest == Some((id, version))),
        actual_digest != expected_digest ==> acquired_spec(id, version, expected_digest, actual_digest, manifest) == Err::<
            (),
            AcquireRefusal,
        >(AcquireRefusal::DigestMismatch),
{
}

} // verus!
