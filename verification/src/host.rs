//! The host's decisions about installed packages: what the operator's management state holds,
//! which words a package is reported with, what a verification concludes from the facts it
//! gathered, how ready a package is, and the identities the host mints. Gathering the facts
//! (reading packages, checking signatures, hashing) is the caller's.

use vstd::prelude::*;

use sha2::Digest;
use vstd::string::StringSliceAdditionalSpecFns;

use crate::acquire::Origin;
use crate::text::{chars_of, concat, string_of};
use crate::trust::{judge_spec, Trust, TrustStore};

verus! {

broadcast use vstd::string::group_string_axioms;

/// The provider every record the shell itself produces is attributed to.
pub const PROVIDER_ID: &'static str = "ono.session";

/// The provider every record here is attributed to.
pub fn provider_id() -> (r: &'static str)
    ensures
        r@ == PROVIDER_ID@,
{
    PROVIDER_ID
}

/// The management state of one package, on disk: what the operator decided about it, as
/// opposed to what the package is doing now.
#[derive(Debug, Clone)]
pub struct Management {
    /// Whether policy makes the package eligible for loading.
    pub enabled: bool,
    /// The source reference `install plugin` resolved, when it was installed rather than placed.
    pub installed_from: Option<String>,
    /// The content hash recorded at install, which `verify plugin` re-checks.
    pub integrity: Option<String>,
    /// Whether the operator let a package with a background role run jobs no command created.
    pub background: bool,
    /// The catalog that resolved the install, so an upgrade resolves through the same lineage.
    pub catalog: Option<String>,
    /// The signing key at install, `ed25519:…`, or `unsigned`.
    pub publisher_key: Option<String>,
    /// The access profile the install decided.
    pub profile: Option<String>,
    /// Where the payload came from.
    pub origin: Option<Origin>,
}

/// Whether a package whose management state does not say is enabled: it is.
pub fn enabled_by_default() -> (r: bool)
    ensures
        r,
{
    true
}

impl Default for Management {
    /// The state of a package nobody has decided anything about: enabled, and nothing recorded.
    fn default() -> (r: Self)
        ensures
            r.enabled,
            r.installed_from is None,
            r.integrity is None,
            !r.background,
            r.catalog is None,
            r.publisher_key is None,
            r.profile is None,
            r.origin is None,
    {
        Management {
            enabled: enabled_by_default(),
            installed_from: None,
            integrity: None,
            background: false,
            catalog: None,
            publisher_key: None,
            profile: None,
            origin: None,
        }
    }
}

/// The decision a stored capability decision without a `decision:` word has: a grant stored
/// is a grant allowed.
pub fn allow_word() -> (r: String)
    ensures
        r@ == "allow"@,
{
    "allow".to_owned()
}

/// What an instance contributes, by kind: the resolved ids.
#[derive(Debug, Clone)]
pub struct Contributions {
    /// Command ids.
    pub commands: Vec<String>,
    /// Target names.
    pub targets: Vec<String>,
    /// Schema ids.
    pub schemas: Vec<String>,
    /// View ids.
    pub views: Vec<String>,
}

impl Default for Contributions {
    /// Nothing contributed.
    fn default() -> (r: Self)
        ensures
            r.commands.len() == 0,
            r.targets.len() == 0,
            r.schemas.len() == 0,
            r.views.len() == 0,
    {
        Contributions { commands: Vec::new(), targets: Vec::new(), schemas: Vec::new(), views: Vec::new() }
    }
}

/// What minted a grant beyond the operator's own hand: the permission, the profile and the
/// request it belongs to.
#[derive(Debug, Clone, PartialEq, Eq)]
pub struct GrantOrigin {
    /// The permission id, when a permission decision minted the grant.
    pub permission: Option<String>,
    /// The access profile, when a profile selected it.
    pub profile: Option<String>,
    /// The correlation id of the user action.
    pub correlation: Option<String>,
}

impl Default for GrantOrigin {
    /// A grant made by hand: no permission, profile or request behind it.
    fn default() -> (r: Self)
        ensures
            r.permission is None,
            r.profile is None,
            r.correlation is None,
    {
        GrantOrigin { permission: None, profile: None, correlation: None }
    }
}

/// Whether a grant still answers at `now`: not revoked, and inside its window. Instants are
/// nanoseconds since the epoch; `expires_at` is `None` for a grant with no expiry.
pub fn stands_at(revoked: bool, expires_at: Option<i128>, now: i128) -> (r: bool)
    ensures
        r == (!revoked && match expires_at {
            Some(expiry) => expiry > now,
            None => true,
        }),
{
    !revoked && match expires_at {
        Some(expiry) => expiry > now,
        None => true,
    }
}

/// What kind of runtime a manifest declares.
#[derive(Debug, Clone, Copy, PartialEq, Eq, Structural)]
pub enum RuntimeKind {
    /// A native program.
    NativeProcess,
    /// A WebAssembly component.
    WasmComponent,
    /// A remote protocol endpoint.
    RemoteService,
    /// Declarations only.
    Declarative,
}

/// The isolation tier a runtime kind names; a package without a runtime of its own runs in the
/// core's interpreter, in process.
pub open spec fn isolation_spec(kind: Option<RuntimeKind>) -> Seq<char> {
    match kind {
        Some(RuntimeKind::NativeProcess) => "trusted-native"@,
        Some(RuntimeKind::WasmComponent) => "isolated-component"@,
        Some(RuntimeKind::RemoteService) => "remote-service"@,
        _ => "core-built-in"@,
    }
}

/// The isolation tier of a package whose manifest declares `kind` (none: no runtime).
pub fn isolation(kind: Option<RuntimeKind>) -> (r: &'static str)
    ensures
        r@ == isolation_spec(kind),
{
    match kind {
        Some(RuntimeKind::NativeProcess) => "trusted-native",
        Some(RuntimeKind::WasmComponent) => "isolated-component",
        Some(RuntimeKind::RemoteService) => "remote-service",
        _ => "core-built-in",
    }
}

/// The host's own sentence about a package's execution tier.
pub open spec fn isolation_statement_spec(kind: Option<RuntimeKind>) -> Seq<char> {
    match kind {
        Some(RuntimeKind::NativeProcess) => NATIVE_STATEMENT@,
        Some(RuntimeKind::WasmComponent) => COMPONENT_STATEMENT@,
        Some(RuntimeKind::RemoteService) => REMOTE_STATEMENT@,
        _ => DECLARATIVE_STATEMENT@,
    }
}

/// What a native package is told it is.
pub const NATIVE_STATEMENT: &'static str = "This plugin runs as the Ono user. KUANG/11 mediates brokered host capabilities and applies process confinement, but this execution tier is not complete filesystem or network isolation.";

/// What a component package is told it is.
pub const COMPONENT_STATEMENT: &'static str = "This plugin runs as a component inside the runtime Ono embeds, with nothing but its standard streams; every file, connection and program goes through the broker.";

/// What a remote package is told it is.
pub const REMOTE_STATEMENT: &'static str = "This plugin runs no local code; it is a protocol endpoint the broker connects to.";

/// What a declarative package is told it is.
pub const DECLARATIVE_STATEMENT: &'static str = "This package runs no code; it contributes declarations only.";

/// The host's own sentence about a package's execution tier: never package-authored, and never
/// the word "sandboxed" without the boundary it means.
pub fn isolation_statement(kind: Option<RuntimeKind>) -> (r: &'static str)
    ensures
        r@ == isolation_statement_spec(kind),
{
    match kind {
        Some(RuntimeKind::NativeProcess) => NATIVE_STATEMENT,
        Some(RuntimeKind::WasmComponent) => COMPONENT_STATEMENT,
        Some(RuntimeKind::RemoteService) => REMOTE_STATEMENT,
        _ => DECLARATIVE_STATEMENT,
    }
}

/// A role a package declares.
#[derive(Debug, Clone, Copy, PartialEq, Eq, Structural)]
pub enum Role {
    Analysis,
    Provider,
    Adapter,
    View,
    EventProcessor,
    Assistant,
    Automation,
    RemoteComponent,
}

/// The role as the manifest spells it.
pub open spec fn role_spec(role: Role) -> Seq<char> {
    match role {
        Role::Analysis => "analysis"@,
        Role::Provider => "provider"@,
        Role::Adapter => "adapter"@,
        Role::View => "view"@,
        Role::EventProcessor => "event-processor"@,
        Role::Assistant => "assistant"@,
        Role::Automation => "automation"@,
        Role::RemoteComponent => "remote-component"@,
    }
}

/// The role as the manifest spells it.
pub fn role_name(role: Role) -> (r: &'static str)
    ensures
        r@ == role_spec(role),
{
    match role {
        Role::Analysis => "analysis",
        Role::Provider => "provider",
        Role::Adapter => "adapter",
        Role::View => "view",
        Role::EventProcessor => "event-processor",
        Role::Assistant => "assistant",
        Role::Automation => "automation",
        Role::RemoteComponent => "remote-component",
    }
}

/// The source reference a package in the plugin home came from: what `install plugin`
/// recorded, else its directory as a `path:` reference.
pub fn source_of(installed_from: Option<&str>, directory: &str) -> (r: String)
    ensures
        r@ == match installed_from {
            Some(s) => s@,
            None => "path:"@ + directory@,
        },
{
    match installed_from {
        Some(s) => string_of(chars_of(s).as_slice()),
        None => string_of(concat(chars_of("path:").as_slice(), chars_of(directory).as_slice()).as_slice()),
    }
}

/// What a package's signature check found.
#[derive(Debug, Clone, Copy, PartialEq, Eq, Structural)]
pub enum SignatureState {
    /// Every signature it carries verifies.
    Valid,
    /// A signature it carries does not verify, or does not read.
    Invalid,
    /// It carries none.
    Absent,
}

/// The word a signature state is reported as.
pub open spec fn signature_spec(state: SignatureState) -> Seq<char> {
    match state {
        SignatureState::Valid => "valid"@,
        SignatureState::Invalid => "invalid"@,
        SignatureState::Absent => "absent"@,
    }
}

/// The word a signature state is reported as.
pub fn signature_word(state: SignatureState) -> (r: &'static str)
    ensures
        r@ == signature_spec(state),
{
    match state {
        SignatureState::Valid => "valid",
        SignatureState::Invalid => "invalid",
        SignatureState::Absent => "absent",
    }
}

/// The word a package's trust is reported as: an unsigned package is `local`, one whose
/// signature fails or whose key is revoked `untrusted`, one an enrolled key signed `verified`,
/// and any other signed package `signed`.
pub open spec fn trust_word_spec(state: SignatureState, standing: Trust) -> Seq<char> {
    if state == SignatureState::Absent {
        "local"@
    } else if state == SignatureState::Invalid || standing == Trust::Untrusted {
        "untrusted"@
    } else if standing == Trust::SystemTrusted || standing == Trust::UserTrusted {
        "verified"@
    } else {
        "signed"@
    }
}

/// The word a package's trust is reported as.
pub fn trust_word(state: SignatureState, standing: Trust) -> (r: &'static str)
    ensures
        r@ == trust_word_spec(state, standing),
{
    match (state, standing) {
        (SignatureState::Absent, _) => "local",
        (SignatureState::Invalid, _) | (_, Trust::Untrusted) => "untrusted",
        (_, Trust::SystemTrusted) | (_, Trust::UserTrusted) => "verified",
        _ => "signed",
    }
}

/// The standing the signatures on a package earn: none when a signature failed; else a
/// revocation anywhere wins, and otherwise the stronger of the standings earned, the machine's
/// trust over the operator's.
pub open spec fn standing_spec(failed: bool, by_key: Option<Trust>, by_identity: Option<Trust>) -> Trust {
    if failed {
        Trust::Unknown
    } else if by_key == Some(Trust::Untrusted) || by_identity == Some(Trust::Untrusted) {
        Trust::Untrusted
    } else if by_key == Some(Trust::SystemTrusted) || by_identity == Some(Trust::SystemTrusted) {
        Trust::SystemTrusted
    } else if by_key == Some(Trust::UserTrusted) || by_identity == Some(Trust::UserTrusted) {
        Trust::UserTrusted
    } else {
        Trust::Unknown
    }
}

/// What the operator's stores say about whoever signed, whichever way they signed. `document`
/// is the publisher and key a keyed signature names; `by_identity` the standing the stores give
/// the keyless signer, when there is one; `failed` whether a signature did not verify.
pub fn standing_of(
    failed: bool,
    document: Option<(&str, &str)>,
    by_identity: Option<Trust>,
    store: &TrustStore,
) -> (r: Trust)
    ensures
        r == standing_spec(
            failed,
            match document {
                Some((p, k)) => Some(judge_spec(store@, p@, k@)),
                None => None,
            },
            by_identity,
        ),
{
    if failed {
        return Trust::Unknown;
    }
    let by_key = match document {
        Some((p, k)) => Some(store.judge(p, k)),
        None => None,
    };
    if by_key == Some(Trust::Untrusted) || by_identity == Some(Trust::Untrusted) {
        Trust::Untrusted
    } else if by_key == Some(Trust::SystemTrusted) || by_identity == Some(Trust::SystemTrusted) {
        Trust::SystemTrusted
    } else if by_key == Some(Trust::UserTrusted) || by_identity == Some(Trust::UserTrusted) {
        Trust::UserTrusted
    } else {
        Trust::Unknown
    }
}

/// What a loaded instance of a package is doing, as far as readiness asks.
#[derive(Debug, Clone, Copy, PartialEq, Eq, Structural)]
pub enum InstanceState {
    /// Quarantined by the supervisor.
    Quarantined,
    /// Installed or enabled, and not yet started.
    Idle,
    /// Started, in any of the states a started instance has.
    Active,
}

/// The derived readiness of a package: a running instance says `running`, a quarantined one,
/// a disabled package, a failed signature or a revoked key `blocked`, a package with undecided
/// permissions `needs-permission`, and any other `ready`.
pub open spec fn readiness_spec(
    instance: Option<InstanceState>,
    enabled: bool,
    signature_failed: bool,
    standing: Trust,
    undecided: nat,
) -> Seq<char> {
    if instance == Some(InstanceState::Quarantined) {
        "blocked"@
    } else if instance == Some(InstanceState::Active) {
        "running"@
    } else if !enabled || signature_failed || standing == Trust::Untrusted {
        "blocked"@
    } else if undecided == 0 {
        "ready"@
    } else {
        "needs-permission"@
    }
}

/// The derived readiness of a package, from its instance, its management state, its signature
/// check, its standing and how many of its permissions are undecided.
pub fn readiness(
    instance: Option<InstanceState>,
    enabled: bool,
    signature_failed: bool,
    standing: Trust,
    undecided: usize,
) -> (r: &'static str)
    ensures
        r@ == readiness_spec(instance, enabled, signature_failed, standing, undecided as nat),
{
    match instance {
        Some(InstanceState::Quarantined) => return "blocked",
        Some(InstanceState::Active) => return "running",
        _ => {},
    }
    if !enabled {
        return "blocked";
    }
    if signature_failed {
        return "blocked";
    }
    if standing.blocks() {
        return "blocked";
    }
    if undecided == 0 {
        "ready"
    } else {
        "needs-permission"
    }
}

/// A check a verification runs.
#[derive(Debug, Clone, Copy, PartialEq, Eq, Structural)]
pub enum Check {
    Publisher,
    Signature,
    Integrity,
    Compatibility,
    Manifest,
}

/// The word a check is reported as.
pub open spec fn check_spec(check: Check) -> Seq<char> {
    match check {
        Check::Publisher => "publisher"@,
        Check::Signature => "signature"@,
        Check::Integrity => "integrity"@,
        Check::Compatibility => "compatibility"@,
        Check::Manifest => "manifest"@,
    }
}

impl Check {
    /// The word this check is reported as.
    pub fn word(self) -> (r: &'static str)
        ensures
            r@ == check_spec(self),
    {
        match self {
            Check::Publisher => "publisher",
            Check::Signature => "signature",
            Check::Integrity => "integrity",
            Check::Compatibility => "compatibility",
            Check::Manifest => "manifest",
        }
    }
}

/// What a verification gathered about a package whose manifest validates.
#[derive(Debug, Clone)]
pub struct PackageFacts {
    /// The package id.
    pub id: String,
    /// What its signature check found.
    pub signature: SignatureState,
    /// The publisher and key a keyed signature document names, when it carries one.
    pub document: Option<(String, String)>,
    /// Whether it carries a keyless signature that verified.
    pub has_identity: bool,
    /// The standing its signatures earn, as `standing_of` answers.
    pub standing: Trust,
    /// The content hash recorded at install, when one was.
    pub recorded_integrity: Option<String>,
    /// The content hash of its bytes now.
    pub actual_integrity: String,
    /// Whether it runs on this host.
    pub compatible: bool,
    /// The runtime its manifest declares.
    pub runtime: Option<RuntimeKind>,
}

/// What a verification concludes.
#[derive(Debug, Clone)]
pub struct VerificationOutcome {
    /// The package id, or the source when the manifest did not validate.
    pub package: String,
    /// `valid`, `invalid` or `unknown`.
    pub integrity: &'static str,
    /// `valid`, `invalid`, `absent` or `unknown`.
    pub signature: &'static str,
    /// The publisher a valid signature attests to.
    pub publisher: Option<String>,
    /// The key a signature document names, valid or not.
    pub key: Option<String>,
    /// The standing.
    pub trust: Trust,
    /// `compatible`, `incompatible` or `unknown`.
    pub compatibility: &'static str,
    /// `valid` or `invalid`.
    pub manifest: &'static str,
    /// The isolation tier.
    pub runtime: &'static str,
    /// The checks that failed and block, in check order.
    pub blocking: Vec<Check>,
    /// What could not be established.
    pub warnings: Vec<String>,
}

/// The warning a verification gives when a signer is known to no store.
pub const UNKNOWN_TRUST_WARNING: &'static str = "trust: unknown, no trust store enrols this key for this publisher";

/// The warning a verification gives when no hash was recorded at install.
pub const UNKNOWN_INTEGRITY_WARNING: &'static str = "integrity: unknown, no hash was recorded";

/// The warning every verification gives: nothing here consults a transparency log.
pub const TRANSPARENCY_WARNING: &'static str = "transparency: unknown";

/// Whether a package's signatures were checked and held: it carries one, and none failed.
pub open spec fn signed_and_held(f: PackageFacts) -> bool {
    (f.document is Some || f.has_identity) && f.signature != SignatureState::Invalid
}

/// The standing a verification reports.
pub open spec fn reported_standing(f: PackageFacts) -> Trust {
    if signed_and_held(f) {
        f.standing
    } else {
        Trust::Unknown
    }
}

/// The checks that block, in check order: one per trust store that could not be read, then
/// the signature, a revoked key, the recorded hash and compatibility; or the manifest alone.
pub open spec fn blocking_spec(problems: nat, facts: Option<PackageFacts>) -> Seq<Check> {
    let stores = Seq::new(problems, |i: int| Check::Publisher);
    match facts {
        None => stores.push(Check::Manifest),
        Some(f) => {
            let a = if f.signature == SignatureState::Invalid { seq![Check::Signature] } else { seq![] };
            let b = if reported_standing(f) == Trust::Untrusted { seq![Check::Publisher] } else { seq![] };
            let c = match f.recorded_integrity {
                Some(h) => if h@ != f.actual_integrity@ { seq![Check::Integrity] } else { seq![] },
                None => seq![],
            };
            let d = if !f.compatible { seq![Check::Compatibility] } else { seq![] };
            stores + a + b + c + d
        },
    }
}

/// What could not be established, in order.
pub open spec fn warnings_spec(facts: Option<PackageFacts>) -> Seq<Seq<char>> {
    let first = seq![TRANSPARENCY_WARNING@];
    match facts {
        None => first,
        Some(f) => {
            let t = if signed_and_held(f) {
                if f.standing == Trust::Unknown { seq![UNKNOWN_TRUST_WARNING@] } else { seq![] }
            } else {
                seq!["signature: "@ + signature_spec(f.signature)]
            };
            let i = if f.recorded_integrity is None { seq![UNKNOWN_INTEGRITY_WARNING@] } else { seq![] };
            first + t + i
        },
    }
}

/// What a verification concludes about a package: `source` is the reference it was resolved
/// from, `problems` how many trust stores exist and could not be read, and `facts` what was
/// gathered, or `None` when its manifest does not validate.
pub fn verification_outcome(source: &str, problems: usize, facts: Option<PackageFacts>) -> (r: VerificationOutcome)
    ensures
        r.blocking@ == blocking_spec(problems as nat, facts),
        r.warnings@.map_values(|w: String| w@) == warnings_spec(facts),
        match facts {
            None => {
                &&& r.package@ == source@
                &&& r.integrity@ == "unknown"@
                &&& r.signature@ == "unknown"@
                &&& r.publisher is None
                &&& r.key is None
                &&& r.trust == Trust::Unknown
                &&& r.compatibility@ == "unknown"@
                &&& r.manifest@ == "invalid"@
                &&& r.runtime@ == "isolated-component"@
            },
            Some(f) => {
                &&& r.package@ == f.id@
                &&& r.integrity@ == match f.recorded_integrity {
                    Some(h) => if h@ == f.actual_integrity@ { "valid"@ } else { "invalid"@ },
                    None => "unknown"@,
                }
                &&& r.signature@ == signature_spec(f.signature)
                &&& match f.document {
                    Some((p, k)) => {
                        &&& r.key matches Some(rk) && rk@ == k@
                        &&& if f.signature != SignatureState::Invalid {
                            r.publisher matches Some(rp) && rp@ == p@
                        } else {
                            r.publisher is None
                        }
                    },
                    None => r.key is None && r.publisher is None,
                }
                &&& r.trust == reported_standing(f)
                &&& r.compatibility@ == if f.compatible { "compatible"@ } else { "incompatible"@ }
                &&& r.manifest@ == "valid"@
                &&& r.runtime@ == isolation_spec(f.runtime)
            },
        },
{
    let mut blocking: Vec<Check> = Vec::new();
    let mut warnings: Vec<String> = Vec::new();
    warnings.push(TRANSPARENCY_WARNING.to_owned());
    let mut i: usize = 0;
    while i < problems
        invariant
            i <= problems,
            blocking@ == Seq::new(i as nat, |j: int| Check::Publisher),
        decreases problems - i,
    {
        blocking.push(Check::Publisher);
        assert(blocking@ =~= Seq::new((i + 1) as nat, |j: int| Check::Publisher));
        i = i + 1;
    }
    let ghost stores = blocking@;
    match facts {
        None => {
            blocking.push(Check::Manifest);
            assert(warnings@.map_values(|w: String| w@) =~= warnings_spec(facts));
            VerificationOutcome {
                package: source.to_owned(),
                integrity: "unknown",
                signature: "unknown",
                publisher: None,
                key: None,
                trust: Trust::Unknown,
                compatibility: "unknown",
                manifest: "invalid",
                runtime: "isolated-component",
                blocking,
                warnings,
            }
        },
        Some(f) => {
            let failed = f.signature == SignatureState::Invalid;
            let signature = signature_word(f.signature);
            let (publisher, key) = match &f.document {
                Some((p, k)) => (
                    if !failed { Some(p.as_str().to_owned()) } else { None },
                    Some(k.as_str().to_owned()),
                ),
                None => (None, None),
            };
            if failed {
                blocking.push(Check::Signature);
            }
            let ghost w0 = warnings@.map_values(|w: String| w@);
            let standing = if (f.document.is_some() || f.has_identity) && !failed {
                if f.standing == Trust::Unknown {
                    warnings.push(UNKNOWN_TRUST_WARNING.to_owned());
                    assert(warnings@.map_values(|w: String| w@) =~= w0.push(UNKNOWN_TRUST_WARNING@));
                } else {
                    assert(warnings@.map_values(|w: String| w@) =~= w0);
                }
                f.standing
            } else {
                let text = string_of(concat(chars_of("signature: ").as_slice(), chars_of(signature).as_slice()).as_slice());
                warnings.push(text);
                assert(warnings@.map_values(|w: String| w@) =~= w0.push("signature: "@ + signature_spec(f.signature)));
                Trust::Unknown
            };
            if standing.blocks() {
                blocking.push(Check::Publisher);
            }
            let ghost w1 = warnings@.map_values(|w: String| w@);
            let integrity = match &f.recorded_integrity {
                Some(h) => {
                    let a = chars_of(h.as_str());
                    if crate::text::eq_str(a.as_slice(), f.actual_integrity.as_str()) {
                        "valid"
                    } else {
                        blocking.push(Check::Integrity);
                        "invalid"
                    }
                },
                None => {
                    warnings.push(UNKNOWN_INTEGRITY_WARNING.to_owned());
                    assert(warnings@.map_values(|w: String| w@) =~= w1.push(UNKNOWN_INTEGRITY_WARNING@));
                    "unknown"
                },
            };
            let compatibility = if f.compatible {
                "compatible"
            } else {
                blocking.push(Check::Compatibility);
                "incompatible"
            };
            assert(blocking@ =~= blocking_spec(problems as nat, facts));
            assert(warnings@.map_values(|w: String| w@) =~= warnings_spec(facts));
            VerificationOutcome {
                package: f.id.as_str().to_owned(),
                integrity,
                signature,
                publisher,
                key,
                trust: standing,
                compatibility,
                manifest: "valid",
                runtime: isolation(f.runtime),
                blocking,
                warnings,
            }
        },
    }
}

/// The SHA-256 digest of a byte string.
pub uninterp spec fn sha256_digest(data: Seq<u8>) -> Seq<u8>;

/// The SHA-256 digest of `data`.
///
/// Trusted: `sha2::Sha256::digest`, which computes the 32-byte SHA-256 digest of its input.
/// Said here: the result is a function of the input alone, and is 32 bytes long.
#[verifier::external_body]
pub(crate) fn sha256(data: &[u8]) -> (r: Vec<u8>)
    ensures
        r@ == sha256_digest(data@),
        r@.len() == 32,
{
    sha2::Sha256::digest(data).to_vec()
}

/// The identity bytes made of the first sixteen bytes of `digest`, marked as a version 4,
/// RFC 4122 variant identifier.
pub open spec fn identity_bytes(digest: Seq<u8>) -> Seq<u8> {
    Seq::new(16, |i: int|
        if i == 6 {
            (0x40u8 | (digest[6] & 0x0fu8)) as u8
        } else if i == 8 {
            (0x80u8 | (digest[8] & 0x3fu8)) as u8
        } else {
            digest[i]
        })
}

/// The identity bytes of `digest`'s first sixteen bytes.
pub fn identity_of_digest(digest: &[u8]) -> (r: [u8; 16])
    requires
        digest@.len() >= 16,
    ensures
        r@ == identity_bytes(digest@),
{
    let mut bytes = [0u8; 16];
    let mut i: usize = 0;
    while i < 16
        invariant
            i <= 16,
            digest@.len() >= 16,
            forall|j: int| 0 <= j < i ==> bytes@[j] == digest@[j],
        decreases 16 - i,
    {
        bytes[i] = digest[i];
        i = i + 1;
    }
    let b6 = 0x40u8 | (bytes[6] & 0x0fu8);
    bytes[6] = b6;
    let b8 = 0x80u8 | (bytes[8] & 0x3fu8);
    bytes[8] = b8;
    assert(bytes@ =~= identity_bytes(digest@));
    bytes
}

/// A capability definition's identity: the same capability is the same row in every session,
/// because it is derived from the SHA-256 digest of the capability's id.
pub fn definition_id(capability: &str) -> (r: [u8; 16])
    ensures
        r@ == identity_bytes(sha256_digest(capability.spec_bytes())),
{
    let digest = sha256(capability.as_bytes());
    identity_of_digest(digest.as_slice())
}

/// A session's nonce, from the clock's nanoseconds and the process id: what tells this
/// session's minted identities from every other session's. Never zero.
pub open spec fn nonce_spec(nanos: u128, pid: u32) -> u32 {
    let mixed = (nanos as u64) ^ ((pid as u64) << 32u64);
    let folded = ((mixed as u32) ^ ((mixed >> 32u64) as u32)) as u32;
    if folded == 0 { 1 } else { folded }
}

/// A session's nonce, from the clock's nanoseconds and the process id.
pub fn session_nonce(nanos: u128, pid: u32) -> (r: u32)
    ensures
        r == nonce_spec(nanos, pid),
        r != 0,
{
    let mixed: u64 = (nanos as u64) ^ ((pid as u64) << 32u64);
    let folded: u32 = (mixed as u32) ^ ((mixed >> 32u64) as u32);
    if folded == 0 {
        1
    } else {
        folded
    }
}

/// The bytes of the `minted`-th identity of the session with `nonce`: the nonce in bytes 2 to
/// 5, the version and variant marks in bytes 6 and 8 with nonce bytes folded beside them, and
/// the low six bytes of the counter last.
pub open spec fn minted_bytes(nonce: u32, minted: u64) -> Seq<u8> {
    let n = seq![(nonce >> 24u32) as u8, (nonce >> 16u32) as u8, (nonce >> 8u32) as u8, nonce as u8];
    let c = seq![
        (minted >> 56u64) as u8, (minted >> 48u64) as u8, (minted >> 40u64) as u8, (minted >> 32u64) as u8,
        (minted >> 24u64) as u8, (minted >> 16u64) as u8, (minted >> 8u64) as u8, minted as u8
    ];
    seq![0u8, 0u8, n[0], n[1], n[2], n[3], 0x40u8, (n[3] ^ n[0]) as u8, 0x80u8, (n[2] ^ n[1]) as u8]
        + c.subrange(2, 8)
}

/// The bytes of the `minted`-th identity of the session with `nonce`.
pub fn mint_bytes(nonce: u32, minted: u64) -> (r: [u8; 16])
    ensures
        r@ == minted_bytes(nonce, minted),
{
    let n0 = (nonce >> 24u32) as u8;
    let n1 = (nonce >> 16u32) as u8;
    let n2 = (nonce >> 8u32) as u8;
    let n3 = nonce as u8;
    let bytes: [u8; 16] = [
        0u8,
        0u8,
        n0,
        n1,
        n2,
        n3,
        0x40u8,
        n3 ^ n0,
        0x80u8,
        n2 ^ n1,
        (minted >> 40u64) as u8,
        (minted >> 32u64) as u8,
        (minted >> 24u64) as u8,
        (minted >> 16u64) as u8,
        (minted >> 8u64) as u8,
        minted as u8,
    ];
    assert(bytes@ =~= minted_bytes(nonce, minted));
    bytes
}

// --- what an instance reports -----------------------------------------------------------------

/// Why a loaded instance is degraded: each optional capability it was denied, as
/// `<capability> not granted (<reason>)`, separated by `; `; nothing when none was.
pub open spec fn degraded_spec(denied: Seq<(Seq<char>, Seq<char>)>) -> Option<Seq<char>> {
    if denied.len() == 0 {
        None
    } else {
        Some(crate::text::interspersed(
            denied.map_values(|d: (Seq<char>, Seq<char>)| d.0 + " not granted ("@ + d.1 + ")"@),
            "; "@,
        ))
    }
}

/// Why a loaded instance is degraded, from the capabilities it was denied with their reasons.
pub fn degraded_reason(denied: &Vec<(String, String)>) -> (r: Option<String>)
    ensures
        crate::hosts::opt_view(r) == degraded_spec(denied@.map_values(|d: (String, String)| (d.0@, d.1@))),
{
    let ghost dv = denied@.map_values(|d: (String, String)| (d.0@, d.1@));
    if denied.len() == 0 {
        return None;
    }
    let mut parts: Vec<String> = Vec::new();
    let mut i: usize = 0;
    while i < denied.len()
        invariant
            i <= denied.len(),
            dv == denied@.map_values(|d: (String, String)| (d.0@, d.1@)),
            parts@.map_values(|p: String| p@) == dv.take(i as int).map_values(
                |d: (Seq<char>, Seq<char>)| d.0 + " not granted ("@ + d.1 + ")"@,
            ),
        decreases denied.len() - i,
    {
        let mut part = crate::text::joined(denied[i].0.as_str(), " not granted (");
        crate::text::append(&mut part, denied[i].1.as_str());
        crate::text::append(&mut part, ")");
        let ghost before = parts@.map_values(|p: String| p@);
        parts.push(part);
        assert(parts@.map_values(|p: String| p@) =~= before.push(part@));
        i = i + 1;
        assert(dv.take(i as int).map_values(|d: (Seq<char>, Seq<char>)| d.0 + " not granted ("@ + d.1 + ")"@) =~= dv.take(
            i - 1,
        ).map_values(|d: (Seq<char>, Seq<char>)| d.0 + " not granted ("@ + d.1 + ")"@).push(dv[i - 1].0 + " not granted ("@ + dv[i - 1].1 + ")"@));
    }
    assert(dv.take(denied.len() as int) =~= dv);
    Some(crate::text::join_with(&parts, "; "))
}

/// The state a capability request is reported in: with no instance loaded, not requested yet;
/// else granted when the instance's contract holds a grant of it, and denied when not.
pub open spec fn request_state_spec(loaded: bool, granted: bool) -> Seq<char> {
    if !loaded {
        "not-requested-yet"@
    } else if granted {
        "granted"@
    } else {
        "denied"@
    }
}

/// The state a capability request is reported in.
pub fn request_state(loaded: bool, granted: bool) -> (r: &'static str)
    ensures
        r@ == request_state_spec(loaded, granted),
{
    if !loaded {
        "not-requested-yet"
    } else if granted {
        "granted"
    } else {
        "denied"
    }
}

/// Where `install plugin` places a package: under the first directory of the plugin path, by
/// its id; nowhere when no plugin home is configured.
pub fn install_destination(plugin_path: &Vec<String>, id: &str) -> (r: Option<String>)
    ensures
        crate::hosts::opt_view(r) == if plugin_path.len() == 0 {
            None
        } else {
            Some(crate::hosts::path_join(plugin_path@[0]@, id@))
        },
{
    if plugin_path.len() == 0 {
        None
    } else {
        Some(crate::hosts::join_path(plugin_path[0].as_str(), id))
    }
}

// --- laws --------------------------------------------------------------------------------------

/// A revocation anywhere wins: a signer revoked by key or by identity is untrusted, whatever
/// the other signature earns, and a package it signed is blocked.
pub proof fn law_revocation_blocks(other: Option<Trust>, instance: Option<InstanceState>, enabled: bool, undecided: nat)
    requires
        instance != Some(InstanceState::Active),
    ensures
        standing_spec(false, Some(Trust::Untrusted), other) == Trust::Untrusted,
        standing_spec(false, other, Some(Trust::Untrusted)) == Trust::Untrusted,
        readiness_spec(instance, enabled, false, Trust::Untrusted, undecided) == "blocked"@,
{
}

/// A package whose signature does not verify earns no standing and is never ready.
pub proof fn law_failed_signature_blocks(by_key: Option<Trust>, by_identity: Option<Trust>, instance: Option<InstanceState>, enabled: bool, standing: Trust, undecided: nat)
    requires
        instance != Some(InstanceState::Active),
    ensures
        standing_spec(true, by_key, by_identity) == Trust::Unknown,
        readiness_spec(instance, enabled, true, standing, undecided) == "blocked"@,
{
}

/// An unreadable trust store is not an empty one: every store that could not be read blocks a
/// verification, whatever the package is.
pub proof fn law_unreadable_store_blocks(problems: nat, facts: Option<PackageFacts>)
    requires
        problems > 0,
    ensures
        blocking_spec(problems, facts).len() > 0,
        blocking_spec(problems, facts)[0] == Check::Publisher,
{
    let stores = Seq::new(problems, |i: int| Check::Publisher);
    match facts {
        None => {
            assert(blocking_spec(problems, facts)[0] == stores[0]);
        },
        Some(f) => {
            let a = if f.signature == SignatureState::Invalid { seq![Check::Signature] } else { seq![] };
            let b = if reported_standing(f) == Trust::Untrusted { seq![Check::Publisher] } else { seq![] };
            let c = match f.recorded_integrity {
                Some(h) => if h@ != f.actual_integrity@ { seq![Check::Integrity] } else { seq![] },
                None => seq![],
            };
            let d = if !f.compatible { seq![Check::Compatibility] } else { seq![] };
            assert(blocking_spec(problems, facts) == stores + a + b + c + d);
            assert((stores + a + b + c + d)[0] == stores[0]);
        },
    }
}

/// Bytes that are not the ones recorded at install block a verification.
pub proof fn law_changed_bytes_block(problems: nat, f: PackageFacts)
    requires
        f.recorded_integrity matches Some(h) && h@ != f.actual_integrity@,
    ensures
        blocking_spec(problems, Some(f)).contains(Check::Integrity),
{
    let stores = Seq::new(problems, |i: int| Check::Publisher);
    let a = if f.signature == SignatureState::Invalid { seq![Check::Signature] } else { seq![] };
    let b = if reported_standing(f) == Trust::Untrusted { seq![Check::Publisher] } else { seq![] };
    let c = seq![Check::Integrity];
    let d = if !f.compatible { seq![Check::Compatibility] } else { seq![] };
    let all = stores + a + b + c + d;
    assert(all[(stores.len() + a.len() + b.len()) as int] == Check::Integrity);
}

} // verus!
