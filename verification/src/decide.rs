//! Executing a permission decision: an `allow` revokes what the permission minted before,
//! forgets the session's remembered denials of it, mints one grant per template and records the
//! decision; a `deny` revokes and records a deny the broker holds ahead of any grant; an `ask`
//! revokes and forgets, so the next concrete need asks again. A profile is applied as a run of
//! allows. Nothing here is a second security engine: a decision is ordinary grants, and the
//! record that links a person's intention to them.

use vstd::prelude::*;

use crate::grants::{
    copy_scope, event_spec, grants_view, identity_text, identity_text_spec, matching_revocations, opt_scope_view,
    distinct_ids, lemma_target_is_unrevoked, revoke_matching_spec, revoke_target, revoked, stands, EventView, Grant, GrantLedger, GrantView, Scope,
};
use crate::host::{minted_bytes, GrantOrigin};
use crate::hosts::{copy_opt, opt_view};
use crate::invocation::strings_view;
use crate::permissions::{
    copy_strings, find_decision, insert_scope, scope_insert, scope_view, without, DecisionStore, DecisionView, RecordView,
};
use crate::text::{chars_eq, chars_of, eq_str, opt_str, string_of};

verus! {

/// One grant template of a permission, as a decision mints it: the capability, the scope it
/// resolved to for the package, and the class the manifest declares the capability under.
#[derive(Debug)]
pub struct Template {
    /// The capability id.
    pub capability: String,
    /// The concrete scope, when the template has one for this package.
    pub scope: Option<Scope>,
    /// The declaration class, as the caller spells it.
    pub class: Option<String>,
}

/// A template as plain values.
pub struct TemplateView {
    pub capability: Seq<char>,
    pub scope: Option<Seq<(Seq<char>, Seq<Seq<char>>)>>,
    pub class: Option<Seq<char>>,
}

impl View for Template {
    type V = TemplateView;

    open spec fn view(&self) -> TemplateView {
        TemplateView { capability: self.capability@, scope: opt_scope_view(self.scope), class: opt_view(self.class) }
    }
}

/// The templates as plain values.
pub open spec fn templates_view(v: Seq<Template>) -> Seq<TemplateView> {
    v.map_values(|t: Template| t@)
}

// --- templates ----------------------------------------------------------------------------------

/// The scope a template resolves to: its own, with each key a request names set to the values
/// the request names; the request's alone where the template has none.
pub open spec fn resolve_scope_spec(
    base: Option<Seq<(Seq<char>, Seq<Seq<char>>)>>,
    named: Option<Seq<(Seq<char>, Seq<Seq<char>>)>>,
) -> Option<Seq<(Seq<char>, Seq<Seq<char>>)>> {
    match (base, named) {
        (b, None) => b,
        (None, Some(n)) => Some(n),
        (Some(b), Some(n)) => Some(insert_all(b, n)),
    }
}

/// `scope` with each key of `named`, in order, set to its values.
pub open spec fn insert_all(
    scope: Seq<(Seq<char>, Seq<Seq<char>>)>,
    named: Seq<(Seq<char>, Seq<Seq<char>>)>,
) -> Seq<(Seq<char>, Seq<Seq<char>>)>
    decreases named.len(),
{
    if named.len() == 0 {
        scope
    } else {
        let rest = insert_all(scope, named.drop_last());
        scope_insert(rest, named.last().0, named.last().1)
    }
}

/// The scope a template resolves to, given the scope it carries for this package and the one a
/// request names.
pub fn resolve_scope(base: Option<Scope>, named: Option<&Scope>) -> (r: Option<Scope>)
    ensures
        opt_scope_view(r) == resolve_scope_spec(
            opt_scope_view(base),
            match named {
                Some(n) => Some(scope_view(n@)),
                None => None,
            },
        ),
{
    match (base, named) {
        (b, None) => b,
        (None, Some(n)) => Some(copy_scope(n)),
        (Some(mut b), Some(n)) => {
            let ghost nv = scope_view(n@);
            let ghost start = scope_view(b@);
            let mut i: usize = 0;
            while i < n.len()
                invariant
                    i <= n.len(),
                    nv == scope_view(n@),
                    scope_view(b@) == insert_all(start, nv.take(i as int)),
                decreases n.len() - i,
            {
                let key = string_of(chars_of(n[i].0.as_str()).as_slice());
                let values = copy_strings(&n[i].1);
                insert_scope(&mut b, key, values);
                proof {
                    assert(nv.take(i + 1).drop_last() =~= nv.take(i as int));
                    assert(nv[i as int] == (n@[i as int].0@, strings_view(n@[i as int].1@)));
                }
                i = i + 1;
            }
            assert(nv.take(n.len() as int) =~= nv);
            Some(b)
        },
    }
}

/// The class a manifest declares a capability under: that of the first request of it, in the
/// order required, optional, runtime-requested.
pub open spec fn declared_class_spec(requests: Seq<(Seq<char>, Seq<char>)>, capability: Seq<char>) -> Option<Seq<char>>
    decreases requests.len(),
{
    if requests.len() == 0 {
        None
    } else if requests[0].0 == capability {
        Some(requests[0].1)
    } else {
        declared_class_spec(requests.drop_first(), capability)
    }
}

/// The class a manifest declares a capability under; `requests` are its capability requests,
/// each with its class's word, in the manifest's order.
pub fn declared_class(requests: &Vec<(String, String)>, capability: &str) -> (r: Option<String>)
    ensures
        opt_view(r) == declared_class_spec(requests@.map_values(|q: (String, String)| (q.0@, q.1@)), capability@),
{
    let ghost rv = requests@.map_values(|q: (String, String)| (q.0@, q.1@));
    let c = chars_of(capability);
    let mut i: usize = 0;
    assert(rv.skip(0) =~= rv);
    while i < requests.len()
        invariant
            i <= requests.len(),
            rv == requests@.map_values(|q: (String, String)| (q.0@, q.1@)),
            c@ == capability@,
            declared_class_spec(rv, capability@) == declared_class_spec(rv.skip(i as int), capability@),
        decreases requests.len() - i,
    {
        assert(rv.skip(i as int)[0] == rv[i as int]);
        if eq_str(c.as_slice(), requests[i].0.as_str()) {
            return Some(string_of(chars_of(requests[i].1.as_str()).as_slice()));
        }
        assert(rv.skip(i as int).drop_first() =~= rv.skip(i + 1));
        i = i + 1;
    }
    None
}

/// A permission as its decisions execute it.
#[derive(Debug)]
pub struct Permission {
    /// Its id.
    pub id: String,
    /// The grants it mints, one per template.
    pub templates: Vec<Template>,
    /// The capabilities it resolves to: what a `deny` holds ahead of any grant.
    pub capabilities: Vec<String>,
    /// Whether the host includes it without a question.
    pub automatic: bool,
}

/// A permission as plain values.
pub struct PermissionView {
    pub id: Seq<char>,
    pub templates: Seq<TemplateView>,
    pub capabilities: Seq<Seq<char>>,
    pub automatic: bool,
}

impl View for Permission {
    type V = PermissionView;

    open spec fn view(&self) -> PermissionView {
        PermissionView {
            id: self.id@,
            templates: templates_view(self.templates@),
            capabilities: strings_view(self.capabilities@),
            automatic: self.automatic,
        }
    }
}

/// The permissions as plain values.
pub open spec fn permissions_view(v: Seq<Permission>) -> Seq<PermissionView> {
    v.map_values(|p: Permission| p@)
}

/// What the host keeps of the human layer: the grants with the host's events, and the
/// decisions with the session's remembered denials.
pub struct PermissionHost {
    /// The grants and the host's events.
    pub grants: GrantLedger,
    /// The decisions and the remembered denials.
    pub decisions: DecisionStore,
}

/// The host's state as plain values.
pub struct HostState {
    pub grants: Seq<GrantView>,
    pub events: Seq<EventView>,
    pub nonce: u32,
    pub minted: nat,
    pub decisions: Seq<DecisionView>,
    pub denials: Seq<(Seq<char>, Seq<char>, Seq<char>)>,
}

impl PermissionHost {
    /// The host's state as plain values.
    pub open spec fn state(&self) -> HostState {
        HostState {
            grants: self.grants.grant_list(),
            events: self.grants.event_list(),
            nonce: self.grants.nonce_of(),
            minted: self.grants.minted_count() as nat,
            decisions: self.decisions@.decisions,
            denials: self.decisions@.denials,
        }
    }

    /// Both halves keep their invariants.
    pub open spec fn wf(&self) -> bool {
        self.grants.wf() && self.decisions.wf()
    }
}

/// The duration a decision keeps: `session`, or else `always`.
pub open spec fn kept_duration(duration: Seq<char>) -> Seq<char> {
    if duration == "session"@ { "session"@ } else { "always"@ }
}

/// The grants an allow mints, one per template, the `k`-th with the session's
/// `base + 2k + 1`-th identity (each grant's event takes the identity after it).
pub open spec fn minted_spec(
    templates: Seq<TemplateView>,
    plugin: Seq<char>,
    permission: Seq<char>,
    source: Seq<char>,
    duration: Seq<char>,
    profile: Option<Seq<char>>,
    correlation: Option<Seq<char>>,
    now: i128,
    nonce: u32,
    base: nat,
) -> Seq<GrantView> {
    Seq::new(
        templates.len(),
        |k: int|
            GrantView {
                id: minted_bytes(nonce, (base + 2 * k + 1) as u64),
                plugin,
                capability: templates[k].capability,
                scope: templates[k].scope,
                class: templates[k].class,
                source,
                duration,
                granted_at: now,
                expires_at: None,
                revoked_at: None,
                permission: Some(permission),
                profile,
                correlation,
            },
    )
}

/// The `capability.grant` events of the grants an allow mints.
pub open spec fn minted_events(
    templates: Seq<TemplateView>,
    plugin: Seq<char>,
    correlation: Option<Seq<char>>,
    now: i128,
    nonce: u32,
    base: nat,
) -> Seq<EventView> {
    Seq::new(
        templates.len(),
        |k: int|
            event_spec(
                nonce,
                (base + 2 * k + 2) as u64,
                plugin,
                templates[k].capability,
                "capability.grant"@,
                now,
                true,
                correlation,
            ),
    )
}

/// The identities of grants as text.
pub open spec fn grant_ids(gs: Seq<GrantView>) -> Seq<Seq<char>> {
    gs.map_values(|g: GrantView| identity_text_spec(g.id))
}

/// The denials left once those of `plugin`'s `permission` are forgotten.
pub open spec fn forget_denials_spec(
    denials: Seq<(Seq<char>, Seq<char>, Seq<char>)>,
    plugin: Seq<char>,
    permission: Seq<char>,
) -> Seq<(Seq<char>, Seq<char>, Seq<char>)> {
    denials.filter(|t: (Seq<char>, Seq<char>, Seq<char>)| !(t.0 == plugin && t.1 == permission))
}

/// The decision recorded about `plugin`'s `permission`: replacing the one before, whose
/// creation time it keeps.
pub open spec fn recorded(
    decisions: Seq<DecisionView>,
    plugin: Seq<char>,
    permission: Seq<char>,
    decision: Seq<char>,
    duration: Seq<char>,
    profile: Option<Seq<char>>,
    grants: Seq<Seq<char>>,
    capabilities: Seq<Seq<char>>,
    version: Seq<char>,
    publisher: Seq<char>,
    now_text: Seq<char>,
) -> Seq<DecisionView> {
    without(decisions, plugin, permission).push(
        DecisionView {
            plugin,
            permission,
            record: RecordView {
                decision,
                duration,
                profile,
                created_at: match find_decision(decisions, plugin, permission) {
                    Some(existing) => existing.record.created_at,
                    None => now_text,
                },
                updated_at: now_text,
                grants,
                capabilities,
                package_version: version,
                publisher,
            },
        },
    )
}

/// What an `allow` of `permission` for `plugin` makes of the host's state, and the grants it
/// minted: the permission's standing grants revoked (stamped with the request), its remembered
/// denials forgotten, one grant per template, the decision recorded with those grants, and the
/// event `permission.allow`.
pub open spec fn allow_spec(
    s: HostState,
    plugin: Seq<char>,
    permission: PermissionView,
    duration: Seq<char>,
    source: Seq<char>,
    profile: Option<Seq<char>>,
    correlation: Seq<char>,
    version: Seq<char>,
    publisher: Seq<char>,
    now: i128,
    now_text: Seq<char>,
) -> (HostState, Seq<GrantView>) {
    let taken = matching_revocations(s.grants, plugin, Some(permission.id), Some(correlation), now, s.nonce, s.minted as u64);
    let base = s.minted + taken.len();
    let kept = kept_duration(duration);
    let minted = minted_spec(permission.templates, plugin, permission.id, source, kept, profile, Some(correlation), now, s.nonce, base);
    let n = permission.templates.len();
    (
        HostState {
            grants: revoke_matching_spec(s.grants, plugin, Some(permission.id), Some(correlation), now) + minted,
            events: s.events + taken + minted_events(permission.templates, plugin, Some(correlation), now, s.nonce, base)
                + seq![event_spec(s.nonce, (base + 2 * n + 1) as u64, plugin, permission.id, "permission.allow"@, now, true, Some(correlation))],
            nonce: s.nonce,
            minted: base + 2 * n + 1,
            decisions: recorded(
                s.decisions,
                plugin,
                permission.id,
                "allow"@,
                kept,
                profile,
                grant_ids(minted),
                permission.capabilities,
                version,
                publisher,
                now_text,
            ),
            denials: forget_denials_spec(s.denials, plugin, permission.id),
        },
        minted,
    )
}

/// What a `deny` makes of the host's state: the permission's standing grants revoked, a deny
/// recorded for good holding its capabilities, and the event `permission.deny`.
pub open spec fn deny_spec(
    s: HostState,
    plugin: Seq<char>,
    permission: PermissionView,
    correlation: Seq<char>,
    version: Seq<char>,
    publisher: Seq<char>,
    now: i128,
    now_text: Seq<char>,
) -> HostState {
    let taken = matching_revocations(s.grants, plugin, Some(permission.id), Some(correlation), now, s.nonce, s.minted as u64);
    let base = s.minted + taken.len();
    HostState {
        grants: revoke_matching_spec(s.grants, plugin, Some(permission.id), Some(correlation), now),
        events: s.events + taken + seq![event_spec(s.nonce, (base + 1) as u64, plugin, permission.id, "permission.deny"@, now, false, Some(correlation))],
        nonce: s.nonce,
        minted: base + 1,
        decisions: recorded(
            s.decisions,
            plugin,
            permission.id,
            "deny"@,
            "always"@,
            None,
            seq![],
            permission.capabilities,
            version,
            publisher,
            now_text,
        ),
        denials: s.denials,
    }
}

/// What an `ask` makes of the host's state: the permission's standing grants revoked, its
/// decision and remembered denials forgotten, and the event `permission.ask`.
pub open spec fn ask_spec(s: HostState, plugin: Seq<char>, permission: Seq<char>, correlation: Seq<char>, now: i128) -> HostState {
    let taken = matching_revocations(s.grants, plugin, Some(permission), Some(correlation), now, s.nonce, s.minted as u64);
    let base = s.minted + taken.len();
    HostState {
        grants: revoke_matching_spec(s.grants, plugin, Some(permission), Some(correlation), now),
        events: s.events + taken + seq![event_spec(s.nonce, (base + 1) as u64, plugin, permission, "permission.ask"@, now, true, Some(correlation))],
        nonce: s.nonce,
        minted: base + 1,
        decisions: without(s.decisions, plugin, permission),
        denials: forget_denials_spec(s.denials, plugin, permission),
    }
}

/// Whether a decision denies `plugin`'s `permission`.
pub open spec fn denied(decisions: Seq<DecisionView>, plugin: Seq<char>, permission: Seq<char>) -> bool {
    find_decision(decisions, plugin, permission) matches Some(d) && d.record.decision == "deny"@
}

/// The allows a profile makes of the automatic permissions, in order: every one a decision does
/// not deny, as the automatic source, under the profile.
pub open spec fn automatic_allows(
    s: HostState,
    ds: Seq<PermissionView>,
    plugin: Seq<char>,
    profile: Seq<char>,
    duration: Seq<char>,
    correlation: Seq<char>,
    version: Seq<char>,
    publisher: Seq<char>,
    now: i128,
    now_text: Seq<char>,
) -> (HostState, Seq<GrantView>)
    decreases ds.len(),
{
    if ds.len() == 0 {
        (s, seq![])
    } else {
        let (s1, m1) = automatic_allows(s, ds.drop_last(), plugin, profile, duration, correlation, version, publisher, now, now_text);
        let d = ds.last();
        if denied(s1.decisions, plugin, d.id) {
            (s1, m1)
        } else {
            let (s2, m2) = allow_spec(s1, plugin, d, duration, "automatic"@, Some(profile), correlation, version, publisher, now, now_text);
            (s2, m1 + m2)
        }
    }
}

/// The allows a profile makes of the permissions it names, in order: every one the host does
/// not include by itself, as the prompt source, under the profile.
pub open spec fn named_allows(
    s: HostState,
    ds: Seq<PermissionView>,
    plugin: Seq<char>,
    profile: Seq<char>,
    duration: Seq<char>,
    correlation: Seq<char>,
    version: Seq<char>,
    publisher: Seq<char>,
    now: i128,
    now_text: Seq<char>,
) -> (HostState, Seq<GrantView>)
    decreases ds.len(),
{
    if ds.len() == 0 {
        (s, seq![])
    } else {
        let (s1, m1) = named_allows(s, ds.drop_last(), plugin, profile, duration, correlation, version, publisher, now, now_text);
        let d = ds.last();
        if d.automatic {
            (s1, m1)
        } else {
            let (s2, m2) = allow_spec(s1, plugin, d, duration, "prompt"@, Some(profile), correlation, version, publisher, now, now_text);
            (s2, m1 + m2)
        }
    }
}

/// The state once the event `permission.profile_apply` is recorded.
pub open spec fn profile_event(s: HostState, plugin: Seq<char>, profile: Seq<char>, correlation: Seq<char>, now: i128) -> HostState {
    HostState {
        events: s.events.push(
            event_spec(s.nonce, (s.minted + 1) as u64, plugin, profile, "permission.profile_apply"@, now, true, Some(correlation)),
        ),
        minted: s.minted + 1,
        ..s
    }
}

/// What applying a profile makes of the host's state, and the grants it minted: the event
/// `permission.profile_apply`, then an allow of every automatic permission no decision denies,
/// then of every permission the profile names that is not automatic.
pub open spec fn apply_profile_spec(
    s: HostState,
    automatic: Seq<PermissionView>,
    named: Seq<PermissionView>,
    plugin: Seq<char>,
    profile: Seq<char>,
    duration: Seq<char>,
    correlation: Seq<char>,
    version: Seq<char>,
    publisher: Seq<char>,
    now: i128,
    now_text: Seq<char>,
) -> (HostState, Seq<GrantView>) {
    let s0 = profile_event(s, plugin, profile, correlation, now);
    let (s1, m1) = automatic_allows(s0, automatic, plugin, profile, duration, correlation, version, publisher, now, now_text);
    let (s2, m2) = named_allows(s1, named, plugin, profile, duration, correlation, version, publisher, now, now_text);
    (s2, m1 + m2)
}

/// The capabilities of `plugin`'s grants that stand at `now`.
pub open spec fn standing_caps(gs: Seq<GrantView>, plugin: Seq<char>, now: i128) -> Seq<Seq<char>> {
    crate::grants::standing_of(gs, plugin, now).map_values(|g: GrantView| g.capability)
}

/// Whether every template's capability is among those of `plugin`'s standing grants.
pub open spec fn held(gs: Seq<GrantView>, plugin: Seq<char>, templates: Seq<TemplateView>, now: i128) -> bool {
    forall|k: int| 0 <= k < templates.len() ==> standing_caps(gs, plugin, now).contains(#[trigger] templates[k].capability)
}

/// What including the automatic permissions of a package placed by hand makes of the host's
/// state: for every one no decision denies and whose capabilities the standing grants do not all
/// hold, session grants of its templates, made by the automatic source, with no decision.
pub open spec fn ensure_automatic_spec(s: HostState, ds: Seq<PermissionView>, plugin: Seq<char>, now: i128) -> HostState
    decreases ds.len(),
{
    if ds.len() == 0 {
        s
    } else {
        let s1 = ensure_automatic_spec(s, ds.drop_last(), plugin, now);
        let d = ds.last();
        if denied(s1.decisions, plugin, d.id) || held(s1.grants, plugin, d.templates, now) {
            s1
        } else {
            HostState {
                grants: s1.grants + minted_spec(d.templates, plugin, d.id, "automatic"@, "session"@, None, None, now, s1.nonce, s1.minted),
                events: s1.events + minted_events(d.templates, plugin, None, now, s1.nonce, s1.minted),
                minted: s1.minted + 2 * d.templates.len(),
                ..s1
            }
        }
    }
}

/// An allow never lowers the count of minted identities.
proof fn lemma_allow_mints_more(
    s: HostState,
    plugin: Seq<char>,
    d: PermissionView,
    duration: Seq<char>,
    source: Seq<char>,
    profile: Option<Seq<char>>,
    correlation: Seq<char>,
    version: Seq<char>,
    publisher: Seq<char>,
    now: i128,
    now_text: Seq<char>,
)
    ensures
        allow_spec(s, plugin, d, duration, source, profile, correlation, version, publisher, now, now_text).0.minted > s.minted,
        allow_spec(s, plugin, d, duration, source, profile, correlation, version, publisher, now, now_text).0.nonce == s.nonce,
{
}

/// The allows of a prefix of the automatic permissions mint no more than those of them all.
proof fn lemma_automatic_prefix(
    s: HostState,
    ds: Seq<PermissionView>,
    plugin: Seq<char>,
    profile: Seq<char>,
    duration: Seq<char>,
    correlation: Seq<char>,
    version: Seq<char>,
    publisher: Seq<char>,
    now: i128,
    now_text: Seq<char>,
    k: int,
)
    requires
        0 <= k <= ds.len(),
    ensures
        automatic_allows(s, ds.take(k), plugin, profile, duration, correlation, version, publisher, now, now_text).0.minted
            <= automatic_allows(s, ds, plugin, profile, duration, correlation, version, publisher, now, now_text).0.minted,
        automatic_allows(s, ds, plugin, profile, duration, correlation, version, publisher, now, now_text).0.nonce == s.nonce,
    decreases ds.len() - k,
{
    if k < ds.len() {
        lemma_automatic_prefix(s, ds, plugin, profile, duration, correlation, version, publisher, now, now_text, k + 1);
        assert(ds.take(k + 1).drop_last() =~= ds.take(k));
        let s1 = automatic_allows(s, ds.take(k), plugin, profile, duration, correlation, version, publisher, now, now_text).0;
        lemma_allow_mints_more(s1, plugin, ds[k], duration, "automatic"@, Some(profile), correlation, version, publisher, now, now_text);
    } else {
        assert(ds.take(k) =~= ds);
        lemma_automatic_nonce(s, ds, plugin, profile, duration, correlation, version, publisher, now, now_text);
    }
}

proof fn lemma_automatic_nonce(
    s: HostState,
    ds: Seq<PermissionView>,
    plugin: Seq<char>,
    profile: Seq<char>,
    duration: Seq<char>,
    correlation: Seq<char>,
    version: Seq<char>,
    publisher: Seq<char>,
    now: i128,
    now_text: Seq<char>,
)
    ensures
        automatic_allows(s, ds, plugin, profile, duration, correlation, version, publisher, now, now_text).0.nonce == s.nonce,
        automatic_allows(s, ds, plugin, profile, duration, correlation, version, publisher, now, now_text).0.minted >= s.minted,
    decreases ds.len(),
{
    if ds.len() > 0 {
        lemma_automatic_nonce(s, ds.drop_last(), plugin, profile, duration, correlation, version, publisher, now, now_text);
    }
}

/// The allows of a prefix of the named permissions mint no more than those of them all.
proof fn lemma_named_prefix(
    s: HostState,
    ds: Seq<PermissionView>,
    plugin: Seq<char>,
    profile: Seq<char>,
    duration: Seq<char>,
    correlation: Seq<char>,
    version: Seq<char>,
    publisher: Seq<char>,
    now: i128,
    now_text: Seq<char>,
    k: int,
)
    requires
        0 <= k <= ds.len(),
    ensures
        named_allows(s, ds.take(k), plugin, profile, duration, correlation, version, publisher, now, now_text).0.minted
            <= named_allows(s, ds, plugin, profile, duration, correlation, version, publisher, now, now_text).0.minted,
    decreases ds.len() - k,
{
    if k < ds.len() {
        lemma_named_prefix(s, ds, plugin, profile, duration, correlation, version, publisher, now, now_text, k + 1);
        assert(ds.take(k + 1).drop_last() =~= ds.take(k));
        let s1 = named_allows(s, ds.take(k), plugin, profile, duration, correlation, version, publisher, now, now_text).0;
        lemma_allow_mints_more(s1, plugin, ds[k], duration, "prompt"@, Some(profile), correlation, version, publisher, now, now_text);
    } else {
        assert(ds.take(k) =~= ds);
    }
}

proof fn lemma_ensure_prefix(s: HostState, ds: Seq<PermissionView>, plugin: Seq<char>, now: i128, k: int)
    requires
        0 <= k <= ds.len(),
    ensures
        ensure_automatic_spec(s, ds.take(k), plugin, now).minted <= ensure_automatic_spec(s, ds, plugin, now).minted,
    decreases ds.len() - k,
{
    if k < ds.len() {
        lemma_ensure_prefix(s, ds, plugin, now, k + 1);
        assert(ds.take(k + 1).drop_last() =~= ds.take(k));
    } else {
        assert(ds.take(k) =~= ds);
    }
}

// --- an install's decisions, and undoing them -------------------------------------------------

/// The decisions left once those about each of `permissions` of `plugin` are forgotten.
pub open spec fn forget_all(decisions: Seq<DecisionView>, plugin: Seq<char>, permissions: Seq<Seq<char>>) -> Seq<DecisionView>
    decreases permissions.len(),
{
    if permissions.len() == 0 {
        decisions
    } else {
        without(forget_all(decisions, plugin, permissions.drop_last()), plugin, permissions.last())
    }
}

/// The permissions of `plugin` decided for another signing key than `publisher`: a retained
/// decision applies only to the publisher identity it was made for.
pub open spec fn stale_spec(decisions: Seq<DecisionView>, plugin: Seq<char>, publisher: Seq<char>) -> Seq<Seq<char>> {
    decisions.filter(|d: DecisionView| d.plugin == plugin && d.record.publisher != publisher).map_values(
        |d: DecisionView| d.permission,
    )
}

/// What an install makes of the human layer: the decisions made for another publisher key
/// forgotten, then, when the plan selected a profile, the profile applied for good. Answers the
/// state, the identities of the grants minted and the permissions decided — what undoing the
/// install revokes and forgets.
pub open spec fn install_spec(
    s: HostState,
    plugin: Seq<char>,
    publisher: Seq<char>,
    automatic: Seq<PermissionView>,
    named: Seq<PermissionView>,
    profile: Option<Seq<char>>,
    correlation: Seq<char>,
    version: Seq<char>,
    now: i128,
    now_text: Seq<char>,
) -> (HostState, Seq<Seq<u8>>, Seq<Seq<char>>) {
    let s1 = HostState { decisions: forget_all(s.decisions, plugin, stale_spec(s.decisions, plugin, publisher)), ..s };
    match profile {
        None => (s1, seq![], seq![]),
        Some(p) => {
            let (s2, minted) = apply_profile_spec(s1, automatic, named, plugin, p, "always"@, correlation, version, publisher, now, now_text);
            (
                s2,
                minted.map_values(|g: GrantView| g.id),
                named.map_values(|d: PermissionView| d.id) + automatic.map_values(|d: PermissionView| d.id),
            )
        },
    }
}

/// The state once the grant with identity `id` is revoked at `now`, when one still stands
/// unrevoked.
pub open spec fn revoke_spec(s: HostState, id: Seq<u8>, now: i128) -> HostState {
    match revoke_target(s.grants, id) {
        None => s,
        Some(i) => {
            let g = s.grants[i];
            HostState {
                grants: s.grants.update(i, revoked(g, now)),
                events: s.events.push(
                    event_spec(s.nonce, (s.minted + 1) as u64, g.plugin, g.capability, "capability.revoke"@, now, true, g.correlation),
                ),
                minted: s.minted + 1,
                ..s
            }
        },
    }
}

/// The state once each grant of `ids` is revoked, in order.
pub open spec fn revoke_ids(s: HostState, ids: Seq<Seq<u8>>, now: i128) -> HostState
    decreases ids.len(),
{
    if ids.len() == 0 {
        s
    } else {
        revoke_spec(revoke_ids(s, ids.drop_last(), now), ids.last(), now)
    }
}

/// What undoing an install makes of the human layer: the grants it minted revoked, and the
/// decisions it made forgotten.
pub open spec fn undo_spec(s: HostState, plugin: Seq<char>, ids: Seq<Seq<u8>>, permissions: Seq<Seq<char>>, now: i128) -> HostState {
    let s1 = revoke_ids(s, ids, now);
    HostState { decisions: forget_all(s1.decisions, plugin, permissions), ..s1 }
}

proof fn lemma_revoke_ids_prefix(s: HostState, ids: Seq<Seq<u8>>, now: i128, k: int)
    requires
        0 <= k <= ids.len(),
    ensures
        revoke_ids(s, ids.take(k), now).minted <= revoke_ids(s, ids, now).minted,
        revoke_ids(s, ids, now).nonce == s.nonce,
        revoke_ids(s, ids, now).decisions == s.decisions,
        revoke_ids(s, ids, now).denials == s.denials,
    decreases ids.len() - k,
{
    if k < ids.len() {
        lemma_revoke_ids_prefix(s, ids, now, k + 1);
        assert(ids.take(k + 1).drop_last() =~= ids.take(k));
    } else {
        assert(ids.take(k) =~= ids);
        lemma_revoke_ids_keeps(s, ids, now);
    }
}

proof fn lemma_revoke_ids_keeps(s: HostState, ids: Seq<Seq<u8>>, now: i128)
    ensures
        revoke_ids(s, ids, now).nonce == s.nonce,
        revoke_ids(s, ids, now).decisions == s.decisions,
        revoke_ids(s, ids, now).denials == s.denials,
        revoke_ids(s, ids, now).minted >= s.minted,
    decreases ids.len(),
{
    if ids.len() > 0 {
        lemma_revoke_ids_keeps(s, ids.drop_last(), now);
    }
}

impl PermissionHost {
    /// Executes an `allow` of `permission` for `plugin`: revokes the grants it minted before
    /// (stamped with the request `correlation` names), forgets the session's remembered denials
    /// of it, mints one grant per template, records the decision with those grants, and records
    /// the event `permission.allow`. Answers the grants. `now` stamps grants and events, and
    /// `now_text` the decision; writing `always` decisions and grants to disk is the caller's.
    pub fn allow(
        &mut self,
        plugin: &str,
        permission: &Permission,
        duration: &str,
        source: &str,
        profile: Option<&str>,
        correlation: &str,
        version: &str,
        publisher: &str,
        now: i128,
        now_text: &str,
    ) -> (r: Vec<Grant>)
        requires
            old(self).wf(),
            allow_spec(
                old(self).state(),
                plugin@,
                permission@,
                duration@,
                source@,
                opt_str(profile),
                correlation@,
                version@,
                publisher@,
                now,
                now_text@,
            ).0.minted <= u64::MAX,
        ensures
            final(self).wf(),
            final(self).state() == allow_spec(
                old(self).state(),
                plugin@,
                permission@,
                duration@,
                source@,
                opt_str(profile),
                correlation@,
                version@,
                publisher@,
                now,
                now_text@,
            ).0,
            grants_view(r@) == allow_spec(
                old(self).state(),
                plugin@,
                permission@,
                duration@,
                source@,
                opt_str(profile),
                correlation@,
                version@,
                publisher@,
                now,
                now_text@,
            ).1,
    {
        let ghost s0 = self.state();
        self.grants.revoke_permission_grants(plugin, permission.id.as_str(), correlation, now);
        self.decisions.forget_denials(plugin, permission.id.as_str());
        let kept = crate::permissions::duration_word(duration);
        let (minted, ids) = self.mint_all(plugin, permission, source, kept, profile, Some(correlation), now);
        self.decisions.record_decision_at(
            plugin,
            permission.id.as_str(),
            "allow",
            kept,
            profile,
            ids,
            copy_strings(&permission.capabilities),
            version,
            publisher,
            now_text,
        );
        self.grants.record_event(
            plugin,
            permission.id.as_str(),
            "permission.allow",
            true,
            Some(string_of(chars_of(correlation).as_slice())),
            now,
        );
        proof {
            let (s1, m) = allow_spec(
                s0,
                plugin@,
                permission@,
                duration@,
                source@,
                opt_str(profile),
                correlation@,
                version@,
                publisher@,
                now,
                now_text@,
            );
            assert(kept@ == kept_duration(duration@));
            assert(grants_view(minted@) =~= m);
            assert(self.state().grants =~= s1.grants);
            assert(self.state().events =~= s1.events);
            assert(self.state().decisions =~= s1.decisions);
            assert(self.state().denials =~= s1.denials);
        }
        minted
    }

    /// Executes a `deny` of `permission` for `plugin`: revokes the grants it minted (stamped
    /// with the request), records a deny the broker holds ahead of any grant, and records the
    /// event `permission.deny`.
    pub fn deny(
        &mut self,
        plugin: &str,
        permission: &Permission,
        correlation: &str,
        version: &str,
        publisher: &str,
        now: i128,
        now_text: &str,
    )
        requires
            old(self).wf(),
            deny_spec(old(self).state(), plugin@, permission@, correlation@, version@, publisher@, now, now_text@).minted <= u64::MAX,
        ensures
            final(self).wf(),
            final(self).state() == deny_spec(old(self).state(), plugin@, permission@, correlation@, version@, publisher@, now, now_text@),
    {
        let ghost s0 = self.state();
        self.grants.revoke_permission_grants(plugin, permission.id.as_str(), correlation, now);
        let none: Vec<String> = Vec::new();
        assert(strings_view(none@) =~= Seq::<Seq<char>>::empty());
        self.decisions.record_decision_at(
            plugin,
            permission.id.as_str(),
            "deny",
            "always",
            None,
            none,
            copy_strings(&permission.capabilities),
            version,
            publisher,
            now_text,
        );
        self.grants.record_event(
            plugin,
            permission.id.as_str(),
            "permission.deny",
            false,
            Some(string_of(chars_of(correlation).as_slice())),
            now,
        );
        proof {
            let s1 = deny_spec(s0, plugin@, permission@, correlation@, version@, publisher@, now, now_text@);
            assert(self.state().grants =~= s1.grants);
            assert(self.state().events =~= s1.events);
            assert(self.state().decisions =~= s1.decisions);
            assert(self.state().denials =~= s1.denials);
        }
    }

    /// Executes an `ask` of `permission` for `plugin`: revokes the grants it minted (stamped
    /// with the request), forgets its decision and the session's remembered denials of it, so
    /// the next concrete need asks again, and records the event `permission.ask`.
    pub fn ask(&mut self, plugin: &str, permission: &str, correlation: &str, now: i128)
        requires
            old(self).wf(),
            ask_spec(old(self).state(), plugin@, permission@, correlation@, now).minted <= u64::MAX,
        ensures
            final(self).wf(),
            final(self).state() == ask_spec(old(self).state(), plugin@, permission@, correlation@, now),
    {
        let ghost s0 = self.state();
        self.grants.revoke_permission_grants(plugin, permission, correlation, now);
        self.decisions.forget_decision(plugin, permission);
        self.decisions.forget_denials(plugin, permission);
        self.grants.record_event(plugin, permission, "permission.ask", true, Some(string_of(chars_of(correlation).as_slice())), now);
        proof {
            let s1 = ask_spec(s0, plugin@, permission@, correlation@, now);
            assert(self.state().grants =~= s1.grants);
            assert(self.state().events =~= s1.events);
            assert(self.state().decisions =~= s1.decisions);
            assert(self.state().denials =~= s1.denials);
        }
    }

    fn denies(&self, plugin: &str, permission: &str) -> (r: bool)
        ensures
            r == denied(self.decisions@.decisions, plugin@, permission@),
    {
        match self.decisions.decision(plugin, permission) {
            Some(d) => eq_str(chars_of(d.record.decision.as_str()).as_slice(), "deny"),
            None => false,
        }
    }

    /// Applies a profile: records the event `permission.profile_apply`, allows every automatic
    /// permission no decision denies (as the automatic source), then every permission the
    /// profile names that is not automatic (as the prompt source), each under the profile.
    /// Answers the grants minted.
    pub fn apply_profile(
        &mut self,
        plugin: &str,
        automatic: &Vec<Permission>,
        named: &Vec<Permission>,
        profile: &str,
        duration: &str,
        correlation: &str,
        version: &str,
        publisher: &str,
        now: i128,
        now_text: &str,
    ) -> (r: Vec<Grant>)
        requires
            old(self).wf(),
            apply_profile_spec(
                old(self).state(),
                permissions_view(automatic@),
                permissions_view(named@),
                plugin@,
                profile@,
                duration@,
                correlation@,
                version@,
                publisher@,
                now,
                now_text@,
            ).0.minted <= u64::MAX,
        ensures
            final(self).wf(),
            final(self).state() == apply_profile_spec(
                old(self).state(),
                permissions_view(automatic@),
                permissions_view(named@),
                plugin@,
                profile@,
                duration@,
                correlation@,
                version@,
                publisher@,
                now,
                now_text@,
            ).0,
            grants_view(r@) == apply_profile_spec(
                old(self).state(),
                permissions_view(automatic@),
                permissions_view(named@),
                plugin@,
                profile@,
                duration@,
                correlation@,
                version@,
                publisher@,
                now,
                now_text@,
            ).1,
    {
        let ghost av = permissions_view(automatic@);
        let ghost nv = permissions_view(named@);
        let ghost s0 = profile_event(self.state(), plugin@, profile@, correlation@, now);
        let ghost last = apply_profile_spec(self.state(), av, nv, plugin@, profile@, duration@, correlation@, version@, publisher@, now, now_text@);
        let ghost s1 = automatic_allows(s0, av, plugin@, profile@, duration@, correlation@, version@, publisher@, now, now_text@);
        proof {
            lemma_automatic_nonce(s0, av, plugin@, profile@, duration@, correlation@, version@, publisher@, now, now_text@);
            lemma_named_prefix(s1.0, nv, plugin@, profile@, duration@, correlation@, version@, publisher@, now, now_text@, 0);
            assert(nv.take(0) =~= Seq::<PermissionView>::empty());
        }
        self.grants.record_event(plugin, profile, "permission.profile_apply", true, Some(string_of(chars_of(correlation).as_slice())), now);
        assert(self.state().events =~= s0.events);
        let mut minted: Vec<Grant> = Vec::new();
        let mut i: usize = 0;
        assert(av.take(0) =~= Seq::<PermissionView>::empty());
        while i < automatic.len()
            invariant
                i <= automatic.len(),
                av == permissions_view(automatic@),
                self.wf(),
                self.state() == automatic_allows(s0, av.take(i as int), plugin@, profile@, duration@, correlation@, version@, publisher@, now, now_text@).0,
                grants_view(minted@) == automatic_allows(s0, av.take(i as int), plugin@, profile@, duration@, correlation@, version@, publisher@, now, now_text@).1,
                s1 == automatic_allows(s0, av, plugin@, profile@, duration@, correlation@, version@, publisher@, now, now_text@),
                s1.0.minted <= u64::MAX,
            decreases automatic.len() - i,
        {
            let d = &automatic[i];
            proof {
                assert(av.take(i + 1).drop_last() =~= av.take(i as int));
                assert(av[i as int] == d@);
                lemma_automatic_prefix(s0, av, plugin@, profile@, duration@, correlation@, version@, publisher@, now, now_text@, i + 1);
            }
            if !self.denies(plugin, d.id.as_str()) {
                let ghost before = grants_view(minted@);
                let mut more = self.allow(plugin, d, duration, "automatic", Some(profile), correlation, version, publisher, now, now_text);
                let ghost added = grants_view(more@);
                minted.append(&mut more);
                assert(grants_view(minted@) =~= before + added);
            }
            i = i + 1;
        }
        assert(av.take(automatic.len() as int) =~= av);
        let mut j: usize = 0;
        assert(nv.take(0) =~= Seq::<PermissionView>::empty());
        while j < named.len()
            invariant
                j <= named.len(),
                nv == permissions_view(named@),
                self.wf(),
                self.state() == named_allows(s1.0, nv.take(j as int), plugin@, profile@, duration@, correlation@, version@, publisher@, now, now_text@).0,
                grants_view(minted@) == s1.1 + named_allows(s1.0, nv.take(j as int), plugin@, profile@, duration@, correlation@, version@, publisher@, now, now_text@).1,
                last.0 == named_allows(s1.0, nv, plugin@, profile@, duration@, correlation@, version@, publisher@, now, now_text@).0,
                last.0.minted <= u64::MAX,
            decreases named.len() - j,
        {
            let d = &named[j];
            proof {
                assert(nv.take(j + 1).drop_last() =~= nv.take(j as int));
                assert(nv[j as int] == d@);
                lemma_named_prefix(s1.0, nv, plugin@, profile@, duration@, correlation@, version@, publisher@, now, now_text@, j + 1);
            }
            if !d.automatic {
                let ghost before = grants_view(minted@);
                let mut more = self.allow(plugin, d, duration, "prompt", Some(profile), correlation, version, publisher, now, now_text);
                let ghost added = grants_view(more@);
                minted.append(&mut more);
                assert(grants_view(minted@) =~= before + added);
                let ghost m1 = named_allows(s1.0, nv.take(j as int), plugin@, profile@, duration@, correlation@, version@, publisher@, now, now_text@).1;
                assert(s1.1 + (m1 + added) =~= (s1.1 + m1) + added);
            }
            j = j + 1;
        }
        assert(nv.take(named.len() as int) =~= nv);
        minted
    }

    fn all_held(standing: &Vec<Grant>, templates: &Vec<Template>) -> (r: bool)
        ensures
            r == (forall|k: int| 0 <= k < templates@.len() ==> grants_view(standing@).map_values(|g: GrantView| g.capability).contains(
                #[trigger] templates@[k]@.capability,
            )),
    {
        let ghost caps = grants_view(standing@).map_values(|g: GrantView| g.capability);
        let mut k: usize = 0;
        while k < templates.len()
            invariant
                k <= templates.len(),
                caps == grants_view(standing@).map_values(|g: GrantView| g.capability),
                forall|q: int| 0 <= q < k ==> caps.contains(#[trigger] templates@[q]@.capability),
            decreases templates.len() - k,
        {
            let want = chars_of(templates[k].capability.as_str());
            let mut found = false;
            let mut j: usize = 0;
            while j < standing.len()
                invariant
                    j <= standing.len(),
                    caps == grants_view(standing@).map_values(|g: GrantView| g.capability),
                    want@ == templates@[k as int]@.capability,
                    k < templates.len(),
                    found ==> caps.contains(want@),
                    !found ==> forall|q: int| 0 <= q < j ==> caps[q] != want@,
                decreases standing.len() - j,
            {
                assert(caps[j as int] == standing@[j as int].capability@);
                if chars_eq(chars_of(standing[j].capability.as_str()).as_slice(), want.as_slice()) {
                    found = true;
                    assert(caps[j as int] == want@);
                }
                j = j + 1;
            }
            if !found {
                assert(!caps.contains(want@));
                return false;
            }
            k = k + 1;
        }
        true
    }

    /// Includes the automatic permissions of a package placed by hand rather than installed:
    /// for every one no decision denies and whose capabilities its standing grants do not all
    /// hold at `now`, session grants of its templates, made by the automatic source, with no
    /// decision recorded.
    pub fn ensure_automatic(&mut self, plugin: &str, automatic: &Vec<Permission>, now: i128)
        requires
            old(self).wf(),
            ensure_automatic_spec(old(self).state(), permissions_view(automatic@), plugin@, now).minted <= u64::MAX,
        ensures
            final(self).wf(),
            final(self).state() == ensure_automatic_spec(old(self).state(), permissions_view(automatic@), plugin@, now),
    {
        let ghost av = permissions_view(automatic@);
        let ghost s0 = self.state();
        let ghost last = ensure_automatic_spec(s0, av, plugin@, now);
        let mut i: usize = 0;
        assert(av.take(0) =~= Seq::<PermissionView>::empty());
        while i < automatic.len()
            invariant
                i <= automatic.len(),
                av == permissions_view(automatic@),
                self.wf(),
                self.state() == ensure_automatic_spec(s0, av.take(i as int), plugin@, now),
                last == ensure_automatic_spec(s0, av, plugin@, now),
                last.minted <= u64::MAX,
            decreases automatic.len() - i,
        {
            let d = &automatic[i];
            proof {
                assert(av.take(i + 1).drop_last() =~= av.take(i as int));
                assert(av[i as int] == d@);
                lemma_ensure_prefix(s0, av, plugin@, now, i + 1);
            }
            let refused = self.denies(plugin, d.id.as_str());
            let standing = self.grants.standing_grants(plugin, now);
            let holds = Self::all_held(&standing, &d.templates);
            proof {
                let caps = grants_view(standing@).map_values(|g: GrantView| g.capability);
                let tv = templates_view(d.templates@);
                assert(caps =~= standing_caps(self.state().grants, plugin@, now));
                if holds {
                    assert forall|k: int| 0 <= k < tv.len() implies standing_caps(self.state().grants, plugin@, now).contains(
                        #[trigger] tv[k].capability,
                    ) by {
                        assert(tv[k] == d.templates@[k]@);
                        assert(caps.contains(d.templates@[k]@.capability));
                    }
                } else {
                    let k = choose|k: int| 0 <= k < d.templates@.len() && !caps.contains(#[trigger] d.templates@[k]@.capability);
                    assert(tv[k] == d.templates@[k]@);
                    assert(!standing_caps(self.state().grants, plugin@, now).contains(tv[k].capability));
                }
                assert(holds == held(self.state().grants, plugin@, d@.templates, now));
            }
            if !(refused || holds) {
                let ghost before = self.state();
                let _ = self.mint_all(plugin, d, "automatic", "session", None, None, now);
                proof {
                    reveal_strlit("automatic");
                    reveal_strlit("session");
                    assert(self.state().grants =~= ensure_automatic_spec(s0, av.take(i + 1), plugin@, now).grants);
                    assert(self.state().events =~= ensure_automatic_spec(s0, av.take(i + 1), plugin@, now).events);
                }
            }
            i = i + 1;
        }
        assert(av.take(automatic.len() as int) =~= av);
    }

    /// What an install decides about the human layer, once its files are placed: forgets the
    /// decisions made for another publisher key, then, when the plan selected `profile`,
    /// applies it for good. Answers what undoing the install revokes and forgets: the grants
    /// minted, and the permissions decided (those the profile names, then the automatic ones).
    pub fn install_permissions(
        &mut self,
        plugin: &str,
        publisher: &str,
        automatic: &Vec<Permission>,
        named: &Vec<Permission>,
        profile: Option<&str>,
        correlation: &str,
        version: &str,
        now: i128,
        now_text: &str,
    ) -> (r: (Vec<[u8; 16]>, Vec<String>))
        requires
            old(self).wf(),
            install_spec(
                old(self).state(),
                plugin@,
                publisher@,
                permissions_view(automatic@),
                permissions_view(named@),
                opt_str(profile),
                correlation@,
                version@,
                now,
                now_text@,
            ).0.minted <= u64::MAX,
        ensures
            final(self).wf(),
            ({
                let (after, ids, decided) = install_spec(
                    old(self).state(),
                    plugin@,
                    publisher@,
                    permissions_view(automatic@),
                    permissions_view(named@),
                    opt_str(profile),
                    correlation@,
                    version@,
                    now,
                    now_text@,
                );
                &&& final(self).state() == after
                &&& r.0@.map_values(|id: [u8; 16]| id@) == ids
                &&& strings_view(r.1@) == decided
            }),
    {
        let ghost s0 = self.state();
        let stale = self.decisions.stale_for(plugin, publisher);
        let ghost sv = strings_view(stale@);
        let mut k: usize = 0;
        while k < stale.len()
            invariant
                k <= stale.len(),
                sv == strings_view(stale@),
                self.wf(),
                self.state() == (HostState { decisions: forget_all(s0.decisions, plugin@, sv.take(k as int)), ..s0 }),
            decreases stale.len() - k,
        {
            self.decisions.forget_decision(plugin, stale[k].as_str());
            proof {
                assert(sv.take(k + 1).drop_last() =~= sv.take(k as int));
                assert(sv[k as int] == stale@[k as int]@);
            }
            k = k + 1;
        }
        assert(sv.take(stale.len() as int) =~= sv);
        match profile {
            None => {
                let ids: Vec<[u8; 16]> = Vec::new();
                let decided: Vec<String> = Vec::new();
                assert(ids@.map_values(|id: [u8; 16]| id@) =~= Seq::<Seq<u8>>::empty());
                assert(strings_view(decided@) =~= Seq::<Seq<char>>::empty());
                (ids, decided)
            },
            Some(p) => {
                let minted = self.apply_profile(plugin, automatic, named, p, "always", correlation, version, publisher, now, now_text);
                let ghost mv = grants_view(minted@);
                let mut ids: Vec<[u8; 16]> = Vec::new();
                let mut i: usize = 0;
                while i < minted.len()
                    invariant
                        i <= minted.len(),
                        mv == grants_view(minted@),
                        ids@.map_values(|id: [u8; 16]| id@) == mv.take(i as int).map_values(|g: GrantView| g.id),
                    decreases minted.len() - i,
                {
                    let ghost before = ids@.map_values(|id: [u8; 16]| id@);
                    ids.push(minted[i].id);
                    assert(ids@.map_values(|id: [u8; 16]| id@) =~= before.push(mv[i as int].id));
                    i = i + 1;
                    assert(mv.take(i as int).map_values(|g: GrantView| g.id) =~= mv.take(i - 1).map_values(|g: GrantView| g.id).push(
                        mv[i - 1].id,
                    ));
                }
                assert(mv.take(minted.len() as int) =~= mv);
                let mut decided: Vec<String> = Vec::new();
                let ghost nv = permissions_view(named@).map_values(|d: PermissionView| d.id);
                let ghost av = permissions_view(automatic@).map_values(|d: PermissionView| d.id);
                let mut j: usize = 0;
                while j < named.len()
                    invariant
                        j <= named.len(),
                        nv == permissions_view(named@).map_values(|d: PermissionView| d.id),
                        strings_view(decided@) == nv.take(j as int),
                    decreases named.len() - j,
                {
                    let ghost before = strings_view(decided@);
                    let id = string_of(chars_of(named[j].id.as_str()).as_slice());
                    decided.push(id);
                    assert(strings_view(decided@) =~= before.push(id@));
                    j = j + 1;
                    assert(nv.take(j as int) =~= nv.take(j - 1).push(nv[j - 1]));
                }
                assert(nv.take(named.len() as int) =~= nv);
                let mut q: usize = 0;
                while q < automatic.len()
                    invariant
                        q <= automatic.len(),
                        nv == permissions_view(named@).map_values(|d: PermissionView| d.id),
                        av == permissions_view(automatic@).map_values(|d: PermissionView| d.id),
                        strings_view(decided@) == nv + av.take(q as int),
                    decreases automatic.len() - q,
                {
                    let ghost before = strings_view(decided@);
                    let id = string_of(chars_of(automatic[q].id.as_str()).as_slice());
                    decided.push(id);
                    assert(strings_view(decided@) =~= before.push(id@));
                    q = q + 1;
                    assert(av.take(q as int) =~= av.take(q - 1).push(av[q - 1]));
                }
                assert(av.take(automatic.len() as int) =~= av);
                (ids, decided)
            },
        }
    }

    /// Undoes an install's decisions when a later step of it failed: revokes each grant it
    /// minted, in order, and forgets each decision it made.
    pub fn undo_install(&mut self, plugin: &str, grants: &Vec<[u8; 16]>, permissions: &Vec<String>, now: i128)
        requires
            old(self).wf(),
            undo_spec(
                old(self).state(),
                plugin@,
                grants@.map_values(|id: [u8; 16]| id@),
                strings_view(permissions@),
                now,
            ).minted <= u64::MAX,
        ensures
            final(self).wf(),
            final(self).state() == undo_spec(
                old(self).state(),
                plugin@,
                grants@.map_values(|id: [u8; 16]| id@),
                strings_view(permissions@),
                now,
            ),
    {
        let ghost s0 = self.state();
        let ghost iv = grants@.map_values(|id: [u8; 16]| id@);
        let ghost pv = strings_view(permissions@);
        let ghost last = revoke_ids(s0, iv, now);
        proof {
            lemma_revoke_ids_keeps(s0, iv, now);
        }
        let mut i: usize = 0;
        while i < grants.len()
            invariant
                i <= grants.len(),
                iv == grants@.map_values(|id: [u8; 16]| id@),
                self.wf(),
                self.state() == revoke_ids(s0, iv.take(i as int), now),
                last == revoke_ids(s0, iv, now),
                last.minted <= u64::MAX,
            decreases grants.len() - i,
        {
            proof {
                assert(iv.take(i + 1).drop_last() =~= iv.take(i as int));
                assert(iv[i as int] == grants@[i as int]@);
                lemma_revoke_ids_prefix(s0, iv, now, i + 1);
                lemma_revoke_ids_keeps(s0, iv.take(i as int), now);
            }
            let _ = self.grants.revoke(grants[i], now);
            proof {
                let before = revoke_ids(s0, iv.take(i as int), now);
                let after = revoke_ids(s0, iv.take(i + 1), now);
                assert(self.state().grants =~= after.grants);
                assert(self.state().events =~= after.events);
            }
            i = i + 1;
        }
        assert(iv.take(grants.len() as int) =~= iv);
        let ghost s1 = self.state();
        let mut k: usize = 0;
        while k < permissions.len()
            invariant
                k <= permissions.len(),
                pv == strings_view(permissions@),
                self.wf(),
                self.state() == (HostState { decisions: forget_all(s1.decisions, plugin@, pv.take(k as int)), ..s1 }),
            decreases permissions.len() - k,
        {
            self.decisions.forget_decision(plugin, permissions[k].as_str());
            proof {
                assert(pv.take(k + 1).drop_last() =~= pv.take(k as int));
                assert(pv[k as int] == permissions@[k as int]@);
            }
            k = k + 1;
        }
        assert(pv.take(permissions.len() as int) =~= pv);
    }

    fn mint_all(
        &mut self,
        plugin: &str,
        permission: &Permission,
        source: &str,
        duration: &str,
        profile: Option<&str>,
        correlation: Option<&str>,
        now: i128,
    ) -> (r: (Vec<Grant>, Vec<String>))
        requires
            old(self).grants.wf(),
            old(self).grants.minted_count() + 2 * permission.templates.len() <= u64::MAX,
        ensures
            final(self).grants.wf(),
            final(self).decisions@ == old(self).decisions@,
            final(self).grants.nonce_of() == old(self).grants.nonce_of(),
            grants_view(r.0@) == minted_spec(
                templates_view(permission.templates@),
                plugin@,
                permission.id@,
                source@,
                duration@,
                opt_str(profile),
                opt_str(correlation),
                now,
                old(self).grants.nonce_of(),
                old(self).grants.minted_count() as nat,
            ),
            strings_view(r.1@) == grant_ids(grants_view(r.0@)),
            final(self).grants.grant_list() == old(self).grants.grant_list() + grants_view(r.0@),
            final(self).grants.event_list() == old(self).grants.event_list() + minted_events(
                templates_view(permission.templates@),
                plugin@,
                opt_str(correlation),
                now,
                old(self).grants.nonce_of(),
                old(self).grants.minted_count() as nat,
            ),
            final(self).grants.minted_count() == old(self).grants.minted_count() + 2 * permission.templates.len(),
    {
        let ghost tv = templates_view(permission.templates@);
        let ghost nonce = self.grants.nonce_of();
        let ghost base = self.grants.minted_count() as nat;
        let ghost g0 = self.grants.grant_list();
        let ghost e0 = self.grants.event_list();
        let ghost d0 = self.decisions@;
        let ghost pv = opt_str(profile);
        let ghost cv = opt_str(correlation);
        let mut minted: Vec<Grant> = Vec::new();
        let mut ids: Vec<String> = Vec::new();
        let count = permission.templates.len();
        let mut k: usize = 0;
        while k < count
            invariant
                k <= count,
                count == permission.templates@.len(),
                tv == templates_view(permission.templates@),
                self.grants.wf(),
                self.decisions@ == d0,
                self.grants.nonce_of() == nonce,
                base + 2 * count <= u64::MAX,
                self.grants.minted_count() == base + 2 * k,
                pv == opt_str(profile),
                cv == opt_str(correlation),
                grants_view(minted@) == minted_spec(tv.take(k as int), plugin@, permission.id@, source@, duration@, pv, cv, now, nonce, base),
                strings_view(ids@) == grant_ids(grants_view(minted@)),
                self.grants.grant_list() == g0 + grants_view(minted@),
                self.grants.event_list() == e0 + minted_events(tv.take(k as int), plugin@, cv, now, nonce, base),
            decreases count - k,
        {
            let t = &permission.templates[k];
            let scope = match &t.scope {
                Some(s) => Some(copy_scope(s)),
                None => None,
            };
            let origin = GrantOrigin {
                permission: Some(string_of(chars_of(permission.id.as_str()).as_slice())),
                profile: match profile {
                    Some(p) => Some(string_of(chars_of(p).as_slice())),
                    None => None,
                },
                correlation: match correlation {
                    Some(c) => Some(string_of(chars_of(c).as_slice())),
                    None => None,
                },
            };
            let ghost before_grants = grants_view(minted@);
            let ghost before_events = self.grants.event_list();
            let g = self.grants.grant(
                plugin,
                t.capability.as_str(),
                scope,
                copy_opt(&t.class),
                source,
                duration,
                None,
                origin,
                now,
            );
            let text = identity_text(&g.id);
            let ghost gv = g@;
            minted.push(g);
            let ghost before_ids = strings_view(ids@);
            ids.push(text);
            proof {
                assert(tv[k as int] == permission.templates@[k as int]@);
                let next = minted_spec(tv.take(k + 1), plugin@, permission.id@, source@, duration@, pv, cv, now, nonce, base);
                let prev = minted_spec(tv.take(k as int), plugin@, permission.id@, source@, duration@, pv, cv, now, nonce, base);
                assert(grants_view(minted@) =~= before_grants.push(gv));
                assert(next =~= prev.push(gv));
                assert(strings_view(ids@) =~= before_ids.push(identity_text_spec(gv.id)));
                assert(grant_ids(grants_view(minted@)) =~= grant_ids(before_grants).push(identity_text_spec(gv.id)));
                let ne = minted_events(tv.take(k + 1), plugin@, cv, now, nonce, base);
                let pe = minted_events(tv.take(k as int), plugin@, cv, now, nonce, base);
                assert(ne =~= pe.push(ne[k as int]));
                assert(self.grants.event_list() =~= e0 + ne);
                assert(self.grants.grant_list() =~= g0 + grants_view(minted@));
            }
            k = k + 1;
        }
        assert(tv.take(count as int) =~= tv);
        (minted, ids)
    }
}

// --- laws --------------------------------------------------------------------------------------

/// A revocation of a permission's grants leaves none of them standing then or after.
proof fn lemma_revoked_permission(
    gs: Seq<GrantView>,
    plugin: Seq<char>,
    permission: Seq<char>,
    correlation: Seq<char>,
    now: i128,
    later: i128,
)
    requires
        later >= now,
    ensures
        revoke_matching_spec(gs, plugin, Some(permission), Some(correlation), now).len() == gs.len(),
        forall|i: int| 0 <= i < gs.len() && (#[trigger] revoke_matching_spec(gs, plugin, Some(permission), Some(correlation), now)[i]).plugin == plugin
            && revoke_matching_spec(gs, plugin, Some(permission), Some(correlation), now)[i].permission == Some(permission)
            ==> !stands(revoke_matching_spec(gs, plugin, Some(permission), Some(correlation), now)[i], later),
{
}

/// After an `allow`, the decision found for the permission is that allow, listing exactly the
/// grants it minted; the session remembers no denial of the permission; the grants the
/// permission minted before no longer stand; and the new ones do, until revoked.
pub proof fn law_an_allow_replaces_what_came_before(
    s: HostState,
    plugin: Seq<char>,
    permission: PermissionView,
    duration: Seq<char>,
    source: Seq<char>,
    profile: Option<Seq<char>>,
    correlation: Seq<char>,
    version: Seq<char>,
    publisher: Seq<char>,
    now: i128,
    now_text: Seq<char>,
    subject: Seq<char>,
    later: i128,
)
    requires
        later >= now,
    ensures
        ({
            let (after, minted) = allow_spec(s, plugin, permission, duration, source, profile, correlation, version, publisher, now, now_text);
            &&& find_decision(after.decisions, plugin, permission.id) matches Some(d) && d.record.decision == "allow"@
                && d.record.grants == grant_ids(minted)
            &&& !after.denials.contains((plugin, permission.id, subject))
            &&& forall|i: int| 0 <= i < s.grants.len() && (#[trigger] after.grants[i]).plugin == plugin
                && after.grants[i].permission == Some(permission.id) ==> !stands(after.grants[i], later)
            &&& forall|k: int| 0 <= k < minted.len() ==> stands(#[trigger] minted[k], later)
                && after.grants[s.grants.len() + k] == minted[k]
        }),
{
    let (after, minted) = allow_spec(s, plugin, permission, duration, source, profile, correlation, version, publisher, now, now_text);
    let v = after.decisions.last();
    crate::permissions::law_recorded_decision_is_found(s.decisions, v);
    crate::permissions::law_forgetting_denials(s.denials, plugin, permission.id, (plugin, permission.id, subject));
    lemma_revoked_permission(s.grants, plugin, permission.id, correlation, now, later);
    let kept = revoke_matching_spec(s.grants, plugin, Some(permission.id), Some(correlation), now);
    assert forall|i: int| 0 <= i < s.grants.len() implies #[trigger] after.grants[i] == kept[i] by {}
}

/// After a `deny`, the permission is found denied, and none of the grants it minted stands then
/// or after.
pub proof fn law_a_deny_holds(
    s: HostState,
    plugin: Seq<char>,
    permission: PermissionView,
    correlation: Seq<char>,
    version: Seq<char>,
    publisher: Seq<char>,
    now: i128,
    now_text: Seq<char>,
    later: i128,
)
    requires
        later >= now,
    ensures
        ({
            let after = deny_spec(s, plugin, permission, correlation, version, publisher, now, now_text);
            &&& denied(after.decisions, plugin, permission.id)
            &&& forall|i: int| 0 <= i < after.grants.len() && (#[trigger] after.grants[i]).plugin == plugin
                && after.grants[i].permission == Some(permission.id) ==> !stands(after.grants[i], later)
        }),
{
    let after = deny_spec(s, plugin, permission, correlation, version, publisher, now, now_text);
    crate::permissions::law_recorded_decision_is_found(s.decisions, after.decisions.last());
    lemma_revoked_permission(s.grants, plugin, permission.id, correlation, now, later);
}

/// After an `ask`, nothing is decided about the permission, the session remembers no denial of
/// it, and none of the grants it minted stands: the next concrete need asks again.
pub proof fn law_an_ask_asks_again(
    s: HostState,
    plugin: Seq<char>,
    permission: Seq<char>,
    correlation: Seq<char>,
    now: i128,
    subject: Seq<char>,
    later: i128,
)
    requires
        later >= now,
    ensures
        ({
            let after = ask_spec(s, plugin, permission, correlation, now);
            &&& find_decision(after.decisions, plugin, permission) is None
            &&& !after.denials.contains((plugin, permission, subject))
            &&& forall|i: int| 0 <= i < after.grants.len() && (#[trigger] after.grants[i]).plugin == plugin
                && after.grants[i].permission == Some(permission) ==> !stands(after.grants[i], later)
        }),
{
    crate::permissions::law_forgotten_decision_is_gone(s.decisions, plugin, permission);
    crate::permissions::law_forgetting_denials(s.denials, plugin, permission, (plugin, permission, subject));
    lemma_revoked_permission(s.grants, plugin, permission, correlation, now, later);
}

/// A profile never allows a permission a decision denies among the automatic ones: applying it
/// leaves such a permission's decision as it was.
pub proof fn law_a_profile_keeps_automatic_denials(
    s: HostState,
    automatic: Seq<PermissionView>,
    plugin: Seq<char>,
    profile: Seq<char>,
    duration: Seq<char>,
    correlation: Seq<char>,
    version: Seq<char>,
    publisher: Seq<char>,
    now: i128,
    now_text: Seq<char>,
    id: Seq<char>,
)
    requires
        denied(s.decisions, plugin, id),
    ensures
        denied(
            automatic_allows(s, automatic, plugin, profile, duration, correlation, version, publisher, now, now_text).0.decisions,
            plugin,
            id,
        ),
    decreases automatic.len(),
{
    if automatic.len() > 0 {
        let rest = automatic.drop_last();
        law_a_profile_keeps_automatic_denials(s, rest, plugin, profile, duration, correlation, version, publisher, now, now_text, id);
        let s1 = automatic_allows(s, rest, plugin, profile, duration, correlation, version, publisher, now, now_text).0;
        let d = automatic.last();
        if !denied(s1.decisions, plugin, d.id) {
            let s2 = allow_spec(s1, plugin, d, duration, "automatic"@, Some(profile), correlation, version, publisher, now, now_text).0;
            assert(d.id != id);
            crate::permissions::law_recording_leaves_others(s1.decisions, s2.decisions.last(), plugin, id);
        }
    }
}

proof fn lemma_revoke_spec_keeps(x: HostState, id: Seq<u8>, now: i128)
    ensures
        revoke_spec(x, id, now).grants.len() == x.grants.len(),
        forall|j: int| 0 <= j < x.grants.len() ==> (#[trigger] revoke_spec(x, id, now).grants[j]).id == x.grants[j].id
            && (x.grants[j].revoked_at is Some ==> revoke_spec(x, id, now).grants[j].revoked_at is Some),
        distinct_ids(x.grants) ==> forall|j: int| 0 <= j < x.grants.len() && (#[trigger] revoke_spec(x, id, now).grants[j]).id == id
            ==> revoke_spec(x, id, now).grants[j].revoked_at is Some,
{
    lemma_target_is_unrevoked(x.grants, id);
    if let Some(i) = revoke_target(x.grants, id) {
        if distinct_ids(x.grants) {
            assert forall|j: int| 0 <= j < x.grants.len() && (#[trigger] revoke_spec(x, id, now).grants[j]).id == id
                implies revoke_spec(x, id, now).grants[j].revoked_at is Some by {
                if j != i {
                    if j < i {
                        assert(x.grants[j].id != x.grants[i].id);
                    } else {
                        assert(x.grants[i].id != x.grants[j].id);
                    }
                }
            }
        }
    }
}

proof fn lemma_revoke_ids_revokes(s: HostState, ids: Seq<Seq<u8>>, now: i128)
    requires
        distinct_ids(s.grants),
    ensures
        revoke_ids(s, ids, now).grants.len() == s.grants.len(),
        distinct_ids(revoke_ids(s, ids, now).grants),
        forall|j: int| 0 <= j < s.grants.len() ==> (#[trigger] revoke_ids(s, ids, now).grants[j]).id == s.grants[j].id,
        forall|k: int, j: int| 0 <= k < ids.len() && 0 <= j < s.grants.len() && (#[trigger] revoke_ids(s, ids, now).grants[j]).id
            == #[trigger] ids[k] ==> revoke_ids(s, ids, now).grants[j].revoked_at is Some,
    decreases ids.len(),
{
    if ids.len() > 0 {
        let rest = ids.drop_last();
        lemma_revoke_ids_revokes(s, rest, now);
        let x = revoke_ids(s, rest, now);
        let y = revoke_spec(x, ids.last(), now);
        lemma_revoke_spec_keeps(x, ids.last(), now);
        assert(distinct_ids(y.grants)) by {
            assert forall|a: int, b: int| 0 <= a < b < y.grants.len() implies (#[trigger] y.grants[a]).id != (#[trigger] y.grants[b]).id by {
                assert(y.grants[a].id == x.grants[a].id);
                assert(y.grants[b].id == x.grants[b].id);
            }
        }
        assert forall|k: int, j: int| 0 <= k < ids.len() && 0 <= j < s.grants.len() && (#[trigger] y.grants[j]).id == #[trigger] ids[k]
            implies y.grants[j].revoked_at is Some by {
            if k < rest.len() {
                assert(rest[k] == ids[k]);
                assert(x.grants[j].id == y.grants[j].id);
                assert(x.grants[j].revoked_at is Some);
            }
        }
    }
}

proof fn lemma_forget_all(ds: Seq<DecisionView>, plugin: Seq<char>, permissions: Seq<Seq<char>>)
    ensures
        forall|k: int| 0 <= k < permissions.len() ==> find_decision(forget_all(ds, plugin, permissions), plugin, #[trigger] permissions[k]) is None,
    decreases permissions.len(),
{
    if permissions.len() > 0 {
        let rest = permissions.drop_last();
        lemma_forget_all(ds, plugin, rest);
        let x = forget_all(ds, plugin, rest);
        assert forall|k: int| 0 <= k < permissions.len() implies find_decision(
            forget_all(ds, plugin, permissions),
            plugin,
            #[trigger] permissions[k],
        ) is None by {
            crate::permissions::lemma_find_without(x, plugin, permissions.last(), plugin, permissions[k]);
            if k < rest.len() {
                assert(rest[k] == permissions[k]);
            }
        }
    }
}

/// A failed install leaves nothing behind in the human layer: once it is undone, none of the
/// grants it minted stands, at any time, and nothing is decided about the permissions it
/// decided.
pub proof fn law_an_undone_install_leaves_nothing(
    s: HostState,
    plugin: Seq<char>,
    ids: Seq<Seq<u8>>,
    permissions: Seq<Seq<char>>,
    now: i128,
    later: i128,
)
    requires
        distinct_ids(s.grants),
    ensures
        forall|k: int, j: int| 0 <= k < ids.len() && 0 <= j < undo_spec(s, plugin, ids, permissions, now).grants.len()
            && (#[trigger] undo_spec(s, plugin, ids, permissions, now).grants[j]).id == #[trigger] ids[k]
            ==> !stands(undo_spec(s, plugin, ids, permissions, now).grants[j], later),
        forall|k: int| 0 <= k < permissions.len() ==> find_decision(
            undo_spec(s, plugin, ids, permissions, now).decisions,
            plugin,
            #[trigger] permissions[k],
        ) is None,
{
    lemma_revoke_ids_revokes(s, ids, now);
    lemma_forget_all(revoke_ids(s, ids, now).decisions, plugin, permissions);
}

/// An allow clears the way for the next question: once a permission is allowed, a request the
/// session had refused is put to the person at the terminal again rather than answered denied.
pub proof fn law_an_allow_lets_the_question_be_asked_again(
    s: HostState,
    plugin: Seq<char>,
    permission: PermissionView,
    duration: Seq<char>,
    source: Seq<char>,
    profile: Option<Seq<char>>,
    correlation: Seq<char>,
    version: Seq<char>,
    publisher: Seq<char>,
    now: i128,
    now_text: Seq<char>,
    subject: Seq<char>,
)
    ensures
        crate::consent::opening_spec(
            allow_spec(s, plugin, permission, duration, source, profile, correlation, version, publisher, now, now_text).0.denials.contains(
                (plugin, permission.id, subject),
            ),
            true,
        ) == crate::consent::Opening::Ask,
{
    crate::permissions::law_forgetting_denials(s.denials, plugin, permission.id, (plugin, permission.id, subject));
}

} // verus!
