//! The capability grants a session makes, and the host's own events about them: every grant and
//! every event gets an identity the session mints, a revoked grant is kept (marked, not
//! deleted) so the trail still shows what a package was once allowed, and a grant answers only
//! while it is unrevoked and inside its window. Writing the standing grants to disk is the
//! caller's, after any change to a grant whose duration is `always`.

use vstd::prelude::*;

use crate::host::{minted_bytes, mint_bytes, GrantOrigin};
use crate::hosts::{copy_opt, opt_view};
use crate::invocation::strings_view;
use crate::permissions::{copy_strings, scope_view};
use crate::keyless::{hex, hex_digit, hex_spec};
use crate::text::{chars_eq, chars_of, opt_str, string_of};

verus! {

// --- identities ----------------------------------------------------------------------------------

/// The counter an identity carries in its last six bytes.
pub open spec fn counter_of(id: Seq<u8>) -> int {
    (id[10] as int) * 0x100_0000_0000 + (id[11] as int) * 0x1_0000_0000 + (id[12] as int) * 0x100_0000
        + (id[13] as int) * 0x1_0000 + (id[14] as int) * 0x100 + (id[15] as int)
}

/// The host's own namespace: an identity with its first four bytes set, so nothing the host
/// records can collide with a package's trail.
pub open spec fn host_identity(id: Seq<u8>) -> Seq<u8> {
    seq![0xffu8, 0xffu8, 0xffu8, 0xffu8] + id.skip(4)
}

proof fn lemma_low_bytes(m: u64)
    by (bit_vector)
    ensures
        ((m >> 40u64) as u8) as u64 * 0x100_0000_0000u64 + ((m >> 32u64) as u8) as u64 * 0x1_0000_0000u64
            + ((m >> 24u64) as u8) as u64 * 0x100_0000u64 + ((m >> 16u64) as u8) as u64 * 0x1_0000u64
            + ((m >> 8u64) as u8) as u64 * 0x100u64 + (m as u8) as u64 == m & 0xffff_ffff_ffffu64,
{
}

proof fn lemma_masked(m: u64)
    by (bit_vector)
    ensures
        m & 0xffff_ffff_ffffu64 <= m,
        m < 0x1_0000_0000_0000u64 ==> m & 0xffff_ffff_ffffu64 == m,
{
}

/// The counter the `minted`-th identity carries: the counter itself while it fits in six bytes,
/// and never more than it.
proof fn lemma_counter_of_minted(nonce: u32, minted: u64)
    ensures
        counter_of(minted_bytes(nonce, minted)) <= minted,
        minted < 0x1_0000_0000_0000 ==> counter_of(minted_bytes(nonce, minted)) == minted,
{
    let s = minted_bytes(nonce, minted);
    assert(s[10] == (minted >> 40u64) as u8);
    assert(s[11] == (minted >> 32u64) as u8);
    assert(s[12] == (minted >> 24u64) as u8);
    assert(s[13] == (minted >> 16u64) as u8);
    assert(s[14] == (minted >> 8u64) as u8);
    assert(s[15] == minted as u8);
    lemma_low_bytes(minted);
    lemma_masked(minted);
}

/// Two identities minted in one session differ, as long as the session has minted fewer than
/// 2⁴⁸ of them: the trail keeps an event once, by identity.
pub proof fn law_minted_identities_differ(nonce: u32, a: u64, b: u64)
    requires
        a != b,
        a < 0x1_0000_0000_0000,
        b < 0x1_0000_0000_0000,
    ensures
        minted_bytes(nonce, a) != minted_bytes(nonce, b),
{
    lemma_counter_of_minted(nonce, a);
    lemma_counter_of_minted(nonce, b);
}

/// Sessions with different nonces never mint the same identity, whatever their counters.
pub proof fn law_sessions_mint_apart(n: u32, m: u32, a: u64, b: u64)
    requires
        n != m,
    ensures
        minted_bytes(n, a) != minted_bytes(m, b),
{
    let x = minted_bytes(n, a);
    let y = minted_bytes(m, b);
    assert(x[2] == (n >> 24u32) as u8 && x[3] == (n >> 16u32) as u8 && x[4] == (n >> 8u32) as u8 && x[5] == n as u8);
    assert(y[2] == (m >> 24u32) as u8 && y[3] == (m >> 16u32) as u8 && y[4] == (m >> 8u32) as u8 && y[5] == m as u8);
    assert(n != m ==> ((n >> 24u32) as u8 != (m >> 24u32) as u8 || (n >> 16u32) as u8 != (m >> 16u32) as u8
        || (n >> 8u32) as u8 != (m >> 8u32) as u8 || n as u8 != m as u8)) by (bit_vector);
}

/// The host's events never share an identity with a grant: their first byte tells them apart.
pub proof fn law_host_events_apart_from_grants(nonce: u32, a: u64, b: u64)
    ensures
        host_identity(minted_bytes(nonce, a)) != minted_bytes(nonce, b),
{
    assert(host_identity(minted_bytes(nonce, a))[0] != minted_bytes(nonce, b)[0]);
}

/// The text of an identity's first `n` bytes in the usual form: two lower-case hexadecimal
/// digits a byte, with a hyphen before the fifth, seventh, ninth and eleventh byte.
pub open spec fn identity_text_upto(id: Seq<u8>, n: int) -> Seq<char>
    decreases n,
{
    if n <= 0 {
        seq![]
    } else {
        let b = id[n - 1];
        let sep: Seq<char> = if n - 1 == 4 || n - 1 == 6 || n - 1 == 8 || n - 1 == 10 { seq!['-'] } else { seq![] };
        identity_text_upto(id, n - 1) + sep + seq![hex_digit((b / 16) as int), hex_digit((b % 16) as int)]
    }
}

/// An identity as text: `xxxxxxxx-xxxx-xxxx-xxxx-xxxxxxxxxxxx`.
pub open spec fn identity_text_spec(id: Seq<u8>) -> Seq<char> {
    identity_text_upto(id, 16)
}

proof fn lemma_hex_layout(bytes: Seq<u8>)
    ensures
        hex_spec(bytes).len() == 2 * bytes.len(),
        forall|k: int| 0 <= k < bytes.len() ==> #[trigger] hex_spec(bytes)[2 * k] == hex_digit((bytes[k] / 16) as int)
            && hex_spec(bytes)[2 * k + 1] == hex_digit((bytes[k] % 16) as int),
    decreases bytes.len(),
{
    if bytes.len() > 0 {
        let rest = bytes.drop_last();
        lemma_hex_layout(rest);
        assert forall|k: int| 0 <= k < bytes.len() implies #[trigger] hex_spec(bytes)[2 * k] == hex_digit((bytes[k] / 16) as int)
            && hex_spec(bytes)[2 * k + 1] == hex_digit((bytes[k] % 16) as int) by {
            if k < rest.len() {
                assert(rest[k] == bytes[k]);
                assert(hex_spec(rest)[2 * k] == hex_digit((rest[k] / 16) as int));
            }
        }
    }
}

/// An identity as text.
pub fn identity_text(id: &[u8; 16]) -> (r: String)
    ensures
        r@ == identity_text_spec(id@),
{
    let digits = hex(id);
    proof {
        lemma_hex_layout(id@);
    }
    let mut r = String::new();
    let mut i: usize = 0;
    while i < 16
        invariant
            i <= 16,
            id@.len() == 16,
            digits@ == hex_spec(id@),
            digits@.len() == 32,
            forall|k: int| 0 <= k < 16 ==> digits@[2 * k] == hex_digit((id@[k] / 16) as int)
                && digits@[2 * k + 1] == hex_digit((id@[k] % 16) as int),
            r@ == identity_text_upto(id@, i as int),
        decreases 16 - i,
    {
        if i == 4 || i == 6 || i == 8 || i == 10 {
            crate::text::push_char(&mut r, '-');
        }
        crate::text::push_char(&mut r, digits[2 * i]);
        crate::text::push_char(&mut r, digits[2 * i + 1]);
        i = i + 1;
    }
    r
}

// --- grants --------------------------------------------------------------------------------------

/// A scope as key and values, pairs in order.
pub type Scope = Vec<(String, Vec<String>)>;

/// One capability grant a session made to a package.
#[derive(Debug)]
pub struct Grant {
    /// Its identity, minted by the session.
    pub id: [u8; 16],
    /// The package it was made to.
    pub plugin: String,
    /// The capability id.
    pub capability: String,
    /// The scope it is narrowed to, when it is.
    pub scope: Option<Scope>,
    /// The declaration class it was made under, as the caller spells it.
    pub class: Option<String>,
    /// What made it: `prompt`, `profile`, `cli`.
    pub source: String,
    /// How long it lasts: `once`, `session`, `always`.
    pub duration: String,
    /// When it was made, in nanoseconds since the epoch.
    pub granted_at: i128,
    /// When its window closes, if it has one.
    pub expires_at: Option<i128>,
    /// When it was revoked, if it was.
    pub revoked_at: Option<i128>,
    /// The permission decision that minted it, when one did.
    pub permission: Option<String>,
    /// The access profile that selected it, when one did.
    pub profile: Option<String>,
    /// The correlation id of the user action it belongs to.
    pub correlation: Option<String>,
}

/// A grant as plain values.
pub struct GrantView {
    pub id: Seq<u8>,
    pub plugin: Seq<char>,
    pub capability: Seq<char>,
    pub scope: Option<Seq<(Seq<char>, Seq<Seq<char>>)>>,
    pub class: Option<Seq<char>>,
    pub source: Seq<char>,
    pub duration: Seq<char>,
    pub granted_at: i128,
    pub expires_at: Option<i128>,
    pub revoked_at: Option<i128>,
    pub permission: Option<Seq<char>>,
    pub profile: Option<Seq<char>>,
    pub correlation: Option<Seq<char>>,
}

/// A scope as plain values.
pub open spec fn opt_scope_view(scope: Option<Scope>) -> Option<Seq<(Seq<char>, Seq<Seq<char>>)>> {
    match scope {
        Some(s) => Some(scope_view(s@)),
        None => None,
    }
}

impl View for Grant {
    type V = GrantView;

    open spec fn view(&self) -> GrantView {
        GrantView {
            id: self.id@,
            plugin: self.plugin@,
            capability: self.capability@,
            scope: opt_scope_view(self.scope),
            class: opt_view(self.class),
            source: self.source@,
            duration: self.duration@,
            granted_at: self.granted_at,
            expires_at: self.expires_at,
            revoked_at: self.revoked_at,
            permission: opt_view(self.permission),
            profile: opt_view(self.profile),
            correlation: opt_view(self.correlation),
        }
    }
}

/// The grants as plain values.
pub open spec fn grants_view(v: Seq<Grant>) -> Seq<GrantView> {
    v.map_values(|g: Grant| g@)
}

/// Whether a grant answers at `now`: it was not revoked, and its window, if it has one, is open.
pub open spec fn stands(g: GrantView, now: i128) -> bool {
    g.revoked_at is None && match g.expires_at {
        Some(expiry) => expiry > now,
        None => true,
    }
}

/// The grant revoked at `now`: everything else kept.
pub open spec fn revoked(g: GrantView, now: i128) -> GrantView {
    GrantView { revoked_at: Some(now), ..g }
}

/// A copy of a scope.
pub(crate) fn copy_scope(scope: &Scope) -> (r: Scope)
    ensures
        scope_view(r@) == scope_view(scope@),
{
    let mut r: Scope = Vec::new();
    let mut i: usize = 0;
    while i < scope.len()
        invariant
            i <= scope.len(),
            scope_view(r@) == scope_view(scope@).take(i as int),
        decreases scope.len() - i,
    {
        let ghost prev = scope_view(r@);
        let e = (string_of(chars_of(scope[i].0.as_str()).as_slice()), copy_strings(&scope[i].1));
        r.push(e);
        i = i + 1;
        assert(scope_view(r@) =~= prev.push((e.0@, strings_view(e.1@))));
        assert(scope_view(scope@).take(i as int) =~= scope_view(scope@).take(i - 1).push(scope_view(scope@)[i - 1]));
    }
    assert(scope_view(scope@).take(scope.len() as int) =~= scope_view(scope@));
    r
}

/// A copy of a grant.
pub fn copy_grant(g: &Grant) -> (r: Grant)
    ensures
        r@ == g@,
{
    Grant {
        id: g.id,
        plugin: string_of(chars_of(g.plugin.as_str()).as_slice()),
        capability: string_of(chars_of(g.capability.as_str()).as_slice()),
        scope: match &g.scope {
            Some(s) => Some(copy_scope(s)),
            None => None,
        },
        class: copy_opt(&g.class),
        source: string_of(chars_of(g.source.as_str()).as_slice()),
        duration: string_of(chars_of(g.duration.as_str()).as_slice()),
        granted_at: g.granted_at,
        expires_at: g.expires_at,
        revoked_at: g.revoked_at,
        permission: copy_opt(&g.permission),
        profile: copy_opt(&g.profile),
        correlation: copy_opt(&g.correlation),
    }
}

/// One event the host records about a package: a load, a grant, a revocation.
#[derive(Debug)]
pub struct HostEvent {
    /// Its identity, in the host's namespace.
    pub id: [u8; 16],
    /// The package it is about.
    pub plugin: String,
    /// The capability it concerns.
    pub capability: String,
    /// What happened: `capability.grant`, `capability.revoke`, …
    pub action: String,
    /// When, in nanoseconds since the epoch.
    pub at: i128,
    /// Whether it succeeded, or was denied.
    pub ok: bool,
    /// The correlation id of the user action it belongs to.
    pub correlation: Option<String>,
}

/// An event as plain values.
pub struct EventView {
    pub id: Seq<u8>,
    pub plugin: Seq<char>,
    pub capability: Seq<char>,
    pub action: Seq<char>,
    pub at: i128,
    pub ok: bool,
    pub correlation: Option<Seq<char>>,
}

impl View for HostEvent {
    type V = EventView;

    open spec fn view(&self) -> EventView {
        EventView {
            id: self.id@,
            plugin: self.plugin@,
            capability: self.capability@,
            action: self.action@,
            at: self.at,
            ok: self.ok,
            correlation: opt_view(self.correlation),
        }
    }
}

/// The events as plain values.
pub open spec fn events_view(v: Seq<HostEvent>) -> Seq<EventView> {
    v.map_values(|e: HostEvent| e@)
}

/// The event the host records with the session's `minted`-th identity.
pub open spec fn event_spec(
    nonce: u32,
    minted: u64,
    plugin: Seq<char>,
    capability: Seq<char>,
    action: Seq<char>,
    at: i128,
    ok: bool,
    correlation: Option<Seq<char>>,
) -> EventView {
    EventView { id: host_identity(minted_bytes(nonce, minted)), plugin, capability, action, at, ok, correlation }
}

/// Whether no two grants share an identity.
pub open spec fn distinct_ids(gs: Seq<GrantView>) -> bool {
    forall|i: int, j: int| 0 <= i < j < gs.len() ==> (#[trigger] gs[i]).id != (#[trigger] gs[j]).id
}

/// The first grant with identity `id` that is not revoked yet.
pub open spec fn revoke_target(gs: Seq<GrantView>, id: Seq<u8>) -> Option<int>
    decreases gs.len(),
{
    if gs.len() == 0 {
        None
    } else {
        match revoke_target(gs.drop_last(), id) {
            Some(i) => Some(i),
            None => if gs.last().id == id && gs.last().revoked_at is None {
                Some(gs.len() - 1)
            } else {
                None
            },
        }
    }
}

/// The grants of `plugin` that stand at `now`, oldest first.
pub open spec fn standing_of(gs: Seq<GrantView>, plugin: Seq<char>, now: i128) -> Seq<GrantView>
    decreases gs.len(),
{
    if gs.len() == 0 {
        seq![]
    } else {
        let rest = standing_of(gs.drop_last(), plugin, now);
        if gs.last().plugin == plugin && stands(gs.last(), now) {
            rest.push(gs.last())
        } else {
            rest
        }
    }
}

/// Whether a revocation of `plugin`'s grants takes `g`: it is the package's, it stands at
/// `now`, and, when a permission is named, that permission minted it.
pub open spec fn chosen(g: GrantView, plugin: Seq<char>, permission: Option<Seq<char>>, now: i128) -> bool {
    &&& g.plugin == plugin
    &&& stands(g, now)
    &&& match permission {
        Some(p) => g.permission == Some(p),
        None => true,
    }
}

/// The grant stamped with the correlation of the request revoking it, when there is one.
pub open spec fn stamped(g: GrantView, stamp: Option<Seq<char>>) -> GrantView {
    match stamp {
        Some(c) => GrantView { correlation: Some(c), ..g },
        None => g,
    }
}

/// Every grant a revocation takes stamped and revoked at `now`; every other grant as it was.
pub open spec fn revoke_matching_spec(
    gs: Seq<GrantView>,
    plugin: Seq<char>,
    permission: Option<Seq<char>>,
    stamp: Option<Seq<char>>,
    now: i128,
) -> Seq<GrantView> {
    gs.map_values(|g: GrantView| if chosen(g, plugin, permission, now) {
        revoked(stamped(g, stamp), now)
    } else {
        g
    })
}

/// The events a revocation records, one per grant it takes, in the grants' order, the first
/// with the session's `minted + 1`-th identity.
pub open spec fn matching_revocations(
    gs: Seq<GrantView>,
    plugin: Seq<char>,
    permission: Option<Seq<char>>,
    stamp: Option<Seq<char>>,
    now: i128,
    nonce: u32,
    minted: u64,
) -> Seq<EventView>
    decreases gs.len(),
{
    if gs.len() == 0 {
        seq![]
    } else {
        let rest = matching_revocations(gs.drop_last(), plugin, permission, stamp, now, nonce, minted);
        let g = gs.last();
        if chosen(g, plugin, permission, now) {
            rest.push(
                event_spec(
                    nonce,
                    (minted + rest.len() + 1) as u64,
                    g.plugin,
                    g.capability,
                    "capability.revoke"@,
                    now,
                    true,
                    stamped(g, stamp).correlation,
                ),
            )
        } else {
            rest
        }
    }
}

/// Every grant of `plugin` standing at `now` revoked at `now`; every other grant as it was.
pub open spec fn revoke_all_spec(gs: Seq<GrantView>, plugin: Seq<char>, now: i128) -> Seq<GrantView> {
    revoke_matching_spec(gs, plugin, None, None, now)
}

/// The events revoking every grant of `plugin` standing at `now` records.
pub open spec fn revocations(gs: Seq<GrantView>, plugin: Seq<char>, now: i128, nonce: u32, minted: u64) -> Seq<EventView> {
    matching_revocations(gs, plugin, None, None, now, nonce, minted)
}

/// A target in a prefix stays the target of the whole list.
proof fn lemma_target_extends(gs: Seq<GrantView>, n: int, id: Seq<u8>)
    requires
        0 <= n <= gs.len(),
        revoke_target(gs.take(n), id) is Some,
    ensures
        revoke_target(gs, id) == revoke_target(gs.take(n), id),
    decreases gs.len() - n,
{
    if n < gs.len() {
        assert(gs.take(n + 1).drop_last() =~= gs.take(n));
        assert(revoke_target(gs.take(n + 1), id) == revoke_target(gs.take(n), id));
        lemma_target_extends(gs, n + 1, id);
    } else {
        assert(gs.take(n) =~= gs);
    }
}

/// The target, when there is one, is a grant with that identity that is not revoked.
pub(crate) proof fn lemma_target_is_unrevoked(gs: Seq<GrantView>, id: Seq<u8>)
    ensures
        match revoke_target(gs, id) {
            Some(i) => 0 <= i < gs.len() && gs[i].id == id && gs[i].revoked_at is None,
            None => forall|j: int| 0 <= j < gs.len() ==> !((#[trigger] gs[j]).id == id && gs[j].revoked_at is None),
        },
    decreases gs.len(),
{
    if gs.len() > 0 {
        lemma_target_is_unrevoked(gs.drop_last(), id);
        assert forall|j: int| 0 <= j < gs.len() - 1 implies #[trigger] gs[j] == gs.drop_last()[j] by {}
    }
}

/// Which grant is the target depends only on the identities and on which grants are revoked.
proof fn lemma_target_same_keys(a: Seq<GrantView>, b: Seq<GrantView>, id: Seq<u8>)
    requires
        a.len() == b.len(),
        forall|k: int| 0 <= k < a.len() ==> (#[trigger] a[k]).id == b[k].id && a[k].revoked_at == b[k].revoked_at,
    ensures
        revoke_target(a, id) == revoke_target(b, id),
    decreases a.len(),
{
    if a.len() > 0 {
        lemma_target_same_keys(a.drop_last(), b.drop_last(), id);
    }
}

/// A revocation records at most one event per grant.
pub(crate) proof fn lemma_revocations_bound(
    gs: Seq<GrantView>,
    plugin: Seq<char>,
    permission: Option<Seq<char>>,
    stamp: Option<Seq<char>>,
    now: i128,
    nonce: u32,
    minted: u64,
)
    ensures
        matching_revocations(gs, plugin, permission, stamp, now, nonce, minted).len() <= gs.len(),
    decreases gs.len(),
{
    if gs.len() > 0 {
        lemma_revocations_bound(gs.drop_last(), plugin, permission, stamp, now, nonce, minted);
    }
}

/// A revocation of a prefix of the grants records no more events than one of them all.
pub(crate) proof fn lemma_revocations_prefix(
    gs: Seq<GrantView>,
    plugin: Seq<char>,
    permission: Option<Seq<char>>,
    stamp: Option<Seq<char>>,
    now: i128,
    nonce: u32,
    minted: u64,
    k: int,
)
    requires
        0 <= k <= gs.len(),
    ensures
        matching_revocations(gs.take(k), plugin, permission, stamp, now, nonce, minted).len()
            <= matching_revocations(gs, plugin, permission, stamp, now, nonce, minted).len(),
    decreases gs.len() - k,
{
    if k < gs.len() {
        lemma_revocations_prefix(gs, plugin, permission, stamp, now, nonce, minted, k + 1);
        assert(gs.take(k + 1).drop_last() =~= gs.take(k));
    } else {
        assert(gs.take(k) =~= gs);
    }
}

fn same_id(a: &[u8; 16], b: &[u8; 16]) -> (r: bool)
    ensures
        r == (a@ == b@),
{
    let mut i: usize = 0;
    while i < 16
        invariant
            i <= 16,
            a@.len() == 16,
            b@.len() == 16,
            forall|j: int| 0 <= j < i ==> a@[j] == b@[j],
        decreases 16 - i,
    {
        if a[i] != b[i] {
            return false;
        }
        i = i + 1;
    }
    assert(a@ =~= b@);
    true
}

/// The grants a session made and the host's own events, with the identities it mints.
pub struct GrantLedger {
    grants: Vec<Grant>,
    events: Vec<HostEvent>,
    nonce: u32,
    minted: u64,
}

impl GrantLedger {
    /// Every grant made, revoked ones included, oldest first.
    pub closed spec fn grant_list(&self) -> Seq<GrantView> {
        grants_view(self.grants@)
    }

    /// Every event the host recorded, oldest first.
    pub closed spec fn event_list(&self) -> Seq<EventView> {
        events_view(self.events@)
    }

    /// The session's nonce.
    pub closed spec fn nonce_of(&self) -> u32 {
        self.nonce
    }

    /// How many identities the session minted.
    pub closed spec fn minted_count(&self) -> u64 {
        self.minted
    }

    /// Every grant carries an identity minted so far, and while fewer than 2⁴⁸ were minted no
    /// two grants share one.
    pub closed spec fn wf(&self) -> bool {
        &&& self.nonce != 0
        &&& forall|i: int| 0 <= i < self.grants@.len() ==> counter_of(#[trigger] self.grants@[i].id@) <= self.minted
        &&& self.minted < 0x1_0000_0000_0000 ==> distinct_ids(grants_view(self.grants@))
    }

    /// A session's ledger, minting with `nonce`: no grant and no event yet.
    pub fn new(nonce: u32) -> (r: GrantLedger)
        requires
            nonce != 0,
        ensures
            r.wf(),
            r.grant_list() == Seq::<GrantView>::empty(),
            r.event_list() == Seq::<EventView>::empty(),
            r.nonce_of() == nonce,
            r.minted_count() == 0,
    {
        let r = GrantLedger { grants: Vec::new(), events: Vec::new(), nonce, minted: 0 };
        assert(grants_view(r.grants@) =~= Seq::<GrantView>::empty());
        assert(events_view(r.events@) =~= Seq::<EventView>::empty());
        r
    }

    /// How many identities the session minted.
    pub fn minted(&self) -> (r: u64)
        ensures
            r == self.minted_count(),
    {
        self.minted
    }

    /// Every grant made, revoked ones included, oldest first.
    pub fn grants(&self) -> (r: &Vec<Grant>)
        ensures
            grants_view(r@) == self.grant_list(),
    {
        &self.grants
    }

    /// Every event the host recorded, oldest first.
    pub fn events(&self) -> (r: &Vec<HostEvent>)
        ensures
            events_view(r@) == self.event_list(),
    {
        &self.events
    }

    /// Records a host-side event about `plugin`, in the host's namespace, with the next identity.
    pub fn record_event(
        &mut self,
        plugin: &str,
        capability: &str,
        action: &str,
        ok: bool,
        correlation: Option<String>,
        at: i128,
    )
        requires
            old(self).wf(),
            old(self).minted_count() < u64::MAX,
        ensures
            final(self).wf(),
            final(self).grant_list() == old(self).grant_list(),
            final(self).event_list() == old(self).event_list().push(
                event_spec(
                    old(self).nonce_of(),
                    (old(self).minted_count() + 1) as u64,
                    plugin@,
                    capability@,
                    action@,
                    at,
                    ok,
                    opt_view(correlation),
                ),
            ),
            final(self).nonce_of() == old(self).nonce_of(),
            final(self).minted_count() == old(self).minted_count() + 1,
    {
        let minted = self.mint();
        let mut id = minted;
        id[0] = 0xffu8;
        id[1] = 0xffu8;
        id[2] = 0xffu8;
        id[3] = 0xffu8;
        assert(id@ =~= host_identity(minted@));
        let event = HostEvent {
            id,
            plugin: string_of(chars_of(plugin).as_slice()),
            capability: string_of(chars_of(capability).as_slice()),
            action: string_of(chars_of(action).as_slice()),
            at,
            ok,
            correlation,
        };
        let ghost before = events_view(self.events@);
        self.events.push(event);
        assert(events_view(self.events@) =~= before.push(event@));
        proof {
            self.lemma_minted_more(old(self).minted);
        }
    }

    proof fn lemma_minted_more(&self, before: u64)
        requires
            self.nonce != 0,
            before <= self.minted,
            forall|i: int| 0 <= i < self.grants@.len() ==> counter_of(#[trigger] self.grants@[i].id@) <= before,
            before < 0x1_0000_0000_0000 ==> distinct_ids(grants_view(self.grants@)),
            self.minted < 0x1_0000_0000_0000 ==> before < 0x1_0000_0000_0000,
        ensures
            self.wf(),
    {
    }

    /// Makes a grant of `capability` to `plugin`, answering it, and records the host event
    /// `capability.grant`. `origin` says which permission decision minted it, when one did.
    pub fn grant(
        &mut self,
        plugin: &str,
        capability: &str,
        scope: Option<Scope>,
        class: Option<String>,
        source: &str,
        duration: &str,
        expires_at: Option<i128>,
        origin: GrantOrigin,
        now: i128,
    ) -> (r: Grant)
        requires
            old(self).wf(),
            old(self).minted_count() + 2 <= u64::MAX,
        ensures
            final(self).wf(),
            r@ == (GrantView {
                id: minted_bytes(old(self).nonce_of(), (old(self).minted_count() + 1) as u64),
                plugin: plugin@,
                capability: capability@,
                scope: opt_scope_view(scope),
                class: opt_view(class),
                source: source@,
                duration: duration@,
                granted_at: now,
                expires_at,
                revoked_at: None,
                permission: opt_view(origin.permission),
                profile: opt_view(origin.profile),
                correlation: opt_view(origin.correlation),
            }),
            final(self).grant_list() == old(self).grant_list().push(r@),
            final(self).event_list() == old(self).event_list().push(
                event_spec(
                    old(self).nonce_of(),
                    (old(self).minted_count() + 2) as u64,
                    plugin@,
                    capability@,
                    "capability.grant"@,
                    now,
                    true,
                    opt_view(origin.correlation),
                ),
            ),
            final(self).nonce_of() == old(self).nonce_of(),
            final(self).minted_count() == old(self).minted_count() + 2,
    {
        let ghost m = self.minted;
        let id = self.mint();
        let event_correlation = copy_opt(&origin.correlation);
        let grant = Grant {
            id,
            plugin: string_of(chars_of(plugin).as_slice()),
            capability: string_of(chars_of(capability).as_slice()),
            scope,
            class,
            source: string_of(chars_of(source).as_slice()),
            duration: string_of(chars_of(duration).as_slice()),
            granted_at: now,
            expires_at,
            revoked_at: None,
            permission: origin.permission,
            profile: origin.profile,
            correlation: origin.correlation,
        };
        let answer = copy_grant(&grant);
        let ghost before = grants_view(self.grants@);
        proof {
            lemma_counter_of_minted(self.nonce, self.minted);
            if self.minted < 0x1_0000_0000_0000 {
                assert forall|i: int| 0 <= i < before.len() implies before[i].id != id@ by {
                    assert(counter_of(self.grants@[i].id@) <= m);
                }
            }
        }
        self.grants.push(grant);
        assert(grants_view(self.grants@) =~= before.push(answer@));
        assert(forall|i: int| 0 <= i < self.grants@.len() ==> counter_of(#[trigger] self.grants@[i].id@) <= self.minted) by {
            assert forall|i: int| 0 <= i < self.grants@.len() implies counter_of(#[trigger] self.grants@[i].id@) <= self.minted by {
                if i < before.len() {
                    assert(self.grants@[i] == old(self).grants@[i]);
                }
            }
        }
        self.record_event(plugin, capability, "capability.grant", true, event_correlation, now);
        answer
    }

    fn find_revocable(&self, id: &[u8; 16]) -> (r: Option<usize>)
        ensures
            match r {
                Some(i) => revoke_target(self.grant_list(), id@) == Some(i as int),
                None => revoke_target(self.grant_list(), id@) is None,
            },
    {
        let ghost gv = grants_view(self.grants@);
        let mut i: usize = 0;
        while i < self.grants.len()
            invariant
                i <= self.grants.len(),
                gv == grants_view(self.grants@),
                revoke_target(gv.take(i as int), id@) is None,
            decreases self.grants.len() - i,
        {
            assert(gv.take(i + 1).drop_last() =~= gv.take(i as int));
            if same_id(&self.grants[i].id, id) && self.grants[i].revoked_at.is_none() {
                proof {
                    lemma_target_extends(gv, i + 1, id@);
                }
                return Some(i);
            }
            i = i + 1;
        }
        assert(gv.take(self.grants.len() as int) =~= gv);
        None
    }

    /// Revokes the grant with identity `id` at `now`, answering it, and records the host event
    /// `capability.revoke`; `None`, and nothing changed, when no such grant still stands
    /// unrevoked. The grant is kept, marked revoked.
    pub fn revoke(&mut self, id: [u8; 16], now: i128) -> (r: Option<Grant>)
        requires
            old(self).wf(),
            revoke_target(old(self).grant_list(), id@) is Some ==> old(self).minted_count() < u64::MAX,
        ensures
            final(self).wf(),
            final(self).nonce_of() == old(self).nonce_of(),
            match revoke_target(old(self).grant_list(), id@) {
                None => {
                    &&& r is None
                    &&& final(self).grant_list() == old(self).grant_list()
                    &&& final(self).event_list() == old(self).event_list()
                    &&& final(self).minted_count() == old(self).minted_count()
                },
                Some(i) => r matches Some(g) && {
                    let before = old(self).grant_list()[i];
                    &&& g@ == revoked(before, now)
                    &&& final(self).grant_list() == old(self).grant_list().update(i, g@)
                    &&& final(self).event_list() == old(self).event_list().push(
                        event_spec(
                            old(self).nonce_of(),
                            (old(self).minted_count() + 1) as u64,
                            before.plugin,
                            before.capability,
                            "capability.revoke"@,
                            now,
                            true,
                            before.correlation,
                        ),
                    )
                    &&& final(self).minted_count() == old(self).minted_count() + 1
                },
            },
    {
        match self.find_revocable(&id) {
            None => None,
            Some(i) => {
                let ghost before = grants_view(self.grants@);
                proof {
                    lemma_target_is_unrevoked(before, id@);
                }
                self.grants[i].revoked_at = Some(now);
                let answer = copy_grant(&self.grants[i]);
                assert(grants_view(self.grants@) =~= before.update(i as int, answer@));
                assert(distinct_ids(grants_view(self.grants@)) <== distinct_ids(before)) by {
                    assert forall|a: int, b: int| 0 <= a < b < self.grants@.len() implies
                        (#[trigger] grants_view(self.grants@)[a]).id == before[a].id
                        && (#[trigger] grants_view(self.grants@)[b]).id == before[b].id by {}
                }
                assert forall|k: int| 0 <= k < self.grants@.len() implies counter_of(#[trigger] self.grants@[k].id@) <= self.minted by {
                    assert(grants_view(self.grants@)[k].id == before[k].id);
                    assert(old(self).grants@[k].id@ == before[k].id);
                }
                let correlation = copy_opt(&answer.correlation);
                self.record_event(answer.plugin.as_str(), answer.capability.as_str(), "capability.revoke", true, correlation, now);
                Some(answer)
            },
        }
    }

    /// `revoke`, with the revoked grant stamped with the request the revocation is part of.
    pub fn revoke_correlated(&mut self, id: [u8; 16], correlation: &str, now: i128) -> (r: Option<Grant>)
        requires
            old(self).wf(),
            revoke_target(old(self).grant_list(), id@) is Some ==> old(self).minted_count() < u64::MAX,
        ensures
            final(self).wf(),
            final(self).nonce_of() == old(self).nonce_of(),
            match revoke_target(old(self).grant_list(), id@) {
                None => {
                    &&& r is None
                    &&& final(self).grant_list() == old(self).grant_list()
                    &&& final(self).event_list() == old(self).event_list()
                    &&& final(self).minted_count() == old(self).minted_count()
                },
                Some(i) => r matches Some(g) && {
                    let before = old(self).grant_list()[i];
                    &&& g@ == revoked(GrantView { correlation: Some(correlation@), ..before }, now)
                    &&& final(self).grant_list() == old(self).grant_list().update(i, g@)
                    &&& final(self).event_list() == old(self).event_list().push(
                        event_spec(
                            old(self).nonce_of(),
                            (old(self).minted_count() + 1) as u64,
                            before.plugin,
                            before.capability,
                            "capability.revoke"@,
                            now,
                            true,
                            Some(correlation@),
                        ),
                    )
                    &&& final(self).minted_count() == old(self).minted_count() + 1
                },
            },
    {
        match self.find_revocable(&id) {
            None => None,
            Some(i) => {
                let ghost before = grants_view(self.grants@);
                proof {
                    lemma_target_is_unrevoked(before, id@);
                }
                self.grants[i].correlation = Some(string_of(chars_of(correlation).as_slice()));
                let ghost marked = grants_view(self.grants@);
                assert(marked =~= before.update(i as int, GrantView { correlation: Some(correlation@), ..before[i as int] }));
                assert(distinct_ids(marked) <== distinct_ids(before)) by {
                    assert forall|a: int, b: int| 0 <= a < b < marked.len() implies
                        (#[trigger] marked[a]).id == before[a].id && (#[trigger] marked[b]).id == before[b].id by {}
                }
                assert forall|k: int| 0 <= k < self.grants@.len() implies counter_of(#[trigger] self.grants@[k].id@) <= self.minted by {
                    assert(marked[k].id == before[k].id);
                    assert(old(self).grants@[k].id@ == before[k].id);
                }
                proof {
                    lemma_target_same_keys(before, marked, id@);
                }
                self.revoke(id, now)
            },
        }
    }

    fn stands_now(g: &Grant, plugin: &str, now: i128) -> (r: bool)
        ensures
            r == (g@.plugin == plugin@ && stands(g@, now)),
    {
        let same = chars_eq(chars_of(g.plugin.as_str()).as_slice(), chars_of(plugin).as_slice());
        same && g.revoked_at.is_none() && match g.expires_at {
            Some(expiry) => expiry > now,
            None => true,
        }
    }

    /// The grants that stand for `plugin` at `now`, oldest first: a lease whose window has
    /// closed does not stand, nor does a revoked grant.
    pub fn standing_grants(&self, plugin: &str, now: i128) -> (r: Vec<Grant>)
        ensures
            grants_view(r@) == standing_of(self.grant_list(), plugin@, now),
    {
        let ghost gv = grants_view(self.grants@);
        let mut r: Vec<Grant> = Vec::new();
        let mut i: usize = 0;
        while i < self.grants.len()
            invariant
                i <= self.grants.len(),
                gv == grants_view(self.grants@),
                grants_view(r@) == standing_of(gv.take(i as int), plugin@, now),
            decreases self.grants.len() - i,
        {
            assert(gv.take(i + 1).drop_last() =~= gv.take(i as int));
            if Self::stands_now(&self.grants[i], plugin, now) {
                let g = copy_grant(&self.grants[i]);
                let ghost prev = grants_view(r@);
                r.push(g);
                assert(grants_view(r@) =~= prev.push(g@));
            }
            i = i + 1;
        }
        assert(gv.take(self.grants.len() as int) =~= gv);
        r
    }

    fn matches_permission(g: &Grant, permission: Option<&str>) -> (r: bool)
        ensures
            r == match permission {
                Some(p) => g@.permission == Some(p@),
                None => true,
            },
    {
        match permission {
            None => true,
            Some(p) => match &g.permission {
                Some(q) => chars_eq(chars_of(q.as_str()).as_slice(), chars_of(p).as_slice()),
                None => false,
            },
        }
    }

    fn revoke_matching(&mut self, plugin: &str, permission: Option<&str>, stamp: Option<&str>, now: i128) -> (r: usize)
        requires
            old(self).wf(),
            old(self).minted_count() + matching_revocations(
                old(self).grant_list(),
                plugin@,
                opt_str(permission),
                opt_str(stamp),
                now,
                old(self).nonce_of(),
                old(self).minted_count(),
            ).len() <= u64::MAX,
        ensures
            final(self).wf(),
            final(self).nonce_of() == old(self).nonce_of(),
            final(self).grant_list() == revoke_matching_spec(
                old(self).grant_list(),
                plugin@,
                opt_str(permission),
                opt_str(stamp),
                now,
            ),
            final(self).event_list() == old(self).event_list() + matching_revocations(
                old(self).grant_list(),
                plugin@,
                opt_str(permission),
                opt_str(stamp),
                now,
                old(self).nonce_of(),
                old(self).minted_count(),
            ),
            r == matching_revocations(
                old(self).grant_list(),
                plugin@,
                opt_str(permission),
                opt_str(stamp),
                now,
                old(self).nonce_of(),
                old(self).minted_count(),
            ).len(),
            final(self).minted_count() == old(self).minted_count() + r,
    {
        let ghost gv = grants_view(self.grants@);
        let ghost ev = events_view(self.events@);
        let ghost m0 = self.minted;
        let ghost nonce = self.nonce;
        let ghost which = opt_str(permission);
        let ghost st = opt_str(stamp);
        let ghost total = matching_revocations(gv, plugin@, which, st, now, nonce, m0).len();
        let n = self.grants.len();
        let mut count: usize = 0;
        let mut i: usize = 0;
        proof {
            lemma_revocations_bound(gv.take(0), plugin@, which, st, now, nonce, m0);
            assert(revoke_matching_spec(gv.take(0), plugin@, which, st, now) + gv.skip(0) =~= gv);
        }
        while i < n
            invariant
                i <= n,
                n == self.grants@.len(),
                n == gv.len(),
                self.wf(),
                self.nonce == nonce,
                m0 + total <= u64::MAX,
                total == matching_revocations(gv, plugin@, which, st, now, nonce, m0).len(),
                which == opt_str(permission),
                st == opt_str(stamp),
                grants_view(self.grants@) == revoke_matching_spec(gv.take(i as int), plugin@, which, st, now) + gv.skip(i as int),
                events_view(self.events@) == ev + matching_revocations(gv.take(i as int), plugin@, which, st, now, nonce, m0),
                count == matching_revocations(gv.take(i as int), plugin@, which, st, now, nonce, m0).len(),
                count <= i,
                self.minted == m0 + count,
            decreases n - i,
        {
            let ghost cur = grants_view(self.grants@);
            assert(cur[i as int] == gv[i as int]);
            assert(gv.take(i + 1).drop_last() =~= gv.take(i as int));
            if Self::stands_now(&self.grants[i], plugin, now) && Self::matches_permission(&self.grants[i], permission) {
                proof {
                    lemma_revocations_prefix(gv, plugin@, which, st, now, nonce, m0, i + 1);
                }
                if let Some(c) = stamp {
                    self.grants[i].correlation = Some(string_of(chars_of(c).as_slice()));
                }
                self.grants[i].revoked_at = Some(now);
                let ghost marked = grants_view(self.grants@);
                let ghost became = revoked(stamped(gv[i as int], st), now);
                assert(marked =~= cur.update(i as int, became));
                assert forall|k: int| 0 <= k < self.grants@.len() implies counter_of(#[trigger] self.grants@[k].id@) <= self.minted by {
                    assert(marked[k].id == cur[k].id);
                }
                assert(distinct_ids(marked) <== distinct_ids(cur)) by {
                    assert forall|a: int, b: int| 0 <= a < b < marked.len() implies
                        (#[trigger] marked[a]).id == cur[a].id && (#[trigger] marked[b]).id == cur[b].id by {}
                }
                let correlation = copy_opt(&self.grants[i].correlation);
                let p = string_of(chars_of(self.grants[i].plugin.as_str()).as_slice());
                let c = string_of(chars_of(self.grants[i].capability.as_str()).as_slice());
                self.record_event(p.as_str(), c.as_str(), "capability.revoke", true, correlation, now);
                count = count + 1;
                assert(revoke_matching_spec(gv.take(i + 1), plugin@, which, st, now) + gv.skip(i + 1) =~= marked) by {
                    assert(revoke_matching_spec(gv.take(i + 1), plugin@, which, st, now) =~= revoke_matching_spec(
                        gv.take(i as int),
                        plugin@,
                        which,
                        st,
                        now,
                    ).push(became));
                }
                assert(events_view(self.events@) =~= ev + matching_revocations(gv.take(i + 1), plugin@, which, st, now, nonce, m0));
            } else {
                assert(revoke_matching_spec(gv.take(i + 1), plugin@, which, st, now) + gv.skip(i + 1) =~= cur) by {
                    assert(revoke_matching_spec(gv.take(i + 1), plugin@, which, st, now) =~= revoke_matching_spec(
                        gv.take(i as int),
                        plugin@,
                        which,
                        st,
                        now,
                    ).push(gv[i as int]));
                }
            }
            i = i + 1;
        }
        assert(gv.take(n as int) =~= gv);
        assert(gv.skip(n as int) =~= Seq::<GrantView>::empty());
        assert(revoke_matching_spec(gv, plugin@, which, st, now) + gv.skip(n as int) =~= revoke_matching_spec(gv, plugin@, which, st, now));
        count
    }

    /// Revokes at `now` every grant that still stands for `plugin`, recording the host event
    /// `capability.revoke` for each, in order, and answers how many ended. The grants are kept,
    /// marked revoked, so the trail still shows what the package was once allowed to do.
    /// (Each grant is found by its place rather than by its identity; the two agree, since no
    /// two grants share an identity until 2⁴⁸ have been minted.)
    pub fn revoke_grants_of(&mut self, plugin: &str, now: i128) -> (r: usize)
        requires
            old(self).wf(),
            old(self).minted_count() + revocations(
                old(self).grant_list(),
                plugin@,
                now,
                old(self).nonce_of(),
                old(self).minted_count(),
            ).len() <= u64::MAX,
        ensures
            final(self).wf(),
            final(self).nonce_of() == old(self).nonce_of(),
            final(self).grant_list() == revoke_all_spec(old(self).grant_list(), plugin@, now),
            final(self).event_list() == old(self).event_list() + revocations(
                old(self).grant_list(),
                plugin@,
                now,
                old(self).nonce_of(),
                old(self).minted_count(),
            ),
            r == revocations(old(self).grant_list(), plugin@, now, old(self).nonce_of(), old(self).minted_count()).len(),
            final(self).minted_count() == old(self).minted_count() + r,
    {
        self.revoke_matching(plugin, None, None, now)
    }

    /// Revokes at `now` every grant that still stands for `plugin` and that `permission`
    /// minted, each stamped with the request `correlation` names, recording the host event
    /// `capability.revoke` for each; answers how many ended.
    pub fn revoke_permission_grants(&mut self, plugin: &str, permission: &str, correlation: &str, now: i128) -> (r: usize)
        requires
            old(self).wf(),
            old(self).minted_count() + matching_revocations(
                old(self).grant_list(),
                plugin@,
                Some(permission@),
                Some(correlation@),
                now,
                old(self).nonce_of(),
                old(self).minted_count(),
            ).len() <= u64::MAX,
        ensures
            final(self).wf(),
            final(self).nonce_of() == old(self).nonce_of(),
            final(self).grant_list() == revoke_matching_spec(
                old(self).grant_list(),
                plugin@,
                Some(permission@),
                Some(correlation@),
                now,
            ),
            final(self).event_list() == old(self).event_list() + matching_revocations(
                old(self).grant_list(),
                plugin@,
                Some(permission@),
                Some(correlation@),
                now,
                old(self).nonce_of(),
                old(self).minted_count(),
            ),
            r == matching_revocations(
                old(self).grant_list(),
                plugin@,
                Some(permission@),
                Some(correlation@),
                now,
                old(self).nonce_of(),
                old(self).minted_count(),
            ).len(),
            final(self).minted_count() == old(self).minted_count() + r,
    {
        self.revoke_matching(plugin, Some(permission), Some(correlation), now)
    }

    fn mint(&mut self) -> (r: [u8; 16])
        requires
            old(self).minted < u64::MAX,
        ensures
            final(self).minted == old(self).minted + 1,
            r@ == minted_bytes(old(self).nonce, final(self).minted),
            final(self).grants == old(self).grants,
            final(self).events == old(self).events,
            final(self).nonce == old(self).nonce,
    {
        self.minted = self.minted + 1;
        mint_bytes(self.nonce, self.minted)
    }
}

// --- laws --------------------------------------------------------------------------------------

/// A grant is revoked once: in a ledger of a session that has minted fewer than 2⁴⁸
/// identities, once the grant with an identity is revoked, revoking that identity again finds
/// nothing.
pub proof fn law_a_grant_is_revoked_once(ledger: &GrantLedger, id: Seq<u8>, now: i128)
    requires
        ledger.wf(),
        ledger.minted_count() < 0x1_0000_0000_0000,
    ensures
        revoke_target(ledger.grant_list(), id) matches Some(i) ==> revoke_target(
            ledger.grant_list().update(i, revoked(ledger.grant_list()[i], now)),
            id,
        ) is None,
{
    let gs = ledger.grant_list();
    assert(distinct_ids(gs));
    lemma_target_is_unrevoked(gs, id);
    if let Some(i) = revoke_target(gs, id) {
        let after = gs.update(i, revoked(gs[i], now));
        lemma_target_is_unrevoked(after, id);
        if let Some(j) = revoke_target(after, id) {
            assert(j != i);
            assert(after[j] == gs[j]);
            if j < i {
                assert(gs[j].id != gs[i].id);
            } else {
                assert(gs[i].id != gs[j].id);
            }
        }
    }
}

/// Once every grant of a package that stands at `now` is revoked, none of its grants stands at
/// `now` or after: the ones that were not revoked had already ended.
pub proof fn law_nothing_stands_for_a_revoked_package(gs: Seq<GrantView>, plugin: Seq<char>, now: i128, later: i128)
    requires
        later >= now,
    ensures
        standing_of(revoke_all_spec(gs, plugin, now), plugin, later) == Seq::<GrantView>::empty(),
    decreases gs.len(),
{
    if gs.len() > 0 {
        law_nothing_stands_for_a_revoked_package(gs.drop_last(), plugin, now, later);
        assert(revoke_all_spec(gs, plugin, now).drop_last() =~= revoke_all_spec(gs.drop_last(), plugin, now));
    } else {
        assert(revoke_all_spec(gs, plugin, now) =~= Seq::<GrantView>::empty());
    }
}

/// Revoking one package's grants keeps every grant, and changes none of another package's.
pub proof fn law_revocation_keeps_the_trail(gs: Seq<GrantView>, plugin: Seq<char>, now: i128)
    ensures
        revoke_all_spec(gs, plugin, now).len() == gs.len(),
        forall|k: int| 0 <= k < gs.len() && (#[trigger] gs[k]).plugin != plugin ==> revoke_all_spec(gs, plugin, now)[k] == gs[k],
        forall|k: int| 0 <= k < gs.len() ==> (#[trigger] revoke_all_spec(gs, plugin, now)[k]).id == gs[k].id,
{
}

/// Revoking a grant that is not revoked yet takes exactly that grant: it is kept, now revoked at
/// `now` under the same identity, no other grant changes, and a second revocation of the same
/// identity finds nothing.
pub proof fn law_revoking_keeps_the_grant_and_happens_once(gs: Seq<GrantView>, id: Seq<u8>, now: i128, k: int)
    requires
        distinct_ids(gs),
        0 <= k < gs.len(),
        gs[k].id == id,
        gs[k].revoked_at is None,
    ensures
        revoke_target(gs, id) == Some(k),
        ({
            let after = gs.update(k, revoked(gs[k], now));
            &&& after.len() == gs.len()
            &&& after[k].id == id
            &&& after[k].revoked_at == Some(now)
            &&& forall|j: int| 0 <= j < gs.len() && j != k ==> after[j] == gs[j]
            &&& revoke_target(after, id) is None
        }),
{
    lemma_target_is_unrevoked(gs, id);
    if let Some(i) = revoke_target(gs, id) {
        if i != k {
            if i < k {
                assert(gs[i].id != gs[k].id);
            } else {
                assert(gs[k].id != gs[i].id);
            }
        }
    } else {
        assert(!(gs[k].id == id && gs[k].revoked_at is None));
    }
    let after = gs.update(k, revoked(gs[k], now));
    lemma_target_is_unrevoked(after, id);
    if let Some(j) = revoke_target(after, id) {
        assert(j != k);
        assert(after[j] == gs[j]);
        if j < k {
            assert(gs[j].id != gs[k].id);
        } else {
            assert(gs[k].id != gs[j].id);
        }
    }
}

/// Revoking a package's grants ends as many grants as stood for it.
pub proof fn law_revocations_count_the_standing_grants(gs: Seq<GrantView>, plugin: Seq<char>, now: i128, nonce: u32, minted: u64)
    ensures
        revocations(gs, plugin, now, nonce, minted).len() == standing_of(gs, plugin, now).len(),
    decreases gs.len(),
{
    if gs.len() > 0 {
        law_revocations_count_the_standing_grants(gs.drop_last(), plugin, now, nonce, minted);
    }
}

} // verus!
