//! The human layer over the broker: a
//! decision and its store, the projection `get permission` answers, and the words
//! `set permission` reads.
//!
//! Nothing here is a second security engine. A decision is executed by minting ordinary grants,
//! and the policy stays what the broker enforces; this module keeps the record that links a
//! human intention to those grants, and reads it back.

use vstd::prelude::*;

use crate::grants::GrantView;
use crate::hosts::opt_view;
use crate::invocation::strings_view;
use crate::text::{chars_of, chars_eq, eq_str, string_of};

verus! {

/// The decision store's format line.
pub const DECISIONS_FORMAT: &'static str = "kuang-permissions/1";

/// One stored decision.
#[derive(Debug, Clone, PartialEq, Eq)]
pub struct DecisionRecord {
    /// `allow`, `deny` or `ask`.
    pub decision: String,
    /// `always` in the store; `session` in memory only.
    pub duration: String,
    /// The profile that selected it, or `None` for a decision made one at a time.
    pub profile: Option<String>,
    /// When it was first made.
    pub created_at: String,
    /// When it last changed.
    pub updated_at: String,
    /// The grants it minted, by id.
    pub grants: Vec<String>,
    /// The capabilities the permission resolves to — what a `deny` holds ahead of any grant.
    pub capabilities: Vec<String>,
    /// The package version consented to.
    pub package_version: String,
    /// The signing key at consent, or `unsigned`.
    pub publisher: String,
}

/// A decision in memory: whose, which, and the record.
#[derive(Debug, Clone, PartialEq, Eq)]
pub struct Decision {
    /// The package id.
    pub plugin: String,
    /// The permission id.
    pub permission: String,
    /// The record.
    pub record: DecisionRecord,
}

/// A decision record as plain values.
pub struct RecordView {
    pub decision: Seq<char>,
    pub duration: Seq<char>,
    pub profile: Option<Seq<char>>,
    pub created_at: Seq<char>,
    pub updated_at: Seq<char>,
    pub grants: Seq<Seq<char>>,
    pub capabilities: Seq<Seq<char>>,
    pub package_version: Seq<char>,
    pub publisher: Seq<char>,
}

/// A decision as plain values.
pub struct DecisionView {
    pub plugin: Seq<char>,
    pub permission: Seq<char>,
    pub record: RecordView,
}

impl View for DecisionRecord {
    type V = RecordView;

    open spec fn view(&self) -> RecordView {
        RecordView {
            decision: self.decision@,
            duration: self.duration@,
            profile: opt_view(self.profile),
            created_at: self.created_at@,
            updated_at: self.updated_at@,
            grants: strings_view(self.grants@),
            capabilities: strings_view(self.capabilities@),
            package_version: self.package_version@,
            publisher: self.publisher@,
        }
    }
}

impl View for Decision {
    type V = DecisionView;

    open spec fn view(&self) -> DecisionView {
        DecisionView { plugin: self.plugin@, permission: self.permission@, record: self.record@ }
    }
}

/// A copy of a list of strings.
pub(crate) fn copy_strings(v: &Vec<String>) -> (r: Vec<String>)
    ensures
        strings_view(r@) == strings_view(v@),
{
    let mut r: Vec<String> = Vec::new();
    let mut i: usize = 0;
    while i < v.len()
        invariant
            i <= v.len(),
            strings_view(r@) == strings_view(v@).take(i as int),
        decreases v.len() - i,
    {
        let ghost prev = strings_view(r@);
        let s = v[i].clone();
        r.push(s);
        i = i + 1;
        assert(strings_view(r@) =~= prev.push(s@));
        assert(strings_view(v@).take(i as int) =~= strings_view(v@).take(i - 1).push(v@[i - 1]@));
    }
    assert(strings_view(v@).take(v.len() as int) =~= strings_view(v@));
    r
}

impl DecisionRecord {
    /// A copy of the record.
    pub fn copy(&self) -> (r: Self)
        ensures
            r@ == self@,
    {
        DecisionRecord {
            decision: self.decision.clone(),
            duration: self.duration.clone(),
            profile: match &self.profile {
                Some(p) => Some(p.clone()),
                None => None,
            },
            created_at: self.created_at.clone(),
            updated_at: self.updated_at.clone(),
            grants: copy_strings(&self.grants),
            capabilities: copy_strings(&self.capabilities),
            package_version: self.package_version.clone(),
            publisher: self.publisher.clone(),
        }
    }
}

impl Decision {
    /// A copy of the decision.
    pub fn copy(&self) -> (r: Self)
        ensures
            r@ == self@,
    {
        Decision {
            plugin: self.plugin.clone(),
            permission: self.permission.clone(),
            record: self.record.copy(),
        }
    }
}

/// Whether a decision is about `plugin`'s `permission`.
pub open spec fn is_about(d: DecisionView, plugin: Seq<char>, permission: Seq<char>) -> bool {
    d.plugin == plugin && d.permission == permission
}

/// The first decision about `plugin`'s `permission`.
pub open spec fn find_decision(
    decisions: Seq<DecisionView>,
    plugin: Seq<char>,
    permission: Seq<char>,
) -> Option<DecisionView>
    decreases decisions.len(),
{
    if decisions.len() == 0 {
        None
    } else if is_about(decisions[0], plugin, permission) {
        Some(decisions[0])
    } else {
        find_decision(decisions.drop_first(), plugin, permission)
    }
}

/// No two decisions are about the same permission of the same package.
pub open spec fn keys_unique(decisions: Seq<DecisionView>) -> bool {
    forall|i: int, j: int|
        0 <= i < j < decisions.len() ==> !is_about(
            #[trigger] decisions[i],
            (#[trigger] decisions[j]).plugin,
            decisions[j].permission,
        )
}

/// Every decision except those about `plugin`'s `permission`.
pub open spec fn without(
    decisions: Seq<DecisionView>,
    plugin: Seq<char>,
    permission: Seq<char>,
) -> Seq<DecisionView> {
    decisions.filter(|d: DecisionView| !is_about(d, plugin, permission))
}

/// The decision recorded at `now` about `plugin`'s `permission`, keeping the creation time of
/// the decision `existing` it replaces.
pub open spec fn stamped_decision(
    existing: Option<DecisionView>,
    plugin: Seq<char>,
    permission: Seq<char>,
    decision: Seq<char>,
    duration: Seq<char>,
    profile: Option<Seq<char>>,
    grants: Seq<Seq<char>>,
    capabilities: Seq<Seq<char>>,
    package_version: Seq<char>,
    publisher: Seq<char>,
    now: Seq<char>,
) -> DecisionView {
    DecisionView {
        plugin,
        permission,
        record: RecordView {
            decision,
            duration,
            profile,
            created_at: match existing {
                Some(e) => e.record.created_at,
                None => now,
            },
            updated_at: now,
            grants,
            capabilities,
            package_version,
            publisher,
        },
    }
}

/// The decisions once those a store held are added, in order: one about a permission already
/// decided is passed over, so the decision made first stands.
pub open spec fn loaded(decisions: Seq<DecisionView>, stored: Seq<DecisionView>) -> Seq<DecisionView>
    decreases stored.len(),
{
    if stored.len() == 0 {
        decisions
    } else {
        let before = loaded(decisions, stored.drop_last());
        let d = stored.last();
        if find_decision(before, d.plugin, d.permission) is None {
            before.push(d)
        } else {
            before
        }
    }
}

/// The decisions made and the just-in-time denials remembered: what the host keeps of the
/// human layer.
#[derive(Debug, Default)]
pub struct DecisionStore {
    decisions: Vec<Decision>,
    session_denials: Vec<(String, String, String)>,
}

/// The store as plain values: the decisions, and the remembered denials.
pub struct StoreView {
    pub decisions: Seq<DecisionView>,
    pub denials: Seq<(Seq<char>, Seq<char>, Seq<char>)>,
}

/// The text of each denial.
pub open spec fn denials_view(v: Seq<(String, String, String)>) -> Seq<(Seq<char>, Seq<char>, Seq<char>)> {
    v.map_values(|t: (String, String, String)| (t.0@, t.1@, t.2@))
}

impl View for DecisionStore {
    type V = StoreView;

    closed spec fn view(&self) -> StoreView {
        StoreView {
            decisions: self.decisions@.map_values(|d: Decision| d@),
            denials: denials_view(self.session_denials@),
        }
    }
}

/// The system clock, as std's `SystemTime` holds it.
#[verifier::external_type_specification]
#[verifier::external_body]
pub struct ExSystemTime(std::time::SystemTime);

/// What the system clock reads now.
///
/// Trusted: `std::time::SystemTime::now`. Nothing is stated of the reading: it depends on the
/// time.
#[verifier::external_body]
fn system_now() -> (r: std::time::SystemTime) {
    std::time::SystemTime::now()
}

/// A clock reading as RFC 3339 text, or nothing when it lies outside the range a timestamp can
/// hold (roughly ten thousand years either side of the year zero).
///
/// Trusted: `jiff::Timestamp::try_from` on a `SystemTime`, the fallible form, and its
/// `Display`. Which readings are in range, and the text of one that is, are not stated: the
/// result depends on the reading, which nothing here can hold as a value.
#[verifier::external_body]
fn timestamp_text(time: std::time::SystemTime) -> (r: Option<String>) {
    match jiff::Timestamp::try_from(time) {
        Ok(t) => Some(t.to_string()),
        Err(_) => None,
    }
}

impl DecisionStore {
    /// An empty store.
    pub fn new() -> (r: Self)
        ensures
            r@.decisions.len() == 0,
            r@.denials.len() == 0,
            r.wf(),
    {
        let r = DecisionStore { decisions: Vec::new(), session_denials: Vec::new() };
        assert(r@.decisions =~= seq![]);
        assert(r@.denials =~= seq![]);
        r
    }

    /// The store's invariant: one decision per permission of a package.
    pub open spec fn wf(&self) -> bool {
        keys_unique(self@.decisions)
    }

    /// The standing decision of `plugin` about `permission`.
    pub fn decision(&self, plugin: &str, permission: &str) -> (r: Option<&Decision>)
        ensures
            match r {
                Some(d) => find_decision(self@.decisions, plugin@, permission@) == Some(d@),
                None => find_decision(self@.decisions, plugin@, permission@) is None,
            },
    {
        let p = chars_of(plugin);
        let q = chars_of(permission);
        let ghost all = self@.decisions;
        let mut i: usize = 0;
        assert(all.skip(0) =~= all);
        while i < self.decisions.len()
            invariant
                i <= self.decisions.len(),
                all == self@.decisions,
                all == self.decisions@.map_values(|d: Decision| d@),
                p@ == plugin@,
                q@ == permission@,
                find_decision(all, plugin@, permission@) == find_decision(all.skip(i as int), plugin@, permission@),
            decreases self.decisions.len() - i,
        {
            let d = &self.decisions[i];
            let dp = chars_of(d.plugin.as_str());
            let dq = chars_of(d.permission.as_str());
            assert(all.skip(i as int)[0] == d@);
            if chars_eq(dp.as_slice(), p.as_slice()) && chars_eq(dq.as_slice(), q.as_slice()) {
                return Some(d);
            }
            assert(all.skip(i as int).drop_first() =~= all.skip(i + 1));
            i = i + 1;
        }
        None
    }

    /// The permissions of `plugin` whose decisions were made for another signing key than
    /// `publisher`: retained decisions apply only to the same publisher identity.
    pub fn stale_for(&self, plugin: &str, publisher: &str) -> (r: Vec<String>)
        ensures
            strings_view(r@) == self@.decisions.filter(
                |d: DecisionView| d.plugin == plugin@ && d.record.publisher != publisher@,
            ).map_values(|d: DecisionView| d.permission),
    {
        let p = chars_of(plugin);
        let k = chars_of(publisher);
        let ghost all = self@.decisions;
        let ghost pred = |d: DecisionView| d.plugin == plugin@ && d.record.publisher != publisher@;
        let mut out: Vec<String> = Vec::new();
        let mut i: usize = 0;
        while i < self.decisions.len()
            invariant
                i <= self.decisions.len(),
                all == self.decisions@.map_values(|d: Decision| d@),
                all == self@.decisions,
                p@ == plugin@,
                k@ == publisher@,
                pred == (|d: DecisionView| d.plugin == plugin@ && d.record.publisher != publisher@),
                strings_view(out@) == all.take(i as int).filter(pred).map_values(|d: DecisionView| d.permission),
            decreases self.decisions.len() - i,
        {
            let d = &self.decisions[i];
            assert(all.take(i + 1).drop_last() =~= all.take(i as int));
            assert(all.take(i + 1).last() == d@);
            reveal_with_fuel(Seq::filter, 1);
            let ghost prev = strings_view(out@);
            if eq_str(p.as_slice(), d.plugin.as_str()) && !eq_str(k.as_slice(), d.record.publisher.as_str()) {
                let s = d.permission.as_str().to_owned();
                out.push(s);
                assert(strings_view(out@) =~= prev.push(s@));
                assert(all.take(i + 1).filter(pred) =~= all.take(i as int).filter(pred).push(d@));
            } else {
                assert(all.take(i + 1).filter(pred) =~= all.take(i as int).filter(pred));
            }
            i = i + 1;
        }
        assert(all.take(self.decisions.len() as int) =~= all);
        out
    }

    /// Every decision about `plugin`, in the order made.
    pub fn decisions_of(&self, plugin: &str) -> (r: Vec<Decision>)
        ensures
            r@.map_values(|d: Decision| d@) == self@.decisions.filter(|d: DecisionView| d.plugin == plugin@),
    {
        let p = chars_of(plugin);
        let ghost all = self@.decisions;
        let ghost pred = |d: DecisionView| d.plugin == plugin@;
        let mut out: Vec<Decision> = Vec::new();
        let mut i: usize = 0;
        while i < self.decisions.len()
            invariant
                i <= self.decisions.len(),
                all == self.decisions@.map_values(|d: Decision| d@),
                all == self@.decisions,
                p@ == plugin@,
                pred == (|d: DecisionView| d.plugin == plugin@),
                out@.map_values(|d: Decision| d@) == all.take(i as int).filter(pred),
            decreases self.decisions.len() - i,
        {
            let d = &self.decisions[i];
            let dp = chars_of(d.plugin.as_str());
            assert(all.take(i + 1).drop_last() =~= all.take(i as int));
            assert(all.take(i + 1).last() == d@);
            reveal_with_fuel(Seq::filter, 1);
            let ghost prev = out@.map_values(|d: Decision| d@);
            if chars_eq(dp.as_slice(), p.as_slice()) {
                let c = d.copy();
                out.push(c);
                assert(out@.map_values(|d: Decision| d@) =~= prev.push(c@));
            }
            i = i + 1;
        }
        assert(all.take(self.decisions.len() as int) =~= all);
        out
    }

    /// Removes every decision about `plugin`'s `permission`, answering how many stood.
    fn retain_other(&mut self, plugin: &[char], permission: &[char]) -> (removed: usize)
        ensures
            final(self)@.decisions == without(old(self)@.decisions, plugin@, permission@),
            final(self)@.denials == old(self)@.denials,
            removed == old(self)@.decisions.len() - final(self)@.decisions.len(),
    {
        let ghost all = self@.decisions;
        let ghost pred = |d: DecisionView| !is_about(d, plugin@, permission@);
        let mut kept: Vec<Decision> = Vec::new();
        let mut i: usize = 0;
        let count = self.decisions.len();
        while i < self.decisions.len()
            invariant
                i <= self.decisions.len(),
                count == self.decisions.len(),
                all == self.decisions@.map_values(|d: Decision| d@),
                pred == (|d: DecisionView| !is_about(d, plugin@, permission@)),
                kept@.map_values(|d: Decision| d@) == all.take(i as int).filter(pred),
                kept.len() <= i,
            decreases self.decisions.len() - i,
        {
            let d = &self.decisions[i];
            let dp = chars_of(d.plugin.as_str());
            let dq = chars_of(d.permission.as_str());
            assert(all.take(i + 1).drop_last() =~= all.take(i as int));
            assert(all.take(i + 1).last() == d@);
            reveal_with_fuel(Seq::filter, 1);
            let ghost prev = kept@.map_values(|d: Decision| d@);
            if !(chars_eq(dp.as_slice(), plugin) && chars_eq(dq.as_slice(), permission)) {
                let c = d.copy();
                kept.push(c);
                assert(kept@.map_values(|d: Decision| d@) =~= prev.push(c@));
            }
            i = i + 1;
        }
        assert(all.take(count as int) =~= all);
        let removed = count - kept.len();
        self.decisions = kept;
        removed
    }

    /// Records or replaces a decision, stamped `now`: the creation time of the
    /// decision it replaces is kept.
    pub fn record_decision_at(
        &mut self,
        plugin: &str,
        permission: &str,
        decision: &str,
        duration: &str,
        profile: Option<&str>,
        grants: Vec<String>,
        capabilities: Vec<String>,
        package_version: &str,
        publisher: &str,
        now: &str,
    )
        requires
            old(self).wf(),
        ensures
            final(self).wf(),
            final(self)@.denials == old(self)@.denials,
            final(self)@.decisions == without(old(self)@.decisions, plugin@, permission@).push(
                DecisionView {
                    plugin: plugin@,
                    permission: permission@,
                    record: RecordView {
                        decision: decision@,
                        duration: duration@,
                        profile: match profile {
                            Some(p) => Some(p@),
                            None => None,
                        },
                        created_at: match find_decision(old(self)@.decisions, plugin@, permission@) {
                            Some(existing) => existing.record.created_at,
                            None => now@,
                        },
                        updated_at: now@,
                        grants: strings_view(grants@),
                        capabilities: strings_view(capabilities@),
                        package_version: package_version@,
                        publisher: publisher@,
                    },
                },
            ),
    {
        let ghost before = self@.decisions;
        let created_at = match self.decision(plugin, permission) {
            Some(existing) => existing.record.created_at.clone(),
            None => string_of(chars_of(now).as_slice()),
        };
        let p = chars_of(plugin);
        let q = chars_of(permission);
        self.retain_other(p.as_slice(), q.as_slice());
        let record = DecisionRecord {
            decision: string_of(chars_of(decision).as_slice()),
            duration: string_of(chars_of(duration).as_slice()),
            profile: match profile {
                Some(name) => Some(string_of(chars_of(name).as_slice())),
                None => None,
            },
            created_at,
            updated_at: string_of(chars_of(now).as_slice()),
            grants,
            capabilities,
            package_version: string_of(chars_of(package_version).as_slice()),
            publisher: string_of(chars_of(publisher).as_slice()),
        };
        let entry = Decision {
            plugin: string_of(p.as_slice()),
            permission: string_of(q.as_slice()),
            record,
        };
        let ghost kept = self@.decisions;
        self.decisions.push(entry);
        proof {
            assert(self@.decisions =~= kept.push(entry@));
            lemma_filter_keeps_unique(before, plugin@, permission@);
            let all = self@.decisions;
            assert forall|i: int, j: int| 0 <= i < j < all.len() implies !is_about(
                #[trigger] all[i],
                (#[trigger] all[j]).plugin,
                all[j].permission,
            ) by {
                if j == all.len() - 1 {
                    assert(kept.contains(all[i]));
                    assert(!is_about(all[i], plugin@, permission@)) by {
                        before.lemma_filter_contains_rev(|d: DecisionView| !is_about(d, plugin@, permission@), all[i]);
                    }
                }
            }
        }
    }

    /// Records or replaces a decision, stamped with the time now, and says whether it did: a
    /// clock that reads outside the range a timestamp can hold records nothing.
    pub fn record_decision(
        &mut self,
        plugin: &str,
        permission: &str,
        decision: &str,
        duration: &str,
        profile: Option<&str>,
        grants: Vec<String>,
        capabilities: Vec<String>,
        package_version: &str,
        publisher: &str,
    ) -> (recorded: bool)
        requires
            old(self).wf(),
        ensures
            final(self).wf(),
            final(self)@.denials == old(self)@.denials,
            !recorded ==> final(self)@.decisions == old(self)@.decisions,
            recorded ==> exists|now: Seq<char>|
                final(self)@.decisions == without(old(self)@.decisions, plugin@, permission@).push(
                    #[trigger] stamped_decision(
                        find_decision(old(self)@.decisions, plugin@, permission@),
                        plugin@,
                        permission@,
                        decision@,
                        duration@,
                        crate::text::opt_str(profile),
                        strings_view(grants@),
                        strings_view(capabilities@),
                        package_version@,
                        publisher@,
                        now,
                    ),
                ),
    {
        let now = match timestamp_text(system_now()) {
            Some(now) => now,
            None => {
                return false;
            },
        };
        self.record_decision_at(
            plugin,
            permission,
            decision,
            duration,
            profile,
            grants,
            capabilities,
            package_version,
            publisher,
            now.as_str(),
        );
        proof {
            let pv = match profile {
                Some(p) => Some(p@),
                None => None,
            };
            let _ = stamped_decision(
                find_decision(old(self)@.decisions, plugin@, permission@),
                plugin@,
                permission@,
                decision@,
                duration@,
                pv,
                strings_view(grants@),
                strings_view(capabilities@),
                package_version@,
                publisher@,
                now@,
            );
        }
        true
    }

    /// Forgets the decision of `plugin` about `permission`, answering whether one stood.
    pub fn forget_decision(&mut self, plugin: &str, permission: &str) -> (r: bool)
        requires
            old(self).wf(),
        ensures
            final(self).wf(),
            final(self)@.denials == old(self)@.denials,
            final(self)@.decisions == without(old(self)@.decisions, plugin@, permission@),
            r == (find_decision(old(self)@.decisions, plugin@, permission@) is Some),
    {
        let ghost before = self@.decisions;
        let p = chars_of(plugin);
        let q = chars_of(permission);
        let removed = self.retain_other(p.as_slice(), q.as_slice());
        proof {
            lemma_filter_keeps_unique(before, plugin@, permission@);
            lemma_find_iff_filtered(before, plugin@, permission@);
        }
        removed != 0
    }

    /// Forgets every decision about `plugin`, answering how many stood.
    pub fn forget_decisions_of(&mut self, plugin: &str) -> (r: usize)
        requires
            old(self).wf(),
        ensures
            final(self).wf(),
            final(self)@.denials == old(self)@.denials,
            final(self)@.decisions == old(self)@.decisions.filter(|d: DecisionView| d.plugin != plugin@),
            r == old(self)@.decisions.len() - final(self)@.decisions.len(),
    {
        let ghost all = self@.decisions;
        let ghost pred = |d: DecisionView| d.plugin != plugin@;
        let p = chars_of(plugin);
        let mut kept: Vec<Decision> = Vec::new();
        let mut i: usize = 0;
        let count = self.decisions.len();
        while i < self.decisions.len()
            invariant
                i <= self.decisions.len(),
                count == self.decisions.len(),
                all == self.decisions@.map_values(|d: Decision| d@),
                p@ == plugin@,
                pred == (|d: DecisionView| d.plugin != plugin@),
                kept@.map_values(|d: Decision| d@) == all.take(i as int).filter(pred),
                kept.len() <= i,
            decreases self.decisions.len() - i,
        {
            let d = &self.decisions[i];
            let dp = chars_of(d.plugin.as_str());
            assert(all.take(i + 1).drop_last() =~= all.take(i as int));
            assert(all.take(i + 1).last() == d@);
            reveal_with_fuel(Seq::filter, 1);
            let ghost prev = kept@.map_values(|d: Decision| d@);
            if !chars_eq(dp.as_slice(), p.as_slice()) {
                let c = d.copy();
                kept.push(c);
                assert(kept@.map_values(|d: Decision| d@) =~= prev.push(c@));
            }
            i = i + 1;
        }
        assert(all.take(count as int) =~= all);
        let removed = count - kept.len();
        self.decisions = kept;
        proof {
            let after = self@.decisions;
            assert forall|i: int, j: int| 0 <= i < j < after.len() implies !is_about(
                #[trigger] after[i],
                (#[trigger] after[j]).plugin,
                after[j].permission,
            ) by {
                lemma_filter_pair_order(all, pred, i, j);
            }
        }
        removed
    }

    /// Remembers a just-in-time denial for this session.
    pub fn remember_denial(&mut self, plugin: &str, permission: &str, subject: &str)
        ensures
            final(self)@.decisions == old(self)@.decisions,
            final(self)@.denials.to_set() == old(self)@.denials.to_set().insert(
                (plugin@, permission@, subject@),
            ),
    {
        if self.denied_in_session(plugin, permission, subject) {
            proof {
                assert(self@.denials.to_set().insert((plugin@, permission@, subject@)) =~= self@.denials.to_set());
            }
            return;
        }
        let ghost before = self@.denials;
        let triple = (
            string_of(chars_of(plugin).as_slice()),
            string_of(chars_of(permission).as_slice()),
            string_of(chars_of(subject).as_slice()),
        );
        self.session_denials.push(triple);
        proof {
            assert(self@.denials =~= before.push((plugin@, permission@, subject@)));
            let x = (plugin@, permission@, subject@);
            let after = before.push(x);
            assert forall|a: (Seq<char>, Seq<char>, Seq<char>)| after.to_set().contains(a) == before.to_set().insert(x).contains(a) by {
                if after.contains(a) {
                    let k = choose|k: int| 0 <= k < after.len() && after[k] == a;
                    if k < before.len() {
                        assert(before[k] == a);
                    }
                }
                if before.contains(a) {
                    let k = choose|k: int| 0 <= k < before.len() && before[k] == a;
                    assert(after[k] == a);
                }
                if a == x {
                    assert(after[before.len() as int] == x);
                }
            }
            assert(self@.denials.to_set() =~= before.to_set().insert(x));
        }
    }

    /// Whether this session already refused this exact request.
    pub fn denied_in_session(&self, plugin: &str, permission: &str, subject: &str) -> (r: bool)
        ensures
            r == self@.denials.contains((plugin@, permission@, subject@)),
    {
        let p = chars_of(plugin);
        let q = chars_of(permission);
        let s = chars_of(subject);
        let ghost all = self@.denials;
        let mut i: usize = 0;
        while i < self.session_denials.len()
            invariant
                i <= self.session_denials.len(),
                all == denials_view(self.session_denials@),
                all == self@.denials,
                p@ == plugin@,
                q@ == permission@,
                s@ == subject@,
                forall|j: int| 0 <= j < i ==> all[j] != (plugin@, permission@, subject@),
            decreases self.session_denials.len() - i,
        {
            let t = &self.session_denials[i];
            let a = chars_of(t.0.as_str());
            let b = chars_of(t.1.as_str());
            let c = chars_of(t.2.as_str());
            assert(all[i as int] == (a@, b@, c@));
            if chars_eq(a.as_slice(), p.as_slice()) && chars_eq(b.as_slice(), q.as_slice())
                && chars_eq(c.as_slice(), s.as_slice()) {
                return true;
            }
            i = i + 1;
        }
        false
    }

    /// Forgets the denials remembered for `plugin`'s `permission`, whatever their subject.
    pub fn forget_denials(&mut self, plugin: &str, permission: &str)
        ensures
            final(self)@.decisions == old(self)@.decisions,
            final(self)@.denials == old(self)@.denials.filter(
                |t: (Seq<char>, Seq<char>, Seq<char>)| !(t.0 == plugin@ && t.1 == permission@),
            ),
    {
        let p = chars_of(plugin);
        let q = chars_of(permission);
        let ghost all = self@.denials;
        let ghost pred = |t: (Seq<char>, Seq<char>, Seq<char>)| !(t.0 == plugin@ && t.1 == permission@);
        let mut kept: Vec<(String, String, String)> = Vec::new();
        let mut i: usize = 0;
        while i < self.session_denials.len()
            invariant
                i <= self.session_denials.len(),
                all == denials_view(self.session_denials@),
                p@ == plugin@,
                q@ == permission@,
                pred == (|t: (Seq<char>, Seq<char>, Seq<char>)| !(t.0 == plugin@ && t.1 == permission@)),
                denials_view(kept@) == all.take(i as int).filter(pred),
            decreases self.session_denials.len() - i,
        {
            let t = &self.session_denials[i];
            let a = chars_of(t.0.as_str());
            let b = chars_of(t.1.as_str());
            assert(all.take(i + 1).drop_last() =~= all.take(i as int));
            assert(all.take(i + 1).last() == (t.0@, t.1@, t.2@));
            reveal_with_fuel(Seq::filter, 1);
            let ghost prev = denials_view(kept@);
            if !(chars_eq(a.as_slice(), p.as_slice()) && chars_eq(b.as_slice(), q.as_slice())) {
                let copy = (t.0.clone(), t.1.clone(), t.2.clone());
                kept.push(copy);
                assert(denials_view(kept@) =~= prev.push((t.0@, t.1@, t.2@)));
            }
            i = i + 1;
        }
        assert(all.take(self.session_denials.len() as int) =~= all);
        self.session_denials = kept;
    }

    /// The capabilities `plugin`'s `deny` decisions hold ahead of any grant.
    pub fn denied_capabilities(&self, plugin: &str) -> (r: Vec<String>)
        ensures
            strings_view(r@) == denied_caps(self@.decisions, plugin@),
    {
        let p = chars_of(plugin);
        let ghost all = self@.decisions;
        let mut out: Vec<String> = Vec::new();
        let mut i: usize = 0;
        while i < self.decisions.len()
            invariant
                i <= self.decisions.len(),
                all == self.decisions@.map_values(|d: Decision| d@),
                all == self@.decisions,
                p@ == plugin@,
                strings_view(out@) == denied_caps(all.take(i as int), plugin@),
            decreases self.decisions.len() - i,
        {
            let d = &self.decisions[i];
            let dp = chars_of(d.plugin.as_str());
            let word = chars_of(d.record.decision.as_str());
            assert(all.take(i + 1).drop_last() =~= all.take(i as int));
            assert(all.take(i + 1).last() == d@);
            if chars_eq(dp.as_slice(), p.as_slice()) && eq_str(word.as_slice(), "deny") {
                let mut k: usize = 0;
                let ghost base = strings_view(out@);
                while k < d.record.capabilities.len()
                    invariant
                        k <= d.record.capabilities.len(),
                        strings_view(out@) == base + strings_view(d.record.capabilities@).take(k as int),
                    decreases d.record.capabilities.len() - k,
                {
                    let ghost prev = strings_view(out@);
                    let c = d.record.capabilities[k].clone();
                    out.push(c);
                    k = k + 1;
                    assert(strings_view(out@) =~= prev.push(c@));
                    assert(strings_view(d.record.capabilities@).take(k as int) =~= strings_view(d.record.capabilities@).take(k - 1).push(d.record.capabilities@[k - 1]@));
                }
                assert(strings_view(d.record.capabilities@).take(d.record.capabilities.len() as int) =~= strings_view(d.record.capabilities@));
            }
            i = i + 1;
        }
        assert(all.take(self.decisions.len() as int) =~= all);
        out
    }

    /// The decisions the store keeps across sessions: those made `always`.
    pub fn lasting(&self) -> (r: Vec<Decision>)
        ensures
            r@.map_values(|d: Decision| d@) == self@.decisions.filter(|d: DecisionView| d.record.duration == "always"@),
    {
        let ghost all = self@.decisions;
        let ghost pred = |d: DecisionView| d.record.duration == "always"@;
        let mut out: Vec<Decision> = Vec::new();
        let mut i: usize = 0;
        while i < self.decisions.len()
            invariant
                i <= self.decisions.len(),
                all == self.decisions@.map_values(|d: Decision| d@),
                all == self@.decisions,
                pred == (|d: DecisionView| d.record.duration == "always"@),
                out@.map_values(|d: Decision| d@) == all.take(i as int).filter(pred),
            decreases self.decisions.len() - i,
        {
            let d = &self.decisions[i];
            let word = chars_of(d.record.duration.as_str());
            assert(all.take(i + 1).drop_last() =~= all.take(i as int));
            assert(all.take(i + 1).last() == d@);
            reveal_with_fuel(Seq::filter, 1);
            let ghost prev = out@.map_values(|d: Decision| d@);
            if eq_str(word.as_slice(), "always") {
                let c = d.copy();
                out.push(c);
                assert(out@.map_values(|d: Decision| d@) =~= prev.push(c@));
            }
            i = i + 1;
        }
        assert(all.take(self.decisions.len() as int) =~= all);
        out
    }

    /// Adds the decisions a store held, as read back: one that names a permission already
    /// decided this session is passed over, so the decision made here stands.
    pub fn load(&mut self, stored: Vec<Decision>)
        requires
            old(self).wf(),
        ensures
            final(self).wf(),
            final(self)@.denials == old(self)@.denials,
            final(self)@.decisions == loaded(old(self)@.decisions, stored@.map_values(|d: Decision| d@)),
            forall|i: int| 0 <= i < old(self)@.decisions.len() ==> final(self)@.decisions[i] == old(self)@.decisions[i],
            old(self)@.decisions.len() <= final(self)@.decisions.len(),
    {
        let mut i: usize = 0;
        let ghost start = self@.decisions;
        let ghost sv = stored@.map_values(|d: Decision| d@);
        assert(sv.take(0) =~= Seq::<DecisionView>::empty());
        while i < stored.len()
            invariant
                i <= stored.len(),
                self.wf(),
                self@.denials == old(self)@.denials,
                start == old(self)@.decisions,
                sv == stored@.map_values(|d: Decision| d@),
                self@.decisions == loaded(start, sv.take(i as int)),
                forall|k: int| 0 <= k < start.len() ==> self@.decisions[k] == start[k],
                start.len() <= self@.decisions.len(),
            decreases stored.len() - i,
        {
            let d = &stored[i];
            assert(sv.take(i + 1).drop_last() =~= sv.take(i as int));
            assert(sv[i as int] == d@);
            if self.decision(d.plugin.as_str(), d.permission.as_str()).is_none() {
                let ghost before = self@.decisions;
                let c = d.copy();
                self.decisions.push(c);
                proof {
                    assert(self@.decisions =~= before.push(c@));
                    lemma_find_none(before, c@.plugin, c@.permission);
                    let all = self@.decisions;
                    assert forall|a: int, b: int| 0 <= a < b < all.len() implies !is_about(
                        #[trigger] all[a],
                        (#[trigger] all[b]).plugin,
                        all[b].permission,
                    ) by {
                        if b == all.len() - 1 {
                            assert(all[a] == before[a]);
                        }
                    }
                }
            }
            i = i + 1;
        }
        assert(sv.take(stored.len() as int) =~= sv);
    }
}

/// The capabilities the `deny` decisions about `plugin` hold, in order.
pub open spec fn denied_caps(decisions: Seq<DecisionView>, plugin: Seq<char>) -> Seq<Seq<char>>
    decreases decisions.len(),
{
    if decisions.len() == 0 {
        seq![]
    } else {
        let last = decisions.last();
        denied_caps(decisions.drop_last(), plugin) + if last.plugin == plugin && last.record.decision
            == "deny"@ {
            last.record.capabilities
        } else {
            seq![]
        }
    }
}

proof fn lemma_find_none(decisions: Seq<DecisionView>, plugin: Seq<char>, permission: Seq<char>)
    requires
        find_decision(decisions, plugin, permission) is None,
    ensures
        forall|i: int| 0 <= i < decisions.len() ==> !is_about(#[trigger] decisions[i], plugin, permission),
    decreases decisions.len(),
{
    if decisions.len() > 0 {
        lemma_find_none(decisions.drop_first(), plugin, permission);
        assert forall|i: int| 0 <= i < decisions.len() implies !is_about(#[trigger] decisions[i], plugin, permission) by {
            if i > 0 {
                assert(decisions[i] == decisions.drop_first()[i - 1]);
            }
        }
    }
}

proof fn lemma_find_some(decisions: Seq<DecisionView>, plugin: Seq<char>, permission: Seq<char>, i: int)
    requires
        0 <= i < decisions.len(),
        is_about(decisions[i], plugin, permission),
    ensures
        find_decision(decisions, plugin, permission) is Some,
    decreases decisions.len(),
{
    if i > 0 && !is_about(decisions[0], plugin, permission) {
        assert(decisions.drop_first()[i - 1] == decisions[i]);
        lemma_find_some(decisions.drop_first(), plugin, permission, i - 1);
    }
}

proof fn lemma_find_iff_filtered(decisions: Seq<DecisionView>, plugin: Seq<char>, permission: Seq<char>)
    ensures
        (find_decision(decisions, plugin, permission) is Some) == (without(decisions, plugin, permission).len() != decisions.len()),
{
    let pred = |d: DecisionView| !is_about(d, plugin, permission);
    if find_decision(decisions, plugin, permission) is Some {
        if without(decisions, plugin, permission).len() == decisions.len() {
            lemma_filter_all_kept(decisions, pred);
            lemma_find_none_from_all(decisions, plugin, permission);
        }
    } else {
        lemma_find_none(decisions, plugin, permission);
        assert(decisions.filter(pred) =~= decisions) by {
            lemma_filter_identity(decisions, pred);
        }
    }
}

proof fn lemma_find_none_from_all(decisions: Seq<DecisionView>, plugin: Seq<char>, permission: Seq<char>)
    requires
        forall|i: int| 0 <= i < decisions.len() ==> !is_about(#[trigger] decisions[i], plugin, permission),
    ensures
        find_decision(decisions, plugin, permission) is None,
    decreases decisions.len(),
{
    if decisions.len() > 0 {
        assert forall|i: int| 0 <= i < decisions.drop_first().len() implies !is_about(#[trigger] decisions.drop_first()[i], plugin, permission) by {
            assert(decisions.drop_first()[i] == decisions[i + 1]);
        }
        lemma_find_none_from_all(decisions.drop_first(), plugin, permission);
    }
}

proof fn lemma_filter_identity<A>(s: Seq<A>, pred: spec_fn(A) -> bool)
    requires
        forall|i: int| 0 <= i < s.len() ==> pred(#[trigger] s[i]),
    ensures
        s.filter(pred) == s,
    decreases s.len(),
{
    reveal_with_fuel(Seq::filter, 1);
    if s.len() > 0 {
        lemma_filter_identity(s.drop_last(), pred);
        assert(s.drop_last().push(s.last()) =~= s);
    } else {
        assert(s.filter(pred) =~= s);
    }
}

proof fn lemma_filter_all_kept<A>(s: Seq<A>, pred: spec_fn(A) -> bool)
    requires
        s.filter(pred).len() == s.len(),
    ensures
        forall|i: int| 0 <= i < s.len() ==> pred(#[trigger] s[i]),
    decreases s.len(),
{
    reveal_with_fuel(Seq::filter, 1);
    if s.len() > 0 {
        s.drop_last().lemma_filter_len(pred);
        if !pred(s.last()) {
            assert(s.filter(pred) == s.drop_last().filter(pred));
        }
        lemma_filter_all_kept(s.drop_last(), pred);
        assert forall|i: int| 0 <= i < s.len() implies pred(#[trigger] s[i]) by {
            if i < s.len() - 1 {
                assert(s.drop_last()[i] == s[i]);
            }
        }
    }
}

/// Elements of a filtered sequence appear in it in their original order.
proof fn lemma_filter_pair_order<A>(s: Seq<A>, pred: spec_fn(A) -> bool, i: int, j: int)
    requires
        0 <= i < j < s.filter(pred).len(),
    ensures
        exists|a: int, b: int|
            0 <= a < b < s.len() && s[a] == s.filter(pred)[i] && s[b] == s.filter(pred)[j],
    decreases s.len(),
{
    reveal_with_fuel(Seq::filter, 1);
    let f = s.filter(pred);
    let init = s.drop_last();
    if pred(s.last()) && j == f.len() - 1 {
        assert(f[j] == s.last());
        assert(f[i] == init.filter(pred)[i]);
        s.drop_last().lemma_filter_len(pred);
        init.lemma_filter_contains_rev(pred, init.filter(pred)[i]);
        let a = choose|a: int| 0 <= a < init.len() && init[a] == init.filter(pred)[i];
        assert(s[a] == init[a]);
        assert(s[s.len() - 1] == s.last());
    } else {
        if pred(s.last()) {
            assert(f[i] == init.filter(pred)[i]);
            assert(f[j] == init.filter(pred)[j]);
        } else {
            assert(f == init.filter(pred));
        }
        lemma_filter_pair_order(init, pred, i, j);
        let (a, b) = choose|a: int, b: int|
            0 <= a < b < init.len() && init[a] == init.filter(pred)[i] && init[b] == init.filter(pred)[j];
        assert(s[a] == init[a] && s[b] == init[b]);
    }
}

proof fn lemma_filter_keeps_unique(decisions: Seq<DecisionView>, plugin: Seq<char>, permission: Seq<char>)
    requires
        keys_unique(decisions),
    ensures
        keys_unique(without(decisions, plugin, permission)),
{
    let pred = |d: DecisionView| !is_about(d, plugin, permission);
    let f = decisions.filter(pred);
    assert forall|i: int, j: int| 0 <= i < j < f.len() implies !is_about(
        #[trigger] f[i],
        (#[trigger] f[j]).plugin,
        f[j].permission,
    ) by {
        lemma_filter_pair_order(decisions, pred, i, j);
    }
}


// --- laws of the decision store ----------------------------------------------------------------

proof fn lemma_find_push(ds: Seq<DecisionView>, v: DecisionView, plugin: Seq<char>, permission: Seq<char>)
    ensures
        find_decision(ds.push(v), plugin, permission) == match find_decision(ds, plugin, permission) {
            Some(d) => Some(d),
            None => if is_about(v, plugin, permission) {
                Some(v)
            } else {
                None
            },
        },
    decreases ds.len(),
{
    if ds.len() > 0 {
        assert(ds.push(v)[0] == ds[0]);
        assert(ds.push(v).drop_first() =~= ds.drop_first().push(v));
        lemma_find_push(ds.drop_first(), v, plugin, permission);
    } else {
        assert(ds.push(v)[0] == v);
        assert(ds.push(v).drop_first() =~= seq![]);
        assert(find_decision(seq![], plugin, permission) is None);
    }
}

/// Which decision is found once those about one permission are forgotten.
pub(crate) proof fn lemma_find_without(ds: Seq<DecisionView>, p: Seq<char>, q: Seq<char>, p2: Seq<char>, q2: Seq<char>)
    ensures
        find_decision(without(ds, p, q), p2, q2) == if p2 == p && q2 == q {
            None
        } else {
            find_decision(ds, p2, q2)
        },
    decreases ds.len(),
{
    reveal_with_fuel(Seq::filter, 1);
    let pred = |d: DecisionView| !is_about(d, p, q);
    if ds.len() > 0 {
        lemma_find_without(ds.drop_last(), p, q, p2, q2);
        let init = ds.drop_last();
        let last = ds.last();
        assert(ds =~= init.push(last));
        lemma_find_push(init, last, p2, q2);
        if pred(last) {
            assert(ds.filter(pred) == init.filter(pred).push(last));
            lemma_find_push(init.filter(pred), last, p2, q2);
        } else {
            assert(ds.filter(pred) == init.filter(pred));
        }
    } else {
        assert(ds.filter(pred) =~= seq![]);
    }
}

/// What a read gives back of a write: after a decision about a package's permission is
/// recorded, the decision found for it is the one recorded.
pub proof fn law_recorded_decision_is_found(ds: Seq<DecisionView>, v: DecisionView)
    ensures
        find_decision(without(ds, v.plugin, v.permission).push(v), v.plugin, v.permission)
            == Some(v),
{
    lemma_find_without(ds, v.plugin, v.permission, v.plugin, v.permission);
    lemma_find_push(without(ds, v.plugin, v.permission), v, v.plugin, v.permission);
}

/// Recording a decision about one permission leaves the decision found for every other
/// permission, of that package or another, as it was.
pub proof fn law_recording_leaves_others(
    ds: Seq<DecisionView>,
    v: DecisionView,
    plugin: Seq<char>,
    permission: Seq<char>,
)
    requires
        !(plugin == v.plugin && permission == v.permission),
    ensures
        find_decision(without(ds, v.plugin, v.permission).push(v), plugin, permission)
            == find_decision(ds, plugin, permission),
{
    lemma_find_without(ds, v.plugin, v.permission, plugin, permission);
    lemma_find_push(without(ds, v.plugin, v.permission), v, plugin, permission);
}

/// A forgotten decision is not found again: the next concrete need asks.
pub proof fn law_forgotten_decision_is_gone(ds: Seq<DecisionView>, plugin: Seq<char>, permission: Seq<char>)
    ensures
        find_decision(without(ds, plugin, permission), plugin, permission) is None,
{
    lemma_find_without(ds, plugin, permission, plugin, permission);
}

/// After the denials of a package's permission are forgotten, none about it is remembered, and
/// every other denial still is.
pub proof fn law_forgetting_denials(
    denials: Seq<(Seq<char>, Seq<char>, Seq<char>)>,
    plugin: Seq<char>,
    permission: Seq<char>,
    t: (Seq<char>, Seq<char>, Seq<char>),
)
    ensures
        denials.filter(|x: (Seq<char>, Seq<char>, Seq<char>)| !(x.0 == plugin && x.1 == permission)).contains(t)
            <==> (denials.contains(t) && !(t.0 == plugin && t.1 == permission)),
{
    let pred = |x: (Seq<char>, Seq<char>, Seq<char>)| !(x.0 == plugin && x.1 == permission);
    if denials.contains(t) && pred(t) {
        let k = choose|k: int| 0 <= k < denials.len() && denials[k] == t;
        denials.lemma_filter_contains(pred, k);
    }
    if denials.filter(pred).contains(t) {
        denials.lemma_filter_contains_rev(pred, t);
        let k = choose|k: int| 0 <= k < denials.filter(pred).len() && denials.filter(pred)[k] == t;
        denials.lemma_filter_pred(pred, k);
    }
}

// --- the projection of a permission onto what stands ------------------------------

/// When a permission is decided.
#[derive(Debug, Clone, Copy, PartialEq, Eq, Structural)]
pub enum PermissionPhase {
    /// Included by the host without a question.
    Automatic,
    /// Asked at the first concrete need.
    Jit,
    /// Never enabled but by a person naming it.
    Explicit,
    /// Decided by the install's profile.
    Install,
}

/// One permission of a package's selected profile, as readiness reads it.
#[derive(Debug, Clone)]
pub struct ProfilePermission {
    /// The permission id.
    pub id: String,
    /// When it is decided.
    pub phase: PermissionPhase,
    /// The capabilities its grants give.
    pub capabilities: Vec<String>,
}

/// One capability a package's manifest requires.
#[derive(Debug, Clone)]
pub struct RequiredCapability {
    /// The capability's id.
    pub capability: String,
    /// Whether a permission of the package includes it without a question.
    pub automatic: bool,
}

/// Whether every capability of `caps` is among `held`.
pub open spec fn all_held(caps: Seq<Seq<char>>, held: Seq<Seq<char>>) -> bool {
    forall|i: int| 0 <= i < caps.len() ==> held.contains(#[trigger] caps[i])
}

/// The install-time permissions of the selected profile that standing grants do not cover.
pub open spec fn undecided_permissions(selected: Seq<ProfilePermission>, held: Seq<Seq<char>>) -> Seq<Seq<char>>
    decreases selected.len(),
{
    if selected.len() == 0 {
        seq![]
    } else {
        let p = selected.last();
        let rest = undecided_permissions(selected.drop_last(), held);
        if p.phase == PermissionPhase::Install && !all_held(strings_view(p.capabilities@), held) {
            rest.push(p.id@)
        } else {
            rest
        }
    }
}

/// The required capabilities nothing grants and no permission includes automatically, each
/// as `capability:<id>`.
pub open spec fn undecided_capabilities(required: Seq<RequiredCapability>, held: Seq<Seq<char>>) -> Seq<Seq<char>>
    decreases required.len(),
{
    if required.len() == 0 {
        seq![]
    } else {
        let r = required.last();
        let rest = undecided_capabilities(required.drop_last(), held);
        if !held.contains(r.capability@) && !r.automatic {
            rest.push("capability:"@ + r.capability@)
        } else {
            rest
        }
    }
}

fn held_by(held: &Vec<String>, capability: &str) -> (r: bool)
    ensures
        r == strings_view(held@).contains(capability@),
{
    let c = chars_of(capability);
    let mut i: usize = 0;
    while i < held.len()
        invariant
            i <= held.len(),
            c@ == capability@,
            forall|j: int| 0 <= j < i ==> strings_view(held@)[j] != capability@,
        decreases held.len() - i,
    {
        assert(strings_view(held@)[i as int] == held@[i as int]@);
        if eq_str(c.as_slice(), held[i].as_str()) {
            return true;
        }
        i = i + 1;
    }
    false
}

/// What keeps a package short of `ready`: the install-time permissions of its selected profile
/// whose capabilities its standing grants (`held`) do not all cover, then every required
/// capability nothing grants and no permission includes automatically.
pub fn undecided(selected: &Vec<ProfilePermission>, required: &Vec<RequiredCapability>, held: &Vec<String>) -> (r: Vec<String>)
    ensures
        strings_view(r@) == undecided_permissions(selected@, strings_view(held@)) + undecided_capabilities(
            required@,
            strings_view(held@),
        ),
{
    let ghost hv = strings_view(held@);
    let mut missing: Vec<String> = Vec::new();
    let mut i: usize = 0;
    while i < selected.len()
        invariant
            i <= selected.len(),
            hv == strings_view(held@),
            strings_view(missing@) == undecided_permissions(selected@.take(i as int), hv),
        decreases selected.len() - i,
    {
        let p = &selected[i];
        assert(selected@.take(i + 1).drop_last() =~= selected@.take(i as int));
        assert(selected@.take(i + 1).last() == *p);
        if p.phase == PermissionPhase::Install {
            let mut k: usize = 0;
            let mut all = true;
            while k < p.capabilities.len()
                invariant
                    k <= p.capabilities.len(),
                    hv == strings_view(held@),
                    all == (forall|j: int| 0 <= j < k ==> hv.contains(#[trigger] strings_view(p.capabilities@)[j])),
                decreases p.capabilities.len() - k,
            {
                assert(strings_view(p.capabilities@)[k as int] == p.capabilities@[k as int]@);
                if !held_by(held, p.capabilities[k].as_str()) {
                    all = false;
                }
                k = k + 1;
            }
            if !all {
                let ghost before = strings_view(missing@);
                missing.push(p.id.as_str().to_owned());
                assert(strings_view(missing@) =~= before.push(p.id@));
            }
        }
        i = i + 1;
    }
    assert(selected@.take(selected.len() as int) =~= selected@);
    let ghost first = strings_view(missing@);
    let mut n: usize = 0;
    while n < required.len()
        invariant
            n <= required.len(),
            hv == strings_view(held@),
            strings_view(missing@) == first + undecided_capabilities(required@.take(n as int), hv),
        decreases required.len() - n,
    {
        let r = &required[n];
        assert(required@.take(n + 1).drop_last() =~= required@.take(n as int));
        assert(required@.take(n + 1).last() == *r);
        if !held_by(held, r.capability.as_str()) && !r.automatic {
            let text = string_of(crate::text::concat(chars_of("capability:").as_slice(), chars_of(r.capability.as_str()).as_slice()).as_slice());
            let ghost before = strings_view(missing@);
            missing.push(text);
            assert(strings_view(missing@) =~= before.push(text@));
        }
        n = n + 1;
    }
    assert(required@.take(required.len() as int) =~= required@);
    missing
}

/// The `when` a decision's duration is shown as.
pub open spec fn decision_when_spec(duration: Option<Seq<char>>) -> Seq<char> {
    match duration {
        Some(d) => if d == "session"@ {
            "session"@
        } else if d == "once"@ {
            "once"@
        } else {
            "always"@
        },
        None => "always"@,
    }
}

/// The `when` a decision's duration is shown as.
pub fn decision_when(duration: Option<&str>) -> (r: &'static str)
    ensures
        r@ == decision_when_spec(match duration {
            Some(d) => Some(d@),
            None => None,
        }),
{
    match duration {
        Some(d) => {
            let v = chars_of(d);
            if eq_str(v.as_slice(), "session") {
                "session"
            } else if eq_str(v.as_slice(), "once") {
                "once"
            } else {
                "always"
            }
        },
        None => "always",
    }
}

/// The duration word a decision carries: `session`, or else `always`.
pub fn duration_word(duration: &str) -> (r: &'static str)
    ensures
        r@ == if duration@ == "session"@ {
            "session"@
        } else {
            "always"@
        },
{
    if eq_str(chars_of(duration).as_slice(), "session") {
        "session"
    } else {
        "always"
    }
}

/// What a standing decision says, when there is one: its word and its duration.
pub struct StandingDecision {
    /// `allow`, `deny` or `ask`.
    pub decision: String,
    /// `always`, `session` or `once`.
    pub duration: String,
}

/// The state, `when` and source a permission is shown with.
pub struct PermissionProjection {
    /// `included`, `allowed`, `custom`, `ask` or `denied`.
    pub state: &'static str,
    /// `automatic`, `always`, `session`, `once`, `when-needed` or `explicit`.
    pub when: &'static str,
    /// `automatic`, `session`, `user-policy` or `prompt`, when something decided it.
    pub source: Option<&'static str>,
}

/// The state and `when` of a permission, from its decision (word and duration), its phase, and
/// whether its grants are all held and held exactly as mapped.
pub open spec fn state_when(
    decision: Option<(Seq<char>, Seq<char>)>,
    automatic: bool,
    phase: PermissionPhase,
    held: bool,
    exact: bool,
) -> (Seq<char>, Seq<char>) {
    match decision {
        Some((word, duration)) => if word == "deny"@ {
            ("denied"@, "always"@)
        } else if word == "ask"@ {
            ("ask"@, "when-needed"@)
        } else if automatic && held && exact {
            ("included"@, "automatic"@)
        } else if held && exact {
            ("allowed"@, decision_when_spec(Some(duration)))
        } else if held {
            ("custom"@, decision_when_spec(Some(duration)))
        } else {
            ("denied"@, "always"@)
        },
        None => match phase {
            PermissionPhase::Automatic => if held && exact {
                ("included"@, "automatic"@)
            } else if held {
                ("custom"@, "automatic"@)
            } else {
                ("included"@, "automatic"@)
            },
            PermissionPhase::Jit => if held {
                ("custom"@, "always"@)
            } else {
                ("ask"@, "when-needed"@)
            },
            PermissionPhase::Explicit => if held {
                ("custom"@, "always"@)
            } else {
                ("denied"@, "explicit"@)
            },
            PermissionPhase::Install => if held {
                ("custom"@, "always"@)
            } else {
                ("denied"@, "always"@)
            },
        },
    }
}

/// Where a permission's state came from: the host for what it included, the decision's
/// duration for a decision, a prompt's grant for a `custom` nobody decided.
pub open spec fn source_spec(decision: Option<(Seq<char>, Seq<char>)>, state: Seq<char>) -> Option<Seq<char>> {
    if state == "included"@ {
        Some("automatic"@)
    } else {
        match decision {
            Some((_, duration)) => if duration == "session"@ {
                Some("session"@)
            } else {
                Some("user-policy"@)
            },
            None => if state == "custom"@ {
                Some("prompt"@)
            } else {
                None
            },
        }
    }
}

/// The projection of one permission onto what stands.
pub fn permission_state(
    decision: Option<&StandingDecision>,
    automatic: bool,
    phase: PermissionPhase,
    held: bool,
    exact: bool,
) -> (r: PermissionProjection)
    ensures
        (r.state@, r.when@) == state_when(
            match decision {
                Some(d) => Some((d.decision@, d.duration@)),
                None => None,
            },
            automatic,
            phase,
            held,
            exact,
        ),
        (match r.source {
            Some(s) => Some(s@),
            None => None,
        }) == source_spec(
            match decision {
                Some(d) => Some((d.decision@, d.duration@)),
                None => None,
            },
            r.state@,
        ),
{
    proof {
        reveal_strlit("included");
        reveal_strlit("custom");
        reveal_strlit("denied");
        reveal_strlit("ask");
        reveal_strlit("allowed");
    }
    let (state, when): (&'static str, &'static str) = match decision {
        Some(d) => {
            let word = chars_of(d.decision.as_str());
            if eq_str(word.as_slice(), "deny") {
                ("denied", "always")
            } else if eq_str(word.as_slice(), "ask") {
                ("ask", "when-needed")
            } else if automatic && held && exact {
                ("included", "automatic")
            } else if held && exact {
                ("allowed", decision_when(Some(d.duration.as_str())))
            } else if held {
                ("custom", decision_when(Some(d.duration.as_str())))
            } else {
                ("denied", "always")
            }
        },
        None => match phase {
            PermissionPhase::Automatic => {
                if held && exact {
                    ("included", "automatic")
                } else if held {
                    ("custom", "automatic")
                } else {
                    ("included", "automatic")
                }
            },
            PermissionPhase::Jit => {
                if held {
                    ("custom", "always")
                } else {
                    ("ask", "when-needed")
                }
            },
            PermissionPhase::Explicit => {
                if held {
                    ("custom", "always")
                } else {
                    ("denied", "explicit")
                }
            },
            PermissionPhase::Install => {
                if held {
                    ("custom", "always")
                } else {
                    ("denied", "always")
                }
            },
        },
    };
    let state_chars = chars_of(state);
    let source: Option<&'static str> = if eq_str(state_chars.as_slice(), "included") {
        Some("automatic")
    } else {
        match decision {
            Some(d) => {
                if eq_str(chars_of(d.duration.as_str()).as_slice(), "session") {
                    Some("session")
                } else {
                    Some("user-policy")
                }
            },
            None => {
                if eq_str(state_chars.as_slice(), "custom") {
                    Some("prompt")
                } else {
                    None
                }
            },
        }
    };
    PermissionProjection { state, when, source }
}


// --- which grants hold a permission ------------------------------------------------

/// A scope as a map from key to values: a later entry for a key wins, as when the scope was read.
pub open spec fn scope_map(s: Seq<(Seq<char>, Seq<Seq<char>>)>) -> Map<Seq<char>, Seq<Seq<char>>>
    decreases s.len(),
{
    if s.len() == 0 {
        Map::empty()
    } else {
        scope_map(s.drop_last()).insert(s.last().0, s.last().1)
    }
}

/// Whether two scopes say the same: both absent, or the same keys with the same values, in
/// whatever order they were written.
pub open spec fn same_scope(
    a: Option<Seq<(Seq<char>, Seq<Seq<char>>)>>,
    b: Option<Seq<(Seq<char>, Seq<Seq<char>>)>>,
) -> bool {
    match (a, b) {
        (None, None) => true,
        (Some(x), Some(y)) => scope_map(x) == scope_map(y),
        _ => false,
    }
}

/// What one grant template of a permission expects of the grant that holds it.
pub struct TemplateExpectation {
    /// The capability id.
    pub capability: String,
    /// The scope the template resolves to for this package.
    pub expected: Option<crate::grants::Scope>,
    /// Whether the scope is derived at the moment of use, so that any stored scope is the one
    /// meant.
    pub runtime_derived: bool,
}

/// A template expectation as plain values.
pub struct ExpectationView {
    pub capability: Seq<char>,
    pub expected: Option<Seq<(Seq<char>, Seq<Seq<char>>)>>,
    pub runtime_derived: bool,
}

impl View for TemplateExpectation {
    type V = ExpectationView;

    open spec fn view(&self) -> ExpectationView {
        ExpectationView {
            capability: self.capability@,
            expected: crate::grants::opt_scope_view(self.expected),
            runtime_derived: self.runtime_derived,
        }
    }
}

/// The expectations as plain values.
pub open spec fn expectations_view(v: Seq<TemplateExpectation>) -> Seq<ExpectationView> {
    v.map_values(|t: TemplateExpectation| t@)
}

/// The first grant from `i` on of `plugin` for `capability` that stands at `now` and, when a
/// permission is named, was minted by it.
pub open spec fn grant_for_from(
    gs: Seq<GrantView>,
    i: int,
    plugin: Seq<char>,
    now: i128,
    capability: Seq<char>,
    permission: Option<Seq<char>>,
) -> Option<int>
    decreases gs.len() - i,
{
    if i < 0 || i >= gs.len() {
        None
    } else if gs[i].plugin == plugin && crate::grants::stands(gs[i], now) && gs[i].capability == capability
        && (permission matches Some(p) ==> gs[i].permission == Some(p)) {
        Some(i)
    } else {
        grant_for_from(gs, i + 1, plugin, now, capability, permission)
    }
}

/// What `grant_for_from` finds is a grant from `i` on.
proof fn lemma_grant_for_from_range(
    gs: Seq<GrantView>,
    i: int,
    plugin: Seq<char>,
    now: i128,
    capability: Seq<char>,
    permission: Option<Seq<char>>,
)
    ensures
        grant_for_from(gs, i, plugin, now, capability, permission) matches Some(j) ==> i <= j < gs.len(),
    decreases gs.len() - i,
{
    if 0 <= i < gs.len() {
        lemma_grant_for_from_range(gs, i + 1, plugin, now, capability, permission);
    }
}

/// The grant that holds a template of `permission`: the first standing one that permission
/// minted, else the first standing one for the capability.
pub open spec fn grant_for(
    gs: Seq<GrantView>,
    plugin: Seq<char>,
    now: i128,
    capability: Seq<char>,
    permission: Seq<char>,
) -> Option<int> {
    match grant_for_from(gs, 0, plugin, now, capability, Some(permission)) {
        Some(i) => Some(i),
        None => grant_for_from(gs, 0, plugin, now, capability, None),
    }
}

/// Whether a grant holds a template exactly as mapped: `permission` minted it, and its scope is
/// the one expected unless the scope is derived at use.
pub open spec fn holds_exactly(g: GrantView, t: ExpectationView, permission: Seq<char>) -> bool {
    g.permission == Some(permission) && (t.runtime_derived || same_scope(g.scope, t.expected))
}

/// Whether every template of `permission` is held by a standing grant.
pub open spec fn held_spec(
    gs: Seq<GrantView>,
    plugin: Seq<char>,
    now: i128,
    ts: Seq<ExpectationView>,
    permission: Seq<char>,
) -> bool {
    forall|i: int| 0 <= i < ts.len() ==> (#[trigger] grant_for(gs, plugin, now, ts[i].capability, permission)) is Some
}

/// Whether every template of `permission` that is held is held exactly as mapped.
pub open spec fn exact_spec(
    gs: Seq<GrantView>,
    plugin: Seq<char>,
    now: i128,
    ts: Seq<ExpectationView>,
    permission: Seq<char>,
) -> bool {
    forall|i: int|
        0 <= i < ts.len() ==> match #[trigger] grant_for(gs, plugin, now, ts[i].capability, permission) {
            Some(j) => holds_exactly(gs[j], ts[i], permission),
            None => true,
        }
}

/// A position as a mathematical integer.
pub open spec fn opt_index(o: Option<usize>) -> Option<int> {
    match o {
        Some(i) => Some(i as int),
        None => None,
    }
}

/// The position of the last entry of `s` with `key`: the one a read scope keeps.
fn scope_lookup(s: &crate::grants::Scope, key: &str) -> (r: Option<usize>)
    ensures
        match r {
            Some(i) => i < s.len() && scope_map(scope_view(s@)).dom().contains(key@) && scope_map(scope_view(s@))[key@]
                == scope_view(s@)[i as int].1,
            None => !scope_map(scope_view(s@)).dom().contains(key@),
        },
{
    let ghost sv = scope_view(s@);
    let mut found: Option<usize> = None;
    let mut i: usize = 0;
    while i < s.len()
        invariant
            i <= s.len(),
            sv == scope_view(s@),
            match found {
                Some(j) => j < i && scope_map(sv.take(i as int)).dom().contains(key@) && scope_map(sv.take(i as int))[key@] == sv[j as int].1,
                None => !scope_map(sv.take(i as int)).dom().contains(key@),
            },
        decreases s.len() - i,
    {
        assert(sv.take(i + 1).drop_last() =~= sv.take(i as int));
        if chars_eq(chars_of(s[i].0.as_str()).as_slice(), chars_of(key).as_slice()) {
            found = Some(i);
        }
        i = i + 1;
    }
    assert(sv.take(s.len() as int) =~= sv);
    found
}

/// Whether two lists of strings are the same.
fn strings_same(a: &Vec<String>, b: &Vec<String>) -> (r: bool)
    ensures
        r == (strings_view(a@) == strings_view(b@)),
{
    if a.len() != b.len() {
        assert(strings_view(a@).len() != strings_view(b@).len());
        return false;
    }
    let mut i: usize = 0;
    while i < a.len()
        invariant
            a.len() == b.len(),
            i <= a.len(),
            forall|j: int| 0 <= j < i ==> a@[j]@ == b@[j]@,
        decreases a.len() - i,
    {
        if !chars_eq(chars_of(a[i].as_str()).as_slice(), chars_of(b[i].as_str()).as_slice()) {
            assert(strings_view(a@)[i as int] != strings_view(b@)[i as int]);
            return false;
        }
        i = i + 1;
    }
    assert(strings_view(a@) =~= strings_view(b@));
    true
}

/// Every key of a prefix of a scope is a key of the scope.
proof fn lemma_scope_keys_grow(s: Seq<(Seq<char>, Seq<Seq<char>>)>, i: int, k: Seq<char>)
    requires
        0 <= i <= s.len(),
        scope_map(s.take(i)).dom().contains(k),
    ensures
        scope_map(s).dom().contains(k),
    decreases s.len() - i,
{
    if i < s.len() {
        assert(s.take(i + 1).drop_last() =~= s.take(i));
        lemma_scope_keys_grow(s, i + 1, k);
    } else {
        assert(s.take(i) =~= s);
    }
}

/// The key of every entry of a scope is a key of its map.
proof fn lemma_entry_key(s: Seq<(Seq<char>, Seq<Seq<char>>)>, i: int)
    requires
        0 <= i < s.len(),
    ensures
        scope_map(s).dom().contains(s[i].0),
        scope_map(s.take(i + 1)) == scope_map(s.take(i)).insert(s[i].0, s[i].1),
{
    assert(s.take(i + 1).drop_last() =~= s.take(i));
    assert(s.take(i + 1).last() == s[i]);
    lemma_scope_keys_grow(s, i + 1, s[i].0);
}

/// Whether two scopes say the same, in whatever order their keys were written.
fn scopes_agree(a: &Option<crate::grants::Scope>, b: &Option<crate::grants::Scope>) -> (r: bool)
    ensures
        r == same_scope(crate::grants::opt_scope_view(*a), crate::grants::opt_scope_view(*b)),
{
    match (a, b) {
        (None, None) => true,
        (Some(x), Some(y)) => {
            let ghost xv = scope_view(x@);
            let ghost yv = scope_view(y@);
            assert(crate::grants::opt_scope_view(*a) == Some(xv));
            assert(crate::grants::opt_scope_view(*b) == Some(yv));
            let mut i: usize = 0;
            while i < x.len()
                invariant
                    i <= x.len(),
                    xv == scope_view(x@),
                    yv == scope_view(y@),
                    crate::grants::opt_scope_view(*a) == Some(xv),
                    crate::grants::opt_scope_view(*b) == Some(yv),
                    forall|k: Seq<char>| #[trigger] scope_map(xv.take(i as int)).dom().contains(k)
                        ==> scope_map(yv).dom().contains(k) && scope_map(yv)[k] == scope_map(xv)[k],
                decreases x.len() - i,
            {
                let key = x[i].0.as_str();
                proof {
                    assert(xv[i as int].0 == key@);
                    lemma_entry_key(xv, i as int);
                }
                let in_x = scope_lookup(x, key);
                let in_y = scope_lookup(y, key);
                match (in_x, in_y) {
                    (Some(p), Some(q)) => {
                        assert(xv[p as int].1 == strings_view(x@[p as int].1@));
                        assert(yv[q as int].1 == strings_view(y@[q as int].1@));
                        if !strings_same(&x[p].1, &y[q].1) {
                            assert(scope_map(xv)[key@] != scope_map(yv)[key@]);
                            assert(scope_map(xv) != scope_map(yv));
                            return false;
                        }
                    },
                    _ => {
                        assert(!scope_map(yv).dom().contains(key@));
                        assert(scope_map(xv) != scope_map(yv));
                        return false;
                    },
                }
                i = i + 1;
            }
            assert(xv.take(x.len() as int) =~= xv);
            let mut j: usize = 0;
            while j < y.len()
                invariant
                    j <= y.len(),
                    xv == scope_view(x@),
                    yv == scope_view(y@),
                    crate::grants::opt_scope_view(*a) == Some(xv),
                    crate::grants::opt_scope_view(*b) == Some(yv),
                    forall|k: Seq<char>| #[trigger] scope_map(xv).dom().contains(k)
                        ==> scope_map(yv).dom().contains(k) && scope_map(yv)[k] == scope_map(xv)[k],
                    forall|k: Seq<char>| #[trigger] scope_map(yv.take(j as int)).dom().contains(k)
                        ==> scope_map(xv).dom().contains(k),
                decreases y.len() - j,
            {
                let key = y[j].0.as_str();
                proof {
                    assert(yv[j as int].0 == key@);
                    lemma_entry_key(yv, j as int);
                }
                let in_x = scope_lookup(x, key);
                if in_x.is_none() {
                    assert(scope_map(xv) != scope_map(yv));
                    return false;
                }
                j = j + 1;
            }
            assert(yv.take(y.len() as int) =~= yv);
            assert(scope_map(xv) =~= scope_map(yv));
            true
        },
        _ => false,
    }
}

/// Whether `permission`, when one is named, minted `g`.
fn minted_by(g: &crate::grants::Grant, permission: Option<&str>) -> (r: bool)
    ensures
        r == match permission {
            Some(p) => g@.permission == Some(p@),
            None => true,
        },
{
    match permission {
        Some(p) => match &g.permission {
            Some(q) => chars_eq(chars_of(q.as_str()).as_slice(), chars_of(p).as_slice()),
            None => false,
        },
        None => true,
    }
}

/// The first grant that `grant_for_from` asks for.
fn first_grant(
    grants: &Vec<crate::grants::Grant>,
    plugin: &str,
    now: i128,
    capability: &str,
    permission: Option<&str>,
) -> (r: Option<usize>)
    ensures
        opt_index(r) == grant_for_from(
            crate::grants::grants_view(grants@),
            0,
            plugin@,
            now,
            capability@,
            match permission {
                Some(p) => Some(p@),
                None => None,
            },
        ),
{
    let ghost gv = crate::grants::grants_view(grants@);
    let ghost pm = match permission {
        Some(p) => Some(p@),
        None => None,
    };
    let mut i: usize = 0;
    while i < grants.len()
        invariant
            i <= grants.len(),
            gv == crate::grants::grants_view(grants@),
            pm == match permission {
                Some(p) => Some(p@),
                None => None::<Seq<char>>,
            },
            grant_for_from(gv, 0, plugin@, now, capability@, pm) == grant_for_from(gv, i as int, plugin@, now, capability@, pm),
        decreases grants.len() - i,
    {
        let g = &grants[i];
        assert(gv[i as int] == grants@[i as int]@);
        let standing = chars_eq(chars_of(g.plugin.as_str()).as_slice(), chars_of(plugin).as_slice()) && g.revoked_at.is_none()
            && match g.expires_at {
            Some(expiry) => expiry > now,
            None => true,
        };
        let minted = minted_by(g, permission);
        let same_capability = chars_eq(chars_of(g.capability.as_str()).as_slice(), chars_of(capability).as_slice());
        assert(standing == (gv[i as int].plugin == plugin@ && crate::grants::stands(gv[i as int], now)));
        assert(same_capability == (gv[i as int].capability == capability@));
        assert(minted == (pm matches Some(p) ==> gv[i as int].permission == Some(p)));
        if standing && same_capability && minted {
            return Some(i);
        }
        i = i + 1;
    }
    None
}

/// Which standing grants of `plugin` hold each template of `permission`, and whether all are
/// held and held exactly as mapped: a template is held by the first standing grant the
/// permission minted for its capability, else the first standing grant for it; it is held
/// exactly when the permission minted that grant and its scope is the one expected, or is
/// derived at use.
pub fn held_grants(
    grants: &Vec<crate::grants::Grant>,
    plugin: &str,
    now: i128,
    templates: &Vec<TemplateExpectation>,
    permission: &str,
) -> (r: (Vec<Option<usize>>, bool, bool))
    ensures
        r.0.len() == templates.len(),
        forall|i: int| 0 <= i < templates.len() ==> opt_index(#[trigger] r.0@[i]) == grant_for(
            crate::grants::grants_view(grants@),
            plugin@,
            now,
            templates@[i].capability@,
            permission@,
        ),
        r.1 == held_spec(crate::grants::grants_view(grants@), plugin@, now, expectations_view(templates@), permission@),
        r.2 == exact_spec(crate::grants::grants_view(grants@), plugin@, now, expectations_view(templates@), permission@),
{
    let ghost gv = crate::grants::grants_view(grants@);
    let ghost tv = expectations_view(templates@);
    let mut chosen: Vec<Option<usize>> = Vec::new();
    let mut held = true;
    let mut exact = true;
    let mut i: usize = 0;
    while i < templates.len()
        invariant
            i <= templates.len(),
            gv == crate::grants::grants_view(grants@),
            tv == expectations_view(templates@),
            chosen.len() == i,
            forall|k: int| 0 <= k < i ==> opt_index(#[trigger] chosen@[k]) == grant_for(gv, plugin@, now, tv[k].capability, permission@),
            held == held_spec(gv, plugin@, now, tv.take(i as int), permission@),
            exact == exact_spec(gv, plugin@, now, tv.take(i as int), permission@),
        decreases templates.len() - i,
    {
        let t = &templates[i];
        let by_permission = first_grant(grants, plugin, now, t.capability.as_str(), Some(permission));
        let grant = match by_permission {
            Some(k) => Some(k),
            None => first_grant(grants, plugin, now, t.capability.as_str(), None),
        };
        let ghost expected_grant = grant_for(gv, plugin@, now, tv[i as int].capability, permission@);
        proof {
            assert(tv[i as int].capability == t.capability@);
            lemma_grant_for_from_range(gv, 0, plugin@, now, t.capability@, Some(permission@));
            lemma_grant_for_from_range(gv, 0, plugin@, now, t.capability@, None);
        }
        assert(opt_index(grant) == expected_grant);
        let ghost before_held = held;
        let ghost before_exact = exact;
        match grant {
            None => {
                held = false;
            },
            Some(k) => {
                let g = &grants[k];
                assert(gv[k as int] == g@);
                assert(tv[i as int] == t@);
                let minted = match &g.permission {
                    Some(q) => chars_eq(chars_of(q.as_str()).as_slice(), chars_of(permission).as_slice()),
                    None => false,
                };
                if !minted || (!t.runtime_derived && !scopes_agree(&g.scope, &t.expected)) {
                    exact = false;
                }
                assert(exact == (before_exact && holds_exactly(gv[k as int], tv[i as int], permission@)));
            },
        }
        chosen.push(grant);
        proof {
            let next = tv.take(i + 1);
            assert(next =~= tv.take(i as int).push(tv[i as int]));
            assert(held_spec(gv, plugin@, now, next, permission@) == (before_held && expected_grant is Some)) by {
                if before_held && expected_grant is Some {
                    assert forall|m: int| 0 <= m < next.len() implies (#[trigger] grant_for(gv, plugin@, now, next[m].capability, permission@)) is Some by {
                        if m < i {
                            assert(next[m] == tv.take(i as int)[m]);
                        }
                    }
                }
                if !before_held {
                    let m = choose|m: int| 0 <= m < i && !(#[trigger] grant_for(gv, plugin@, now, tv.take(i as int)[m].capability, permission@) is Some);
                    assert(next[m] == tv.take(i as int)[m]);
                }
                if expected_grant is None {
                    assert(next[i as int] == tv[i as int]);
                }
            }
            assert(exact_spec(gv, plugin@, now, next, permission@) == (before_exact && match expected_grant {
                Some(j) => holds_exactly(gv[j], tv[i as int], permission@),
                None => true,
            })) by {
                if before_exact && match expected_grant {
                    Some(j) => holds_exactly(gv[j], tv[i as int], permission@),
                    None => true,
                } {
                    assert forall|m: int| 0 <= m < next.len() implies match #[trigger] grant_for(gv, plugin@, now, next[m].capability, permission@) {
                        Some(j) => holds_exactly(gv[j], next[m], permission@),
                        None => true,
                    } by {
                        if m < i {
                            assert(next[m] == tv.take(i as int)[m]);
                        }
                    }
                }
                if !before_exact {
                    let m = choose|m: int| 0 <= m < i && !match #[trigger] grant_for(gv, plugin@, now, tv.take(i as int)[m].capability, permission@) {
                        Some(j) => holds_exactly(gv[j], tv.take(i as int)[m], permission@),
                        None => true,
                    };
                    assert(next[m] == tv.take(i as int)[m]);
                }
                if !match expected_grant {
                    Some(j) => holds_exactly(gv[j], tv[i as int], permission@),
                    None => true,
                } {
                    assert(next[i as int] == tv[i as int]);
                }
            }
        }
        i = i + 1;
    }
    assert(tv.take(templates.len() as int) =~= tv);
    (chosen, held, exact)
}


// --- `set permission` --------------------------------------------------------------

/// What `set permission` was told.
#[derive(Debug, Default, Clone)]
pub struct SetPermission {
    /// The package reference.
    pub plugin: String,
    /// The permission id, when one is decided rather than a profile applied.
    pub permission: Option<String>,
    /// `--profile <name>`.
    pub profile: Option<String>,
    /// `--decision allow|deny|ask`.
    pub decision: Option<String>,
    /// `--duration session|always`.
    pub duration: Option<String>,
    /// `--scope key=value`, repeatable.
    pub scopes: Vec<String>,
    /// `--confirm`.
    pub confirm: bool,
}

/// The words of `set permission`, read so far.
pub struct SetPermissionView {
    pub profile: Option<Seq<char>>,
    pub decision: Option<Seq<char>>,
    pub duration: Option<Seq<char>>,
    pub scopes: Seq<Seq<char>>,
    pub confirm: bool,
    pub positional: Seq<Seq<char>>,
}

/// The word at `i`, when there is one.
pub open spec fn word_at(words: Seq<Seq<char>>, i: int) -> Option<Seq<char>> {
    if 0 <= i < words.len() {
        Some(words[i])
    } else {
        None
    }
}

/// The words from `i` read into `read`.
pub open spec fn set_words_from(words: Seq<Seq<char>>, i: int, read: SetPermissionView) -> SetPermissionView
    decreases words.len() + 1 - i,
{
    if i < 0 || i >= words.len() {
        read
    } else {
        let w = words[i];
        if w == "--profile"@ {
            set_words_from(words, i + 2, SetPermissionView { profile: word_at(words, i + 1), ..read })
        } else if w == "--decision"@ {
            set_words_from(words, i + 2, SetPermissionView { decision: word_at(words, i + 1), ..read })
        } else if w == "--duration"@ {
            set_words_from(words, i + 2, SetPermissionView { duration: word_at(words, i + 1), ..read })
        } else if w == "--scope"@ {
            set_words_from(
                words,
                i + 2,
                SetPermissionView {
                    scopes: match word_at(words, i + 1) {
                        Some(scope) => read.scopes.push(scope),
                        None => read.scopes,
                    },
                    ..read
                },
            )
        } else if w == "--confirm"@ {
            set_words_from(words, i + 1, SetPermissionView { confirm: true, ..read })
        } else if crate::text::starts_with(w, "--"@) {
            set_words_from(words, i + 1, read)
        } else {
            set_words_from(words, i + 1, SetPermissionView { positional: read.positional.push(w), ..read })
        }
    }
}

proof fn lemma_set_words_past_end(words: Seq<Seq<char>>, i: int, read: SetPermissionView)
    requires
        i >= words.len(),
    ensures
        set_words_from(words, i, read) == read,
{
}

/// The words after `set permission` (the first word is the verb's own), read.
pub open spec fn set_words(words: Seq<Seq<char>>) -> SetPermissionView {
    set_words_from(
        words,
        1,
        SetPermissionView {
            profile: None,
            decision: None,
            duration: None,
            scopes: seq![],
            confirm: false,
            positional: seq![],
        },
    )
}

fn next_word(words: &[String], i: usize) -> (r: Option<String>)
    ensures
        opt_view(r) == word_at(strings_view(words@), i as int),
        r is Some ==> i < words.len(),
{
    if i < words.len() {
        Some(words[i].clone())
    } else {
        None
    }
}

impl SetPermission {
    /// Reads the words after `set permission`.
    pub fn from_words(words: &[String]) -> (r: Self)
        ensures
            opt_view(r.profile) == set_words(strings_view(words@)).profile,
            opt_view(r.decision) == set_words(strings_view(words@)).decision,
            opt_view(r.duration) == set_words(strings_view(words@)).duration,
            strings_view(r.scopes@) == set_words(strings_view(words@)).scopes,
            r.confirm == set_words(strings_view(words@)).confirm,
            r.plugin@ == match word_at(set_words(strings_view(words@)).positional, 0) {
                Some(p) => p,
                None => seq![],
            },
            opt_view(r.permission) == word_at(set_words(strings_view(words@)).positional, 1),
    {
        let ghost ws = strings_view(words@);
        let mut profile: Option<String> = None;
        let mut decision: Option<String> = None;
        let mut duration: Option<String> = None;
        let mut scopes: Vec<String> = Vec::new();
        let mut confirm = false;
        let mut positional: Vec<String> = Vec::new();
        let mut i: usize = 1;
        proof {
            assert(strings_view(scopes@) =~= seq![]);
            assert(strings_view(positional@) =~= seq![]);
        }
        while i < words.len()
            invariant
                1 <= i,
                ws == strings_view(words@),
                set_words(ws) == set_words_from(
                    ws,
                    i as int,
                    SetPermissionView {
                        profile: opt_view(profile),
                        decision: opt_view(decision),
                        duration: opt_view(duration),
                        scopes: strings_view(scopes@),
                        confirm,
                        positional: strings_view(positional@),
                    },
                ),
            decreases words.len() - i,
        {
            let w = chars_of(words[i].as_str());
            assert(w@ == ws[i as int]);
            if eq_str(w.as_slice(), "--profile") {
                profile = next_word(words, i + 1);
                proof {
                    if i + 1 >= words.len() {
                        lemma_set_words_past_end(ws, i + 1, SetPermissionView {
                            profile: opt_view(profile),
                            decision: opt_view(decision),
                            duration: opt_view(duration),
                            scopes: strings_view(scopes@),
                            confirm,
                            positional: strings_view(positional@),
                        });
                        lemma_set_words_past_end(ws, i + 2, SetPermissionView {
                            profile: opt_view(profile),
                            decision: opt_view(decision),
                            duration: opt_view(duration),
                            scopes: strings_view(scopes@),
                            confirm,
                            positional: strings_view(positional@),
                        });
                    }
                }
                i = if i + 1 < words.len() {
                    i + 2
                } else {
                    i + 1
                };
            } else if eq_str(w.as_slice(), "--decision") {
                decision = next_word(words, i + 1);
                proof {
                    if i + 1 >= words.len() {
                        lemma_set_words_past_end(ws, i + 1, SetPermissionView {
                            profile: opt_view(profile),
                            decision: opt_view(decision),
                            duration: opt_view(duration),
                            scopes: strings_view(scopes@),
                            confirm,
                            positional: strings_view(positional@),
                        });
                        lemma_set_words_past_end(ws, i + 2, SetPermissionView {
                            profile: opt_view(profile),
                            decision: opt_view(decision),
                            duration: opt_view(duration),
                            scopes: strings_view(scopes@),
                            confirm,
                            positional: strings_view(positional@),
                        });
                    }
                }
                i = if i + 1 < words.len() {
                    i + 2
                } else {
                    i + 1
                };
            } else if eq_str(w.as_slice(), "--duration") {
                duration = next_word(words, i + 1);
                proof {
                    if i + 1 >= words.len() {
                        lemma_set_words_past_end(ws, i + 1, SetPermissionView {
                            profile: opt_view(profile),
                            decision: opt_view(decision),
                            duration: opt_view(duration),
                            scopes: strings_view(scopes@),
                            confirm,
                            positional: strings_view(positional@),
                        });
                        lemma_set_words_past_end(ws, i + 2, SetPermissionView {
                            profile: opt_view(profile),
                            decision: opt_view(decision),
                            duration: opt_view(duration),
                            scopes: strings_view(scopes@),
                            confirm,
                            positional: strings_view(positional@),
                        });
                    }
                }
                i = if i + 1 < words.len() {
                    i + 2
                } else {
                    i + 1
                };
            } else if eq_str(w.as_slice(), "--scope") {
                let ghost before = strings_view(scopes@);
                match next_word(words, i + 1) {
                    Some(scope) => {
                        scopes.push(scope);
                        assert(strings_view(scopes@) =~= before.push(scope@));
                    },
                    None => {},
                }
                proof {
                    if i + 1 >= words.len() {
                        lemma_set_words_past_end(ws, i + 1, SetPermissionView {
                            profile: opt_view(profile),
                            decision: opt_view(decision),
                            duration: opt_view(duration),
                            scopes: strings_view(scopes@),
                            confirm,
                            positional: strings_view(positional@),
                        });
                        lemma_set_words_past_end(ws, i + 2, SetPermissionView {
                            profile: opt_view(profile),
                            decision: opt_view(decision),
                            duration: opt_view(duration),
                            scopes: strings_view(scopes@),
                            confirm,
                            positional: strings_view(positional@),
                        });
                    }
                }
                i = if i + 1 < words.len() {
                    i + 2
                } else {
                    i + 1
                };
            } else if eq_str(w.as_slice(), "--confirm") {
                confirm = true;
                i = i + 1;
            } else {
                let dashes = chars_of("--");
                if crate::text::has_prefix(w.as_slice(), dashes.as_slice()) {
                    i = i + 1;
                } else {
                    let ghost before = strings_view(positional@);
                    let word = words[i].clone();
                    positional.push(word);
                    assert(strings_view(positional@) =~= before.push(word@));
                    i = i + 1;
                }
            }
        }
        let plugin = if positional.len() > 0 {
            positional[0].clone()
        } else {
            String::new()
        };
        let permission = if positional.len() > 1 {
            Some(positional[1].clone())
        } else {
            None
        };
        SetPermission { plugin, permission, profile, decision, duration, scopes, confirm }
    }
}

/// Why `--scope` words are refused.
#[derive(Debug, Clone, PartialEq, Eq)]
pub enum ScopeWordsError {
    /// `--scope <entry>` has no `=`.
    NoKey(String),
    /// No capability the permission grants declares this scope key.
    UnknownKey(String),
}

/// The first index of `c` in `v`.
pub open spec fn index_of_char(v: Seq<char>, c: char, i: int) -> Option<int>
    decreases v.len() - i,
{
    if i < 0 || i >= v.len() {
        None
    } else if v[i] == c {
        Some(i)
    } else {
        index_of_char(v, c, i + 1)
    }
}

/// The values a `key=v1,v2` word gives, empty pieces left out.
pub open spec fn scope_values(values: Seq<char>) -> Seq<Seq<char>> {
    crate::text::split_on(values, ',').filter(|v: Seq<char>| v.len() > 0)
}

/// `scope` with `key` set to `values`: in place when the key is there, else appended.
pub open spec fn scope_insert(
    scope: Seq<(Seq<char>, Seq<Seq<char>>)>,
    key: Seq<char>,
    values: Seq<Seq<char>>,
) -> Seq<(Seq<char>, Seq<Seq<char>>)> {
    if exists|i: int| 0 <= i < scope.len() && (#[trigger] scope[i]).0 == key {
        scope.map_values(
            |e: (Seq<char>, Seq<Seq<char>>)|
                if e.0 == key {
                    (key, values)
                } else {
                    e
                },
        )
    } else {
        scope.push((key, values))
    }
}

/// The repeated `--scope key=value[,value]` words read, from entry `i`, into `scope`; a key no
/// declared key names is refused.
pub open spec fn scope_words_from(
    declared: Seq<Seq<char>>,
    written: Seq<Seq<char>>,
    i: int,
    scope: Seq<(Seq<char>, Seq<Seq<char>>)>,
) -> Result<Seq<(Seq<char>, Seq<Seq<char>>)>, (bool, Seq<char>)>
    decreases written.len() - i,
{
    if i < 0 || i >= written.len() {
        Ok(scope)
    } else {
        let entry = written[i];
        match index_of_char(entry, '=', 0) {
            None => Err((true, entry)),
            Some(k) => {
                let key = entry.take(k);
                if !declared.contains(key) {
                    Err((false, key))
                } else {
                    scope_words_from(
                        declared,
                        written,
                        i + 1,
                        scope_insert(scope, key, scope_values(entry.skip(k + 1))),
                    )
                }
            },
        }
    }
}

/// The scope a pair list stands for, as plain values.
pub open spec fn scope_view(scope: Seq<(String, Vec<String>)>) -> Seq<(Seq<char>, Seq<Seq<char>>)> {
    scope.map_values(|e: (String, Vec<String>)| (e.0@, strings_view(e.1@)))
}

/// The position of the first `c` in `v`.
pub(crate) fn find_char(v: &[char], c: char) -> (r: Option<usize>)
    ensures
        match r {
            Some(k) => index_of_char(v@, c, 0) == Some(k as int) && k < v.len(),
            None => index_of_char(v@, c, 0) is None,
        },
{
    let mut i: usize = 0;
    while i < v.len()
        invariant
            i <= v.len(),
            index_of_char(v@, c, 0) == index_of_char(v@, c, i as int),
        decreases v.len() - i,
    {
        if v[i] == c {
            return Some(i);
        }
        i = i + 1;
    }
    None
}

fn contains_word(words: &[String], w: &[char]) -> (r: bool)
    ensures
        r == strings_view(words@).contains(w@),
{
    let mut i: usize = 0;
    while i < words.len()
        invariant
            i <= words.len(),
            forall|j: int| 0 <= j < i ==> strings_view(words@)[j] != w@,
        decreases words.len() - i,
    {
        let c = chars_of(words[i].as_str());
        assert(strings_view(words@)[i as int] == c@);
        if chars_eq(c.as_slice(), w) {
            return true;
        }
        i = i + 1;
    }
    false
}

fn values_of(text: &[char]) -> (r: Vec<String>)
    ensures
        strings_view(r@) == scope_values(text@),
{
    let pieces = crate::text::split(text, ',');
    let ghost all = pieces@.map_values(|p: Vec<char>| p@);
    let ghost pred = |v: Seq<char>| v.len() > 0;
    let mut out: Vec<String> = Vec::new();
    let mut i: usize = 0;
    while i < pieces.len()
        invariant
            i <= pieces.len(),
            all == pieces@.map_values(|p: Vec<char>| p@),
            pred == (|v: Seq<char>| v.len() > 0),
            strings_view(out@) == all.take(i as int).filter(pred),
        decreases pieces.len() - i,
    {
        assert(all.take(i + 1).drop_last() =~= all.take(i as int));
        assert(all.take(i + 1).last() == pieces@[i as int]@);
        reveal_with_fuel(Seq::filter, 1);
        let ghost prev = strings_view(out@);
        if pieces[i].len() > 0 {
            let s = string_of(pieces[i].as_slice());
            out.push(s);
            assert(strings_view(out@) =~= prev.push(s@));
        }
        i = i + 1;
    }
    assert(all.take(pieces.len() as int) =~= all);
    out
}

/// Sets `key` to `values` in `scope`: in its place when the key is there, else last.
pub(crate) fn insert_scope(scope: &mut Vec<(String, Vec<String>)>, key: String, values: Vec<String>)
    ensures
        scope_view(final(scope)@) == scope_insert(scope_view(old(scope)@), key@, strings_view(values@)),
{
    let k = chars_of(key.as_str());
    let ghost before = scope_view(scope@);
    let mut i: usize = 0;
    while i < scope.len()
        invariant
            i <= scope.len(),
            scope@ == old(scope)@,
            before == scope_view(scope@),
            k@ == key@,
            forall|j: int| 0 <= j < i ==> before[j].0 != key@,
        decreases scope.len() - i,
    {
        let name = chars_of(scope[i].0.as_str());
        assert(before[i as int].0 == name@);
        if chars_eq(name.as_slice(), k.as_slice()) {
            // Every entry names its key once, so this is the entry to replace.
            let ghost vv = strings_view(values@);
            let mut rebuilt: Vec<(String, Vec<String>)> = Vec::new();
            let mut j: usize = 0;
            let ghost f = |e: (Seq<char>, Seq<Seq<char>>)| if e.0 == key@ {
                (key@, vv)
            } else {
                e
            };
            while j < scope.len()
                invariant
                    j <= scope.len(),
                    before == scope_view(scope@),
                    k@ == key@,
                    vv == strings_view(values@),
                    f == (|e: (Seq<char>, Seq<Seq<char>>)| if e.0 == key@ {
                        (key@, vv)
                    } else {
                        e
                    }),
                    scope_view(rebuilt@) == before.take(j as int).map_values(f),
                decreases scope.len() - j,
            {
                let n = chars_of(scope[j].0.as_str());
                assert(before[j as int].0 == n@);
                let ghost prev = scope_view(rebuilt@);
                let e = if chars_eq(n.as_slice(), k.as_slice()) {
                    (key.clone(), copy_strings(&values))
                } else {
                    (scope[j].0.clone(), copy_strings(&scope[j].1))
                };
                rebuilt.push(e);
                assert(scope_view(rebuilt@) =~= prev.push((e.0@, strings_view(e.1@))));
                j = j + 1;
                assert(before.take(j as int).map_values(f) =~= before.take(j - 1).map_values(f).push(f(before[j - 1])));
            }
            assert(before.take(scope.len() as int) =~= before);
            assert(exists|w: int| 0 <= w < before.len() && (#[trigger] before[w]).0 == key@) by {
                assert(before[i as int].0 == key@);
            }
            *scope = rebuilt;
            return;
        }
        i = i + 1;
    }
    let ghost vv = strings_view(values@);
    scope.push((key, values));
    assert(scope_view(scope@) =~= before.push((key@, vv)));
}

/// Reads the repeated `--scope key=value[,value]` words against the scope keys the
/// permission's capabilities declare; a key none of them declares is refused.
pub fn scope_from_words(declared: &[String], written: &[String]) -> (r: Result<
    Option<Vec<(String, Vec<String>)>>,
    ScopeWordsError,
>)
    ensures
        written.len() == 0 ==> r matches Ok(None),
        written.len() > 0 ==> match r {
            Ok(Some(scope)) => scope_words_from(strings_view(declared@), strings_view(written@), 0, seq![]) == Ok::<Seq<(Seq<char>, Seq<Seq<char>>)>, (bool, Seq<char>)>(scope_view(scope@)),
            Ok(None) => false,
            Err(ScopeWordsError::NoKey(e)) => scope_words_from(strings_view(declared@), strings_view(written@), 0, seq![]) == Err::<Seq<(Seq<char>, Seq<Seq<char>>)>, (bool, Seq<char>)>((true, e@)),
            Err(ScopeWordsError::UnknownKey(k)) => scope_words_from(strings_view(declared@), strings_view(written@), 0, seq![]) == Err::<Seq<(Seq<char>, Seq<Seq<char>>)>, (bool, Seq<char>)>((false, k@)),
        },
{
    if written.len() == 0 {
        return Ok(None);
    }
    let ghost dv = strings_view(declared@);
    let ghost wv = strings_view(written@);
    let mut scope: Vec<(String, Vec<String>)> = Vec::new();
    let mut i: usize = 0;
    assert(scope_view(scope@) =~= seq![]);
    while i < written.len()
        invariant
            i <= written.len(),
            dv == strings_view(declared@),
            wv == strings_view(written@),
            scope_words_from(dv, wv, 0, seq![]) == scope_words_from(dv, wv, i as int, scope_view(scope@)),
        decreases written.len() - i,
    {
        let entry = chars_of(written[i].as_str());
        assert(entry@ == wv[i as int]);
        match find_char(entry.as_slice(), '=') {
            None => {
                return Err(ScopeWordsError::NoKey(written[i].clone()));
            },
            Some(k) => {
                let key = crate::text::prefix_to(entry.as_slice(), k);
                if !contains_word(declared, key.as_slice()) {
                    return Err(ScopeWordsError::UnknownKey(string_of(key.as_slice())));
                }
                let rest = crate::text::suffix_from(entry.as_slice(), k + 1);
                let values = values_of(rest.as_slice());
                insert_scope(&mut scope, string_of(key.as_slice()), values);
            },
        }
        i = i + 1;
    }
    Ok(Some(scope))
}

// --- what `set permission` was asked, checked ---------------------------------------------------

/// What `set permission` was asked to do.
#[derive(Debug, Clone, PartialEq, Eq)]
pub enum SetAction {
    /// Apply the named access profile.
    ApplyProfile(String),
    /// Decide the named permission.
    Decide(String),
}

/// Why `set permission` does nothing.
#[derive(Debug, Clone, PartialEq, Eq)]
pub enum SetRefusal {
    /// No package was named.
    NoPlugin,
    /// Both a profile and a permission were named: it applies a profile or decides one
    /// permission, not both.
    Both,
    /// Neither a profile nor a permission was named.
    Neither,
    /// The decision is not `allow`, `deny` or `ask`.
    NotADecision(String),
    /// The duration is not `session` or `always`.
    NotADuration(String),
}

impl SetPermission {
    /// Whether the request names a package, and whether it applies a profile or decides one
    /// permission.
    pub fn action(&self) -> (r: Result<SetAction, SetRefusal>)
        ensures
            self.plugin@.len() == 0 ==> r == Err::<SetAction, SetRefusal>(SetRefusal::NoPlugin),
            self.plugin@.len() > 0 ==> match (self.profile, self.permission) {
                (Some(p), None) => r matches Ok(SetAction::ApplyProfile(q)) && q@ == p@,
                (None, Some(p)) => r matches Ok(SetAction::Decide(q)) && q@ == p@,
                (Some(_), Some(_)) => r == Err::<SetAction, SetRefusal>(SetRefusal::Both),
                (None, None) => r == Err::<SetAction, SetRefusal>(SetRefusal::Neither),
            },
    {
        if chars_of(self.plugin.as_str()).len() == 0 {
            return Err(SetRefusal::NoPlugin);
        }
        match (&self.profile, &self.permission) {
            (Some(p), None) => Ok(SetAction::ApplyProfile(p.as_str().to_owned())),
            (None, Some(p)) => Ok(SetAction::Decide(p.as_str().to_owned())),
            (Some(_), Some(_)) => Err(SetRefusal::Both),
            (None, None) => Err(SetRefusal::Neither),
        }
    }

    /// The decision and the duration a single permission is decided with: `allow` and `always`
    /// unless named, and only `allow`, `deny` or `ask` held `session` or `always`.
    pub fn decision_words(&self) -> (r: Result<(String, String), SetRefusal>)
        ensures
            ({
                let d = match self.decision { Some(x) => x@, None => "allow"@ };
                let t = match self.duration { Some(x) => x@, None => "always"@ };
                if !(d == "allow"@ || d == "deny"@ || d == "ask"@) {
                    r matches Err(SetRefusal::NotADecision(w)) && w@ == d
                } else if !(t == "session"@ || t == "always"@) {
                    r matches Err(SetRefusal::NotADuration(w)) && w@ == t
                } else {
                    r matches Ok((a, b)) && a@ == d && b@ == t
                }
            }),
    {
        let decision: String = match &self.decision {
            Some(x) => x.as_str().to_owned(),
            None => "allow".to_owned(),
        };
        let duration: String = match &self.duration {
            Some(x) => x.as_str().to_owned(),
            None => "always".to_owned(),
        };
        let d = chars_of(decision.as_str());
        if !(eq_str(d.as_slice(), "allow") || eq_str(d.as_slice(), "deny") || eq_str(d.as_slice(), "ask")) {
            return Err(SetRefusal::NotADecision(decision));
        }
        let t = chars_of(duration.as_str());
        if !(eq_str(t.as_slice(), "session") || eq_str(t.as_slice(), "always")) {
            return Err(SetRefusal::NotADuration(duration));
        }
        Ok((decision, duration))
    }

    /// The duration a profile is applied with: `always` unless named.
    pub fn profile_duration(&self) -> (r: String)
        ensures
            r@ == match self.duration { Some(x) => x@, None => "always"@ },
    {
        match &self.duration {
            Some(x) => x.as_str().to_owned(),
            None => "always".to_owned(),
        }
    }
}

/// Whether allowing one permission widens authority and so needs a person or `--confirm`: an
/// `allow` of a permission beyond the safe defaults, unless it is a just-in-time permission
/// below mutation narrowed to a named scope — the `always` answer of a prompt, written down.
pub fn decision_widens(decision: &str, safe_default: bool, phase: PermissionPhase, below_mutate: bool, scoped: bool) -> (r: bool)
    ensures
        r == (decision@ == "allow"@ && !safe_default && !(phase == PermissionPhase::Jit && below_mutate && scoped)),
{
    let narrowed_jit = phase == PermissionPhase::Jit && below_mutate && scoped;
    eq_str(chars_of(decision).as_slice(), "allow") && !safe_default && !narrowed_jit
}

/// The titles joined as a list: `a, b, c`, each with its first letter small.
pub open spec fn title_list(titles: Seq<Seq<char>>) -> Seq<char>
    decreases titles.len(),
{
    if titles.len() == 0 {
        seq![]
    } else if titles.len() == 1 {
        crate::text::uncapitalised(titles[0])
    } else {
        title_list(titles.drop_last()) + ", "@ + crate::text::uncapitalised(titles.last())
    }
}

/// The sentence a widening profile is summarised with.
pub fn profile_summary(titles: &Vec<String>) -> (r: String)
    ensures
        r@ == "This profile adds permission to "@ + title_list(strings_view(titles@)) + "."@,
{
    let mut list: Vec<char> = Vec::new();
    let mut i: usize = 0;
    while i < titles.len()
        invariant
            i <= titles.len(),
            list@ == title_list(strings_view(titles@).take(i as int)),
        decreases titles.len() - i,
    {
        let t = chars_of(crate::text::lowercase_first(titles[i].as_str()).as_str());
        assert(strings_view(titles@).take(i + 1).drop_last() =~= strings_view(titles@).take(i as int));
        assert(strings_view(titles@).take(i + 1).last() == titles@[i as int]@);
        if i == 0 {
            assert(strings_view(titles@).take(1)[0] == titles@[0]@);
            list = t;
        } else {
            let with_comma = crate::text::concat(list.as_slice(), chars_of(", ").as_slice());
            list = crate::text::concat(with_comma.as_slice(), t.as_slice());
        }
        i = i + 1;
    }
    assert(strings_view(titles@).take(titles.len() as int) =~= strings_view(titles@));
    let head = crate::text::concat(chars_of("This profile adds permission to ").as_slice(), list.as_slice());
    string_of(crate::text::concat(head.as_slice(), chars_of(".").as_slice()).as_slice())
}

/// The sentence a widening decision about one permission is summarised with.
pub fn decision_summary(name: &str, title: &str) -> (r: String)
    ensures
        r@ == name@ + " will be allowed to "@ + crate::text::uncapitalised(title@) + "."@,
{
    let a = crate::text::concat(chars_of(name).as_slice(), chars_of(" will be allowed to ").as_slice());
    let b = crate::text::concat(a.as_slice(), chars_of(crate::text::lowercase_first(title).as_str()).as_slice());
    string_of(crate::text::concat(b.as_slice(), chars_of(".").as_slice()).as_slice())
}

/// A scope as plain values: each key with its values.
pub open spec fn scope_pairs(scope: Seq<(String, Vec<String>)>) -> Seq<(Seq<char>, Seq<Seq<char>>)> {
    scope.map_values(|e: (String, Vec<String>)| (e.0@, strings_view(e.1@)))
}

/// The values a scope gives `key`, none where it names no such key.
pub open spec fn values_for(scope: Seq<(Seq<char>, Seq<Seq<char>>)>, key: Seq<char>) -> Seq<Seq<char>>
    decreases scope.len(),
{
    if scope.len() == 0 {
        seq![]
    } else if scope[0].0 == key {
        scope[0].1
    } else {
        values_for(scope.drop_first(), key)
    }
}

/// Every value the scopes give `key`, scope by scope.
pub open spec fn all_values(scopes: Seq<Seq<(Seq<char>, Seq<Seq<char>>)>>, key: Seq<char>) -> Seq<Seq<char>>
    decreases scopes.len(),
{
    if scopes.len() == 0 {
        seq![]
    } else {
        all_values(scopes.drop_last(), key) + values_for(scopes.last(), key)
    }
}

/// The values of `words` not among `kept`, each once, in the order first met.
pub open spec fn left_out(words: Seq<Seq<char>>, kept: Seq<Seq<char>>) -> Seq<Seq<char>>
    decreases words.len(),
{
    if words.len() == 0 {
        seq![]
    } else {
        let before = left_out(words.drop_last(), kept);
        let w = words.last();
        if !kept.contains(w) && !before.contains(w) {
            before.push(w)
        } else {
            before
        }
    }
}

/// What a `--scope` that replaces each key's values drops of what the permission declared or
/// held before: per key named, the earlier values it leaves out.
pub open spec fn dropped_spec(
    before: Seq<Seq<(Seq<char>, Seq<Seq<char>>)>>,
    named: Seq<(Seq<char>, Seq<Seq<char>>)>,
) -> Seq<(Seq<char>, Seq<Seq<char>>)>
    decreases named.len(),
{
    if named.len() == 0 {
        seq![]
    } else {
        let rest = dropped_spec(before, named.drop_last());
        let (key, kept) = named.last();
        let gone = left_out(all_values(before, key), kept);
        if gone.len() > 0 {
            rest.push((key, gone))
        } else {
            rest
        }
    }
}

fn values_in(scope: &Vec<(String, Vec<String>)>, key: &str) -> (r: Vec<String>)
    ensures
        strings_view(r@) == values_for(scope_pairs(scope@), key@),
{
    let k = chars_of(key);
    let ghost all = scope_pairs(scope@);
    let mut i: usize = 0;
    assert(all.skip(0) =~= all);
    while i < scope.len()
        invariant
            i <= scope.len(),
            k@ == key@,
            all == scope_pairs(scope@),
            values_for(all, key@) == values_for(all.skip(i as int), key@),
        decreases scope.len() - i,
    {
        assert(all.skip(i as int)[0] == (scope@[i as int].0@, strings_view(scope@[i as int].1@)));
        assert(all.skip(i as int).drop_first() =~= all.skip(i + 1));
        if eq_str(k.as_slice(), scope[i].0.as_str()) {
            return copy_strings(&scope[i].1);
        }
        i = i + 1;
    }
    assert(all.skip(i as int) =~= seq![]);
    Vec::new()
}

fn contains_text(v: &Vec<String>, w: &str) -> (r: bool)
    ensures
        r == strings_view(v@).contains(w@),
{
    let c = chars_of(w);
    let mut i: usize = 0;
    while i < v.len()
        invariant
            i <= v.len(),
            c@ == w@,
            forall|j: int| 0 <= j < i ==> strings_view(v@)[j] != w@,
        decreases v.len() - i,
    {
        assert(strings_view(v@)[i as int] == v@[i as int]@);
        if eq_str(c.as_slice(), v[i].as_str()) {
            return true;
        }
        i = i + 1;
    }
    false
}

/// What a `--scope` that replaces each key's values drops of what the permission declared or
/// held before (`before`: the scopes its mapping resolves to and the scopes its standing grants
/// carry): per key `named`, the earlier values it leaves out, each once, in the order met.
pub fn dropped_by_scope(before: &Vec<Vec<(String, Vec<String>)>>, named: &Vec<(String, Vec<String>)>) -> (r: Vec<(String, Vec<String>)>)
    ensures
        scope_pairs(r@) == dropped_spec(before@.map_values(|s: Vec<(String, Vec<String>)>| scope_pairs(s@)), scope_pairs(named@)),
{
    let ghost bv = before@.map_values(|s: Vec<(String, Vec<String>)>| scope_pairs(s@));
    let ghost nv = scope_pairs(named@);
    let mut dropped: Vec<(String, Vec<String>)> = Vec::new();
    let mut n: usize = 0;
    while n < named.len()
        invariant
            n <= named.len(),
            bv == before@.map_values(|s: Vec<(String, Vec<String>)>| scope_pairs(s@)),
            nv == scope_pairs(named@),
            scope_pairs(dropped@) == dropped_spec(bv, nv.take(n as int)),
        decreases named.len() - n,
    {
        let key = named[n].0.as_str();
        let kept = &named[n].1;
        let ghost kv = strings_view(kept@);
        let mut gone: Vec<String> = Vec::new();
        let mut s: usize = 0;
        while s < before.len()
            invariant
                s <= before.len(),
                bv == before@.map_values(|s: Vec<(String, Vec<String>)>| scope_pairs(s@)),
                kv == strings_view(kept@),
                strings_view(gone@) == left_out(all_values(bv.take(s as int), key@), kv),
            decreases before.len() - s,
        {
            let vals = values_in(&before[s], key);
            let ghost prefix = all_values(bv.take(s as int), key@);
            let mut w: usize = 0;
            assert(vals@.take(0) =~= seq![]);
            assert(strings_view(vals@).take(0) =~= seq![]);
            assert(prefix + strings_view(vals@).take(0) =~= prefix);
            while w < vals.len()
                invariant
                    w <= vals.len(),
                    kv == strings_view(kept@),
                    strings_view(gone@) == left_out(prefix + strings_view(vals@).take(w as int), kv),
                decreases vals.len() - w,
            {
                let word = vals[w].as_str();
                let ghost seen = prefix + strings_view(vals@).take(w as int);
                assert(prefix + strings_view(vals@).take(w + 1) =~= seen.push(word@));
                assert((seen.push(word@)).drop_last() =~= seen);
                if !contains_text(kept, word) && !contains_text(&gone, word) {
                    let ghost g = strings_view(gone@);
                    gone.push(word.to_owned());
                    assert(strings_view(gone@) =~= g.push(word@));
                }
                w = w + 1;
            }
            assert(strings_view(vals@).take(vals.len() as int) =~= strings_view(vals@));
            assert(bv.take(s + 1).drop_last() =~= bv.take(s as int));
            assert(bv.take(s + 1).last() == scope_pairs(before@[s as int]@));
            s = s + 1;
        }
        assert(bv.take(before.len() as int) =~= bv);
        assert(nv.take(n + 1).drop_last() =~= nv.take(n as int));
        assert(nv.take(n + 1).last() == (named@[n as int].0@, strings_view(named@[n as int].1@)));
        if gone.len() > 0 {
            let ghost d = scope_pairs(dropped@);
            let entry = (key.to_owned(), gone);
            dropped.push(entry);
            assert(scope_pairs(dropped@) =~= d.push((key@, strings_view(entry.1@))));
        }
        n = n + 1;
    }
    assert(nv.take(named.len() as int) =~= nv);
    dropped
}

// --- a widening decision ---------------------------------------

/// What becomes of a widening decision.
#[derive(Debug, Clone, Copy, PartialEq, Eq, Structural)]
pub enum Widening {
    /// Summarise it and ask the person at the terminal.
    Ask,
    /// Refused: a destructive permission is never enabled without a person.
    RefuseDestructive,
    /// Accepted: `--confirm` was written.
    Accept,
    /// Refused: this context cannot ask and nothing confirmed it.
    RefuseUnconfirmed,
}

/// A widening is asked about interactively, needs `--confirm` in a script, and is never accepted
/// unattended when destructive.
pub fn widening(interactive: bool, destructive: bool, confirmed: bool) -> (r: Widening)
    ensures
        interactive ==> r == Widening::Ask,
        !interactive && destructive ==> r == Widening::RefuseDestructive,
        !interactive && !destructive && confirmed ==> r == Widening::Accept,
        !interactive && !destructive && !confirmed ==> r == Widening::RefuseUnconfirmed,
{
    if interactive {
        Widening::Ask
    } else if destructive {
        Widening::RefuseDestructive
    } else if confirmed {
        Widening::Accept
    } else {
        Widening::RefuseUnconfirmed
    }
}

/// What a person who did not confirm a widening is told.
pub open spec fn not_confirmed_spec(name: Seq<char>) -> Seq<char> {
    name + ": the change was not confirmed"@
}

/// What a person who did not confirm a widening is told.
pub fn not_confirmed_message(name: &str) -> (r: String)
    ensures
        r@ == not_confirmed_spec(name@),
{
    crate::text::joined(name, ": the change was not confirmed")
}

/// What a script that widens without `--confirm` is told.
pub open spec fn unconfirmed_spec(name: Seq<char>, is_profile: bool) -> Seq<char> {
    name + ": "@ + (if is_profile { "the profile"@ } else { "the permission"@ })
        + " widens authority beyond the recommended access and this context cannot ask"@
}

/// What a script that widens without `--confirm` is told.
pub fn unconfirmed_message(name: &str, is_profile: bool) -> (r: String)
    ensures
        r@ == unconfirmed_spec(name@, is_profile),
{
    let mut r = crate::text::joined(name, ": ");
    crate::text::append(&mut r, if is_profile { "the profile" } else { "the permission" });
    crate::text::append(&mut r, " widens authority beyond the recommended access and this context cannot ask");
    r
}

/// A profile's title as a person is shown it: with the host's own warning appended when one of
/// its permissions is not a safe default, never merely the package's word for it.
pub open spec fn profile_title_spec(title: Seq<char>, safe: Seq<bool>) -> Seq<char> {
    if exists|i: int| 0 <= i < safe.len() && !(#[trigger] safe[i]) {
        title + " — can change external or host state"@
    } else {
        title
    }
}

/// A profile's title as a person is shown it; `safe` says, for each permission the profile
/// selects, whether it stays within the safe defaults.
pub fn profile_title(title: &str, safe: &Vec<bool>) -> (r: String)
    ensures
        r@ == profile_title_spec(title@, safe@),
{
    let mut i: usize = 0;
    while i < safe.len()
        invariant
            i <= safe.len(),
            forall|j: int| 0 <= j < i ==> safe@[j],
        decreases safe.len() - i,
    {
        if !safe[i] {
            return crate::text::joined(title, " — can change external or host state");
        }
        i = i + 1;
    }
    string_of(chars_of(title).as_slice())
}

/// The publisher identity a decision records: the signing key when a signature document named
/// one and the signature holds, else `unsigned`.
pub open spec fn publisher_identity_spec(key: Option<Seq<char>>, failed: bool) -> Seq<char> {
    match key {
        Some(k) => if failed { "unsigned"@ } else { k },
        None => "unsigned"@,
    }
}

/// The publisher identity a decision records.
pub fn publisher_identity(key: Option<&str>, failed: bool) -> (r: String)
    ensures
        r@ == publisher_identity_spec(crate::text::opt_str(key), failed),
{
    match key {
        Some(k) => if failed {
            string_of(chars_of("unsigned").as_slice())
        } else {
            string_of(chars_of(k).as_slice())
        },
        None => string_of(chars_of("unsigned").as_slice()),
    }
}

// --- what `set permission` says -----------------------------------------------------------------

/// What a refused `set permission` is told.
pub open spec fn refusal_message_spec(r: SetRefusal) -> Seq<char> {
    match r {
        SetRefusal::NoPlugin => "`set permission` needs the package whose permission to decide"@,
        SetRefusal::Both => "`set permission` applies a profile or decides one permission, not both"@,
        SetRefusal::Neither => "`set permission` needs `--profile <name>` or a permission and `--decision`"@,
        SetRefusal::NotADecision(d) => "`"@ + d@ + "` is not a decision"@,
        SetRefusal::NotADuration(d) => "`"@ + d@ + "` is not a duration a decision can hold itself to"@,
    }
}

impl SetRefusal {
    /// What a refused `set permission` is told.
    pub fn message(&self) -> (r: String)
        ensures
            r@ == refusal_message_spec(*self),
    {
        match self {
            SetRefusal::NoPlugin => string_of(chars_of("`set permission` needs the package whose permission to decide").as_slice()),
            SetRefusal::Both => string_of(
                chars_of("`set permission` applies a profile or decides one permission, not both").as_slice(),
            ),
            SetRefusal::Neither => string_of(
                chars_of("`set permission` needs `--profile <name>` or a permission and `--decision`").as_slice(),
            ),
            SetRefusal::NotADecision(d) => {
                let mut r = crate::text::joined("`", d.as_str());
                crate::text::append(&mut r, "` is not a decision");
                r
            },
            SetRefusal::NotADuration(d) => {
                let mut r = crate::text::joined("`", d.as_str());
                crate::text::append(&mut r, "` is not a duration a decision can hold itself to");
                r
            },
        }
    }
}

/// Why a profile is refused: the package offers none of that name; the help names those it
/// offers, or says it offers none.
pub open spec fn no_profile_spec(name: Seq<char>, profile: Seq<char>, offered: Seq<Seq<char>>) -> (Seq<char>, Seq<char>) {
    (
        "`"@ + name + "` offers no access profile named `"@ + profile + "`"@,
        "it offers "@ + if offered.len() == 0 {
            "no profile at all: it asks for nothing"@
        } else {
            crate::text::interspersed(offered.map_values(|o: Seq<char>| "`"@ + o + "`"@), ", "@)
        },
    )
}

/// Why a profile is refused: the message and the help.
pub fn no_profile_message(name: &str, profile: &str, offered: &Vec<String>) -> (r: (String, String))
    ensures
        (r.0@, r.1@) == no_profile_spec(name@, profile@, strings_view(offered@)),
{
    let mut message = crate::text::joined("`", name);
    crate::text::append(&mut message, "` offers no access profile named `");
    crate::text::append(&mut message, profile);
    crate::text::append(&mut message, "`");
    let mut help = string_of(chars_of("it offers ").as_slice());
    if offered.len() == 0 {
        crate::text::append(&mut help, "no profile at all: it asks for nothing");
        return (message, help);
    }
    let ghost ov = strings_view(offered@).map_values(|o: Seq<char>| "`"@ + o + "`"@);
    let mut quoted: Vec<String> = Vec::new();
    let mut i: usize = 0;
    while i < offered.len()
        invariant
            i <= offered.len(),
            ov == strings_view(offered@).map_values(|o: Seq<char>| "`"@ + o + "`"@),
            strings_view(quoted@) == ov.take(i as int),
        decreases offered.len() - i,
    {
        let mut q = crate::text::joined("`", offered[i].as_str());
        crate::text::append(&mut q, "`");
        let ghost before = strings_view(quoted@);
        quoted.push(q);
        assert(strings_view(quoted@) =~= before.push(q@));
        i = i + 1;
        assert(ov.take(i as int) =~= ov.take(i - 1).push(ov[i - 1]));
    }
    assert(ov.take(offered.len() as int) =~= ov);
    let list = crate::text::join_with(&quoted, ", ");
    assert(quoted@.map_values(|p: String| p@) == strings_view(quoted@));
    crate::text::append(&mut help, list.as_str());
    (message, help)
}

/// Why a permission id is refused: the package declares none of that id; the help says where
/// they are listed.
pub open spec fn no_permission_spec(name: Seq<char>, id: Seq<char>) -> (Seq<char>, Seq<char>) {
    ("`"@ + name + "` declares no permission `"@ + id + "`"@, "`get permission "@ + name + " --all` lists them"@)
}

/// Why a permission id is refused: the message and the help.
pub fn no_permission_message(name: &str, id: &str) -> (r: (String, String))
    ensures
        (r.0@, r.1@) == no_permission_spec(name@, id@),
{
    let mut message = crate::text::joined("`", name);
    crate::text::append(&mut message, "` declares no permission `");
    crate::text::append(&mut message, id);
    crate::text::append(&mut message, "`");
    let mut help = crate::text::joined("`get permission ", name);
    crate::text::append(&mut help, " --all` lists them");
    (message, help)
}

/// What a person is told when `--scope` left out values the permission covered: which, key by
/// key, and how to keep them.
pub open spec fn narrowed_notice_spec(name: Seq<char>, id: Seq<char>, dropped: Seq<(Seq<char>, Seq<Seq<char>>)>) -> Seq<char> {
    name + " "@ + id + ": `--scope` sets the whole list for each key it names, so the permission no longer covers "@
        + crate::text::interspersed(
        dropped.map_values(|d: (Seq<char>, Seq<Seq<char>>)| d.0 + " "@ + crate::text::interspersed(d.1, ", "@)),
        "; "@,
    ) + "; name every value to keep, e.g. `--scope \"paths=<one>,<two>\"`"@
}

/// What a person is told when `--scope` left out values the permission covered.
pub fn narrowed_notice(name: &str, id: &str, dropped: &Vec<(String, Vec<String>)>) -> (r: String)
    ensures
        r@ == narrowed_notice_spec(name@, id@, scope_pairs(dropped@)),
{
    let ghost dv = scope_pairs(dropped@);
    let ghost f = |d: (Seq<char>, Seq<Seq<char>>)| d.0 + " "@ + crate::text::interspersed(d.1, ", "@);
    let mut parts: Vec<String> = Vec::new();
    let mut i: usize = 0;
    while i < dropped.len()
        invariant
            i <= dropped.len(),
            dv == scope_pairs(dropped@),
            f == (|d: (Seq<char>, Seq<Seq<char>>)| d.0 + " "@ + crate::text::interspersed(d.1, ", "@)),
            strings_view(parts@) == dv.take(i as int).map_values(f),
        decreases dropped.len() - i,
    {
        let mut part = crate::text::joined(dropped[i].0.as_str(), " ");
        let values = crate::text::join_with(&dropped[i].1, ", ");
        crate::text::append(&mut part, values.as_str());
        assert(dv[i as int] == (dropped@[i as int].0@, strings_view(dropped@[i as int].1@)));
        assert(dropped@[i as int].1@.map_values(|p: String| p@) == strings_view(dropped@[i as int].1@));
        let ghost before = strings_view(parts@);
        parts.push(part);
        assert(strings_view(parts@) =~= before.push(part@));
        i = i + 1;
        assert(dv.take(i as int).map_values(f) =~= dv.take(i - 1).map_values(f).push(f(dv[i - 1])));
    }
    assert(dv.take(dropped.len() as int) =~= dv);
    let mut r = crate::text::joined(name, " ");
    crate::text::append(&mut r, id);
    crate::text::append(&mut r, ": `--scope` sets the whole list for each key it names, so the permission no longer covers ");
    let list = crate::text::join_with(&parts, "; ");
    assert(parts@.map_values(|p: String| p@) == strings_view(parts@));
    crate::text::append(&mut r, list.as_str());
    crate::text::append(&mut r, "; name every value to keep, e.g. `--scope \"paths=<one>,<two>\"`");
    r
}

/// An answer to a `[y/N/details]` question.
#[derive(Debug, Clone, Copy, PartialEq, Eq, Structural)]
pub enum Answer {
    /// `y` or `yes`.
    Yes,
    /// `d` or `details`.
    Details,
    /// Anything else.
    No,
}

/// What an answer already trimmed and in small letters says: `y`/`yes`, `d`/`details`, or else
/// no.
pub open spec fn answer_of(lowered: Seq<char>) -> Answer {
    if lowered == "y"@ || lowered == "yes"@ {
        Answer::Yes
    } else if lowered == "d"@ || lowered == "details"@ {
        Answer::Details
    } else {
        Answer::No
    }
}

/// What a typed answer says: trimmed and in small letters, `y`/`yes`, `d`/`details`, or else no.
pub open spec fn answer_spec(typed: Seq<char>) -> Answer {
    answer_of(crate::text::str_lower(crate::text::trimmed(typed)))
}

/// What an answer already trimmed and in small letters says.
pub fn answer_of_lowered(lowered: &str) -> (r: Answer)
    ensures
        r == answer_of(lowered@),
{
    let a = chars_of(lowered);
    if eq_str(a.as_slice(), "y") || eq_str(a.as_slice(), "yes") {
        Answer::Yes
    } else if eq_str(a.as_slice(), "d") || eq_str(a.as_slice(), "details") {
        Answer::Details
    } else {
        Answer::No
    }
}

/// Reads the answer to a `[y/N/details]` question.
pub fn read_widening_answer(typed: &str) -> (r: Answer)
    ensures
        r == answer_spec(typed@),
{
    let t = crate::text::trim(chars_of(typed).as_slice());
    let lower = crate::text::lowercase_text(string_of(t.as_slice()).as_str());
    answer_of_lowered(lower.as_str())
}

/// A just-in-time permission nobody decided and no grant holds waits to be asked, when it is
/// needed; "denied" is shown only for a deny, for a decision whose grants are not held, and for an
/// explicit or install permission nobody decided and nothing holds.
pub proof fn law_an_undecided_jit_permission_is_asked(
    decision: Option<(Seq<char>, Seq<char>)>,
    automatic: bool,
    phase: PermissionPhase,
    held: bool,
    exact: bool,
)
    ensures
        decision is None && phase == PermissionPhase::Jit && !held ==> state_when(decision, automatic, phase, held, exact)
            == ("ask"@, "when-needed"@),
        state_when(decision, automatic, phase, held, exact).0 == "denied"@ ==> match decision {
            Some((word, _)) => word == "deny"@ || (word != "ask"@ && !held),
            None => !held && (phase == PermissionPhase::Explicit || phase == PermissionPhase::Install),
        },
{
    reveal_strlit("denied");
    reveal_strlit("ask");
    reveal_strlit("included");
    reveal_strlit("custom");
    reveal_strlit("allowed");
    assert("denied"@[0] == 'd');
    assert("ask"@[0] == 'a' && "included"@[0] == 'i' && "custom"@[0] == 'c' && "allowed"@[0] == 'a');
    assert("denied"@ != "ask"@ && "denied"@ != "included"@ && "denied"@ != "custom"@ && "denied"@ != "allowed"@);
}

/// What a decision makes of a permission: a deny is shown denied always and an ask is asked when
/// needed, whatever the grants; a permission is shown allowed or included only when every grant
/// is held as mapped, and custom only when every grant is held.
pub proof fn law_a_decision_projects_as_it_says(
    decision: Option<(Seq<char>, Seq<char>)>,
    automatic: bool,
    phase: PermissionPhase,
    held: bool,
    exact: bool,
)
    ensures
        decision matches Some((word, _)) && word == "deny"@ ==> state_when(decision, automatic, phase, held, exact) == (
            "denied"@,
            "always"@,
        ),
        decision matches Some((word, _)) && word == "ask"@ ==> state_when(decision, automatic, phase, held, exact) == (
            "ask"@,
            "when-needed"@,
        ),
        state_when(decision, automatic, phase, held, exact).0 == "allowed"@ ==> held && exact && decision is Some,
        state_when(decision, automatic, phase, held, exact).0 == "custom"@ ==> held,
        state_when(decision, automatic, phase, held, exact).0 == "included"@ ==> (held && exact) || (decision is None
            && phase == PermissionPhase::Automatic),
{
    reveal_strlit("denied");
    reveal_strlit("ask");
    reveal_strlit("deny");
    reveal_strlit("included");
    reveal_strlit("custom");
    reveal_strlit("allowed");
    assert("deny"@.len() != "ask"@.len());
    assert("denied"@[0] == 'd' && "ask"@[0] == 'a' && "included"@[0] == 'i' && "custom"@[0] == 'c');
    assert("allowed"@[0] == 'a' && "allowed"@[1] == 'l' && "ask"@[1] == 's');
    assert("allowed"@ != "ask"@ && "allowed"@ != "denied"@ && "allowed"@ != "included"@ && "allowed"@ != "custom"@);
    assert("custom"@ != "ask"@ && "custom"@ != "denied"@ && "custom"@ != "included"@);
    assert("included"@ != "ask"@ && "included"@ != "denied"@);
}

} // verus!
