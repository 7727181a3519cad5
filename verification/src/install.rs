//! The decisions of `install plugin`: the permission plan a
//! profile makes of a package's permissions, whether `--confirm` may accept it without a person,
//! the question a person is asked, and what an upgrade may not do.

use vstd::prelude::*;

use crate::hosts::opt_view;
use crate::invocation::strings_view;
use crate::permissions::{Answer, PermissionPhase};
use crate::text::{chars_of, chars_eq, concat, eq_str, string_of};
use crate::acquire::Origin;
use crate::catalog::Candidate;
use crate::host::Management;
use crate::trust::Trust;

verus! {

/// The profile an install decides unless another is named.
pub const RECOMMENDED: &'static str = "recommended";

/// What `install plugin` was told besides the reference.
#[derive(Debug, Default, Clone)]
pub struct InstallOptions {
    /// `--access <profile>`; `recommended` when absent.
    pub access: Option<String>,
    /// `--confirm`.
    pub confirm: bool,
    /// `--source system|catalog|local`.
    pub source: Option<String>,
}

/// One permission of a package, as the plan reads it.
#[derive(Debug, Clone)]
pub struct PlanDescriptor {
    /// The permission id.
    pub id: String,
    /// Its title.
    pub title: String,
    /// Whether the host includes it without a question.
    pub automatic: bool,
    /// When it is decided.
    pub phase: PermissionPhase,
    /// Whether it stays within the safe defaults — no mutation, nothing destructive.
    pub safe_default: bool,
    /// Whether its risk is destructive.
    pub destructive: bool,
}

/// A permission as plain values.
pub struct DescriptorView {
    pub id: Seq<char>,
    pub title: Seq<char>,
    pub automatic: bool,
    pub phase: PermissionPhase,
    pub safe_default: bool,
    pub destructive: bool,
}

impl View for PlanDescriptor {
    type V = DescriptorView;

    open spec fn view(&self) -> DescriptorView {
        DescriptorView {
            id: self.id@,
            title: self.title@,
            automatic: self.automatic,
            phase: self.phase,
            safe_default: self.safe_default,
            destructive: self.destructive,
        }
    }
}

/// The descriptors as plain values.
pub open spec fn descriptors_view(v: Seq<PlanDescriptor>) -> Seq<DescriptorView> {
    v.map_values(|d: PlanDescriptor| d@)
}

/// An access profile a package offers: a name and the permissions it allows.
#[derive(Debug, Clone)]
pub struct AccessProfile {
    /// The profile's name.
    pub name: String,
    /// The permission ids it allows.
    pub permissions: Vec<String>,
}

/// One line of an upgrade's delta: a permission the new version needs beyond what was
/// consented to.
#[derive(Debug, Clone)]
pub struct DeltaEntry {
    /// The permission id.
    pub permission: String,
    /// The sentence a person is shown.
    pub detail: String,
}

/// The permission half of an install plan.
#[derive(Debug)]
pub struct PermissionPlan {
    /// Every permission the package declares.
    pub set: Vec<PlanDescriptor>,
    /// The profile selected, when the package declares any permission.
    pub profile: Option<AccessProfile>,
    /// Decided `allow` by the profile, at install.
    pub granted: Vec<PlanDescriptor>,
    /// Included without a question.
    pub automatic: Vec<PlanDescriptor>,
    /// Asked at first concrete need.
    pub jit: Vec<PlanDescriptor>,
    /// Left undecided: mutation among them.
    pub explicit: Vec<PlanDescriptor>,
    /// For an upgrade, what the new version needs beyond what was consented to.
    pub delta: Option<Vec<DeltaEntry>>,
}

/// Which part of the plan a permission falls in.
#[derive(Debug, Clone, Copy, PartialEq, Eq, Structural)]
pub enum PlanPart {
    Granted,
    Automatic,
    Jit,
    Explicit,
}

/// Where a permission falls, given the permissions the profile selects: automatic ones are
/// included, selected ones granted, just-in-time ones asked later, and the rest left undecided.
pub open spec fn part_of(d: DescriptorView, selected: Seq<Seq<char>>) -> PlanPart {
    if d.automatic {
        PlanPart::Automatic
    } else if selected.contains(d.id) {
        PlanPart::Granted
    } else if d.phase == PermissionPhase::Jit {
        PlanPart::Jit
    } else {
        PlanPart::Explicit
    }
}

/// The permissions of `set` that fall in `part`.
pub open spec fn in_part(set: Seq<DescriptorView>, selected: Seq<Seq<char>>, part: PlanPart) -> Seq<DescriptorView> {
    set.filter(|d: DescriptorView| part_of(d, selected) == part)
}

/// Why no plan is made.
#[derive(Debug, Clone)]
pub enum PlanError {
    /// The package offers no access profile of that name.
    NoSuchProfile {
        /// The name asked for.
        profile: String,
        /// The names it offers.
        offered: Vec<String>,
    },
}

/// The first profile from `i` on named `name`.
pub open spec fn find_profile_from(profiles: Seq<AccessProfile>, name: Seq<char>, i: int) -> Option<int>
    decreases profiles.len() - i,
{
    if i < 0 || i >= profiles.len() {
        None
    } else if profiles[i].name@ == name {
        Some(i)
    } else {
        find_profile_from(profiles, name, i + 1)
    }
}

/// The first profile named `name`.
pub open spec fn find_profile(profiles: Seq<AccessProfile>, name: Seq<char>) -> Option<int> {
    find_profile_from(profiles, name, 0)
}

fn copy_descriptor(d: &PlanDescriptor) -> (r: PlanDescriptor)
    ensures
        r@ == d@,
{
    PlanDescriptor {
        id: d.id.clone(),
        title: d.title.clone(),
        automatic: d.automatic,
        phase: d.phase,
        safe_default: d.safe_default,
        destructive: d.destructive,
    }
}

fn contains_string(v: &Vec<String>, w: &String) -> (r: bool)
    ensures
        r == strings_view(v@).contains(w@),
{
    let c = chars_of(w.as_str());
    let mut i: usize = 0;
    while i < v.len()
        invariant
            i <= v.len(),
            c@ == w@,
            forall|j: int| 0 <= j < i ==> strings_view(v@)[j] != w@,
        decreases v.len() - i,
    {
        let x = chars_of(v[i].as_str());
        assert(strings_view(v@)[i as int] == x@);
        if chars_eq(x.as_slice(), c.as_slice()) {
            return true;
        }
        i = i + 1;
    }
    false
}

fn classify(d: &PlanDescriptor, selected: &Vec<String>) -> (r: PlanPart)
    ensures
        r == part_of(d@, strings_view(selected@)),
{
    if d.automatic {
        PlanPart::Automatic
    } else if contains_string(selected, &d.id) {
        PlanPart::Granted
    } else if d.phase == PermissionPhase::Jit {
        PlanPart::Jit
    } else {
        PlanPart::Explicit
    }
}

fn profile_names(profiles: &Vec<AccessProfile>) -> (r: Vec<String>)
    ensures
        r.len() == profiles.len(),
{
    let mut r: Vec<String> = Vec::new();
    let mut i: usize = 0;
    while i < profiles.len()
        invariant
            i <= profiles.len(),
            r.len() == i,
        decreases profiles.len() - i,
    {
        r.push(profiles[i].name.clone());
        i = i + 1;
    }
    r
}

/// Whether the granted permissions go beyond safe defaults.
pub open spec fn plan_widens(plan: &PermissionPlan) -> bool {
    exists|i: int| 0 <= i < plan.granted.len() && !(#[trigger] plan.granted@[i]).safe_default
}

/// Whether a granted permission is destructive.
pub open spec fn plan_destructive(plan: &PermissionPlan) -> bool {
    exists|i: int| 0 <= i < plan.granted.len() && (#[trigger] plan.granted@[i]).destructive
}

/// Whether an upgrade's delta names a permission beyond safe defaults.
pub open spec fn plan_delta_widens(plan: &PermissionPlan) -> bool {
    plan.delta matches Some(entries) && exists|i: int, j: int|
        0 <= i < entries.len() && 0 <= j < plan.set.len() && (#[trigger] plan.set@[j]).id@ == (#[trigger] entries@[i]).permission@
            && first_with_id(descriptors_view(plan.set@), entries@[i].permission@) == Some(j)
            && !plan.set@[j].safe_default
}

impl PermissionPlan {
    /// The plan of `descriptors` under the profile named `profile_name`: with
    /// permissions, a profile the package does not offer is refused.
    pub fn build(
        descriptors: Vec<PlanDescriptor>,
        profiles: Vec<AccessProfile>,
        profile_name: &str,
        delta: Option<Vec<DeltaEntry>>,
    ) -> (r: Result<Self, PlanError>)
        ensures
            descriptors.len() > 0 && find_profile(profiles@, profile_name@) is None
                <==> r is Err,
            r matches Ok(plan) ==> {
                let selected = match plan.profile {
                    Some(p) => strings_view(p.permissions@),
                    None => seq![],
                };
                &&& descriptors_view(plan.set@) == descriptors_view(descriptors@)
                &&& (plan.profile is None <==> descriptors.len() == 0)
                &&& (plan.profile matches Some(p) ==> p.name@ == profile_name@)
                &&& descriptors_view(plan.granted@) == in_part(descriptors_view(descriptors@), selected, PlanPart::Granted)
                &&& descriptors_view(plan.automatic@) == in_part(descriptors_view(descriptors@), selected, PlanPart::Automatic)
                &&& descriptors_view(plan.jit@) == in_part(descriptors_view(descriptors@), selected, PlanPart::Jit)
                &&& descriptors_view(plan.explicit@) == in_part(descriptors_view(descriptors@), selected, PlanPart::Explicit)
            },
    {
        let profile: Option<AccessProfile> = if descriptors.len() == 0 {
            None
        } else {
            let wanted = chars_of(profile_name);
            let mut k: usize = 0;
            let mut found: Option<usize> = None;
            while k < profiles.len()
                invariant_except_break
                    found is None,
                invariant
                    k <= profiles.len(),
                    wanted@ == profile_name@,
                    find_profile(profiles@, profile_name@) == find_profile_from(profiles@, profile_name@, k as int),
                ensures
                    found matches Some(a) ==> a < profiles.len() && find_profile(profiles@, profile_name@) == Some(a as int)
                        && profiles@[a as int].name@ == profile_name@,
                    found is None ==> find_profile(profiles@, profile_name@) is None,
                decreases profiles.len() - k,
            {
                let n = chars_of(profiles[k].name.as_str());
                if chars_eq(n.as_slice(), wanted.as_slice()) {
                    found = Some(k);
                    break;
                }
                k = k + 1;
            }
            match found {
                Some(at) => {
                    Some(AccessProfile {
                        name: string_of(chars_of(profiles[at].name.as_str()).as_slice()),
                        permissions: crate::permissions::copy_strings(&profiles[at].permissions),
                    })
                },
                None => {
                    return Err(PlanError::NoSuchProfile {
                        profile: string_of(chars_of(profile_name).as_slice()),
                        offered: profile_names(&profiles),
                    });
                },
            }
        };
        let selected: Vec<String> = match &profile {
            Some(p) => crate::permissions::copy_strings(&p.permissions),
            None => Vec::new(),
        };
        let ghost sel = strings_view(selected@);
        let ghost all = descriptors_view(descriptors@);
        let mut granted: Vec<PlanDescriptor> = Vec::new();
        let mut automatic: Vec<PlanDescriptor> = Vec::new();
        let mut jit: Vec<PlanDescriptor> = Vec::new();
        let mut explicit: Vec<PlanDescriptor> = Vec::new();
        let mut i: usize = 0;
        while i < descriptors.len()
            invariant
                i <= descriptors.len(),
                all == descriptors_view(descriptors@),
                sel == strings_view(selected@),
                descriptors_view(granted@) == in_part(all.take(i as int), sel, PlanPart::Granted),
                descriptors_view(automatic@) == in_part(all.take(i as int), sel, PlanPart::Automatic),
                descriptors_view(jit@) == in_part(all.take(i as int), sel, PlanPart::Jit),
                descriptors_view(explicit@) == in_part(all.take(i as int), sel, PlanPart::Explicit),
            decreases descriptors.len() - i,
        {
            let d = &descriptors[i];
            assert(all.take(i + 1).drop_last() =~= all.take(i as int));
            assert(all.take(i + 1).last() == d@);
            reveal_with_fuel(Seq::filter, 1);
            let part = classify(d, &selected);
            let c = copy_descriptor(d);
            match part {
                PlanPart::Granted => {
                    let ghost prev = descriptors_view(granted@);
                    granted.push(c);
                    assert(descriptors_view(granted@) =~= prev.push(c@));
                },
                PlanPart::Automatic => {
                    let ghost prev = descriptors_view(automatic@);
                    automatic.push(c);
                    assert(descriptors_view(automatic@) =~= prev.push(c@));
                },
                PlanPart::Jit => {
                    let ghost prev = descriptors_view(jit@);
                    jit.push(c);
                    assert(descriptors_view(jit@) =~= prev.push(c@));
                },
                PlanPart::Explicit => {
                    let ghost prev = descriptors_view(explicit@);
                    explicit.push(c);
                    assert(descriptors_view(explicit@) =~= prev.push(c@));
                },
            }
            i = i + 1;
        }
        assert(all.take(descriptors.len() as int) =~= all);
        Ok(PermissionPlan { set: descriptors, profile, granted, automatic, jit, explicit, delta })
    }

    /// Whether the selected profile widens beyond safe defaults (an `operate` profile).
    pub fn widens(&self) -> (r: bool)
        ensures
            r == plan_widens(self),
    {
        let mut i: usize = 0;
        while i < self.granted.len()
            invariant
                i <= self.granted.len(),
                forall|j: int| 0 <= j < i ==> (#[trigger] self.granted@[j]).safe_default,
            decreases self.granted.len() - i,
        {
            if !self.granted[i].safe_default {
                return true;
            }
            i = i + 1;
        }
        false
    }

    /// Whether the selected profile carries a destructive permission.
    pub fn destructive(&self) -> (r: bool)
        ensures
            r == plan_destructive(self),
    {
        let mut i: usize = 0;
        while i < self.granted.len()
            invariant
                i <= self.granted.len(),
                forall|j: int| 0 <= j < i ==> !(#[trigger] self.granted@[j]).destructive,
            decreases self.granted.len() - i,
        {
            if self.granted[i].destructive {
                return true;
            }
            i = i + 1;
        }
        false
    }

    /// Whether an upgrade's delta asks for a permission beyond the safe defaults.
    pub fn delta_widens(&self) -> (r: bool)
        ensures
            r == plan_delta_widens(self),
    {
        match &self.delta {
            None => false,
            Some(entries) => {
                let mut i: usize = 0;
                while i < entries.len()
                    invariant
                        i <= entries.len(),
                        self.delta == Some(*entries),
                        forall|a: int, j: int|
                            0 <= a < i && 0 <= j < self.set.len() && (#[trigger] self.set@[j]).id@ == (#[trigger] entries@[a]).permission@
                                && first_with_id(descriptors_view(self.set@), entries@[a].permission@) == Some(j)
                                ==> self.set@[j].safe_default,
                    decreases entries.len() - i,
                {
                    match self.descriptor(entries[i].permission.as_str()) {
                        Some(j) => {
                            if !self.set[j].safe_default {
                                proof {
                                    let all = descriptors_view(self.set@);
                                    lemma_first_with_id(all, entries@[i as int].permission@, 0);
                                    assert(all[j as int].id == self.set@[j as int].id@);
                                    assert(self.set@[j as int].id@ == entries@[i as int].permission@);
                                }
                                return true;
                            }
                        },
                        None => {},
                    }
                    i = i + 1;
                }
                false
            },
        }
    }

    /// The index of the first permission named `id`.
    pub fn descriptor(&self, id: &str) -> (r: Option<usize>)
        ensures
            match r {
                Some(j) => first_with_id(descriptors_view(self.set@), id@) == Some(j as int) && j < self.set.len(),
                None => first_with_id(descriptors_view(self.set@), id@) is None,
            },
    {
        let w = chars_of(id);
        let ghost all = descriptors_view(self.set@);
        let mut i: usize = 0;
        while i < self.set.len()
            invariant
                i <= self.set.len(),
                all == descriptors_view(self.set@),
                w@ == id@,
                first_with_id(all, id@) == first_with_id_from(all, id@, i as int),
            decreases self.set.len() - i,
        {
            let x = chars_of(self.set[i].id.as_str());
            assert(all[i as int].id == x@);
            if chars_eq(x.as_slice(), w.as_slice()) {
                return Some(i);
            }
            i = i + 1;
        }
        None
    }
}

/// The first permission from `i` on named `id`.
pub open spec fn first_with_id_from(set: Seq<DescriptorView>, id: Seq<char>, i: int) -> Option<int>
    decreases set.len() - i,
{
    if i < 0 || i >= set.len() {
        None
    } else if set[i].id == id {
        Some(i)
    } else {
        first_with_id_from(set, id, i + 1)
    }
}

/// The first permission named `id`.
pub open spec fn first_with_id(set: Seq<DescriptorView>, id: Seq<char>) -> Option<int> {
    first_with_id_from(set, id, 0)
}

proof fn lemma_first_with_id(set: Seq<DescriptorView>, id: Seq<char>, i: int)
    ensures
        first_with_id_from(set, id, i) matches Some(j) ==> i <= j < set.len() && set[j].id == id,
    decreases set.len() - i,
{
    if 0 <= i < set.len() && set[i].id != id {
        lemma_first_with_id(set, id, i + 1);
    }
}

proof fn lemma_parts_partition(set: Seq<DescriptorView>, selected: Seq<Seq<char>>)
    ensures
        in_part(set, selected, PlanPart::Granted).len() + in_part(set, selected, PlanPart::Automatic).len()
            + in_part(set, selected, PlanPart::Jit).len() + in_part(set, selected, PlanPart::Explicit).len()
            == set.len(),
    decreases set.len(),
{
    reveal_with_fuel(Seq::filter, 1);
    if set.len() > 0 {
        lemma_parts_partition(set.drop_last(), selected);
    }
}

/// Every permission of a package lands in exactly one part of the plan: granted by the profile,
/// included automatically, asked when needed, or left undecided.
pub proof fn law_plan_partitions_permissions(set: Seq<DescriptorView>, selected: Seq<Seq<char>>, d: DescriptorView)
    ensures
        in_part(set, selected, PlanPart::Granted).len() + in_part(set, selected, PlanPart::Automatic).len()
            + in_part(set, selected, PlanPart::Jit).len() + in_part(set, selected, PlanPart::Explicit).len()
            == set.len(),
        set.contains(d) ==> in_part(set, selected, part_of(d, selected)).contains(d),
        forall|p: PlanPart| #[trigger] in_part(set, selected, p).contains(d) ==> p == part_of(d, selected),
{
    lemma_parts_partition(set, selected);
    if set.contains(d) {
        let k = choose|k: int| 0 <= k < set.len() && set[k] == d;
        set.lemma_filter_contains(|x: DescriptorView| part_of(x, selected) == part_of(d, selected), k);
    }
    assert forall|p: PlanPart| #[trigger] in_part(set, selected, p).contains(d) implies p == part_of(d, selected) by {
        let f = in_part(set, selected, p);
        let k = choose|k: int| 0 <= k < f.len() && f[k] == d;
        set.lemma_filter_pred(|x: DescriptorView| part_of(x, selected) == p, k);
    }
}

// --- whether a person is needed ---------------------------------------------------

/// Why `--confirm` may not accept a plan without a person.
#[derive(Debug, Clone, PartialEq, Eq)]
pub enum Unattended {
    /// The profile carries a destructive permission, never enabled without a person.
    Destructive {
        /// The profile's name.
        profile: String,
    },
    /// The recorded profile widens beyond the recommended access and none was named.
    Widens,
    /// The update asks for a permission beyond the safe defaults.
    UpdateWidens,
    /// A native package from a catalog whose signing key no trust store enrols.
    NativeUnknownKey,
}

/// Whether a standing is trust some store gave.
pub open spec fn trusted_standing(t: Trust) -> bool {
    t == Trust::SystemTrusted || t == Trust::UserTrusted
}

/// The package facts the unattended check reads besides the plan.
pub struct InstallFacts {
    /// Whether `--access` named a profile.
    pub access_named: bool,
    /// Whether the runtime is a native process.
    pub native: bool,
    /// Whether a catalog answered the reference.
    pub from_catalog: bool,
    /// Whether a system package supplied the payload.
    pub from_system: bool,
    /// Whether the signature verified.
    pub signature_valid: bool,
    /// What the trust stores say of the signer.
    pub standing: Trust,
}

/// What `unattended` answers for `plan` and `facts`: a destructive profile first, then a
/// widening recorded profile nobody named, then an update that widens, then a native package
/// from a catalog whose signer no store enrols.
pub open spec fn unattended_answer(plan: &PermissionPlan, facts: &InstallFacts, r: Result<(), Unattended>) -> bool {
    &&& plan_destructive(plan) ==> (r matches Err(Unattended::Destructive { profile }) && profile@ == match plan.profile {
        Some(p) => p.name@,
        None => RECOMMENDED@,
    })
    &&& !plan_destructive(plan) && plan_widens(plan) && !facts.access_named ==> r == Err::<(), Unattended>(Unattended::Widens)
    &&& !plan_destructive(plan) && !(plan_widens(plan) && !facts.access_named) && plan_delta_widens(plan) ==> r == Err::<(), Unattended>(Unattended::UpdateWidens)
    &&& !plan_destructive(plan) && !(plan_widens(plan) && !facts.access_named) && !plan_delta_widens(plan)
        ==> (r == Err::<(), Unattended>(Unattended::NativeUnknownKey) <==> native_unknown_key(facts))
    &&& !plan_destructive(plan) && !(plan_widens(plan) && !facts.access_named) && !plan_delta_widens(plan)
        ==> (r is Ok <==> !native_unknown_key(facts))
}

/// A native package from a catalog, not a system package, validly signed by a key no store
/// enrols.
pub open spec fn native_unknown_key(facts: &InstallFacts) -> bool {
    facts.native && facts.from_catalog && !facts.from_system && facts.signature_valid && !trusted_standing(facts.standing)
}

/// Whether `--confirm` may accept `plan` without a person, and why not, in the
/// order the checks are made.
pub fn unattended(plan: &PermissionPlan, facts: &InstallFacts) -> (r: Result<(), Unattended>)
    ensures
        unattended_answer(plan, facts, r),
{
    if plan.destructive() {
        let profile = match &plan.profile {
            Some(p) => p.name.clone(),
            None => string_of(chars_of(RECOMMENDED).as_slice()),
        };
        return Err(Unattended::Destructive { profile });
    }
    if plan.widens() && !facts.access_named {
        return Err(Unattended::Widens);
    }
    if plan.delta_widens() {
        return Err(Unattended::UpdateWidens);
    }
    let trusted = match facts.standing {
        Trust::SystemTrusted | Trust::UserTrusted => true,
        _ => false,
    };
    if facts.native && facts.from_catalog && !facts.from_system && facts.signature_valid && !trusted {
        return Err(Unattended::NativeUnknownKey);
    }
    Ok(())
}

// --- the words of the install plan --------------------------------------------------

/// How the plan names a package's signature: with the publisher when it verified, `unsigned`
/// when there is none.
pub open spec fn signature_summary_spec(signature: crate::host::SignatureState, publisher: Seq<char>) -> Seq<char> {
    match signature {
        crate::host::SignatureState::Valid => "valid / "@ + publisher,
        crate::host::SignatureState::Absent => "unsigned"@,
        crate::host::SignatureState::Invalid => "invalid"@,
    }
}

/// How the plan names a package's signature.
pub fn signature_summary(signature: crate::host::SignatureState, publisher: &str) -> (r: String)
    ensures
        r@ == signature_summary_spec(signature, publisher@),
{
    match signature {
        crate::host::SignatureState::Valid => crate::text::joined("valid / ", publisher),
        crate::host::SignatureState::Absent => string_of(chars_of("unsigned").as_slice()),
        crate::host::SignatureState::Invalid => string_of(chars_of("invalid").as_slice()),
    }
}

/// Whether the plan grants the permission `id` at install.
pub open spec fn granted_in(plan: &PermissionPlan, id: Seq<char>) -> bool {
    exists|i: int| 0 <= i < plan.granted@.len() && (#[trigger] plan.granted@[i]).id@ == id
}

/// What the plan says is decided of a permission: an automatic one is included, one the
/// profile grants is allowed, one asked at first need waits, and the rest are not granted.
pub open spec fn plan_decision_spec(plan: &PermissionPlan, d: DescriptorView) -> Seq<char> {
    if d.automatic {
        "included"@
    } else if granted_in(plan, d.id) {
        "allow"@
    } else if d.phase == PermissionPhase::Jit {
        "ask when needed"@
    } else {
        "not granted"@
    }
}

/// What the plan says is decided of a permission.
pub fn plan_decision(plan: &PermissionPlan, d: &PlanDescriptor) -> (r: &'static str)
    ensures
        r@ == plan_decision_spec(plan, d@),
{
    if d.automatic {
        return "included";
    }
    let id = chars_of(d.id.as_str());
    let mut i: usize = 0;
    while i < plan.granted.len()
        invariant
            i <= plan.granted.len(),
            !d.automatic,
            id@ == d.id@,
            forall|j: int| 0 <= j < i ==> (#[trigger] plan.granted@[j]).id@ != d.id@,
        decreases plan.granted.len() - i,
    {
        if chars_eq(chars_of(plan.granted[i].id.as_str()).as_slice(), id.as_slice()) {
            assert(granted_in(plan, d.id@));
            return "allow";
        }
        i = i + 1;
    }
    if d.phase == PermissionPhase::Jit {
        "ask when needed"
    } else {
        "not granted"
    }
}

/// How the plan names the package: its id and version, `id@version`.
pub fn package_label(id: &str, version: &str) -> (r: String)
    ensures
        r@ == id@ + "@"@ + version@,
{
    let mut r = crate::text::joined(id, "@");
    crate::text::append(&mut r, version);
    r
}

/// How the plan names the catalog that answered: its name and how it was verified.
pub fn catalog_label(name: &str, verification: &str) -> (r: String)
    ensures
        r@ == name@ + " ("@ + verification@ + ")"@,
{
    let mut r = crate::text::joined(name, " (");
    crate::text::append(&mut r, verification);
    crate::text::append(&mut r, ")");
    r
}

/// The profile the plan selected, or `none`.
pub fn selected_profile(plan: &PermissionPlan) -> (r: String)
    ensures
        r@ == match plan.profile {
            Some(p) => p.name@,
            None => "none"@,
        },
{
    match &plan.profile {
        Some(p) => string_of(chars_of(p.name.as_str()).as_slice()),
        None => string_of(chars_of("none").as_slice()),
    }
}

/// Why `--confirm` refused, in the words of the refusal, and what to do instead.
pub open spec fn unattended_message_spec(u: Unattended, name: Seq<char>, key: Seq<char>) -> (Seq<char>, Seq<char>) {
    match u {
        Unattended::Destructive { profile } => (
            "`"@ + name + "`'s `"@ + profile@ + "` profile carries a destructive permission, which is never enabled without a person"@,
            "install interactively, or with `--access recommended`"@,
        ),
        Unattended::Widens => (
            "`"@ + name + "`'s recorded profile widens authority beyond the recommended access"@,
            "name the profile deliberately with `--access <profile>`"@,
        ),
        Unattended::UpdateWidens => (
            "the update of `"@ + name + "` widens authority beyond safe defaults"@,
            "install interactively, or name the profile with `--access`"@,
        ),
        Unattended::NativeUnknownKey => (
            "`"@ + name + "` is a native plugin from a catalog and no trust store enrols its publisher key ("@ + key
                + "); an unattended native install needs that policy"@,
            "enrol the key in `<config>/kuang/trust.yaml` or `/etc/ono/kuang/trust.yaml`, or install interactively"@,
        ),
    }
}

/// Why `--confirm` refused, and what to do instead.
pub fn unattended_message(u: &Unattended, name: &str, key: &str) -> (r: (String, String))
    ensures
        (r.0@, r.1@) == unattended_message_spec(*u, name@, key@),
{
    match u {
        Unattended::Destructive { profile } => {
            let mut m = crate::text::joined("`", name);
            crate::text::append(&mut m, "`'s `");
            crate::text::append(&mut m, profile.as_str());
            crate::text::append(&mut m, "` profile carries a destructive permission, which is never enabled without a person");
            (m, string_of(chars_of("install interactively, or with `--access recommended`").as_slice()))
        },
        Unattended::Widens => {
            let mut m = crate::text::joined("`", name);
            crate::text::append(&mut m, "`'s recorded profile widens authority beyond the recommended access");
            (m, string_of(chars_of("name the profile deliberately with `--access <profile>`").as_slice()))
        },
        Unattended::UpdateWidens => {
            let mut m = crate::text::joined("the update of `", name);
            crate::text::append(&mut m, "` widens authority beyond safe defaults");
            (m, string_of(chars_of("install interactively, or name the profile with `--access`").as_slice()))
        },
        Unattended::NativeUnknownKey => {
            let mut m = crate::text::joined("`", name);
            crate::text::append(&mut m, "` is a native plugin from a catalog and no trust store enrols its publisher key (");
            crate::text::append(&mut m, key);
            crate::text::append(&mut m, "); an unattended native install needs that policy");
            (
                m,
                string_of(
                    chars_of(
                        "enrol the key in `<config>/kuang/trust.yaml` or `/etc/ono/kuang/trust.yaml`, or install interactively",
                    ).as_slice(),
                ),
            )
        },
    }
}

// --- what a person is shown before the install question -----------------------------

/// What the install question is preceded by: the package, who signed it, what runs, where it came
/// from, and what access it gets.
pub struct InstallSummary {
    /// The package's name and version.
    pub name: String,
    pub version: String,
    /// The publisher the manifest names.
    pub publisher: String,
    /// Whether its signatures verify.
    pub signature: crate::host::SignatureState,
    /// What the trust stores say of the signer.
    pub standing: Trust,
    /// Who signed it, as `signer` names them.
    pub key: String,
    /// Its runtime, where it declares one.
    pub runtime: Option<crate::host::RuntimeKind>,
    /// The catalog that answered, as `catalog_label` names it.
    pub catalog: Option<String>,
    /// Where the payload came from, in words, and the system package that supplied it.
    pub source: String,
    pub system_package: Option<String>,
    /// What a native package's isolation is, in words.
    pub isolation: String,
    /// For an update, what it asks for beyond what is held.
    pub delta: Option<Vec<String>>,
    /// The selected profile's title as `profile_title` makes it, or `No` without a profile.
    pub profile_title: String,
    /// The lines of the permissions the profile grants and of the automatic ones.
    pub granted: Vec<String>,
    /// The titles of the permissions asked when needed, and of those not granted.
    pub jit: Vec<String>,
    pub explicit: Vec<String>,
}

/// Each of `items` after `prefix`.
pub open spec fn prefixed(prefix: Seq<char>, items: Seq<Seq<char>>) -> Seq<Seq<char>> {
    items.map_values(|t: Seq<char>| prefix + t)
}

/// Whether the summary is of a native package.
pub open spec fn summary_native(s: &InstallSummary) -> bool {
    s.runtime == Some(crate::host::RuntimeKind::NativeProcess)
}

/// Who and what: the package, its publisher, its signature and the signer's standing, and its
/// runtime, after a blank line.
pub open spec fn summary_head(s: &InstallSummary) -> Seq<Seq<char>> {
    seq![
        seq![],
        crate::text::capitalised(s.name@) + " "@ + s.version@,
        "Publisher: "@ + s.publisher@,
        "Signature: "@ + crate::host::signature_spec(s.signature),
        "Publisher trust: "@ + publisher_trust_spec(s.standing, s.signature),
        "Runtime: "@ + runtime_phrase_spec(s.runtime)
    ]
}

/// Where it came from: the catalog that answered, where one did, and the source, with the system
/// package that supplied it; a native package's isolation after them.
pub open spec fn summary_origin(s: &InstallSummary) -> Seq<Seq<char>> {
    (match s.catalog {
        Some(c) => seq!["Catalog: "@ + c@],
        None => seq![],
    }) + seq![
        "Source: "@ + s.source@ + match s.system_package {
            Some(p) => " ("@ + p@ + ")"@,
            None => seq![],
        }
    ] + if summary_native(s) { seq!["  "@ + s.isolation@] } else { seq![] }
}

/// The warning a native package earns: a signer no store enrols, or no signature at all.
pub open spec fn summary_warning(s: &InstallSummary) -> Seq<Seq<char>> {
    let native = summary_native(s);
    if native && s.signature == crate::host::SignatureState::Valid && !trusted_standing(s.standing) {
        seq![
            seq![],
            "Runtime warning"@,
            "This is a native plugin. It runs as your user account."@,
            "Ono can mediate brokered capabilities, but this execution tier does not prevent"@,
            "direct filesystem or network access available to your user."@,
            "No trust store enrols its publisher key ("@ + s.key@ + ")."@
        ]
    } else if native && s.signature == crate::host::SignatureState::Absent {
        seq![seq![], "Warning: this package is unsigned; it installs with local-development semantics."@]
    } else {
        seq![]
    }
}

/// What access it gets: what an update adds, or else what the profile grants, what is asked when
/// needed and what is not granted, each group after a blank line.
pub open spec fn summary_access(s: &InstallSummary) -> Seq<Seq<char>> {
    match s.delta {
        Some(d) if d@.len() > 0 => seq![
            seq![],
            crate::text::capitalised(s.name@) + " "@ + s.version@ + " requests additional access:"@
        ] + prefixed("  "@, strings_view(d@)) + seq![seq![], "Existing access is unchanged."@],
        _ => seq![seq![], s.profile_title@ + " access:"@] + prefixed("  - "@, strings_view(s.granted@)) + (if s.granted@.len()
            == 0 {
            seq!["  (nothing)"@]
        } else {
            seq![]
        }) + (if s.jit@.len() > 0 {
            seq![seq![], "Asked only when needed:"@] + prefixed("  - "@, strings_view(s.jit@))
        } else {
            seq![]
        }) + (if s.explicit@.len() > 0 {
            seq![seq![], "Not granted:"@] + prefixed("  - "@, strings_view(s.explicit@))
        } else {
            seq![]
        }),
    }
}

/// The lines before the question: who and what, where it came from, the warning a native
/// package earns, and what access it gets; a blank line last.
pub open spec fn summary_spec(s: &InstallSummary) -> Seq<Seq<char>> {
    summary_head(s) + summary_origin(s) + summary_warning(s) + summary_access(s) + seq![seq![]]
}

/// Appends `line`.
fn push_line(out: &mut Vec<String>, line: String)
    ensures
        strings_view(final(out)@) == strings_view(old(out)@).push(line@),
{
    let ghost before = strings_view(out@);
    out.push(line);
    assert(strings_view(out@) =~= before.push(line@));
}

/// Appends `text`.
fn push_text(out: &mut Vec<String>, text: &str)
    ensures
        strings_view(final(out)@) == strings_view(old(out)@).push(text@),
{
    push_line(out, string_of(chars_of(text).as_slice()));
}

/// Appends each of `items` after `prefix`.
fn push_prefixed(out: &mut Vec<String>, prefix: &str, items: &Vec<String>)
    ensures
        strings_view(final(out)@) == strings_view(old(out)@) + prefixed(prefix@, strings_view(items@)),
{
    let ghost start = strings_view(out@);
    let ghost all = prefixed(prefix@, strings_view(items@));
    let mut i: usize = 0;
    while i < items.len()
        invariant
            i <= items.len(),
            all == prefixed(prefix@, strings_view(items@)),
            strings_view(out@) == start + all.take(i as int),
        decreases items.len() - i,
    {
        push_line(out, crate::text::joined(prefix, items[i].as_str()));
        assert(all.take(i + 1) =~= all.take(i as int).push(all[i as int]));
        i = i + 1;
    }
    assert(all.take(items.len() as int) =~= all);
}

/// Appends who and what.
fn push_head(out: &mut Vec<String>, s: &InstallSummary)
    ensures
        strings_view(final(out)@) == strings_view(old(out)@) + summary_head(s),
{
    let ghost start = strings_view(out@);
    push_line(out, String::new());
    let mut title = crate::text::capitalise(s.name.as_str());
    crate::text::append(&mut title, " ");
    crate::text::append(&mut title, s.version.as_str());
    push_line(out, title);
    push_line(out, crate::text::joined("Publisher: ", s.publisher.as_str()));
    push_line(out, crate::text::joined("Signature: ", crate::host::signature_word(s.signature)));
    push_line(out, crate::text::joined("Publisher trust: ", publisher_trust(s.standing, s.signature)));
    push_line(out, crate::text::joined("Runtime: ", runtime_phrase(s.runtime)));
    assert(strings_view(out@) =~= start + summary_head(s));
}

/// Appends where it came from.
fn push_origin(out: &mut Vec<String>, s: &InstallSummary)
    ensures
        strings_view(final(out)@) == strings_view(old(out)@) + summary_origin(s),
{
    let ghost start = strings_view(out@);
    match &s.catalog {
        Some(c) => push_line(out, crate::text::joined("Catalog: ", c.as_str())),
        None => {},
    }
    let ghost after_catalog = strings_view(out@);
    let mut source = crate::text::joined("Source: ", s.source.as_str());
    match &s.system_package {
        Some(p) => {
            crate::text::append(&mut source, " (");
            crate::text::append(&mut source, p.as_str());
            crate::text::append(&mut source, ")");
        },
        None => {},
    }
    assert(source@ =~= "Source: "@ + s.source@ + match s.system_package {
        Some(p) => " ("@ + p@ + ")"@,
        None => Seq::<char>::empty(),
    });
    push_line(out, source);
    let native = match s.runtime {
        Some(crate::host::RuntimeKind::NativeProcess) => true,
        _ => false,
    };
    if native {
        push_line(out, crate::text::joined("  ", s.isolation.as_str()));
    }
    assert(strings_view(out@) =~= start + summary_origin(s));
}

/// Appends the warning a native package earns.
fn push_warning(out: &mut Vec<String>, s: &InstallSummary)
    ensures
        strings_view(final(out)@) == strings_view(old(out)@) + summary_warning(s),
{
    let ghost start = strings_view(out@);
    let native = match s.runtime {
        Some(crate::host::RuntimeKind::NativeProcess) => true,
        _ => false,
    };
    if unknown_native(native, s.signature == crate::host::SignatureState::Valid, s.standing) {
        push_line(out, String::new());
        push_text(out, "Runtime warning");
        push_text(out, "This is a native plugin. It runs as your user account.");
        push_text(out, "Ono can mediate brokered capabilities, but this execution tier does not prevent");
        push_text(out, "direct filesystem or network access available to your user.");
        let mut line = crate::text::joined("No trust store enrols its publisher key (", s.key.as_str());
        crate::text::append(&mut line, ").");
        push_line(out, line);
    } else if native && s.signature == crate::host::SignatureState::Absent {
        push_line(out, String::new());
        push_text(out, "Warning: this package is unsigned; it installs with local-development semantics.");
    }
    assert(strings_view(out@) =~= start + summary_warning(s));
}

/// Appends what access it gets.
fn push_access(out: &mut Vec<String>, s: &InstallSummary)
    ensures
        strings_view(final(out)@) == strings_view(old(out)@) + summary_access(s),
{
    let ghost start = strings_view(out@);
    let update = match &s.delta {
        Some(d) => d.len() > 0,
        None => false,
    };
    if update {
        match &s.delta {
            Some(d) => {
                push_line(out, String::new());
                let mut line = crate::text::capitalise(s.name.as_str());
                crate::text::append(&mut line, " ");
                crate::text::append(&mut line, s.version.as_str());
                crate::text::append(&mut line, " requests additional access:");
                push_line(out, line);
                push_prefixed(out, "  ", d);
                push_line(out, String::new());
                push_text(out, "Existing access is unchanged.");
            },
            None => {},
        }
    } else {
        push_line(out, String::new());
        push_line(out, crate::text::joined(s.profile_title.as_str(), " access:"));
        push_prefixed(out, "  - ", &s.granted);
        if s.granted.len() == 0 {
            push_text(out, "  (nothing)");
        }
        if s.jit.len() > 0 {
            push_line(out, String::new());
            push_text(out, "Asked only when needed:");
            push_prefixed(out, "  - ", &s.jit);
        }
        if s.explicit.len() > 0 {
            push_line(out, String::new());
            push_text(out, "Not granted:");
            push_prefixed(out, "  - ", &s.explicit);
        }
    }
    assert(strings_view(out@) =~= start + summary_access(s));
}

/// The lines a person is shown before the install question.
pub fn install_summary(s: &InstallSummary) -> (r: Vec<String>)
    ensures
        strings_view(r@) == summary_spec(s),
{
    let mut out: Vec<String> = Vec::new();
    assert(strings_view(out@) =~= Seq::<Seq<char>>::empty());
    push_head(&mut out, s);
    push_origin(&mut out, s);
    push_warning(&mut out, s);
    push_access(&mut out, s);
    push_line(&mut out, String::new());
    assert(strings_view(out@) =~= summary_spec(s));
    out
}

// --- the order of an install's refusals -------------------------------------------

/// What an install knows once the package is located and verified.
pub struct InstallState {
    /// Whether verification reported a blocking failure.
    pub blocking: bool,
    /// The version already installed under the package's id, if any.
    pub installed_version: Option<String>,
    /// The version being installed.
    pub version: String,
    /// The key the installed version was recorded as signed by.
    pub installed_key: Option<String>,
    /// Who signed the package being installed, as `signer` names it.
    pub new_key: String,
    /// Whether the package carries no signature.
    pub unsigned: bool,
    /// Whether a person is there to ask.
    pub interactive: bool,
    /// `--confirm`.
    pub confirm: bool,
}

/// Why an install stops before it writes anything.
#[derive(Debug, Clone, PartialEq, Eq)]
pub enum InstallRefusal {
    /// Verification said no; the plan is never shown.
    Blocked,
    /// The same version is installed: a version is never silently replaced.
    AlreadyInstalled,
    /// The installed version and this one are signed by unrelated keys.
    UnrelatedKey,
    /// No permission plan could be made.
    NoPlan,
    /// Nobody is there to ask and `--confirm` was not given.
    ConfirmationRequired,
    /// `--confirm` may not accept this plan.
    Unattended(Unattended),
}

/// What an install says, unasked, when it goes ahead without a person.
#[derive(Debug, Clone, Copy, PartialEq, Eq, Structural)]
pub enum InstallWarning {
    /// Nothing.
    Quiet,
    /// An unsigned native package runs as the user, without isolation.
    UnsignedNative,
    /// A system package signed by a key no store enrols: provenance, not publisher trust.
    SystemProvenance,
}

/// How an install goes on when nothing refused it.
#[derive(Debug, Clone, Copy, PartialEq, Eq, Structural)]
pub enum InstallNext {
    /// Ask the person the install question.
    Ask,
    /// Go ahead on `--confirm`, saying this first.
    Proceed(InstallWarning),
}

/// What an install going ahead on `--confirm` says first.
pub open spec fn warning_spec(state: &InstallState, facts: &InstallFacts) -> InstallWarning {
    if state.unsigned && facts.native {
        InstallWarning::UnsignedNative
    } else if facts.signature_valid && !trusted_standing(facts.standing) && facts.from_system {
        InstallWarning::SystemProvenance
    } else {
        InstallWarning::Quiet
    }
}

/// The same version is already installed.
pub open spec fn same_version(state: &InstallState) -> bool {
    state.installed_version matches Some(v) && v@ == state.version@
}

/// An installed version exists and it and this one are signed by unrelated keys.
pub open spec fn unrelated_upgrade(state: &InstallState) -> bool {
    state.installed_version is Some && (state.installed_key matches Some(k) && k@ != "unsigned"@
        && state.new_key@ != "unsigned"@ && k@ != state.new_key@)
}

/// Whether an install goes on, and how, or why it stops: a blocking verification, then the same
/// version, then an unrelated signing key, then a plan that cannot be made; then a person is
/// asked, or without one `--confirm` is needed and must be allowed to accept the plan.
pub fn install_gate(
    state: &InstallState,
    plan: &Result<PermissionPlan, PlanError>,
    facts: &InstallFacts,
) -> (r: Result<InstallNext, InstallRefusal>)
    ensures
        state.blocking ==> r == Err::<InstallNext, InstallRefusal>(InstallRefusal::Blocked),
        !state.blocking && same_version(state) ==> r == Err::<InstallNext, InstallRefusal>(InstallRefusal::AlreadyInstalled),
        !state.blocking && !same_version(state) && unrelated_upgrade(state)
            ==> r == Err::<InstallNext, InstallRefusal>(InstallRefusal::UnrelatedKey),
        !state.blocking && !same_version(state) && !unrelated_upgrade(state) ==> match plan {
            Err(_) => r == Err::<InstallNext, InstallRefusal>(InstallRefusal::NoPlan),
            Ok(p) => if state.interactive {
                r == Ok::<InstallNext, InstallRefusal>(InstallNext::Ask)
            } else if !state.confirm {
                r == Err::<InstallNext, InstallRefusal>(InstallRefusal::ConfirmationRequired)
            } else {
                match r {
                    Ok(next) => unattended_answer(p, facts, Ok(())) && next == InstallNext::Proceed(warning_spec(state, facts)),
                    Err(InstallRefusal::Unattended(u)) => unattended_answer(p, facts, Err(u)),
                    Err(_) => false,
                }
            },
        },
{
    if state.blocking {
        return Err(InstallRefusal::Blocked);
    }
    let same = match &state.installed_version {
        Some(v) => chars_eq(chars_of(v.as_str()).as_slice(), chars_of(state.version.as_str()).as_slice()),
        None => false,
    };
    if same {
        return Err(InstallRefusal::AlreadyInstalled);
    }
    if state.installed_version.is_some() {
        let old_key = match &state.installed_key {
            Some(k) => Some(k.as_str()),
            None => None,
        };
        if unrelated_key(old_key, state.new_key.as_str()) {
            return Err(InstallRefusal::UnrelatedKey);
        }
    }
    let p = match plan {
        Err(_) => {
            return Err(InstallRefusal::NoPlan);
        },
        Ok(p) => p,
    };
    if state.interactive {
        return Ok(InstallNext::Ask);
    }
    if !state.confirm {
        return Err(InstallRefusal::ConfirmationRequired);
    }
    match unattended(p, facts) {
        Err(u) => Err(InstallRefusal::Unattended(u)),
        Ok(()) => {
            let trusted = match facts.standing {
                Trust::SystemTrusted | Trust::UserTrusted => true,
                _ => false,
            };
            let warning = if state.unsigned && facts.native {
                InstallWarning::UnsignedNative
            } else if facts.signature_valid && !trusted && facts.from_system {
                InstallWarning::SystemProvenance
            } else {
                InstallWarning::Quiet
            };
            Ok(InstallNext::Proceed(warning))
        },
    }
}

/// What an update asks for beyond what is held, as a refusal names it: nothing when the delta is
/// absent or empty.
pub open spec fn delta_note_spec(name: Seq<char>, version: Seq<char>, delta: Option<Seq<DeltaEntry>>) -> Seq<char> {
    match delta {
        Some(entries) => if entries.len() > 0 {
            "; "@ + crate::text::capitalised(name) + " "@ + version + " requests additional access: "@
                + crate::text::interspersed(entries.map_values(|e: DeltaEntry| e.detail@), "; "@)
        } else {
            seq![]
        },
        None => seq![],
    }
}

/// Why an install stopped, in the words of the refusal, and what to do instead. `id`, `name`
/// and `version` are the package's; `source` is where it was found; `installed_key` and
/// `new_key` who signed the installed version and this one.
pub open spec fn refusal_message_spec(
    refusal: InstallRefusal,
    id: Seq<char>,
    name: Seq<char>,
    version: Seq<char>,
    source: Seq<char>,
    installed_key: Seq<char>,
    new_key: Seq<char>,
    delta: Option<Seq<DeltaEntry>>,
) -> Option<(Seq<char>, Seq<char>)> {
    match refusal {
        InstallRefusal::AlreadyInstalled => Some((
            "`"@ + id + "` "@ + version + " is already installed"@,
            "`remove plugin` it first; a package version is never silently replaced"@,
        )),
        InstallRefusal::UnrelatedKey => Some((
            "`"@ + id + "` is installed signed by "@ + installed_key + ", and this package is signed by "@ + new_key
                + "; a package signed by an unrelated key is not an update"@,
            "a key rotation is a deliberate trust decision: enrol the new key, then `remove plugin` and install again, which asks for permission anew"@,
        )),
        InstallRefusal::ConfirmationRequired => Some((
            "installing `"@ + id + "` "@ + version + " from "@ + source + " needs the install plan confirmed"@
                + delta_note_spec(name, version, delta),
            "nothing was written. Write `--confirm` to accept the plan non-interactively; `--access <profile>` selects the access it confirms"@,
        )),
        InstallRefusal::Unattended(u) => Some(unattended_message_spec(u, name, new_key)),
        _ => None,
    }
}

/// Why an install stopped, and what to do instead; nothing for a refusal whose words come from
/// elsewhere: verification's own failure, or the plan's.
pub fn refusal_message(
    refusal: &InstallRefusal,
    id: &str,
    name: &str,
    version: &str,
    source: &str,
    installed_key: &str,
    new_key: &str,
    delta: &Option<Vec<DeltaEntry>>,
) -> (r: Option<(String, String)>)
    ensures
        (match r {
            Some((m, h)) => Some((m@, h@)),
            None => None,
        }) == refusal_message_spec(
            *refusal,
            id@,
            name@,
            version@,
            source@,
            installed_key@,
            new_key@,
            match delta {
                Some(v) => Some(v@),
                None => None,
            },
        ),
{
    match refusal {
        InstallRefusal::AlreadyInstalled => {
            let mut m = crate::text::joined("`", id);
            crate::text::append(&mut m, "` ");
            crate::text::append(&mut m, version);
            crate::text::append(&mut m, " is already installed");
            Some((m, string_of(chars_of("`remove plugin` it first; a package version is never silently replaced").as_slice())))
        },
        InstallRefusal::UnrelatedKey => {
            let mut m = crate::text::joined("`", id);
            crate::text::append(&mut m, "` is installed signed by ");
            crate::text::append(&mut m, installed_key);
            crate::text::append(&mut m, ", and this package is signed by ");
            crate::text::append(&mut m, new_key);
            crate::text::append(&mut m, "; a package signed by an unrelated key is not an update");
            Some((
                m,
                string_of(
                    chars_of(
                        "a key rotation is a deliberate trust decision: enrol the new key, then `remove plugin` and install again, which asks for permission anew",
                    ).as_slice(),
                ),
            ))
        },
        InstallRefusal::ConfirmationRequired => {
            let mut m = crate::text::joined("installing `", id);
            crate::text::append(&mut m, "` ");
            crate::text::append(&mut m, version);
            crate::text::append(&mut m, " from ");
            crate::text::append(&mut m, source);
            crate::text::append(&mut m, " needs the install plan confirmed");
            match delta {
                Some(entries) => {
                    if entries.len() > 0 {
                        let mut details: Vec<String> = Vec::new();
                        let mut i: usize = 0;
                        while i < entries.len()
                            invariant
                                i <= entries.len(),
                                details@.map_values(|p: String| p@) == entries@.map_values(|e: DeltaEntry| e.detail@).take(i as int),
                            decreases entries.len() - i,
                        {
                            let d = string_of(chars_of(entries[i].detail.as_str()).as_slice());
                            let ghost before = details@.map_values(|p: String| p@);
                            details.push(d);
                            assert(details@.map_values(|p: String| p@) =~= before.push(entries@[i as int].detail@));
                            assert(entries@.map_values(|e: DeltaEntry| e.detail@).take(i + 1) =~= entries@.map_values(
                                |e: DeltaEntry| e.detail@,
                            ).take(i as int).push(entries@[i as int].detail@));
                            i = i + 1;
                        }
                        assert(entries@.map_values(|e: DeltaEntry| e.detail@).take(entries.len() as int)
                            =~= entries@.map_values(|e: DeltaEntry| e.detail@));
                        crate::text::append(&mut m, "; ");
                        let cap = crate::text::capitalise(name);
                        crate::text::append(&mut m, cap.as_str());
                        crate::text::append(&mut m, " ");
                        crate::text::append(&mut m, version);
                        crate::text::append(&mut m, " requests additional access: ");
                        let joined = crate::text::join_with(&details, "; ");
                        crate::text::append(&mut m, joined.as_str());
                    }
                },
                None => {},
            }
            Some((
                m,
                string_of(
                    chars_of(
                        "nothing was written. Write `--confirm` to accept the plan non-interactively; `--access <profile>` selects the access it confirms",
                    ).as_slice(),
                ),
            ))
        },
        InstallRefusal::Unattended(u) => Some(unattended_message(u, name, new_key)),
        _ => None,
    }
}

/// Why an interactive install stopped: the person did not confirm it.
pub fn not_confirmed_install(name: &str) -> (r: String)
    ensures
        r@ == "installing `"@ + name@ + "` was not confirmed"@,
{
    let mut m = crate::text::joined("installing `", name);
    crate::text::append(&mut m, "` was not confirmed");
    m
}

// --- the plan as one record ---------------------------------------------------------

/// One permission as the plan record lists it: its id, its title, and what is decided of it.
#[derive(Debug, Clone, PartialEq, Eq)]
pub struct PlanPermission {
    pub id: String,
    pub title: String,
    pub decision: String,
}

/// What the plan record says of the package beyond its permissions.
pub struct PlanFacts {
    /// The package's id, name and version.
    pub id: String,
    pub name: String,
    pub version: String,
    /// Where it was found, what kind of source that is, and the system package that supplied it.
    pub source: String,
    pub source_kind: String,
    pub system_package: Option<String>,
    /// The catalog that answered and how it was verified.
    pub catalog: Option<(String, String)>,
    /// The digest of its bytes.
    pub integrity: String,
    /// Whether its signatures verify, who publishes it, who signed it, and their standing.
    pub signature: crate::host::SignatureState,
    pub publisher: String,
    pub key: String,
    pub standing: Trust,
    /// Where it is placed.
    pub destination: String,
}

/// The install plan as one record: what a refusal for want of a confirmation carries, and what
/// `details` shows.
#[derive(Debug, Clone, PartialEq, Eq)]
pub struct PlanRecord {
    /// `id@version`.
    pub package: String,
    pub source: String,
    pub source_kind: String,
    pub system_package: Option<String>,
    /// `name (verification)`.
    pub catalog: Option<String>,
    pub integrity: String,
    /// `valid / publisher`, `unsigned` or `invalid`.
    pub signature: String,
    /// The signature's word, the publisher, the signer and the standing's word.
    pub trust_signature: String,
    pub trust_publisher: String,
    pub trust_key: String,
    pub trust_standing: String,
    /// The profile's name, or `none`.
    pub selected_profile: String,
    pub permissions: Vec<PlanPermission>,
    pub automatic_privileges: Vec<PlanPermission>,
    pub asked_when_needed: Vec<PlanPermission>,
    pub denied_explicit_permissions: Vec<PlanPermission>,
    /// For an update, each permission it adds and why.
    pub delta: Option<Vec<(String, String)>>,
    /// Whether `--confirm` may accept the plan, and why not.
    pub accepted_by_confirm: bool,
    pub reason: Option<String>,
    /// Where the package is placed.
    pub filesystem: String,
}

/// Permissions as the plan record lists them, as plain values.
pub open spec fn plan_permissions_view(v: Seq<PlanPermission>) -> Seq<(Seq<char>, Seq<char>, Seq<char>)> {
    v.map_values(|p: PlanPermission| (p.id@, p.title@, p.decision@))
}

/// The permissions of `part` as the plan record lists them.
pub open spec fn listed_spec(plan: &PermissionPlan, part: Seq<PlanDescriptor>) -> Seq<(Seq<char>, Seq<char>, Seq<char>)> {
    descriptors_view(part).map_values(|d: DescriptorView| (d.id, d.title, plan_decision_spec(plan, d)))
}

/// The permissions of `part`, each with what the plan decides of it.
fn listed(plan: &PermissionPlan, part: &Vec<PlanDescriptor>) -> (r: Vec<PlanPermission>)
    ensures
        plan_permissions_view(r@) == listed_spec(plan, part@),
{
    let ghost expected = listed_spec(plan, part@);
    let mut out: Vec<PlanPermission> = Vec::new();
    let mut i: usize = 0;
    while i < part.len()
        invariant
            i <= part.len(),
            expected == listed_spec(plan, part@),
            plan_permissions_view(out@) == expected.take(i as int),
        decreases part.len() - i,
    {
        let d = &part[i];
        let p = PlanPermission {
            id: string_of(chars_of(d.id.as_str()).as_slice()),
            title: string_of(chars_of(d.title.as_str()).as_slice()),
            decision: string_of(chars_of(plan_decision(plan, d)).as_slice()),
        };
        let ghost before = plan_permissions_view(out@);
        out.push(p);
        assert(plan_permissions_view(out@) =~= before.push((p.id@, p.title@, p.decision@)));
        assert(expected.take(i + 1) =~= expected.take(i as int).push(expected[i as int]));
        i = i + 1;
    }
    assert(expected.take(part.len() as int) =~= expected);
    out
}

/// A copy of some text.
fn copy_text(s: &str) -> (r: String)
    ensures
        r@ == s@,
{
    string_of(chars_of(s).as_slice())
}

/// The install plan as one record.
pub fn plan_record(facts: &PlanFacts, plan: &PermissionPlan, install: &InstallFacts) -> (r: PlanRecord)
    ensures
        r.package@ == facts.id@ + "@"@ + facts.version@,
        r.source@ == facts.source@,
        r.source_kind@ == facts.source_kind@,
        opt_view(r.system_package) == opt_view(facts.system_package),
        opt_view(r.catalog) == match facts.catalog {
            Some((n, v)) => Some(n@ + " ("@ + v@ + ")"@),
            None => None,
        },
        r.integrity@ == facts.integrity@,
        r.signature@ == signature_summary_spec(facts.signature, facts.publisher@),
        r.trust_signature@ == crate::host::signature_spec(facts.signature),
        r.trust_publisher@ == facts.publisher@,
        r.trust_key@ == facts.key@,
        r.trust_standing@ == crate::trust::trust_name(facts.standing),
        r.selected_profile@ == match plan.profile {
            Some(p) => p.name@,
            None => "none"@,
        },
        plan_permissions_view(r.permissions@) == listed_spec(plan, plan.granted@),
        plan_permissions_view(r.automatic_privileges@) == listed_spec(plan, plan.automatic@),
        plan_permissions_view(r.asked_when_needed@) == listed_spec(plan, plan.jit@),
        plan_permissions_view(r.denied_explicit_permissions@) == listed_spec(plan, plan.explicit@),
        match (r.delta, plan.delta) {
            (Some(d), Some(e)) => d@.map_values(|p: (String, String)| (p.0@, p.1@)) == e@.map_values(
                |x: DeltaEntry| (x.permission@, x.detail@),
            ),
            (None, None) => true,
            _ => false,
        },
        exists|u: Result<(), Unattended>| #![trigger unattended_answer(plan, install, u)]
            unattended_answer(plan, install, u) && r.accepted_by_confirm == u is Ok && match u {
                Ok(()) => r.reason is None,
                Err(e) => r.reason matches Some(m) && m@ == unattended_message_spec(e, facts.name@, facts.key@).0,
            },
        r.filesystem@ == facts.destination@,
{
    let delta = match &plan.delta {
        Some(entries) => {
            let mut d: Vec<(String, String)> = Vec::new();
            let mut i: usize = 0;
            while i < entries.len()
                invariant
                    i <= entries.len(),
                    d@.map_values(|p: (String, String)| (p.0@, p.1@)) == entries@.map_values(
                        |x: DeltaEntry| (x.permission@, x.detail@),
                    ).take(i as int),
                decreases entries.len() - i,
            {
                let pair = (copy_text(entries[i].permission.as_str()), copy_text(entries[i].detail.as_str()));
                let ghost before = d@.map_values(|p: (String, String)| (p.0@, p.1@));
                d.push(pair);
                assert(d@.map_values(|p: (String, String)| (p.0@, p.1@)) =~= before.push((pair.0@, pair.1@)));
                assert(entries@.map_values(|x: DeltaEntry| (x.permission@, x.detail@)).take(i + 1) =~= entries@.map_values(
                    |x: DeltaEntry| (x.permission@, x.detail@),
                ).take(i as int).push((entries@[i as int].permission@, entries@[i as int].detail@)));
                i = i + 1;
            }
            assert(entries@.map_values(|x: DeltaEntry| (x.permission@, x.detail@)).take(entries.len() as int)
                =~= entries@.map_values(|x: DeltaEntry| (x.permission@, x.detail@)));
            Some(d)
        },
        None => None,
    };
    let verdict = unattended(plan, install);
    let (accepted, reason) = match &verdict {
        Ok(()) => (true, None),
        Err(e) => (false, Some(unattended_message(e, facts.name.as_str(), facts.key.as_str()).0)),
    };
    PlanRecord {
        package: package_label(facts.id.as_str(), facts.version.as_str()),
        source: copy_text(facts.source.as_str()),
        source_kind: copy_text(facts.source_kind.as_str()),
        system_package: match &facts.system_package {
            Some(p) => Some(copy_text(p.as_str())),
            None => None,
        },
        catalog: match &facts.catalog {
            Some((n, v)) => Some(catalog_label(n.as_str(), v.as_str())),
            None => None,
        },
        integrity: copy_text(facts.integrity.as_str()),
        signature: signature_summary(facts.signature, facts.publisher.as_str()),
        trust_signature: copy_text(crate::host::signature_word(facts.signature)),
        trust_publisher: copy_text(facts.publisher.as_str()),
        trust_key: copy_text(facts.key.as_str()),
        trust_standing: copy_text(standing_word(facts.standing)),
        selected_profile: selected_profile(plan),
        permissions: listed(plan, &plan.granted),
        automatic_privileges: listed(plan, &plan.automatic),
        asked_when_needed: listed(plan, &plan.jit),
        denied_explicit_permissions: listed(plan, &plan.explicit),
        delta,
        accepted_by_confirm: accepted,
        reason,
        filesystem: copy_text(facts.destination.as_str()),
    }
}

/// A refusal as it is reported: its words, what to do instead, and, where `--confirm` was wanted
/// or could not accept the plan, the plan itself.
#[derive(Debug, Clone, PartialEq, Eq)]
pub struct RefusalReport {
    pub message: String,
    pub help: String,
    pub plan: Option<PlanRecord>,
}

/// How a refusal is reported: with the words `refusal_message` gives it, and carrying the plan
/// record where `--confirm` was wanted or could not accept the plan; nothing for a refusal whose
/// words come from elsewhere.
pub fn refusal_report(
    refusal: &InstallRefusal,
    facts: &PlanFacts,
    installed_key: &str,
    plan: &PermissionPlan,
    record: PlanRecord,
) -> (r: Option<RefusalReport>)
    ensures
        match refusal_message_spec(
            *refusal,
            facts.id@,
            facts.name@,
            facts.version@,
            facts.source@,
            installed_key@,
            facts.key@,
            match plan.delta {
                Some(v) => Some(v@),
                None => None,
            },
        ) {
            Some((m, h)) => r matches Some(report) && report.message@ == m && report.help@ == h && (report.plan
                == if (*refusal is ConfirmationRequired || *refusal is Unattended) { Some(record) } else { None }),
            None => r is None,
        },
{
    let words = refusal_message(
        refusal,
        facts.id.as_str(),
        facts.name.as_str(),
        facts.version.as_str(),
        facts.source.as_str(),
        installed_key,
        facts.key.as_str(),
        &plan.delta,
    );
    match words {
        None => None,
        Some((message, help)) => {
            let carries = match refusal {
                InstallRefusal::ConfirmationRequired => true,
                InstallRefusal::Unattended(_) => true,
                _ => false,
            };
            Some(RefusalReport { message, help, plan: if carries { Some(record) } else { None } })
        },
    }
}

// --- undoing the files of a failed install ------------------------------------------

/// What an install has done on disk and to the management state, so that a failure can be
/// undone.
#[derive(Debug)]
pub struct Placement {
    /// Where the package was staged, and the directory staging happens in.
    pub staging: String,
    pub staging_root: String,
    /// Where the package now lies, once it was moved into place.
    pub placed: Option<String>,
    /// Where the version it replaces was moved aside to, and where it came from.
    pub previous: Option<(String, String)>,
    /// The management state before the install wrote its own, once it did: `None` inside when
    /// there was none.
    pub management: Option<Option<Management>>,
}

/// One step of finishing or undoing an install.
#[derive(Debug)]
pub enum FileStep {
    /// Write this management state back.
    RestoreManagement(Management),
    /// Remove the management state the install wrote.
    RemoveManagement,
    /// Remove a directory and everything in it.
    RemoveTree(String),
    /// Move a directory back.
    Rename { from: String, to: String },
    /// Remove a directory, if it is empty.
    RemoveEmptyDir(String),
}

/// The steps that undo an install, in order: the management state back as it was, the placed
/// package (or, when it never was placed, the staged one) removed, the replaced version moved
/// back, the staging directory removed when empty.
pub open spec fn undo_steps_spec(p: Placement) -> Seq<FileStep> {
    (match p.management {
        Some(Some(before)) => seq![FileStep::RestoreManagement(before)],
        Some(None) => seq![FileStep::RemoveManagement],
        None => seq![],
    }) + seq![FileStep::RemoveTree(match p.placed {
        Some(placed) => placed,
        None => p.staging,
    })] + (match p.previous {
        Some((aside, back)) => seq![FileStep::Rename { from: aside, to: back }],
        None => seq![],
    }) + seq![FileStep::RemoveEmptyDir(p.staging_root)]
}

/// The steps that undo an install.
pub fn undo_steps(p: Placement) -> (r: Vec<FileStep>)
    ensures
        r@ == undo_steps_spec(p),
{
    let ghost whole = p;
    let mut out: Vec<FileStep> = Vec::new();
    match p.management {
        Some(Some(before)) => out.push(FileStep::RestoreManagement(before)),
        Some(None) => out.push(FileStep::RemoveManagement),
        None => {},
    }
    out.push(FileStep::RemoveTree(match p.placed {
        Some(placed) => placed,
        None => p.staging,
    }));
    match p.previous {
        Some((aside, back)) => out.push(FileStep::Rename { from: aside, to: back }),
        None => {},
    }
    out.push(FileStep::RemoveEmptyDir(p.staging_root));
    assert(out@ =~= undo_steps_spec(whole));
    out
}

/// The steps that finish an install that succeeded: the replaced version, moved aside, removed,
/// and the staging directory removed when empty.
pub fn commit_steps(p: Placement) -> (r: Vec<FileStep>)
    ensures
        r@ == (match p.previous {
            Some((aside, _)) => seq![FileStep::RemoveTree(aside)],
            None => seq![],
        }) + seq![FileStep::RemoveEmptyDir(p.staging_root)],
{
    let ghost whole = p;
    let mut out: Vec<FileStep> = Vec::new();
    match p.previous {
        Some((aside, _)) => out.push(FileStep::RemoveTree(aside)),
        None => {},
    }
    out.push(FileStep::RemoveEmptyDir(p.staging_root));
    assert(out@ =~= (match whole.previous {
        Some((aside, _)) => seq![FileStep::RemoveTree(aside)],
        None => Seq::<FileStep>::empty(),
    }) + seq![FileStep::RemoveEmptyDir(whole.staging_root)]);
    out
}

/// What the directories hold, by path, and the package's management state.
pub struct Disk {
    pub trees: Map<Seq<char>, int>,
    pub management: Option<Management>,
}

/// A step done on a disk.
pub open spec fn step_on(d: Disk, s: FileStep) -> Disk {
    match s {
        FileStep::RestoreManagement(m) => Disk { management: Some(m), ..d },
        FileStep::RemoveManagement => Disk { management: None, ..d },
        FileStep::RemoveTree(path) => Disk { trees: d.trees.remove(path@), ..d },
        FileStep::Rename { from, to } => if d.trees.dom().contains(from@) {
            Disk { trees: d.trees.remove(from@).insert(to@, d.trees[from@]), ..d }
        } else {
            d
        },
        FileStep::RemoveEmptyDir(_) => d,
    }
}

/// Steps done in order.
pub open spec fn steps_on(d: Disk, steps: Seq<FileStep>) -> Disk
    decreases steps.len(),
{
    if steps.len() == 0 {
        d
    } else {
        steps_on(step_on(d, steps[0]), steps.drop_first())
    }
}

/// What an install did before it failed, as `p` records it: the replaced version moved aside,
/// then the staged one (`staged` its content) moved into place, then the management state
/// written as `written`.
pub open spec fn placed_on(d0: Disk, p: Placement, staged: int, written: Management) -> Disk {
    let d1 = match p.previous {
        Some((aside, back)) => Disk { trees: d0.trees.remove(back@).insert(aside@, d0.trees[back@]), ..d0 },
        None => d0,
    };
    let d2 = match p.placed {
        Some(placed) => Disk { trees: d1.trees.remove(p.staging@).insert(placed@, staged), ..d1 },
        None => d1,
    };
    match p.management {
        Some(_) => Disk { management: Some(written), ..d2 },
        None => d2,
    }
}

proof fn lemma_steps_concat(d: Disk, a: Seq<FileStep>, b: Seq<FileStep>)
    ensures
        steps_on(d, a + b) == steps_on(steps_on(d, a), b),
    decreases a.len(),
{
    if a.len() == 0 {
        assert(a + b =~= b);
    } else {
        assert((a + b).drop_first() =~= a.drop_first() + b);
        lemma_steps_concat(step_on(d, a[0]), a.drop_first(), b);
    }
}

proof fn lemma_one_step(d: Disk, s: FileStep)
    ensures
        steps_on(d, seq![s]) == step_on(d, s),
{
    assert(seq![s].drop_first() =~= Seq::<FileStep>::empty());
    assert(seq![s][0] == s);
    assert(steps_on(step_on(d, s), Seq::<FileStep>::empty()) == step_on(d, s));
}

/// A failed install leaves the disk as it found it: once its undo steps are done, the
/// destination holds what it held before (or nothing, as before), neither the staged package nor
/// the replaced version is left anywhere else, and the management state is what it was — for an
/// install that moved the replaced version aside only when there was one, and recorded the
/// management state it found.
pub proof fn law_an_undone_install_restores_the_disk(
    d0: Disk,
    p: Placement,
    destination: Seq<char>,
    staged: int,
    written: Management,
)
    requires
        p.staging@ != destination,
        match p.previous {
            Some((aside, back)) => back@ == destination && d0.trees.dom().contains(destination) && aside@ != destination
                && aside@ != p.staging@ && !d0.trees.dom().contains(aside@),
            None => !d0.trees.dom().contains(destination) || p.placed is None,
        },
        match p.placed {
            Some(placed) => placed@ == destination,
            None => true,
        },
        match p.management {
            Some(before) => before == d0.management,
            None => true,
        },
    ensures
        ({
            let after = steps_on(placed_on(d0, p, staged, written), undo_steps_spec(p));
            &&& after.trees.dom().contains(destination) == d0.trees.dom().contains(destination)
            &&& d0.trees.dom().contains(destination) ==> after.trees[destination] == d0.trees[destination]
            &&& !after.trees.dom().contains(p.staging@)
            &&& (p.previous matches Some((aside, _)) ==> !after.trees.dom().contains(aside@))
            &&& after.management == d0.management
        }),
{
    let d2 = placed_on(d0, p, staged, written);
    let m: Seq<FileStep> = match p.management {
        Some(Some(before)) => seq![FileStep::RestoreManagement(before)],
        Some(None) => seq![FileStep::RemoveManagement],
        None => seq![],
    };
    let remove = seq![FileStep::RemoveTree(match p.placed {
        Some(placed) => placed,
        None => p.staging,
    })];
    let back: Seq<FileStep> = match p.previous {
        Some((aside, back)) => seq![FileStep::Rename { from: aside, to: back }],
        None => seq![],
    };
    let last = seq![FileStep::RemoveEmptyDir(p.staging_root)];
    assert(undo_steps_spec(p) == m + remove + back + last);
    lemma_steps_concat(d2, m + remove + back, last);
    lemma_steps_concat(d2, m + remove, back);
    lemma_steps_concat(d2, m, remove);
    let a = steps_on(d2, m);
    match p.management {
        Some(Some(before)) => lemma_one_step(d2, FileStep::RestoreManagement(before)),
        Some(None) => lemma_one_step(d2, FileStep::RemoveManagement),
        None => {},
    }
    assert(a.trees == d2.trees);
    assert(a.management == d0.management);
    lemma_one_step(a, remove[0]);
    let b = steps_on(a, remove);
    let c = steps_on(b, back);
    match p.previous {
        Some((aside, bk)) => {
            lemma_one_step(b, FileStep::Rename { from: aside, to: bk });
        },
        None => {},
    }
    lemma_one_step(c, last[0]);
    let after = steps_on(c, last);
    assert(after == c);
    match p.previous {
        Some((aside, bk)) => {
            assert(b.trees.dom().contains(aside@));
            assert(b.trees[aside@] == d0.trees[destination]);
            assert(!c.trees.dom().contains(aside@));
        },
        None => {
            assert(c == b);
        },
    }
}

/// Nothing is installed without consent: an install goes ahead unasked only when nobody is
/// there to ask and `--confirm` was given, and it asks only when a person is there.
pub proof fn law_no_install_without_consent(
    state: &InstallState,
    plan: &Result<PermissionPlan, PlanError>,
    facts: &InstallFacts,
    r: Result<InstallNext, InstallRefusal>,
)
    requires
        install_gate.ensures((state, plan, facts), r),
    ensures
        r matches Ok(InstallNext::Proceed(_)) ==> !state.interactive && state.confirm,
        r matches Ok(InstallNext::Ask) ==> state.interactive,
        r is Ok ==> !state.blocking && !same_version(state) && !unrelated_upgrade(state) && plan is Ok,
{
}

/// Whether an upgrade is signed by an unrelated key: both signed, and by different keys.
pub fn unrelated_key(old_key: Option<&str>, new_key: &str) -> (r: bool)
    ensures
        r == (old_key matches Some(k) && k@ != "unsigned"@ && new_key@ != "unsigned"@ && k@ != new_key@),
{
    match old_key {
        Some(k) => {
            let o = chars_of(k);
            let n = chars_of(new_key);
            !eq_str(o.as_slice(), "unsigned") && !eq_str(n.as_slice(), "unsigned") && !chars_eq(o.as_slice(), n.as_slice())
        },
        None => false,
    }
}

/// The profile an install decides: the one named, else the one the installed version recorded,
/// else `recommended`.
pub fn chosen_profile(access: Option<String>, previous: Option<String>) -> (r: String)
    ensures
        r@ == match access {
            Some(a) => a@,
            None => match previous {
                Some(p) => p@,
                None => RECOMMENDED@,
            },
        },
{
    match access {
        Some(a) => a,
        None => match previous {
            Some(p) => p,
            None => string_of(chars_of(RECOMMENDED).as_slice()),
        },
    }
}

/// The question an install asks, and whether an empty answer is a yes.
pub open spec fn question_spec(upgrade: bool, delta: bool, cautious: bool, profile: Seq<char>) -> Seq<char> {
    if upgrade && delta {
        "Update and grant the new access? [y/N/details] "@
    } else if upgrade {
        "Update? [Y/n/details] "@
    } else if cautious {
        "Install with "@ + profile + " access? [y/N/details] "@
    } else {
        "Install with "@ + profile + " access? [Y/n/details] "@
    }
}

/// The question an install asks: an update names new access, and an unknown native package or a
/// widening profile asks with no as the default.
pub fn install_question(upgrade: bool, delta: bool, unknown_native: bool, widens: bool, profile: &str) -> (r: (String, bool))
    ensures
        r.0@ == question_spec(upgrade, delta, unknown_native || widens, profile@),
        r.1 == (!(upgrade && delta) && (upgrade || !(unknown_native || widens))),
{
    if upgrade && delta {
        return (string_of(chars_of("Update and grant the new access? [y/N/details] ").as_slice()), false);
    }
    if upgrade {
        return (string_of(chars_of("Update? [Y/n/details] ").as_slice()), true);
    }
    let start = chars_of("Install with ");
    let p = chars_of(profile);
    let head = concat(start.as_slice(), p.as_slice());
    if unknown_native || widens {
        let tail = chars_of(" access? [y/N/details] ");
        (string_of(concat(head.as_slice(), tail.as_slice()).as_slice()), false)
    } else {
        let tail = chars_of(" access? [Y/n/details] ");
        (string_of(concat(head.as_slice(), tail.as_slice()).as_slice()), true)
    }
}

/// What a person is shown when a reference names several packages: how many, then each as
/// `[n] id — description (selector)`, numbered from one.
pub open spec fn pick_lines_spec(reference: Seq<char>, candidates: Seq<Candidate>) -> Seq<Seq<char>> {
    seq!["`"@ + reference + "` names "@ + crate::keyless::decimal_spec(candidates.len()) + " packages:"@]
        + Seq::new(
        candidates.len(),
        |k: int|
            "  ["@ + crate::keyless::decimal_spec((k + 1) as nat) + "] "@ + candidates[k].id@ + " — "@
                + candidates[k].description@ + " ("@ + candidates[k].selector@ + ")"@,
    )
}

/// What a person is shown when a reference names several packages.
pub fn pick_lines(reference: &str, candidates: &Vec<Candidate>) -> (r: Vec<String>)
    requires
        candidates.len() < u64::MAX,
    ensures
        strings_view(r@) == pick_lines_spec(reference@, candidates@),
{
    let mut first = crate::text::joined("`", reference);
    crate::text::append(&mut first, "` names ");
    let n = crate::keyless::decimal(candidates.len() as u64);
    crate::text::append(&mut first, string_of(n.as_slice()).as_str());
    crate::text::append(&mut first, " packages:");
    let mut lines: Vec<String> = Vec::new();
    lines.push(first);
    let ghost expected = pick_lines_spec(reference@, candidates@);
    let mut k: usize = 0;
    while k < candidates.len()
        invariant
            k <= candidates.len(),
            candidates.len() < u64::MAX,
            expected == pick_lines_spec(reference@, candidates@),
            strings_view(lines@) == expected.take(k + 1),
        decreases candidates.len() - k,
    {
        let c = &candidates[k];
        let mut line = string_of(chars_of("  [").as_slice());
        let number = crate::keyless::decimal((k + 1) as u64);
        crate::text::append(&mut line, string_of(number.as_slice()).as_str());
        crate::text::append(&mut line, "] ");
        crate::text::append(&mut line, c.id.as_str());
        crate::text::append(&mut line, " — ");
        crate::text::append(&mut line, c.description.as_str());
        crate::text::append(&mut line, " (");
        crate::text::append(&mut line, c.selector.as_str());
        crate::text::append(&mut line, ")");
        let ghost before = strings_view(lines@);
        lines.push(line);
        assert(strings_view(lines@) =~= before.push(line@));
        k = k + 1;
        assert(expected.take(k + 1) =~= expected.take(k as int).push(expected[k as int]));
    }
    assert(expected.take(candidates.len() + 1) =~= expected);
    lines
}

/// The question a person answers to pick one.
pub const PICK_QUESTION: &'static str = "Which one? [number, or nothing to stop] ";

/// Which candidate a typed answer picks, of `count`: trimmed, a number from one to `count`
/// (with the one `+` a number may begin with), counted from zero; anything else picks none.
pub open spec fn pick_spec(typed: Seq<char>, count: nat) -> Option<nat> {
    let d = crate::hosts::unsigned_digits(crate::text::trimmed(typed));
    if d.len() > 0 && crate::hosts::all_digits(d) && 1 <= crate::hosts::digits_value(d) <= count {
        Some((crate::hosts::digits_value(d) - 1) as nat)
    } else {
        None
    }
}

/// Which candidate a typed answer picks, of `count`.
pub fn read_pick(typed: &str, count: usize) -> (r: Option<usize>)
    ensures
        match r {
            Some(k) => pick_spec(typed@, count as nat) == Some(k as nat),
            None => pick_spec(typed@, count as nat) is None,
        },
{
    let t = crate::text::trim(chars_of(typed).as_slice());
    let start: usize = if t.len() > 0 && t[0] == '+' { 1 } else { 0 };
    let ghost d = crate::hosts::unsigned_digits(t@);
    assert(d =~= t@.skip(start as int));
    if start >= t.len() {
        return None;
    }
    let mut value: u128 = 0;
    let mut i: usize = start;
    while i < t.len()
        invariant
            start <= i <= t.len(),
            start < t.len(),
            t@ == crate::text::trimmed(typed@),
            d == crate::hosts::unsigned_digits(t@),
            d == t@.skip(start as int),
            forall|j: int| 0 <= j < i - start ==> crate::text::is_ascii_digit(#[trigger] d[j]),
            value as int == crate::hosts::digits_value(d.take(i - start)),
            value <= count,
        decreases t.len() - i,
    {
        let c = t[i];
        assert(d[i - start] == c);
        if !('0' <= c && c <= '9') {
            assert(!crate::text::is_ascii_digit(d[i - start]));
            return None;
        }
        let digit: u128 = ((c as u32) - ('0' as u32)) as u128;
        value = value * 10 + digit;
        assert(d.take(i - start + 1).drop_last() =~= d.take(i - start));
        i = i + 1;
        if value > count as u128 {
            proof {
                crate::keyless::lemma_digits_grow_past(d, i - start, count as int);
            }
            return None;
        }
    }
    assert(d.take(t.len() - start) =~= d);
    if value == 0 {
        return None;
    }
    Some((value - 1) as usize)
}

/// What an answer to the install question, already trimmed and in small letters, says: an
/// empty answer takes the default.
pub open spec fn install_answer_of(lowered: Seq<char>, default_yes: bool) -> Answer {
    if lowered.len() == 0 && default_yes {
        Answer::Yes
    } else {
        crate::permissions::answer_of(lowered)
    }
}

/// What an answer to the install question, already trimmed and in small letters, says.
pub fn install_answer_of_lowered(lowered: &str, default_yes: bool) -> (r: Answer)
    ensures
        r == install_answer_of(lowered@, default_yes),
{
    if chars_of(lowered).len() == 0 && default_yes {
        return Answer::Yes;
    }
    crate::permissions::answer_of_lowered(lowered)
}

/// What a typed answer to the install question says: an empty answer takes the default.
pub fn read_install_answer(typed: &str, default_yes: bool) -> (r: Answer)
    ensures
        r == install_answer_of(crate::text::str_lower(crate::text::trimmed(typed@)), default_yes),
{
    let t = crate::text::trim(chars_of(typed).as_slice());
    let lower = crate::text::lowercase_text(string_of(t.as_slice()).as_str());
    install_answer_of_lowered(lower.as_str(), default_yes)
}

/// Whether a signed native package's signer is one no store enrols: the first-trust decision.
pub fn unknown_native(native: bool, signature_valid: bool, standing: Trust) -> (r: bool)
    ensures
        r == (native && signature_valid && !trusted_standing(standing)),
{
    native && signature_valid && !matches!(standing, Trust::SystemTrusted | Trust::UserTrusted)
}

/// The word a standing is shown as.
pub fn standing_word(standing: Trust) -> (r: &'static str)
    ensures
        r@ == crate::trust::trust_name(standing),
{
    standing.name()
}

/// The management state an install records: enabled, the source it resolved, the hash of the
/// placed bytes, the catalog and profile it went through, the signing key and the origin; the
/// background permission the replaced version had is kept.
pub fn installed_management(
    source: &str,
    integrity: &str,
    before: Option<&Management>,
    catalog: Option<&str>,
    publisher_key: &str,
    profile: Option<&str>,
    origin: Origin,
) -> (r: Management)
    ensures
        r.enabled,
        opt_view(r.installed_from) == Some(source@),
        opt_view(r.integrity) == Some(integrity@),
        r.background == (before matches Some(b) && b.background),
        opt_view(r.catalog) == match catalog {
            Some(c) => Some(c@),
            None => None,
        },
        opt_view(r.publisher_key) == Some(publisher_key@),
        opt_view(r.profile) == match profile {
            Some(p) => Some(p@),
            None => None,
        },
        r.origin == Some(origin),
{
    Management {
        enabled: true,
        installed_from: Some(source.to_owned()),
        integrity: Some(integrity.to_owned()),
        background: match before {
            Some(b) => b.background,
            None => false,
        },
        catalog: match catalog {
            Some(c) => Some(c.to_owned()),
            None => None,
        },
        publisher_key: Some(publisher_key.to_owned()),
        profile: match profile {
            Some(p) => Some(p.to_owned()),
            None => None,
        },
        origin: Some(origin),
    }
}

/// The decisions an install makes, which a failed install takes back: the selected profile's
/// permissions, then the automatic ones; none without a profile.
pub fn install_decisions(plan: &PermissionPlan) -> (r: Vec<String>)
    ensures
        strings_view(r@) == match plan.profile {
            Some(p) => strings_view(p.permissions@) + descriptors_view(plan.automatic@).map_values(|d: DescriptorView| d.id),
            None => seq![],
        },
{
    match &plan.profile {
        None => Vec::new(),
        Some(p) => {
            let mut r = crate::permissions::copy_strings(&p.permissions);
            let ghost first = strings_view(r@);
            let mut i: usize = 0;
            while i < plan.automatic.len()
                invariant
                    i <= plan.automatic.len(),
                    strings_view(r@) == first + descriptors_view(plan.automatic@).map_values(|d: DescriptorView| d.id).take(i as int),
                decreases plan.automatic.len() - i,
            {
                let id = plan.automatic[i].id.as_str().to_owned();
                let ghost before = strings_view(r@);
                r.push(id);
                assert(strings_view(r@) =~= before.push(id@));
                assert(descriptors_view(plan.automatic@).map_values(|d: DescriptorView| d.id).take(i + 1)
                    =~= descriptors_view(plan.automatic@).map_values(|d: DescriptorView| d.id).take(i as int).push(plan.automatic@[i as int].id@));
                i = i + 1;
            }
            assert(descriptors_view(plan.automatic@).map_values(|d: DescriptorView| d.id).take(plan.automatic.len() as int)
                =~= descriptors_view(plan.automatic@).map_values(|d: DescriptorView| d.id));
            r
        },
    }
}

/// Who a person is shown as having signed a package: nobody when its signature failed; the key
/// where a signature document named one; else the identity a certificate carried; else nobody.
pub open spec fn signer_spec(failed: bool, key: Option<Seq<char>>, identity: Option<Seq<char>>) -> Seq<char> {
    if failed {
        "unsigned"@
    } else {
        match key {
            Some(k) => k,
            None => match identity {
                Some(i) => i,
                None => "unsigned"@,
            },
        }
    }
}

/// Who a person is shown as having signed a package.
pub fn signer(failed: bool, key: Option<&str>, identity: Option<&str>) -> (r: String)
    ensures
        r@ == signer_spec(
            failed,
            match key {
                Some(k) => Some(k@),
                None => None,
            },
            match identity {
                Some(i) => Some(i@),
                None => None,
            },
        ),
{
    let shown = if failed {
        "unsigned"
    } else {
        match key {
            Some(k) => k,
            None => match identity {
                Some(i) => i,
                None => "unsigned",
            },
        }
    };
    string_of(chars_of(shown).as_slice())
}

/// How an install question names the signer's standing: an unknown signer of an unsigned
/// package is called out as a local package.
pub open spec fn publisher_trust_spec(standing: Trust, signature: crate::host::SignatureState) -> Seq<char> {
    match standing {
        Trust::SystemTrusted => "system-trusted"@,
        Trust::UserTrusted => "user-trusted"@,
        Trust::Untrusted => "untrusted"@,
        Trust::Unknown => if signature == crate::host::SignatureState::Absent {
            "unknown (unsigned local package)"@
        } else {
            "unknown"@
        },
    }
}

/// How an install question names the signer's standing.
pub fn publisher_trust(standing: Trust, signature: crate::host::SignatureState) -> (r: &'static str)
    ensures
        r@ == publisher_trust_spec(standing, signature),
{
    match standing {
        Trust::SystemTrusted => "system-trusted",
        Trust::UserTrusted => "user-trusted",
        Trust::Untrusted => "untrusted",
        Trust::Unknown => if signature == crate::host::SignatureState::Absent {
            "unknown (unsigned local package)"
        } else {
            "unknown"
        },
    }
}

/// How an install question names a runtime.
pub open spec fn runtime_phrase_spec(kind: Option<crate::host::RuntimeKind>) -> Seq<char> {
    match kind {
        Some(crate::host::RuntimeKind::NativeProcess) => "native process"@,
        Some(crate::host::RuntimeKind::WasmComponent) => "isolated component"@,
        Some(crate::host::RuntimeKind::RemoteService) => "remote service"@,
        _ => "declarative"@,
    }
}

/// How an install question names a runtime.
pub fn runtime_phrase(kind: Option<crate::host::RuntimeKind>) -> (r: &'static str)
    ensures
        r@ == runtime_phrase_spec(kind),
{
    match kind {
        Some(crate::host::RuntimeKind::NativeProcess) => "native process",
        Some(crate::host::RuntimeKind::WasmComponent) => "isolated component",
        Some(crate::host::RuntimeKind::RemoteService) => "remote service",
        _ => "declarative",
    }
}

/// Nothing is picked from outside the list: an answer picks one of the candidates shown, or
/// none.
pub proof fn law_a_pick_is_a_listed_candidate(typed: Seq<char>, count: nat)
    ensures
        pick_spec(typed, count) matches Some(k) ==> k < count,
{
}

} // verus!
