//! How a package reference resolves: a `path:` reference names a directory, a scheme this build
//! does not offer is refused, and anything else names an installed package by its canonical id
//! or by a short name exactly one installed package carries. Also which packages `find plugin`
//! lists from the installed set. Reading directories is the caller's.

use vstd::prelude::*;

use crate::acquire::SourceKind;
use crate::invocation::strings_view;
use crate::permissions::{find_char, index_of_char};
use crate::text::{append, chars_of, eq_str, has_prefix, interspersed, join_with, joined,
    lowercase_text, prefix_to, starts_with, str_lower, string_of, suffix_from};

verus! {

// --- what a reference names --------------------------------------------------------------------

/// What a reference names.
#[derive(Debug, Clone, PartialEq, Eq)]
pub enum ReferenceKind {
    /// `path:<directory>`: the package unpacked in that directory.
    Directory(String),
    /// A source scheme this build does not resolve: `file:`, `registry:`, `git:`, `oci:`.
    Unsupported(String),
    /// An installed package, by canonical id or short name.
    Installed,
}

/// The source schemes a reference may name that this build does not resolve.
pub open spec fn unsupported_scheme(scheme: Seq<char>) -> bool {
    scheme == "file"@ || scheme == "registry"@ || scheme == "git"@ || scheme == "oci"@
}

/// What a reference names, as plain values.
pub enum ReferenceView {
    Directory(Seq<char>),
    Unsupported(Seq<char>),
    Installed,
}

/// What a reference names: `path:` first, then the text before its first `:` as a scheme.
pub open spec fn reference_spec(reference: Seq<char>) -> ReferenceView {
    if starts_with(reference, "path:"@) {
        ReferenceView::Directory(reference.skip(5))
    } else {
        match index_of_char(reference, ':', 0) {
            Some(k) => if unsupported_scheme(reference.take(k)) {
                ReferenceView::Unsupported(reference.take(k))
            } else {
                ReferenceView::Installed
            },
            None => ReferenceView::Installed,
        }
    }
}

/// A reference kind as plain values.
pub open spec fn reference_view(kind: ReferenceKind) -> ReferenceView {
    match kind {
        ReferenceKind::Directory(d) => ReferenceView::Directory(d@),
        ReferenceKind::Unsupported(s) => ReferenceView::Unsupported(s@),
        ReferenceKind::Installed => ReferenceView::Installed,
    }
}

/// What a reference names.
pub fn reference_kind(reference: &str) -> (r: ReferenceKind)
    ensures
        reference_view(r) == reference_spec(reference@),
{
    let v = chars_of(reference);
    let prefix = chars_of("path:");
    proof {
        reveal_strlit("path:");
    }
    if has_prefix(v.as_slice(), prefix.as_slice()) {
        return ReferenceKind::Directory(string_of(suffix_from(v.as_slice(), 5).as_slice()));
    }
    match find_char(v.as_slice(), ':') {
        Some(k) => {
            let scheme = prefix_to(v.as_slice(), k);
            let s = scheme.as_slice();
            if eq_str(s, "file") || eq_str(s, "registry") || eq_str(s, "git") || eq_str(s, "oci") {
                ReferenceKind::Unsupported(string_of(s))
            } else {
                ReferenceKind::Installed
            }
        },
        None => ReferenceKind::Installed,
    }
}

/// Why a scheme reference is refused.
pub open spec fn unsupported_message_spec(scheme: Seq<char>) -> Seq<char> {
    "the `"@ + scheme + ":` source scheme is not available in this build"@
}

/// Why a scheme reference is refused.
pub fn unsupported_message(scheme: &str) -> (r: String)
    ensures
        r@ == unsupported_message_spec(scheme@),
{
    let mut r = joined("the `", scheme);
    append(&mut r, ":` source scheme is not available in this build");
    r
}

/// Why a `path:` reference names nothing: its directory holds no manifest.
pub open spec fn no_manifest_message_spec(directory: Seq<char>) -> Seq<char> {
    directory + " holds no `manifest.yaml`"@
}

/// Why a `path:` reference names nothing.
pub fn no_manifest_message(directory: &str) -> (r: String)
    ensures
        r@ == no_manifest_message_spec(directory@),
{
    joined(directory, " holds no `manifest.yaml`")
}

// --- the installed package a reference names ---------------------------------------------------

/// How a reference resolves among the installed packages.
#[derive(Debug, Clone, PartialEq, Eq)]
pub enum InstalledResolution {
    /// The package at this position.
    Found(usize),
    /// No installed package answers to it.
    NotFound,
    /// Several installed packages carry the name: their ids, in order.
    Ambiguous(Vec<String>),
}

/// The position of the first of `ids` equal to `reference`.
pub open spec fn first_equal(ids: Seq<Seq<char>>, reference: Seq<char>, i: int) -> Option<int>
    decreases ids.len() - i,
{
    if i < 0 || i >= ids.len() {
        None
    } else if ids[i] == reference {
        Some(i)
    } else {
        first_equal(ids, reference, i + 1)
    }
}

/// The positions of the names equal to `reference`, in order.
pub open spec fn name_hits(names: Seq<Seq<char>>, reference: Seq<char>) -> Seq<int>
    decreases names.len(),
{
    if names.len() == 0 {
        seq![]
    } else {
        let rest = name_hits(names.drop_last(), reference);
        if names.last() == reference {
            rest.push(names.len() - 1)
        } else {
            rest
        }
    }
}

/// How a reference resolves among installed packages with these `ids` and `names`: the first
/// whose canonical id it is; else the one package carrying it as its name; else nothing, or,
/// when several carry the name, their ids.
pub open spec fn installed_spec(ids: Seq<Seq<char>>, names: Seq<Seq<char>>, reference: Seq<char>) -> (
    Option<int>,
    Seq<Seq<char>>,
) {
    match first_equal(ids, reference, 0) {
        Some(k) => (Some(k), seq![]),
        None => {
            let hits = name_hits(names, reference);
            if hits.len() == 1 {
                (Some(hits[0]), seq![])
            } else {
                (None, hits.map_values(|k: int| ids[k]))
            }
        },
    }
}

proof fn lemma_hits_in_range(names: Seq<Seq<char>>, reference: Seq<char>)
    ensures
        forall|m: int| 0 <= m < name_hits(names, reference).len() ==> 0 <= #[trigger] name_hits(names, reference)[m] < names.len()
            && names[name_hits(names, reference)[m]] == reference,
    decreases names.len(),
{
    if names.len() > 0 {
        let rest = names.drop_last();
        lemma_hits_in_range(rest, reference);
        let hits = name_hits(names, reference);
        let earlier = name_hits(rest, reference);
        assert forall|m: int| 0 <= m < hits.len() implies 0 <= #[trigger] hits[m] < names.len()
            && names[hits[m]] == reference by {
            if m < earlier.len() {
                assert(hits[m] == earlier[m]);
                assert(rest[earlier[m]] == names[earlier[m]]);
            }
        }
    }
}

/// The installed package a reference names, among packages with these `ids` and `names`.
pub fn resolve_installed(ids: &Vec<String>, names: &Vec<String>, reference: &str) -> (r: InstalledResolution)
    requires
        ids.len() == names.len(),
    ensures
        ({
            let (found, several) = installed_spec(strings_view(ids@), strings_view(names@), reference@);
            match r {
                InstalledResolution::Found(k) => found == Some(k as int),
                InstalledResolution::NotFound => found is None && several.len() == 0,
                InstalledResolution::Ambiguous(c) => found is None && several.len() > 1 && strings_view(c@) == several,
            }
        }),
{
    let ghost iv = strings_view(ids@);
    let ghost nv = strings_view(names@);
    let w = chars_of(reference);
    let mut i: usize = 0;
    while i < ids.len()
        invariant
            i <= ids.len(),
            iv == strings_view(ids@),
            w@ == reference@,
            first_equal(iv, reference@, 0) == first_equal(iv, reference@, i as int),
        decreases ids.len() - i,
    {
        if eq_str(w.as_slice(), ids[i].as_str()) {
            assert(iv[i as int] == reference@);
            return InstalledResolution::Found(i);
        }
        i = i + 1;
    }
    let mut hits: Vec<usize> = Vec::new();
    let mut j: usize = 0;
    while j < names.len()
        invariant
            j <= names.len(),
            nv == strings_view(names@),
            w@ == reference@,
            hits@.map_values(|k: usize| k as int) == name_hits(nv.take(j as int), reference@),
        decreases names.len() - j,
    {
        assert(nv.take(j + 1).drop_last() =~= nv.take(j as int));
        if eq_str(w.as_slice(), names[j].as_str()) {
            let ghost before = hits@.map_values(|k: usize| k as int);
            hits.push(j);
            assert(hits@.map_values(|k: usize| k as int) =~= before.push(j as int));
        }
        j = j + 1;
    }
    assert(nv.take(names.len() as int) =~= nv);
    let ghost hv = name_hits(nv, reference@);
    proof {
        lemma_hits_in_range(nv, reference@);
    }
    if hits.len() == 1 {
        assert(hv[0] == hits@[0] as int);
        return InstalledResolution::Found(hits[0]);
    }
    if hits.len() == 0 {
        return InstalledResolution::NotFound;
    }
    let mut candidates: Vec<String> = Vec::new();
    let mut m: usize = 0;
    while m < hits.len()
        invariant
            m <= hits.len(),
            iv == strings_view(ids@),
            ids.len() == names.len(),
            hv == name_hits(nv, reference@),
            nv.len() == names.len(),
            hits@.map_values(|k: usize| k as int) == hv,
            forall|q: int| 0 <= q < hv.len() ==> 0 <= #[trigger] hv[q] < nv.len(),
            strings_view(candidates@) == hv.take(m as int).map_values(|k: int| iv[k]),
        decreases hits.len() - m,
    {
        assert(hv[m as int] == hits@[m as int] as int);
        let id = string_of(chars_of(ids[hits[m]].as_str()).as_slice());
        let ghost before = strings_view(candidates@);
        candidates.push(id);
        assert(strings_view(candidates@) =~= before.push(iv[hv[m as int]]));
        m = m + 1;
        assert(hv.take(m as int).map_values(|k: int| iv[k]) =~= hv.take(m - 1).map_values(|k: int| iv[k]).push(iv[hv[m - 1]]));
    }
    assert(hv.take(hits.len() as int) =~= hv);
    InstalledResolution::Ambiguous(candidates)
}

/// Why nothing answers to a reference.
pub open spec fn not_installed_message_spec(reference: Seq<char>) -> Seq<char> {
    "no installed package answers to `"@ + reference + "`"@
}

/// Why nothing answers to a reference.
pub fn not_installed_message(reference: &str) -> (r: String)
    ensures
        r@ == not_installed_message_spec(reference@),
{
    let mut r = joined("no installed package answers to `", reference);
    append(&mut r, "`");
    r
}

/// Why a name is refused when several installed packages carry it: how many, and which.
pub open spec fn ambiguous_message_spec(reference: Seq<char>, ids: Seq<Seq<char>>) -> Seq<char> {
    "`"@ + reference + "` names "@ + crate::keyless::decimal_spec(ids.len()) + " installed packages: "@
        + interspersed(ids, ", "@)
}

/// Why a name is refused when several installed packages carry it.
pub fn ambiguous_message(reference: &str, ids: &Vec<String>) -> (r: String)
    ensures
        r@ == ambiguous_message_spec(reference@, strings_view(ids@)),
{
    let mut r = joined("`", reference);
    append(&mut r, "` names ");
    let n = crate::keyless::decimal(ids.len() as u64);
    append(&mut r, string_of(n.as_slice()).as_str());
    append(&mut r, " installed packages: ");
    let list = join_with(ids, ", ");
    assert(ids@.map_values(|p: String| p@) == strings_view(ids@));
    append(&mut r, list.as_str());
    r
}

// --- what `find plugin` lists ------------------------------------------------------------------

/// Where `find plugin` looks, from its `--source` word.
#[derive(Debug, Clone, PartialEq, Eq)]
pub enum RecordsSource {
    /// Everywhere: the installed set, the catalogs and the system sources.
    Everywhere,
    /// Everywhere, keeping only what comes from this kind of source.
    Kind(SourceKind),
    /// One `path:` directory.
    Directory(String),
    /// A source word this build does not search.
    Refused,
}

/// Where `find plugin` looks, as plain values.
pub enum RecordsSourceView {
    Everywhere,
    Kind(SourceKind),
    Directory(Seq<char>),
    Refused,
}

/// Where `find plugin` looks: `system`, `catalog` and `local` narrow to one kind of source,
/// `path:<directory>` reads one directory, and no word looks everywhere.
pub open spec fn records_source_spec(source: Option<Seq<char>>) -> RecordsSourceView {
    match source {
        None => RecordsSourceView::Everywhere,
        Some(s) => if s == "system"@ {
            RecordsSourceView::Kind(SourceKind::SystemPackage)
        } else if s == "catalog"@ {
            RecordsSourceView::Kind(SourceKind::CatalogNetwork)
        } else if s == "local"@ {
            RecordsSourceView::Kind(SourceKind::LocalPath)
        } else if starts_with(s, "path:"@) {
            RecordsSourceView::Directory(s.skip(5))
        } else {
            RecordsSourceView::Refused
        },
    }
}

/// Where `find plugin` looks, as plain values.
pub open spec fn records_source_view(r: RecordsSource) -> RecordsSourceView {
    match r {
        RecordsSource::Everywhere => RecordsSourceView::Everywhere,
        RecordsSource::Kind(k) => RecordsSourceView::Kind(k),
        RecordsSource::Directory(d) => RecordsSourceView::Directory(d@),
        RecordsSource::Refused => RecordsSourceView::Refused,
    }
}

/// Where `find plugin` looks, from its `--source` word.
pub fn records_source(source: Option<&str>) -> (r: RecordsSource)
    ensures
        records_source_view(r) == records_source_spec(
            match source {
                Some(s) => Some(s@),
                None => None,
            },
        ),
{
    match source {
        None => RecordsSource::Everywhere,
        Some(s) => {
            let v = chars_of(s);
            if eq_str(v.as_slice(), "system") {
                RecordsSource::Kind(SourceKind::SystemPackage)
            } else if eq_str(v.as_slice(), "catalog") {
                RecordsSource::Kind(SourceKind::CatalogNetwork)
            } else if eq_str(v.as_slice(), "local") {
                RecordsSource::Kind(SourceKind::LocalPath)
            } else {
                let prefix = chars_of("path:");
                proof {
                    reveal_strlit("path:");
                }
                if has_prefix(v.as_slice(), prefix.as_slice()) {
                    RecordsSource::Directory(string_of(suffix_from(v.as_slice(), 5).as_slice()))
                } else {
                    RecordsSource::Refused
                }
            }
        },
    }
}

/// Why a `--source` word is refused.
pub open spec fn unsearched_message_spec(source: Seq<char>) -> Seq<char> {
    "`"@ + source + "` is not a source this build searches"@
}

/// Why a `--source` word is refused.
pub fn unsearched_message(source: &str) -> (r: String)
    ensures
        r@ == unsearched_message_spec(source@),
{
    let mut r = joined("`", source);
    append(&mut r, "` is not a source this build searches");
    r
}

/// Whether a package with this id and name is listed for `term`: either contains it, compared
/// in lower case.
pub open spec fn lists_spec(id: Seq<char>, name: Seq<char>, term: Seq<char>) -> bool {
    crate::catalog::mentioned_spec(str_lower(id), str_lower(name), str_lower(term))
}

/// Whether a package with this id and name is listed for `term`.
pub fn lists(id: &str, name: &str, term: &str) -> (r: bool)
    ensures
        r == lists_spec(id@, name@, term@),
{
    crate::catalog::mentioned(lowercase_text(id).as_str(), lowercase_text(name).as_str(), lowercase_text(term).as_str())
}

/// Whether a package is listed from where `find plugin` was told to look: a narrowing to one
/// kind of source keeps only what comes from it.
pub open spec fn kept_spec(source: RecordsSourceView, kind: SourceKind) -> bool {
    match source {
        RecordsSourceView::Kind(k) => k == kind,
        _ => true,
    }
}

/// Whether a package that came from `kind` of source is listed from where `find plugin` was
/// told to look.
pub fn kept(source: &RecordsSource, kind: SourceKind) -> (r: bool)
    ensures
        r == kept_spec(records_source_view(*source), kind),
{
    match source {
        RecordsSource::Kind(k) => *k == kind,
        _ => true,
    }
}

// --- laws --------------------------------------------------------------------------------------

/// A canonical id always wins: whatever names other packages carry, a reference that is an
/// installed package's id names that package, the first so installed.
pub proof fn law_an_id_names_its_package(ids: Seq<Seq<char>>, names: Seq<Seq<char>>, k: int)
    requires
        0 <= k < ids.len(),
        forall|j: int| 0 <= j < k ==> ids[j] != ids[k],
    ensures
        installed_spec(ids, names, ids[k]).0 == Some(k),
{
    assert forall|i: int| 0 <= i <= k implies first_equal(ids, ids[k], i) == Some(k) by {
        lemma_first_equal_from(ids, ids[k], i, k);
    }
}

proof fn lemma_first_equal_from(ids: Seq<Seq<char>>, reference: Seq<char>, i: int, k: int)
    requires
        0 <= i <= k < ids.len(),
        ids[k] == reference,
        forall|j: int| i <= j < k ==> ids[j] != reference,
    ensures
        first_equal(ids, reference, i) == Some(k),
    decreases k - i,
{
    if i < k {
        lemma_first_equal_from(ids, reference, i + 1, k);
    }
}

/// A name two installed packages carry names neither: it is refused with both their ids,
/// unless it is some package's id.
pub proof fn law_a_shared_name_names_no_package(ids: Seq<Seq<char>>, names: Seq<Seq<char>>, reference: Seq<char>)
    requires
        ids.len() == names.len(),
        first_equal(ids, reference, 0) is None,
        name_hits(names, reference).len() >= 2,
    ensures
        installed_spec(ids, names, reference).0 is None,
        installed_spec(ids, names, reference).1.len() == name_hits(names, reference).len(),
{
}

proof fn lemma_no_first_equal(ids: Seq<Seq<char>>, reference: Seq<char>, i: int)
    requires
        0 <= i,
        forall|j: int| 0 <= j < ids.len() ==> ids[j] != reference,
    ensures
        first_equal(ids, reference, i) is None,
    decreases ids.len() - i,
{
    if i < ids.len() {
        lemma_no_first_equal(ids, reference, i + 1);
    }
}

/// Every package carrying the name is among the hits.
proof fn lemma_hits_complete(names: Seq<Seq<char>>, reference: Seq<char>, k: int)
    requires
        0 <= k < names.len(),
        names[k] == reference,
    ensures
        exists|m: int| 0 <= m < name_hits(names, reference).len() && name_hits(names, reference)[m] == k,
    decreases names.len(),
{
    let hits = name_hits(names, reference);
    if k == names.len() - 1 {
        assert(hits[hits.len() - 1] == k);
    } else {
        lemma_hits_complete(names.drop_last(), reference, k);
        let earlier = name_hits(names.drop_last(), reference);
        let m = choose|m: int| 0 <= m < earlier.len() && earlier[m] == k;
        assert(hits[m] == k);
    }
}

/// How a reference resolves: when it is some package's id, the first such package; when it is
/// no id, the one package that carries it as its name, and otherwise nothing, refused with the
/// ids of every package carrying it, in order, when there are several.
pub proof fn law_installed_resolution(ids: Seq<Seq<char>>, names: Seq<Seq<char>>, reference: Seq<char>)
    requires
        ids.len() == names.len(),
    ensures
        forall|k: int|
            0 <= k < ids.len() && ids[k] == reference && (forall|j: int| 0 <= j < k ==> ids[j] != reference)
                ==> #[trigger] installed_spec(ids, names, ids[k]).0 == Some(k),
        (forall|k: int| 0 <= k < ids.len() ==> ids[k] != reference) ==> match installed_spec(ids, names, reference) {
            (Some(k), _) => 0 <= k < names.len() && names[k] == reference && forall|j: int|
                0 <= j < names.len() && j != k ==> names[j] != reference,
            (None, several) => {
                &&& several == name_hits(names, reference).map_values(|k: int| ids[k])
                &&& (several.len() == 0 <==> forall|j: int| 0 <= j < names.len() ==> names[j] != reference)
                &&& several.len() != 1
            },
        },
{
    assert forall|k: int|
        0 <= k < ids.len() && ids[k] == reference && (forall|j: int| 0 <= j < k ==> ids[j] != reference)
            implies #[trigger] installed_spec(ids, names, ids[k]).0 == Some(k) by {
        law_an_id_names_its_package(ids, names, k);
    }
    if forall|k: int| 0 <= k < ids.len() ==> ids[k] != reference {
        lemma_no_first_equal(ids, reference, 0);
        lemma_hits_in_range(names, reference);
        let hits = name_hits(names, reference);
        if hits.len() == 1 {
            assert forall|j: int| 0 <= j < names.len() && j != hits[0] implies names[j] != reference by {
                if names[j] == reference {
                    lemma_hits_complete(names, reference, j);
                }
            }
        } else {
            if hits.len() == 0 {
                assert forall|j: int| 0 <= j < names.len() implies names[j] != reference by {
                    if names[j] == reference {
                        lemma_hits_complete(names, reference, j);
                    }
                }
            } else {
                assert(names[hits[0]] == reference);
            }
        }
    }
}

} // verus!
