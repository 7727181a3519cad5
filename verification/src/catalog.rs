//! Where a package name resolves from and where a release is looked for: the catalogs a
//! session reads, the local package sources and the package cache. Reading the catalogs and
//! the packages from disk is the caller's; which entry a reference names, and which places are
//! looked in and in what order, is decided here.

use vstd::prelude::*;

use crate::hosts::{join_path, opt_view, path_join};
use crate::invocation::strings_view;
use crate::text::{chars_of, chars_eq, concat, eq_str, has_prefix, lowercase_text, starts_with, str_lower, string_of, suffix_from};

verus! {

broadcast use vstd::string::group_string_axioms;

/// The program's short name, the directory its data lives under.
pub const SHORT_NAME: &'static str = "ono";

/// How a catalog is known.
#[derive(Debug, Clone, Copy, PartialEq, Eq, Structural)]
pub enum CatalogVerification {
    /// Embedded in the binary.
    BuiltIn,
    /// Placed by the operator or the machine.
    Operator,
}

/// One release of a catalog entry.
#[derive(Debug, Clone)]
pub struct CatalogRelease {
    /// Its version.
    pub version: String,
    /// Where its artifact is: a URL, or `path:<directory>`.
    pub artifact: String,
    /// The content digest the catalog vouches for, when it does.
    pub digest: Option<String>,
}

/// One package a catalog offers.
#[derive(Debug, Clone)]
pub struct CatalogEntry {
    /// The canonical reverse-DNS id.
    pub id: String,
    /// The short name.
    pub name: String,
    /// One line about it.
    pub description: String,
    /// Who publishes it.
    pub publisher: String,
    /// Its releases.
    pub releases: Vec<CatalogRelease>,
}

/// A catalog: a name, how it is known, and its entries.
#[derive(Debug, Clone)]
pub struct Catalog {
    /// The name `<catalog>/<name>` selects by.
    pub name: String,
    /// How it is known.
    pub verification: CatalogVerification,
    /// Its entries, in document order.
    pub entries: Vec<CatalogEntry>,
}

/// The catalogs a session resolves names against, the built-in one first.
#[derive(Debug, Clone)]
pub struct Catalogs {
    /// The catalogs, in the order they were read.
    pub catalogs: Vec<Catalog>,
}

/// One candidate of an ambiguous name.
#[derive(Debug, Clone, PartialEq, Eq)]
pub struct Candidate {
    /// The canonical id.
    pub id: String,
    /// The `<catalog>/<name>` selector that names exactly it, or the installed id.
    pub selector: String,
    /// One line about it.
    pub description: String,
}

/// The index of the first catalog from `i` on named `name`.
pub open spec fn catalog_named_from(cats: Seq<Catalog>, name: Seq<char>, i: int) -> Option<int>
    decreases cats.len() - i,
{
    if i < 0 || i >= cats.len() {
        None
    } else if cats[i].name@ == name {
        Some(i)
    } else {
        catalog_named_from(cats, name, i + 1)
    }
}

/// The index of the first catalog named `name`.
pub open spec fn catalog_named(cats: Seq<Catalog>, name: Seq<char>) -> Option<int> {
    catalog_named_from(cats, name, 0)
}

proof fn lemma_catalog_named(cats: Seq<Catalog>, name: Seq<char>, i: int)
    requires
        0 <= i,
    ensures
        catalog_named_from(cats, name, i) matches Some(j) ==> 0 <= i <= j < cats.len() && cats[j].name@ == name,
        catalog_named_from(cats, name, i) is None ==> forall|j: int| i <= j < cats.len() && 0 <= j ==> cats[j].name@ != name,
    decreases cats.len() - i,
{
    if 0 <= i < cats.len() && cats[i].name@ != name {
        lemma_catalog_named(cats, name, i + 1);
    }
}

/// The entry a catalog's `(catalog, entry)` position names.
pub open spec fn entry_at(cats: Seq<Catalog>, at: (int, int)) -> CatalogEntry {
    cats[at.0].entries@[at.1]
}

/// Whether one of the positions `found` already holds an entry with id `id`.
pub open spec fn holds_id(cats: Seq<Catalog>, found: Seq<(int, int)>, id: Seq<char>) -> bool {
    exists|k: int| 0 <= k < found.len() && (#[trigger] entry_at(cats, found[k])).id@ == id
}

/// The size of what is left to scan from catalog `ci`, entry `ei`.
pub open spec fn entries_left(cats: Seq<Catalog>, ci: int, ei: int) -> int {
    if 0 <= ci < cats.len() {
        cats[ci].entries.len() - ei
    } else {
        0
    }
}

/// The positions, in catalog order then entry order, of the entries that `pick` selects, each
/// id once: an id already collected is the same package again, wherever it is offered.
pub open spec fn collect_from(
    cats: Seq<Catalog>,
    pick: spec_fn(CatalogEntry) -> bool,
    ci: int,
    ei: int,
    found: Seq<(int, int)>,
) -> Seq<(int, int)>
    decreases cats.len() - ci, entries_left(cats, ci, ei) when ei >= 0
{
    if ci < 0 || ci >= cats.len() {
        found
    } else if ei >= cats[ci].entries.len() {
        collect_from(cats, pick, ci + 1, 0, found)
    } else {
        let e = cats[ci].entries@[ei];
        let next = if pick(e) && !holds_id(cats, found, e.id@) {
            found.push((ci, ei))
        } else {
            found
        };
        collect_from(cats, pick, ci, ei + 1, next)
    }
}

/// Whether an entry answers to the short name `word`.
pub open spec fn named_word(word: Seq<char>) -> spec_fn(CatalogEntry) -> bool {
    |e: CatalogEntry| e.name@ == word
}

/// The entries a short name names across the catalogs, one per id.
pub open spec fn short_name_hits(cats: Seq<Catalog>, word: Seq<char>) -> Seq<(int, int)> {
    collect_from(cats, named_word(word), 0, 0, seq![])
}

/// Whether `needle` occurs in `hay`.
pub open spec fn contains_text(hay: Seq<char>, needle: Seq<char>) -> bool {
    exists|i: int| 0 <= i <= hay.len() - needle.len() && #[trigger] hay.subrange(i, i + needle.len()) == needle
}

/// Whether an id or a name, already in small letters, contains a term in small letters.
pub open spec fn mentioned_spec(lowered_id: Seq<char>, lowered_name: Seq<char>, lowered_term: Seq<char>) -> bool {
    contains_text(lowered_id, lowered_term) || contains_text(lowered_name, lowered_term)
}

/// Whether an entry's id or name contains `term`, compared in lower case.
pub open spec fn mentions(term: Seq<char>) -> spec_fn(CatalogEntry) -> bool {
    |e: CatalogEntry| mentioned_spec(str_lower(e.id@), str_lower(e.name@), str_lower(term))
}

/// Whether an id or a name, already in small letters, contains a term in small letters.
pub fn mentioned(lowered_id: &str, lowered_name: &str, lowered_term: &str) -> (r: bool)
    ensures
        r == mentioned_spec(lowered_id@, lowered_name@, lowered_term@),
{
    let t = chars_of(lowered_term);
    contains_chars(chars_of(lowered_id).as_slice(), t.as_slice()) || contains_chars(chars_of(lowered_name).as_slice(), t.as_slice())
}

/// The entries `find plugin <term>` lists, one per id.
pub open spec fn search_hits(cats: Seq<Catalog>, term: Seq<char>) -> Seq<(int, int)> {
    collect_from(cats, mentions(term), 0, 0, seq![])
}

/// Whether `needle` occurs in `hay`.
pub fn contains_chars(hay: &[char], needle: &[char]) -> (r: bool)
    ensures
        r == contains_text(hay@, needle@),
{
    if needle.len() > hay.len() {
        return false;
    }
    let mut i: usize = 0;
    while i <= hay.len() - needle.len()
        invariant
            needle.len() <= hay.len(),
            i <= hay.len() - needle.len() + 1,
            forall|k: int| 0 <= k < i ==> #[trigger] hay@.subrange(k, k + needle@.len()) != needle@,
        decreases hay.len() - needle.len() + 1 - i,
    {
        let mut j: usize = 0;
        let mut same = true;
        while j < needle.len()
            invariant
                j <= needle.len(),
                i + needle.len() <= hay.len(),
                same == (forall|m: int| 0 <= m < j ==> hay@[i + m] == needle@[m]),
            decreases needle.len() - j,
        {
            if hay[i + j] != needle[j] {
                same = false;
            }
            j = j + 1;
        }
        if same {
            assert(hay@.subrange(i as int, i + needle@.len()) =~= needle@);
            return true;
        }
        assert(hay@.subrange(i as int, i + needle@.len()) != needle@) by {
            let m = choose|m: int| 0 <= m < needle.len() && hay@[i + m] != needle@[m];
            assert(hay@.subrange(i as int, i + needle@.len())[m] != needle@[m]);
        }
        i = i + 1;
    }
    false
}

fn holds_id_exec(cats: &Vec<Catalog>, found: &Vec<(usize, usize)>, id: &str) -> (r: bool)
    requires
        forall|k: int| 0 <= k < found.len() ==> (#[trigger] found@[k]).0 < cats.len() && found@[k].1 < cats@[found@[k].0 as int].entries.len(),
    ensures
        r == holds_id(cats@, positions(found@), id@),
{
    let w = chars_of(id);
    let mut k: usize = 0;
    while k < found.len()
        invariant
            k <= found.len(),
            w@ == id@,
            forall|m: int| 0 <= m < found.len() ==> (#[trigger] found@[m]).0 < cats.len() && found@[m].1 < cats@[found@[m].0 as int].entries.len(),
            forall|m: int| 0 <= m < k ==> (#[trigger] entry_at(cats@, positions(found@)[m])).id@ != id@,
        decreases found.len() - k,
    {
        let (ci, ei) = found[k];
        let x = chars_of(cats[ci].entries[ei].id.as_str());
        assert(entry_at(cats@, positions(found@)[k as int]) == cats@[ci as int].entries@[ei as int]);
        if chars_eq(x.as_slice(), w.as_slice()) {
            return true;
        }
        k = k + 1;
    }
    false
}

/// Positions as integers.
pub open spec fn positions(found: Seq<(usize, usize)>) -> Seq<(int, int)> {
    found.map_values(|p: (usize, usize)| (p.0 as int, p.1 as int))
}

/// Which entries answer, for the ways of looking an entry up by a word.
#[derive(Debug, Clone, Copy, PartialEq, Eq, Structural)]
enum Lookup {
    /// By short name.
    Named,
    /// By a term in the id or the name.
    Mentioning,
    /// By canonical id.
    ById,
}

/// Whether an entry has the canonical id `id`.
pub open spec fn with_id(id: Seq<char>) -> spec_fn(CatalogEntry) -> bool {
    |e: CatalogEntry| e.id@ == id
}

spec fn lookup_pick(how: Lookup, word: Seq<char>) -> spec_fn(CatalogEntry) -> bool {
    match how {
        Lookup::Named => named_word(word),
        Lookup::Mentioning => mentions(word),
        Lookup::ById => with_id(word),
    }
}

impl Catalogs {
    /// The catalog with this name, the first read where two claim it.
    pub fn named(&self, name: &str) -> (r: Option<&Catalog>)
        ensures
            match catalog_named(self.catalogs@, name@) {
                Some(i) => r == Some(&self.catalogs@[i]),
                None => r is None,
            },
    {
        let w = chars_of(name);
        let mut i: usize = 0;
        while i < self.catalogs.len()
            invariant
                i <= self.catalogs.len(),
                w@ == name@,
                catalog_named(self.catalogs@, name@) == catalog_named_from(self.catalogs@, name@, i as int),
            decreases self.catalogs.len() - i,
        {
            let n = chars_of(self.catalogs[i].name.as_str());
            if chars_eq(n.as_slice(), w.as_slice()) {
                return Some(&self.catalogs[i]);
            }
            i = i + 1;
        }
        None
    }

    /// Whether a catalog named `name` may join: a catalog name is what `<catalog>/<name>`
    /// selects by, so a second document claiming a name already read is refused.
    pub fn admits(&self, name: &str) -> (r: bool)
        ensures
            r == (catalog_named(self.catalogs@, name@) is None),
    {
        self.named(name).is_none()
    }

    /// The positions of the entries answering to `word` (by short name) or mentioning it, in
    /// catalog order then entry order, each id once.
    fn collect(&self, word: &str, how: Lookup) -> (r: Vec<(usize, usize)>)
        ensures
            positions(r@) == collect_from(self.catalogs@, lookup_pick(how, word@), 0, 0, seq![]),
            forall|k: int| 0 <= k < r.len() ==> (#[trigger] r@[k]).0 < self.catalogs.len()
                && r@[k].1 < self.catalogs@[r@[k].0 as int].entries.len(),
    {
        let ghost cats = self.catalogs@;
        let ghost pick = lookup_pick(how, word@);
        let w = chars_of(word);
        let lower_word = lowercase_text(word);
        let mut found: Vec<(usize, usize)> = Vec::new();
        assert(positions(found@) =~= seq![]);
        let mut ci: usize = 0;
        while ci < self.catalogs.len()
            invariant
                ci <= self.catalogs.len(),
                cats == self.catalogs@,
                w@ == word@,
                lower_word@ == str_lower(word@),
                pick == lookup_pick(how, word@),
                collect_from(cats, pick, ci as int, 0, positions(found@)) == collect_from(cats, pick, 0, 0, seq![]),
                forall|k: int| 0 <= k < found.len() ==> (#[trigger] found@[k]).0 < cats.len()
                    && found@[k].1 < cats[found@[k].0 as int].entries.len(),
            decreases self.catalogs.len() - ci,
        {
            let entries = &self.catalogs[ci].entries;
            let mut ei: usize = 0;
            while ei < entries.len()
                invariant
                    ci < self.catalogs.len(),
                    ei <= entries.len(),
                    cats == self.catalogs@,
                    *entries == cats[ci as int].entries,
                    w@ == word@,
                    lower_word@ == str_lower(word@),
                    pick == lookup_pick(how, word@),
                    collect_from(cats, pick, ci as int, ei as int, positions(found@)) == collect_from(cats, pick, 0, 0, seq![]),
                    forall|k: int| 0 <= k < found.len() ==> (#[trigger] found@[k]).0 < cats.len()
                        && found@[k].1 < cats[found@[k].0 as int].entries.len(),
                decreases entries.len() - ei,
            {
                let e = &entries[ei];
                let picked = match how {
                    Lookup::Named => eq_str(w.as_slice(), e.name.as_str()),
                    Lookup::ById => eq_str(w.as_slice(), e.id.as_str()),
                    Lookup::Mentioning => {
                        let lid = lowercase_text(e.id.as_str());
                        let lname = lowercase_text(e.name.as_str());
                        mentioned(lid.as_str(), lname.as_str(), lower_word.as_str())
                    },
                };
                assert(picked == pick(cats[ci as int].entries@[ei as int]));
                let ghost before = positions(found@);
                if picked && !holds_id_exec(&self.catalogs, &found, e.id.as_str()) {
                    found.push((ci, ei));
                    assert(positions(found@) =~= before.push((ci as int, ei as int)));
                }
                ei = ei + 1;
            }
            ci = ci + 1;
        }
        found
    }
}

/// What a catalog-qualified reference `<catalog>/<name>` resolves to.
#[derive(Debug, Clone, PartialEq, Eq)]
pub enum QualifiedResolution {
    /// The one entry it names: the catalog's index and the entry's.
    Found { catalog: usize, entry: usize },
    /// No catalog has that name; these are the names there are.
    NoSuchCatalog { names: Vec<String> },
    /// The catalog has no entry of that name.
    NotFound,
    /// The catalog has several; each is named by its id.
    Ambiguous { candidates: Vec<Candidate> },
}

/// The positions in one catalog of the entries named `name`.
pub open spec fn entries_named(entries: Seq<CatalogEntry>, name: Seq<char>) -> Seq<int> {
    Seq::new(entries.len(), |i: int| i).filter(|i: int| entries[i].name@ == name)
}

/// What a short name resolves to across the catalogs, and what an installed package says when
/// no catalog answers.
#[derive(Debug, Clone, PartialEq, Eq)]
pub enum WordResolution {
    /// A catalog entry: the catalog's index and the entry's.
    Found { catalog: usize, entry: usize },
    /// The installed package of that canonical id.
    InstalledId,
    /// The installed package of that name.
    InstalledName,
    /// Nothing answers to it.
    NotFound,
    /// Several packages answer; each is named by `<catalog>/<name>`.
    Ambiguous { candidates: Vec<Candidate> },
}

/// The position of the first entry with id `id`, in catalog order then entry order.
pub open spec fn offered_id(cats: Seq<Catalog>, id: Seq<char>) -> Option<(int, int)> {
    let hits = collect_from(cats, with_id(id), 0, 0, seq![]);
    if hits.len() > 0 {
        Some(hits[0])
    } else {
        None
    }
}

/// The selector `<catalog>/<name>` that names the entry at `at` exactly.
pub open spec fn selector_of(cats: Seq<Catalog>, at: (int, int)) -> Seq<char> {
    cats[at.0].name@ + "/"@ + entry_at(cats, at).name@
}

impl Catalogs {
    /// What `<catalog>/<name>` resolves to.
    pub fn resolve_qualified(&self, catalog: &str, name: &str) -> (r: QualifiedResolution)
        ensures
            match catalog_named(self.catalogs@, catalog@) {
                None => (r matches QualifiedResolution::NoSuchCatalog { names } && strings_view(names@)
                    == self.catalogs@.map_values(|c: Catalog| c.name@)),
                Some(ci) => {
                    let hits = entries_named(self.catalogs@[ci].entries@, name@);
                    &&& hits.len() == 0 ==> r == QualifiedResolution::NotFound
                    &&& hits.len() == 1 ==> r == QualifiedResolution::Found { catalog: ci as usize, entry: hits[0] as usize }
                    &&& hits.len() > 1 ==> (r matches QualifiedResolution::Ambiguous { candidates } && candidates.len() == hits.len()
                        && forall|k: int| 0 <= k < hits.len() ==> {
                            let e = self.catalogs@[ci].entries@[hits[k]];
                            &&& (#[trigger] candidates@[k]).id@ == e.id@
                            &&& candidates@[k].selector@ == e.id@
                            &&& candidates@[k].description@ == e.description@
                        })
                },
            },
    {
        let w = chars_of(catalog);
        let mut ci: usize = 0;
        let mut at: Option<usize> = None;
        while ci < self.catalogs.len()
            invariant_except_break
                at is None,
            invariant
                ci <= self.catalogs.len(),
                w@ == catalog@,
                catalog_named(self.catalogs@, catalog@) == catalog_named_from(self.catalogs@, catalog@, ci as int),
            ensures
                match at {
                    Some(a) => catalog_named(self.catalogs@, catalog@) == Some(a as int) && a < self.catalogs.len(),
                    None => catalog_named(self.catalogs@, catalog@) is None,
                },
            decreases self.catalogs.len() - ci,
        {
            let n = chars_of(self.catalogs[ci].name.as_str());
            if chars_eq(n.as_slice(), w.as_slice()) {
                at = Some(ci);
                break;
            }
            ci = ci + 1;
        }
        let ci = match at {
            Some(a) => a,
            None => {
                let mut names: Vec<String> = Vec::new();
                let mut i: usize = 0;
                while i < self.catalogs.len()
                    invariant
                        i <= self.catalogs.len(),
                        strings_view(names@) == self.catalogs@.map_values(|c: Catalog| c.name@).take(i as int),
                    decreases self.catalogs.len() - i,
                {
                    let s = string_of(chars_of(self.catalogs[i].name.as_str()).as_slice());
                    let ghost before = strings_view(names@);
                    names.push(s);
                    assert(strings_view(names@) =~= before.push(s@));
                    assert(self.catalogs@.map_values(|c: Catalog| c.name@).take(i + 1) =~= self.catalogs@.map_values(
                        |c: Catalog| c.name@,
                    ).take(i as int).push(self.catalogs@[i as int].name@));
                    i = i + 1;
                }
                assert(self.catalogs@.map_values(|c: Catalog| c.name@).take(self.catalogs.len() as int)
                    =~= self.catalogs@.map_values(|c: Catalog| c.name@));
                return QualifiedResolution::NoSuchCatalog { names };
            },
        };
        let entries = &self.catalogs[ci].entries;
        let ghost all = Seq::new(entries.len() as nat, |i: int| i);
        let ghost pred = |i: int| entries@[i].name@ == name@;
        let nw = chars_of(name);
        let mut hits: Vec<usize> = Vec::new();
        let mut ei: usize = 0;
        while ei < entries.len()
            invariant
                ei <= entries.len(),
                nw@ == name@,
                all == Seq::new(entries.len() as nat, |i: int| i),
                pred == (|i: int| entries@[i].name@ == name@),
                hits@.map_values(|h: usize| h as int) == all.take(ei as int).filter(pred),
                forall|k: int| 0 <= k < hits.len() ==> (#[trigger] hits@[k]) < entries.len(),
            decreases entries.len() - ei,
        {
            let ghost before = hits@.map_values(|h: usize| h as int);
            assert(all.take(ei + 1).drop_last() =~= all.take(ei as int));
            reveal_with_fuel(Seq::filter, 1);
            if eq_str(nw.as_slice(), entries[ei].name.as_str()) {
                hits.push(ei);
                assert(hits@.map_values(|h: usize| h as int) =~= before.push(ei as int));
            }
            ei = ei + 1;
        }
        assert(all.take(entries.len() as int) =~= all);
        assert(hits@.map_values(|h: usize| h as int) == entries_named(entries@, name@));
        if hits.len() == 1 {
            assert(hits@.map_values(|h: usize| h as int)[0] == hits@[0] as int);
            return QualifiedResolution::Found { catalog: ci, entry: hits[0] };
        }
        if hits.len() == 0 {
            return QualifiedResolution::NotFound;
        }
        let mut candidates: Vec<Candidate> = Vec::new();
        let mut k: usize = 0;
        while k < hits.len()
            invariant
                k <= hits.len(),
                forall|m: int| 0 <= m < hits.len() ==> (#[trigger] hits@[m]) < entries.len(),
                candidates.len() == k,
                forall|m: int| 0 <= m < k ==> {
                    let e = entries@[hits@[m] as int];
                    &&& (#[trigger] candidates@[m]).id@ == e.id@
                    &&& candidates@[m].selector@ == e.id@
                    &&& candidates@[m].description@ == e.description@
                },
            decreases hits.len() - k,
        {
            let e = &entries[hits[k]];
            candidates.push(Candidate {
                id: string_of(chars_of(e.id.as_str()).as_slice()),
                selector: string_of(chars_of(e.id.as_str()).as_slice()),
                description: string_of(chars_of(e.description.as_str()).as_slice()),
            });
            k = k + 1;
        }
        proof {
            assert forall|m: int| 0 <= m < hits.len() implies hits@.map_values(|h: usize| h as int)[m] == hits@[m] as int by {}
        }
        QualifiedResolution::Ambiguous { candidates }
    }
}

impl Catalogs {
    /// What a bare word resolves to: an exact canonical id a catalog offers, then that id
    /// installed, then a short name naming exactly one package across the catalogs (the same
    /// id in two catalogs is one package), then a short name installed. Different ids under one
    /// name are an ambiguity nothing resolves by order. `looks_like_id` says whether the word
    /// has the shape of a canonical id; `installed_by_id` and `installed_by_name` whether an
    /// installed package answers to it.
    pub fn resolve_word(
        &self,
        word: &str,
        looks_like_id: bool,
        installed_by_id: bool,
        installed_by_name: bool,
    ) -> (r: WordResolution)
        ensures
            ({
                let cats = self.catalogs@;
                let hits = short_name_hits(cats, word@);
                if looks_like_id && offered_id(cats, word@) is Some {
                    r == WordResolution::Found {
                        catalog: offered_id(cats, word@).unwrap().0 as usize,
                        entry: offered_id(cats, word@).unwrap().1 as usize,
                    }
                } else if looks_like_id && installed_by_id {
                    r == WordResolution::InstalledId
                } else if hits.len() == 1 {
                    r == WordResolution::Found { catalog: hits[0].0 as usize, entry: hits[0].1 as usize }
                } else if hits.len() == 0 {
                    r == (if installed_by_name { WordResolution::InstalledName } else { WordResolution::NotFound })
                } else {
                    r matches WordResolution::Ambiguous { candidates } && candidates.len() == hits.len()
                        && forall|k: int| 0 <= k < hits.len() ==> {
                            let e = entry_at(cats, hits[k]);
                            &&& (#[trigger] candidates@[k]).id@ == e.id@
                            &&& candidates@[k].selector@ == selector_of(cats, hits[k])
                            &&& candidates@[k].description@ == e.description@
                        }
                }
            }),
    {
        if looks_like_id {
            let offered = self.collect(word, Lookup::ById);
            if offered.len() > 0 {
                return WordResolution::Found { catalog: offered[0].0, entry: offered[0].1 };
            }
            if installed_by_id {
                return WordResolution::InstalledId;
            }
        }
        let hits = self.collect(word, Lookup::Named);
        if hits.len() == 1 {
            return WordResolution::Found { catalog: hits[0].0, entry: hits[0].1 };
        }
        if hits.len() == 0 {
            return if installed_by_name {
                WordResolution::InstalledName
            } else {
                WordResolution::NotFound
            };
        }
        let ghost cats = self.catalogs@;
        let mut candidates: Vec<Candidate> = Vec::new();
        let mut k: usize = 0;
        while k < hits.len()
            invariant
                k <= hits.len(),
                cats == self.catalogs@,
                forall|m: int| 0 <= m < hits.len() ==> (#[trigger] hits@[m]).0 < cats.len()
                    && hits@[m].1 < cats[hits@[m].0 as int].entries.len(),
                candidates.len() == k,
                forall|m: int| 0 <= m < k ==> {
                    let e = entry_at(cats, positions(hits@)[m]);
                    &&& (#[trigger] candidates@[m]).id@ == e.id@
                    &&& candidates@[m].selector@ == selector_of(cats, positions(hits@)[m])
                    &&& candidates@[m].description@ == e.description@
                },
            decreases hits.len() - k,
        {
            let (ci, ei) = hits[k];
            let c = &self.catalogs[ci];
            let e = &c.entries[ei];
            let selector = concat(
                concat(chars_of(c.name.as_str()).as_slice(), chars_of("/").as_slice()).as_slice(),
                chars_of(e.name.as_str()).as_slice(),
            );
            candidates.push(Candidate {
                id: string_of(chars_of(e.id.as_str()).as_slice()),
                selector: string_of(selector.as_slice()),
                description: string_of(chars_of(e.description.as_str()).as_slice()),
            });
            k = k + 1;
        }
        WordResolution::Ambiguous { candidates }
    }

    /// The entries `find plugin <term>` lists: every entry whose id or name contains the term,
    /// compared in lower case, each id once, in catalog order then entry order.
    pub fn search(&self, term: &str) -> (r: Vec<(usize, usize)>)
        ensures
            positions(r@) == search_hits(self.catalogs@, term@),
            forall|k: int| 0 <= k < r.len() ==> (#[trigger] r@[k]).0 < self.catalogs.len()
                && r@[k].1 < self.catalogs@[r@[k].0 as int].entries.len(),
    {
        self.collect(term, Lookup::Mentioning)
    }
}

/// `component` under `base` as `PathBuf::join` places any component: an absolute one replaces
/// the base.
pub open spec fn join_any(base: Seq<char>, component: Seq<char>) -> Seq<char> {
    if component.len() > 0 && component[0] == '/' {
        component
    } else {
        path_join(base, component)
    }
}

/// `component` under `base`, absolute components replacing the base.
pub fn join_any_path(base: &str, component: &str) -> (r: String)
    ensures
        r@ == join_any(base@, component@),
{
    let c = chars_of(component);
    if c.len() > 0 && c[0] == '/' {
        string_of(c.as_slice())
    } else {
        join_path(base, component)
    }
}

/// A written path with `~` read as the operator's home: `~/rest` under the home, `~` the home
/// itself, anything else as written, and `~` as written where no home is known.
pub open spec fn expand_home_spec(path: Seq<char>, home: Option<Seq<char>>) -> Seq<char> {
    if starts_with(path, "~/"@) && home is Some {
        join_any(home->0, path.subrange(2, path.len() as int))
    } else if path == "~"@ {
        match home {
            Some(h) => h,
            None => path,
        }
    } else {
        path
    }
}

/// A written path with `~` read as the operator's home.
pub fn expand_home(path: &str, home: Option<&str>) -> (r: String)
    ensures
        r@ == expand_home_spec(
            path@,
            match home {
                Some(h) => Some(h@),
                None => None,
            },
        ),
{
    let p = chars_of(path);
    let tilde_slash = has_prefix(p.as_slice(), chars_of("~/").as_slice());
    proof {
        reveal_strlit("~/");
    }
    match home {
        Some(h) if tilde_slash => {
            let rest = suffix_from(p.as_slice(), 2);
            let rest_s = string_of(rest.as_slice());
            join_any_path(h, rest_s.as_str())
        },
        _ => {
            if eq_str(p.as_slice(), "~") {
                match home {
                    Some(h) => string_of(chars_of(h).as_slice()),
                    None => string_of(p.as_slice()),
                }
            } else {
                string_of(p.as_slice())
            }
        },
    }
}

/// The variable naming the local package sources, separated by `:`.
pub const SOURCES_VARIABLE: &'static str = "ONO_PLUGIN_SOURCES";

/// The variable naming the user's data directory.
pub const DATA_HOME_VARIABLE: &'static str = "XDG_DATA_HOME";

/// The variable naming the user's cache directory.
pub const CACHE_HOME_VARIABLE: &'static str = "XDG_CACHE_HOME";

/// `<dir>/ono/packages`.
pub open spec fn packages_under(dir: Seq<char>) -> Seq<char> {
    path_join(path_join(dir, SHORT_NAME@), "packages"@)
}

/// The local package sources: those `ONO_PLUGIN_SOURCES` names, split at `:`; or the user's
/// package directory (under `XDG_DATA_HOME`, else under the home's `.local/share`) and then
/// the machine's.
pub open spec fn local_sources_spec(
    sources: Option<Seq<char>>,
    data: Option<Seq<char>>,
    home: Option<Seq<char>>,
) -> Seq<Seq<char>> {
    match sources {
        Some(list) => crate::text::split_on(list, ':'),
        None => {
            let user: Seq<Seq<char>> = match data {
                Some(d) => seq![packages_under(d)],
                None => match home {
                    Some(h) => seq![packages_under(path_join(path_join(h, ".local"@), "share"@))],
                    None => seq![],
                },
            };
            user.push(packages_under("/usr/share"@))
        },
    }
}

/// The local package sources, with `env` answering the environment and `home` the operator's
/// home.
pub fn local_sources<F: Fn(&str) -> Option<String>>(env: F, home: Option<&str>) -> (r: Vec<String>)
    requires
        call_requires(env, (SOURCES_VARIABLE,)),
        call_requires(env, (DATA_HOME_VARIABLE,)),
    ensures
        exists|sources: Option<String>, data: Option<String>|
            call_ensures(env, (SOURCES_VARIABLE,), sources) && (sources is None ==> call_ensures(
                env,
                (DATA_HOME_VARIABLE,),
                data,
            )) && #[trigger] strings_view(r@) == local_sources_spec(
                opt_view(sources),
                opt_view(data),
                match home {
                    Some(h) => Some(h@),
                    None => None,
                },
            ),
{
    let sources = env(SOURCES_VARIABLE);
    match sources {
        Some(_) => {
            let r = crate::acquire::roots_from(&sources);
            assert(strings_view(r@) == local_sources_spec(
                opt_view(sources),
                opt_view(None::<String>),
                match home {
                    Some(h) => Some(h@),
                    None => None,
                },
            ));
            r
        },
        None => {
            let data = env(DATA_HOME_VARIABLE);
            let mut r: Vec<String> = Vec::new();
            match &data {
                Some(d) => {
                    let p = join_path(join_path(d.as_str(), SHORT_NAME).as_str(), "packages");
                    r.push(p);
                },
                None => match home {
                    Some(h) => {
                        let share = join_path(join_path(h, ".local").as_str(), "share");
                        let p = join_path(join_path(share.as_str(), SHORT_NAME).as_str(), "packages");
                        r.push(p);
                    },
                    None => {},
                },
            }
            let m = join_path(join_path("/usr/share", SHORT_NAME).as_str(), "packages");
            r.push(m);
            assert(strings_view(r@) =~= local_sources_spec(
                opt_view(sources),
                opt_view(data),
                match home {
                    Some(h) => Some(h@),
                    None => None,
                },
            ));
            r
        },
    }
}

/// `<dir>/ono/kuang/packages`.
pub open spec fn cache_under(dir: Seq<char>) -> Seq<char> {
    path_join(path_join(path_join(dir, SHORT_NAME@), "kuang"@), "packages"@)
}

/// The package cache a resolved release is looked for in first: under `XDG_CACHE_HOME`, else
/// under the home's `.cache`, else none.
pub open spec fn cache_dir_spec(cache: Option<Seq<char>>, home: Option<Seq<char>>) -> Option<Seq<char>> {
    match cache {
        Some(c) => Some(cache_under(c)),
        None => match home {
            Some(h) => Some(cache_under(path_join(h, ".cache"@))),
            None => None,
        },
    }
}

/// The package cache, with `env` answering the environment and `home` the operator's home.
pub fn cache_dir<F: Fn(&str) -> Option<String>>(env: F, home: Option<&str>) -> (r: Option<String>)
    requires
        call_requires(env, (CACHE_HOME_VARIABLE,)),
    ensures
        exists|cache: Option<String>|
            call_ensures(env, (CACHE_HOME_VARIABLE,), cache) && #[trigger] opt_view(r) == cache_dir_spec(
                opt_view(cache),
                match home {
                    Some(h) => Some(h@),
                    None => None,
                },
            ),
{
    let cache = env(CACHE_HOME_VARIABLE);
    let r = match &cache {
        Some(c) => Some(
            join_path(join_path(join_path(c.as_str(), SHORT_NAME).as_str(), "kuang").as_str(), "packages"),
        ),
        None => match home {
            Some(h) => {
                let base = join_path(h, ".cache");
                Some(
                    join_path(
                        join_path(join_path(base.as_str(), SHORT_NAME).as_str(), "kuang").as_str(),
                        "packages",
                    ),
                )
            },
            None => None,
        },
    };
    assert(opt_view(r) == cache_dir_spec(
        opt_view(cache),
        match home {
            Some(h) => Some(h@),
            None => None,
        },
    ));
    r
}

/// A place a release may already be unpacked: the directory, and the source reference an
/// install from it records.
pub open spec fn place(directory: Seq<char>) -> (Seq<char>, Seq<char>) {
    (directory, "path:"@ + directory)
}

/// Where a release's unpacked package is looked for, in order: the cache's `<id>/<version>`,
/// each local source's `<id>`, and the artifact itself when it is a local path.
pub open spec fn release_places_spec(
    cache: Option<Seq<char>>,
    sources: Seq<Seq<char>>,
    id: Seq<char>,
    version: Seq<char>,
    artifact: Seq<char>,
    home: Option<Seq<char>>,
) -> Seq<(Seq<char>, Seq<char>)> {
    let cached: Seq<(Seq<char>, Seq<char>)> = match cache {
        Some(c) => seq![place(join_any(join_any(c, id), version))],
        None => seq![],
    };
    let local = sources.map_values(|s: Seq<char>| place(join_any(s, id)));
    let own: Seq<(Seq<char>, Seq<char>)> = if starts_with(artifact, "path:"@) {
        seq![(expand_home_spec(artifact.subrange(5, artifact.len() as int), home), artifact)]
    } else {
        seq![]
    };
    cached + local + own
}

/// The places a release of `id` `version` whose artifact is `artifact` is looked for on this
/// machine, in order; the first whose package declares that id and version is the one used.
pub fn release_places(
    cache: Option<&str>,
    sources: &Vec<String>,
    id: &str,
    version: &str,
    artifact: &str,
    home: Option<&str>,
) -> (r: Vec<(String, String)>)
    ensures
        r@.map_values(|p: (String, String)| (p.0@, p.1@)) == release_places_spec(
            match cache {
                Some(c) => Some(c@),
                None => None,
            },
            strings_view(sources@),
            id@,
            version@,
            artifact@,
            match home {
                Some(h) => Some(h@),
                None => None,
            },
        ),
{
    let ghost pv = |p: (String, String)| (p.0@, p.1@);
    let mut r: Vec<(String, String)> = Vec::new();
    let prefix = chars_of("path:");
    proof {
        reveal_strlit("path:");
    }
    match cache {
        Some(c) => {
            let d = join_any_path(join_any_path(c, id).as_str(), version);
            let s = string_of(concat(prefix.as_slice(), chars_of(d.as_str()).as_slice()).as_slice());
            r.push((d, s));
        },
        None => {},
    }
    let ghost cached = r@.map_values(pv);
    let mut i: usize = 0;
    while i < sources.len()
        invariant
            i <= sources.len(),
            prefix@ == "path:"@,
            pv == (|p: (String, String)| (p.0@, p.1@)),
            r@.map_values(pv) == cached + strings_view(sources@).take(i as int).map_values(
                |s: Seq<char>| place(join_any(s, id@)),
            ),
        decreases sources.len() - i,
    {
        let d = join_any_path(sources[i].as_str(), id);
        let s = string_of(concat(prefix.as_slice(), chars_of(d.as_str()).as_slice()).as_slice());
        let ghost before = r@.map_values(pv);
        r.push((d, s));
        assert(r@.map_values(pv) =~= before.push(place(join_any(sources@[i as int]@, id@))));
        assert(strings_view(sources@).take(i + 1).map_values(|s: Seq<char>| place(join_any(s, id@)))
            =~= strings_view(sources@).take(i as int).map_values(|s: Seq<char>| place(join_any(s, id@))).push(
            place(join_any(sources@[i as int]@, id@)),
        ));
        i = i + 1;
    }
    assert(strings_view(sources@).take(sources.len() as int) =~= strings_view(sources@));
    let a = chars_of(artifact);
    if has_prefix(a.as_slice(), prefix.as_slice()) {
        let rest = string_of(suffix_from(a.as_slice(), 5).as_slice());
        let d = expand_home(rest.as_str(), home);
        let ghost before = r@.map_values(pv);
        r.push((d, string_of(a.as_slice())));
        assert(r@.map_values(pv) =~= before.push(
            (expand_home_spec(artifact@.subrange(5, artifact@.len() as int), match home {
                Some(h) => Some(h@),
                None => None,
            }), artifact@),
        ));
    }
    let ghost expected = release_places_spec(
        match cache {
            Some(c) => Some(c@),
            None => None,
        },
        strings_view(sources@),
        id@,
        version@,
        artifact@,
        match home {
            Some(h) => Some(h@),
            None => None,
        },
    );
    assert(r@.map_values(pv) =~= expected);
    r
}

/// Why a local release is not the one the catalog describes.
#[derive(Debug, Clone, Copy, PartialEq, Eq, Structural)]
pub enum ReleaseRefusal {
    /// The package identifies as another id than the catalog entry.
    OtherPackage,
    /// The package's digest is not the one the catalog vouches for.
    DigestMismatch,
}

/// Whether the package found for a catalog entry is the entry's release: the same id, and,
/// where the catalog vouches for a digest, that digest.
pub open spec fn release_check_spec(
    entry_id: Seq<char>,
    package_id: Seq<char>,
    expected: Option<Seq<char>>,
    actual: Seq<char>,
) -> Result<(), ReleaseRefusal> {
    if package_id != entry_id {
        Err(ReleaseRefusal::OtherPackage)
    } else {
        match expected {
            Some(d) => if d != actual {
                Err(ReleaseRefusal::DigestMismatch)
            } else {
                Ok(())
            },
            None => Ok(()),
        }
    }
}

/// Whether the package found for a catalog entry is that entry's release; `actual` is the
/// package's digest.
pub fn check_release(entry_id: &str, package_id: &str, expected: Option<&str>, actual: &str) -> (r: Result<(), ReleaseRefusal>)
    ensures
        r == release_check_spec(
            entry_id@,
            package_id@,
            match expected {
                Some(d) => Some(d@),
                None => None,
            },
            actual@,
        ),
{
    let p = chars_of(package_id);
    if !eq_str(p.as_slice(), entry_id) {
        return Err(ReleaseRefusal::OtherPackage);
    }
    match expected {
        Some(d) => {
            let x = chars_of(d);
            if !eq_str(x.as_slice(), actual) {
                Err(ReleaseRefusal::DigestMismatch)
            } else {
                Ok(())
            }
        },
        None => Ok(()),
    }
}

// --- what a refused reference is told ----------------------------------------------------------

/// Why nothing answers to a reference.
pub open spec fn not_found_message_spec(reference: Seq<char>) -> Seq<char> {
    "no installed package and no catalog entry answers to `"@ + reference + "`"@
}

/// Why nothing answers to a reference.
pub fn not_found_message(reference: &str) -> (r: String)
    ensures
        r@ == not_found_message_spec(reference@),
{
    let mut r = crate::text::joined("no installed package and no catalog entry answers to `", reference);
    crate::text::append(&mut r, "`");
    r
}

/// Why a reference several packages answer to is refused: how many, each as `id (selector)`.
pub open spec fn ambiguous_message_spec(reference: Seq<char>, candidates: Seq<Candidate>) -> Seq<char> {
    "`"@ + reference + "` names "@ + crate::keyless::decimal_spec(candidates.len()) + " packages: "@
        + crate::text::interspersed(candidates.map_values(|c: Candidate| c.id@ + " ("@ + c.selector@ + ")"@), ", "@)
}

/// Why a reference several packages answer to is refused.
pub fn ambiguous_message(reference: &str, candidates: &Vec<Candidate>) -> (r: String)
    ensures
        r@ == ambiguous_message_spec(reference@, candidates@),
{
    let ghost cv = candidates@.map_values(|c: Candidate| c.id@ + " ("@ + c.selector@ + ")"@);
    let mut parts: Vec<String> = Vec::new();
    let mut i: usize = 0;
    while i < candidates.len()
        invariant
            i <= candidates.len(),
            cv == candidates@.map_values(|c: Candidate| c.id@ + " ("@ + c.selector@ + ")"@),
            strings_view(parts@) == cv.take(i as int),
        decreases candidates.len() - i,
    {
        let mut part = crate::text::joined(candidates[i].id.as_str(), " (");
        crate::text::append(&mut part, candidates[i].selector.as_str());
        crate::text::append(&mut part, ")");
        let ghost before = strings_view(parts@);
        parts.push(part);
        assert(strings_view(parts@) =~= before.push(part@));
        i = i + 1;
        assert(cv.take(i as int) =~= cv.take(i - 1).push(cv[i - 1]));
    }
    assert(cv.take(candidates.len() as int) =~= cv);
    let mut r = crate::text::joined("`", reference);
    crate::text::append(&mut r, "` names ");
    let n = crate::keyless::decimal(candidates.len() as u64);
    crate::text::append(&mut r, string_of(n.as_slice()).as_str());
    crate::text::append(&mut r, " packages: ");
    let list = crate::text::join_with(&parts, ", ");
    assert(parts@.map_values(|p: String| p@) == strings_view(parts@));
    crate::text::append(&mut r, list.as_str());
    r
}

/// Why a `<catalog>/<name>` reference names no catalog, and the catalogs there are, each in
/// backquotes.
pub open spec fn no_catalog_spec(catalog: Seq<char>, names: Seq<Seq<char>>) -> (Seq<char>, Seq<char>) {
    (
        "no catalog is named `"@ + catalog + "`"@,
        "the catalogs are "@ + crate::text::interspersed(names.map_values(|n: Seq<char>| "`"@ + n + "`"@), ", "@),
    )
}

/// Why a `<catalog>/<name>` reference names no catalog: the message, and the help naming the
/// catalogs there are.
pub fn no_catalog_message(catalog: &str, names: &Vec<String>) -> (r: (String, String))
    ensures
        (r.0@, r.1@) == no_catalog_spec(catalog@, strings_view(names@)),
{
    let mut message = crate::text::joined("no catalog is named `", catalog);
    crate::text::append(&mut message, "`");
    let ghost nv = strings_view(names@).map_values(|n: Seq<char>| "`"@ + n + "`"@);
    let mut quoted: Vec<String> = Vec::new();
    let mut i: usize = 0;
    while i < names.len()
        invariant
            i <= names.len(),
            nv == strings_view(names@).map_values(|n: Seq<char>| "`"@ + n + "`"@),
            strings_view(quoted@) == nv.take(i as int),
        decreases names.len() - i,
    {
        let mut q = crate::text::joined("`", names[i].as_str());
        crate::text::append(&mut q, "`");
        let ghost before = strings_view(quoted@);
        quoted.push(q);
        assert(strings_view(quoted@) =~= before.push(q@));
        i = i + 1;
        assert(nv.take(i as int) =~= nv.take(i - 1).push(nv[i - 1]));
    }
    assert(nv.take(names.len() as int) =~= nv);
    let mut help = string_of(chars_of("the catalogs are ").as_slice());
    let list = crate::text::join_with(&quoted, ", ");
    assert(quoted@.map_values(|p: String| p@) == strings_view(quoted@));
    crate::text::append(&mut help, list.as_str());
    (message, help)
}

// --- laws --------------------------------------------------------------------------------------

/// Positions name entries of the catalogs, each picked, and no two with the same id.
pub open spec fn one_per_id(cats: Seq<Catalog>, pick: spec_fn(CatalogEntry) -> bool, found: Seq<(int, int)>) -> bool {
    &&& forall|k: int| 0 <= k < found.len() ==> {
        let at = #[trigger] found[k];
        &&& 0 <= at.0 < cats.len()
        &&& 0 <= at.1 < cats[at.0].entries.len()
        &&& pick(entry_at(cats, at))
    }
    &&& forall|a: int, b: int| 0 <= a < b < found.len() ==> entry_at(cats, #[trigger] found[a]).id@ != entry_at(cats, #[trigger] found[b]).id@
}

proof fn lemma_collect_one_per_id(
    cats: Seq<Catalog>,
    pick: spec_fn(CatalogEntry) -> bool,
    ci: int,
    ei: int,
    found: Seq<(int, int)>,
)
    requires
        ei >= 0,
        one_per_id(cats, pick, found),
    ensures
        one_per_id(cats, pick, collect_from(cats, pick, ci, ei, found)),
    decreases cats.len() - ci, entries_left(cats, ci, ei),
{
    if ci < 0 || ci >= cats.len() {
    } else if ei >= cats[ci].entries.len() {
        lemma_collect_one_per_id(cats, pick, ci + 1, 0, found);
    } else {
        let e = cats[ci].entries@[ei];
        if pick(e) && !holds_id(cats, found, e.id@) {
            let next = found.push((ci, ei));
            assert(entry_at(cats, (ci, ei)) == e);
            assert forall|a: int, b: int| 0 <= a < b < next.len() implies entry_at(cats, #[trigger] next[a]).id@ != entry_at(cats, #[trigger] next[b]).id@ by {
                if b == next.len() - 1 {
                    assert(next[a] == found[a]);
                    if entry_at(cats, found[a]).id@ == e.id@ {
                        assert(holds_id(cats, found, e.id@));
                    }
                } else {
                    assert(next[a] == found[a]);
                    assert(next[b] == found[b]);
                }
            }
            assert forall|k: int| 0 <= k < next.len() implies {
                let at = #[trigger] next[k];
                &&& 0 <= at.0 < cats.len()
                &&& 0 <= at.1 < cats[at.0].entries.len()
                &&& pick(entry_at(cats, at))
            } by {
                if k < found.len() {
                    assert(next[k] == found[k]);
                }
            }
            lemma_collect_one_per_id(cats, pick, ci, ei + 1, next);
        } else {
            lemma_collect_one_per_id(cats, pick, ci, ei + 1, found);
        }
    }
}

/// The same id in two catalogs is one package: the entries a short name names each answer to
/// it, and no two of them share an id, so a name is ambiguous only between different
/// packages, and never resolved by catalog order.
pub proof fn law_short_names_name_packages_once(cats: Seq<Catalog>, word: Seq<char>)
    ensures
        one_per_id(cats, named_word(word), short_name_hits(cats, word)),
{
    lemma_collect_one_per_id(cats, named_word(word), 0, 0, seq![]);
}

/// `find plugin` lists each package once, and only packages whose id or name mentions the term.
pub proof fn law_search_lists_each_package_once(cats: Seq<Catalog>, term: Seq<char>)
    ensures
        one_per_id(cats, mentions(term), search_hits(cats, term)),
{
    lemma_collect_one_per_id(cats, mentions(term), 0, 0, seq![]);
}

} // verus!
