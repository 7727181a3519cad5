//! Word expansion, in a fixed order: escape, then tilde, then variables, then globs.
//!
//! The rule that matters most is what is *absent*: an expanded variable is never word-split and
//! never globbed. A value's content can therefore never become a command's structure.

use vstd::prelude::*;

use crate::glob;
use crate::text::{chars_of, concat, eq_str, has_prefix, split_on, starts_with, string_of};

verus! {

/// What `$name` and `~` read: the session's state at the moment a word is expanded.
#[derive(Debug, Clone)]
pub struct ExpansionScope {
    /// The home directory, when one is known.
    pub home: Option<String>,
    /// The last exit status, as its decimal text.
    pub status: String,
    /// The bindings in scope, by name, each as its canonical text.
    pub bindings: Vec<(String, String)>,
    /// The environment, by name.
    pub environment: Vec<(String, String)>,
}

/// The plain-value picture of a scope.
pub struct ScopeView {
    pub home: Option<Seq<char>>,
    pub status: Seq<char>,
    pub bindings: Seq<(Seq<char>, Seq<char>)>,
    pub environment: Seq<(Seq<char>, Seq<char>)>,
}

/// The text of a list of named texts, pair by pair.
pub open spec fn pairs_view(v: Seq<(String, String)>) -> Seq<(Seq<char>, Seq<char>)> {
    v.map_values(|p: (String, String)| (p.0@, p.1@))
}

impl View for ExpansionScope {
    type V = ScopeView;

    open spec fn view(&self) -> ScopeView {
        ScopeView {
            home: match self.home {
                Some(h) => Some(h@),
                None => None,
            },
            status: self.status@,
            bindings: pairs_view(self.bindings@),
            environment: pairs_view(self.environment@),
        }
    }
}

/// The value the first pair named `key` carries.
pub open spec fn assoc(pairs: Seq<(Seq<char>, Seq<char>)>, key: Seq<char>) -> Option<Seq<char>>
    decreases pairs.len(),
{
    if pairs.len() == 0 {
        None
    } else if pairs[0].0 == key {
        Some(pairs[0].1)
    } else {
        assoc(pairs.drop_first(), key)
    }
}

/// The value of a name, or nothing.
pub open spec fn or_empty(v: Option<Seq<char>>) -> Seq<char> {
    match v {
        Some(s) => s,
        None => seq![],
    }
}

/// `$name` resolved: `?` and `status` are the last exit status, `env.NAME` names the
/// environment explicitly, and a bare name is a binding first and the environment second.
/// Nothing is the empty text.
pub open spec fn lookup_spec(scope: ScopeView, name: Seq<char>) -> Seq<char> {
    if name == seq!['?'] || name == seq!['s', 't', 'a', 't', 'u', 's'] {
        scope.status
    } else if starts_with(name, seq!['e', 'n', 'v', '.']) {
        or_empty(assoc(scope.environment, name.skip(4)))
    } else {
        match assoc(scope.bindings, name) {
            Some(text) => text,
            None => or_empty(assoc(scope.environment, name)),
        }
    }
}

/// The value the first pair named `key` carries.
fn find_value(pairs: &Vec<(String, String)>, key: &[char]) -> (r: Option<Vec<char>>)
    ensures
        match r {
            Some(v) => assoc(pairs_view(pairs@), key@) == Some(v@),
            None => assoc(pairs_view(pairs@), key@) is None,
        },
{
    let mut i: usize = 0;
    assert(pairs_view(pairs@).skip(0) =~= pairs_view(pairs@));
    while i < pairs.len()
        invariant
            i <= pairs.len(),
            assoc(pairs_view(pairs@), key@) == assoc(pairs_view(pairs@).skip(i as int), key@),
        decreases pairs.len() - i,
    {
        let name = chars_of(pairs[i].0.as_str());
        let ghost rest = pairs_view(pairs@).skip(i as int);
        assert(rest[0] == (pairs@[i as int].0@, pairs@[i as int].1@));
        if crate::text::chars_eq(name.as_slice(), key) {
            return Some(chars_of(pairs[i].1.as_str()));
        }
        assert(rest.drop_first() =~= pairs_view(pairs@).skip(i + 1));
        i = i + 1;
    }
    assert(pairs_view(pairs@).skip(i as int).len() == 0);
    None
}

/// Resolves `$name` against `scope`.
pub fn lookup(scope: &ExpansionScope, name: &[char]) -> (r: Vec<char>)
    ensures
        r@ == lookup_spec(scope@, name@),
{
    proof {
        reveal_strlit("?");
        reveal_strlit("status");
        reveal_strlit("env.");
        assert("?"@ =~= seq!['?']);
        assert("status"@ =~= seq!['s', 't', 'a', 't', 'u', 's']);
        assert("env."@ =~= seq!['e', 'n', 'v', '.']);
    }
    if eq_str(name, "?") || eq_str(name, "status") {
        return chars_of(scope.status.as_str());
    }
    let env_prefix = chars_of("env.");
    if has_prefix(name, env_prefix.as_slice()) {
        let variable = crate::text::suffix_from(name, 4);
        return match find_value(&scope.environment, variable.as_slice()) {
            Some(value) => value,
            None => Vec::new(),
        };
    }
    match find_value(&scope.bindings, name) {
        Some(value) => value,
        None => match find_value(&scope.environment, name) {
            Some(value) => value,
            None => Vec::new(),
        },
    }
}

// --- names -------------------------------------------------------------------------------------

/// Unicode's `Alphabetic` property, as `char::is_alphabetic` answers it.
pub uninterp spec fn unicode_alphabetic(c: char) -> bool;

/// Unicode's `Alphabetic` or `Numeric` property, as `char::is_alphanumeric` answers it.
pub uninterp spec fn unicode_alphanumeric(c: char) -> bool;

/// An ASCII letter.
pub open spec fn ascii_letter(c: char) -> bool {
    ('a' <= c && c <= 'z') || ('A' <= c && c <= 'Z')
}

/// Whether `c` is alphabetic.
///
/// Trusted: `char::is_alphabetic`, a function of the character alone; its answer is named
/// rather than restated, since the property is Unicode's table. Of ASCII the table says that
/// the letters, and only they, are alphabetic.
#[verifier::external_body]
fn is_alphabetic(c: char) -> (r: bool)
    ensures
        r == unicode_alphabetic(c),
        (c as u32) < 128 ==> (r <==> ascii_letter(c)),
{
    c.is_alphabetic()
}

/// Whether `c` is alphabetic or numeric.
///
/// Trusted: `char::is_alphanumeric`, a function of the character alone; its answer is named
/// rather than restated, since the property is Unicode's table. Of ASCII the table says that
/// the letters and digits, and only they, are alphanumeric.
#[verifier::external_body]
fn is_alphanumeric(c: char) -> (r: bool)
    ensures
        r == unicode_alphanumeric(c),
        (c as u32) < 128 ==> (r <==> (ascii_letter(c) || ('0' <= c && c <= '9'))),
{
    c.is_alphanumeric()
}

/// Whether `c`, classed `alphabetic` and `alphanumeric`, may stand first (`first`) or later in
/// a bare variable name: a letter or `_` first, then letters, digits, `_` and `.`.
pub open spec fn name_char_with(alphabetic: bool, alphanumeric: bool, c: char, first: bool) -> bool {
    if first {
        alphabetic || c == '_'
    } else {
        alphanumeric || c == '_' || c == '.'
    }
}

/// Whether `c`, classed `alphabetic` and `alphanumeric`, may stand in a bare name, `first` or
/// later.
fn accepts_name_char(alphabetic: bool, alphanumeric: bool, c: char, first: bool) -> (r: bool)
    ensures
        r == name_char_with(alphabetic, alphanumeric, c, first),
{
    if first {
        alphabetic || c == '_'
    } else {
        alphanumeric || c == '_' || c == '.'
    }
}

/// Where the run of name characters starting at `from` ends, scanning at `i`, with each
/// character classed by `alphabetic` and `alphanumeric` at its position.
pub open spec fn name_run_with(
    chars: Seq<char>,
    alphabetic: Seq<bool>,
    alphanumeric: Seq<bool>,
    from: int,
    i: int,
) -> int
    decreases chars.len() - i,
{
    if i < from || i >= chars.len() || !name_char_with(alphabetic[i], alphanumeric[i], chars[i], i == from) {
        i
    } else {
        name_run_with(chars, alphabetic, alphanumeric, from, i + 1)
    }
}

/// `end` pulled back past the `.`s a name may not end with.
pub open spec fn without_dots(chars: Seq<char>, from: int, end: int) -> int
    decreases end - from,
{
    if end > from && chars[end - 1] == '.' {
        without_dots(chars, from, end - 1)
    } else {
        end
    }
}

/// The first `}` at or after `i`.
pub open spec fn first_close(chars: Seq<char>, i: int) -> Option<int>
    decreases chars.len() - i,
{
    if i < 0 || i >= chars.len() {
        None
    } else if chars[i] == '}' {
        Some(i)
    } else {
        first_close(chars, i + 1)
    }
}

/// The variable name at `from`, braced or bare, and the index just past it, with each
/// character classed by `alphabetic` and `alphanumeric`; `None` when what follows the `$` is not
/// a name.
pub open spec fn read_name_with_spec(
    chars: Seq<char>,
    alphabetic: Seq<bool>,
    alphanumeric: Seq<bool>,
    from: int,
) -> Option<(Seq<char>, int)> {
    if 0 <= from < chars.len() && chars[from] == '{' {
        match first_close(chars, from + 1) {
            Some(close) => if close > from + 1 {
                Some((chars.subrange(from + 1, close), close + 1))
            } else {
                None
            },
            None => None,
        }
    } else if 0 <= from < chars.len() && chars[from] == '?' {
        Some((seq!['?'], from + 1))
    } else {
        let end = without_dots(chars, from, name_run_with(chars, alphabetic, alphanumeric, from, from));
        if end > from {
            Some((chars.subrange(from, end), end))
        } else {
            None
        }
    }
}

/// Each character of `chars` classed as Unicode classes it: alphabetic.
pub open spec fn alphabetic_of(chars: Seq<char>) -> Seq<bool> {
    chars.map_values(|c: char| unicode_alphabetic(c))
}

/// Each character of `chars` classed as Unicode classes it: alphanumeric.
pub open spec fn alphanumeric_of(chars: Seq<char>) -> Seq<bool> {
    chars.map_values(|c: char| unicode_alphanumeric(c))
}

/// The variable name at `from`, braced or bare, and the index just past it; `None` when what
/// follows the `$` is not a name.
pub open spec fn read_name_spec(chars: Seq<char>, from: int) -> Option<(Seq<char>, int)> {
    read_name_with_spec(chars, alphabetic_of(chars), alphanumeric_of(chars), from)
}

/// Reads the variable name starting at `from`, in either the bare or the braced form, with
/// `alphabetic[i]` and `alphanumeric[i]` saying how the character at `i` is classed.
///
/// Returns the name and the index just past it, or `None` when what follows the `$` is not a
/// name — in which case nothing has been consumed and the caller keeps the text as typed.
pub fn read_name_classed(
    chars: &[char],
    alphabetic: &[bool],
    alphanumeric: &[bool],
    from: usize,
) -> (r: Option<(Vec<char>, usize)>)
    requires
        alphabetic.len() == chars.len(),
        alphanumeric.len() == chars.len(),
    ensures
        match r {
            Some((name, next)) => read_name_with_spec(chars@, alphabetic@, alphanumeric@, from as int) == Some(
                (name@, next as int),
            ),
            None => read_name_with_spec(chars@, alphabetic@, alphanumeric@, from as int) is None,
        },
        r matches Some((_, next)) ==> from < next <= chars.len(),
{
    if from > chars.len() {
        return None;
    }
    if from < chars.len() && chars[from] == '{' {
        let mut index = from + 1;
        while index < chars.len()
            invariant
                from < index <= chars.len(),
                chars@[from as int] == '{',
                first_close(chars@, from + 1) == first_close(chars@, index as int),
                forall|j: int| from < j < index ==> chars@[j] != '}',
            decreases chars.len() - index,
        {
            if chars[index] == '}' {
                if index > from + 1 {
                    let mut name: Vec<char> = Vec::new();
                    let mut k = from + 1;
                    while k < index
                        invariant
                            from + 1 <= k <= index < chars.len(),
                            name@ == chars@.subrange(from + 1, k as int),
                        decreases index - k,
                    {
                        name.push(chars[k]);
                        k = k + 1;
                        assert(chars@.subrange(from + 1, k as int) =~= chars@.subrange(
                            from + 1,
                            k - 1,
                        ).push(chars@[k - 1]));
                    }
                    return Some((name, index + 1));
                }
                return None;
            }
            index = index + 1;
        }
        return None;
    }
    if from < chars.len() && chars[from] == '?' {
        let mut name: Vec<char> = Vec::new();
        name.push('?');
        assert(name@ =~= seq!['?']);
        return Some((name, from + 1));
    }
    let mut index = from;
    while index < chars.len() && accepts_name_char(alphabetic[index], alphanumeric[index], chars[index], index == from)
        invariant
            from <= index <= chars.len(),
            alphabetic.len() == chars.len(),
            alphanumeric.len() == chars.len(),
            name_run_with(chars@, alphabetic@, alphanumeric@, from as int, from as int) == name_run_with(
                chars@,
                alphabetic@,
                alphanumeric@,
                from as int,
                index as int,
            ),
        decreases chars.len() - index,
    {
        index = index + 1;
    }
    proof {
        assert(name_run_with(chars@, alphabetic@, alphanumeric@, from as int, index as int) == index);
    }
    while index > from && chars[index - 1] == '.'
        invariant
            from <= index <= chars.len(),
            without_dots(chars@, from as int, name_run_with(chars@, alphabetic@, alphanumeric@, from as int, from as int))
                == without_dots(chars@, from as int, index as int),
        decreases index - from,
    {
        index = index - 1;
    }
    if index == from {
        return None;
    }
    let name = crate::text::prefix_to(&crate::text::suffix_from(chars, from), index - from);
    assert(name@ =~= chars@.subrange(from as int, index as int));
    Some((name, index))
}

/// Reads the variable name starting at `from`, in either the bare or the braced form: a name
/// begins with a letter or `_` and goes on with letters, digits, `_` and `.`, a trailing `.`
/// not included, letters and digits as Unicode has them.
///
/// Returns the name and the index just past it, or `None` when what follows the `$` is not a
/// name — in which case nothing has been consumed and the caller keeps the text as typed.
pub fn read_name(chars: &[char], from: usize) -> (r: Option<(Vec<char>, usize)>)
    ensures
        match r {
            Some((name, next)) => read_name_spec(chars@, from as int) == Some((name@, next as int)),
            None => read_name_spec(chars@, from as int) is None,
        },
        r matches Some((_, next)) ==> from < next <= chars.len(),
{
    let mut alphabetic: Vec<bool> = Vec::new();
    let mut alphanumeric: Vec<bool> = Vec::new();
    let mut i: usize = 0;
    while i < chars.len()
        invariant
            i <= chars.len(),
            alphabetic.len() == i,
            alphanumeric.len() == i,
            forall|j: int| 0 <= j < i ==> alphabetic@[j] == unicode_alphabetic(#[trigger] chars@[j]),
            forall|j: int| 0 <= j < i ==> alphanumeric@[j] == unicode_alphanumeric(#[trigger] chars@[j]),
        decreases chars.len() - i,
    {
        alphabetic.push(is_alphabetic(chars[i]));
        alphanumeric.push(is_alphanumeric(chars[i]));
        i = i + 1;
    }
    assert(alphabetic@ =~= alphabetic_of(chars@));
    assert(alphanumeric@ =~= alphanumeric_of(chars@));
    read_name_classed(chars, alphabetic.as_slice(), alphanumeric.as_slice(), from)
}

// --- substitution ------------------------------------------------------------------------------

/// A character that makes a word a glob.
pub open spec fn is_pattern_char(c: char) -> bool {
    c == '*' || c == '?' || c == '['
}

/// Escapes, tilde and variables applied to `chars` from `i`: the text, whether an unescaped
/// pattern character survived, and the pattern the text globs as — where every character that
/// arrived escaped, from a variable's value or from the home directory is literal.
pub open spec fn subst_from(scope: ScopeView, chars: Seq<char>, i: int) -> (Seq<char>, bool, Seq<char>)
    decreases chars.len() - i,
{
    if i < 0 || i >= chars.len() {
        (seq![], false, seq![])
    } else {
        let c = chars[i];
        if c == '\\' {
            if i + 1 < chars.len() {
                let rest = subst_from(scope, chars, i + 2);
                (seq![chars[i + 1]] + rest.0, rest.1, glob::escaped(chars[i + 1]) + rest.2)
            } else {
                subst_from(scope, chars, i + 1)
            }
        } else if c == '~' && i == 0 && (chars.len() == 1 || chars[1] == '/') {
            let rest = subst_from(scope, chars, i + 1);
            let home = match scope.home {
                Some(home) => home,
                None => seq!['~'],
            };
            (home + rest.0, rest.1, glob::escape_all(home) + rest.2)
        } else if c == '$' {
            match read_name_spec(chars, i + 1) {
                Some((name, next)) => if next > i && next <= chars.len() {
                    let rest = subst_from(scope, chars, next);
                    (lookup_spec(scope, name) + rest.0, rest.1, glob::escape_all(lookup_spec(scope, name)) + rest.2)
                } else {
                    (seq![], false, seq![])
                },
                None => {
                    let rest = subst_from(scope, chars, i + 1);
                    (seq!['$'] + rest.0, rest.1, seq!['$'] + rest.2)
                },
            }
        } else if is_pattern_char(c) {
            let rest = subst_from(scope, chars, i + 1);
            (seq![c] + rest.0, true, seq![c] + rest.2)
        } else {
            let rest = subst_from(scope, chars, i + 1);
            (seq![c] + rest.0, rest.1, seq![c] + rest.2)
        }
    }
}

/// A word after escapes, tilde and variables.
#[derive(Debug, Clone, PartialEq, Eq)]
pub struct Substitution {
    /// The text.
    pub text: String,
    /// Whether an unescaped pattern character survived: only those may drive a glob.
    pub has_pattern: bool,
    /// The pattern the text globs as: what arrived escaped, from a value or from the home
    /// directory is escaped in it, so it matches only itself.
    pub pattern: String,
}

/// Appends `c` as literal pattern text.
fn push_escaped(out: &mut Vec<char>, c: char)
    ensures
        final(out)@ == old(out)@ + glob::escaped(c),
{
    if c == '*' || c == '?' || c == '[' || c == ']' || c == '\\' || c == '!' || c == '^' || c == '-' {
        out.push('\\');
    }
    out.push(c);
    assert(out@ =~= old(out)@ + glob::escaped(c));
}

/// Appends `text` as literal pattern text.
fn append_escaped(out: &mut Vec<char>, text: &[char])
    ensures
        final(out)@ == old(out)@ + glob::escape_all(text@),
{
    let ghost start = out@;
    let mut k: usize = 0;
    while k < text.len()
        invariant
            k <= text.len(),
            out@ == start + glob::escape_all(text@.take(k as int)),
        decreases text.len() - k,
    {
        push_escaped(out, text[k]);
        assert(text@.take(k + 1).drop_last() =~= text@.take(k as int));
        assert(text@.take(k + 1).last() == text@[k as int]);
        k = k + 1;
    }
    assert(text@.take(text.len() as int) =~= text@);
}

/// Applies escapes, tilde and variables, and reports whether an *unescaped* pattern character
/// survived — only those may drive a glob, so `\*` and a `*` that arrived inside a variable's
/// value stay literal, in the pattern too.
pub fn substitute(scope: &ExpansionScope, text: &str) -> (r: Substitution)
    ensures
        r.text@ == subst_from(scope@, text@, 0).0,
        r.has_pattern == subst_from(scope@, text@, 0).1,
        r.pattern@ == subst_from(scope@, text@, 0).2,
{
    let chars = chars_of(text);
    let ghost total = subst_from(scope@, chars@, 0);
    let mut out: Vec<char> = Vec::new();
    let mut pattern: Vec<char> = Vec::new();
    let mut has_pattern = false;
    let mut index: usize = 0;
    while index < chars.len()
        invariant
            index <= chars.len(),
            chars@ == text@,
            total == subst_from(scope@, chars@, 0),
            out@ + subst_from(scope@, chars@, index as int).0 == total.0,
            pattern@ + subst_from(scope@, chars@, index as int).2 == total.2,
            (has_pattern || subst_from(scope@, chars@, index as int).1) == total.1,
        decreases chars.len() - index,
    {
        let character = chars[index];
        let ghost before = out@;
        let ghost before_pattern = pattern@;
        if character == '\\' {
            if index + 1 < chars.len() {
                out.push(chars[index + 1]);
                push_escaped(&mut pattern, chars[index + 1]);
                proof {
                    assert(before + (seq![chars@[index + 1]] + subst_from(scope@, chars@, index + 2).0)
                        =~= out@ + subst_from(scope@, chars@, index + 2).0);
                    assert(before_pattern + (glob::escaped(chars@[index + 1]) + subst_from(scope@, chars@, index + 2).2)
                        =~= pattern@ + subst_from(scope@, chars@, index + 2).2);
                }
                index = index + 2;
            } else {
                index = index + 1;
            }
        } else if character == '~' && index == 0 && (chars.len() == 1 || chars[1] == '/') {
            let piece: Vec<char> = match &scope.home {
                Some(home) => chars_of(home.as_str()),
                None => {
                    let mut t: Vec<char> = Vec::new();
                    t.push('~');
                    t
                },
            };
            out = concat(out.as_slice(), piece.as_slice());
            append_escaped(&mut pattern, piece.as_slice());
            proof {
                assert(piece@ == match scope@.home {
                    Some(home) => home,
                    None => seq!['~'],
                });
                assert(before + (piece@ + subst_from(scope@, chars@, 1).0) =~= out@ + subst_from(
                    scope@,
                    chars@,
                    1,
                ).0);
                assert(before_pattern + (glob::escape_all(piece@) + subst_from(scope@, chars@, 1).2)
                    =~= pattern@ + subst_from(scope@, chars@, 1).2);
            }
            index = index + 1;
        } else if character == '$' {
            match read_name(chars.as_slice(), index + 1) {
                Some((name, next)) => {
                    let value = lookup(scope, name.as_slice());
                    out = concat(out.as_slice(), value.as_slice());
                    append_escaped(&mut pattern, value.as_slice());
                    proof {
                        assert(before + (value@ + subst_from(scope@, chars@, next as int).0)
                            =~= out@ + subst_from(scope@, chars@, next as int).0);
                        assert(before_pattern + (glob::escape_all(value@) + subst_from(scope@, chars@, next as int).2)
                            =~= pattern@ + subst_from(scope@, chars@, next as int).2);
                    }
                    index = next;
                },
                None => {
                    out.push('$');
                    pattern.push('$');
                    proof {
                        assert(before + (seq!['$'] + subst_from(scope@, chars@, index + 1).0)
                            =~= out@ + subst_from(scope@, chars@, index + 1).0);
                        assert(before_pattern + (seq!['$'] + subst_from(scope@, chars@, index + 1).2)
                            =~= pattern@ + subst_from(scope@, chars@, index + 1).2);
                    }
                    index = index + 1;
                },
            }
        } else {
            if character == '*' || character == '?' || character == '[' {
                has_pattern = true;
            }
            out.push(character);
            pattern.push(character);
            proof {
                assert(before + (seq![character] + subst_from(scope@, chars@, index + 1).0)
                    =~= out@ + subst_from(scope@, chars@, index + 1).0);
                assert(before_pattern + (seq![character] + subst_from(scope@, chars@, index + 1).2)
                    =~= pattern@ + subst_from(scope@, chars@, index + 1).2);
            }
            index = index + 1;
        }
    }
    assert(out@ + seq![] =~= out@);
    assert(pattern@ + seq![] =~= pattern@);
    Substitution { text: string_of(out.as_slice()), has_pattern, pattern: string_of(pattern.as_slice()) }
}

// --- expansion results -------------------------------------------------------------------------

/// Why a word did not expand.
#[derive(Debug, Clone, PartialEq, Eq)]
pub enum ExpandError {
    /// A pattern matched no path; it is refused rather than passed on as a filename.
    NoMatch {
        /// The pattern, after substitution.
        pattern: String,
    },
    /// A word used where one path is needed named another number of paths.
    NotOnePath {
        /// The word as written.
        text: String,
        /// How many paths it named.
        count: usize,
    },
}

/// The arguments a substituted word contributes: itself when no pattern survived, else the
/// paths the pattern matched — and none is a refusal.
pub fn expansion_of(literal: String, has_pattern: bool, matched: Vec<String>) -> (r: Result<
    Vec<String>,
    ExpandError,
>)
    ensures
        !has_pattern ==> (r matches Ok(v) && v@ == seq![literal]),
        has_pattern && matched.len() == 0 ==> r == Err::<Vec<String>, ExpandError>(
            ExpandError::NoMatch { pattern: literal },
        ),
        has_pattern && matched.len() > 0 ==> r == Ok::<Vec<String>, ExpandError>(matched),
{
    if !has_pattern {
        return Ok(vec![literal]);
    }
    if matched.len() == 0 {
        return Err(ExpandError::NoMatch { pattern: literal });
    }
    Ok(matched)
}

/// A word used where exactly one path is required, such as a redirection target.
pub fn exactly_one(text: String, expanded: Vec<String>) -> (r: Result<String, ExpandError>)
    ensures
        expanded.len() == 1 ==> r == Ok::<String, ExpandError>(expanded[0]),
        expanded.len() != 1 ==> r == Err::<String, ExpandError>(
            ExpandError::NotOnePath { text, count: expanded.len() },
        ),
{
    if expanded.len() == 1 {
        let mut expanded = expanded;
        return Ok(expanded.remove(0));
    }
    Err(ExpandError::NotOnePath { text, count: expanded.len() })
}

// --- globbing, one component at a time ---------------------------------------------------------

/// `component` placed after `prefix` as a printed path: alone when there is no prefix or the
/// pattern is relative and this is its first component, after `/` at the root, else after a `/`.
pub open spec fn join_spec(prefix: Seq<char>, component: Seq<char>, bare: bool) -> Seq<char> {
    if prefix.len() == 0 || bare {
        component
    } else if prefix == seq!['/'] {
        seq!['/'] + component
    } else {
        prefix + seq!['/'] + component
    }
}

/// Joins a path prefix and one component.
pub fn join(prefix: &str, component: &str, bare: bool) -> (r: String)
    ensures
        r@ == join_spec(prefix@, component@, bare),
{
    let p = chars_of(prefix);
    let c = chars_of(component);
    if p.len() == 0 || bare {
        return string_of(c.as_slice());
    }
    let mut slash: Vec<char> = Vec::new();
    slash.push('/');
    if crate::text::chars_eq(p.as_slice(), slash.as_slice()) {
        let r = concat(slash.as_slice(), c.as_slice());
        return string_of(r.as_slice());
    }
    let with_slash = concat(p.as_slice(), slash.as_slice());
    let r = concat(with_slash.as_slice(), c.as_slice());
    string_of(r.as_slice())
}

/// Whether a component holds an unescaped pattern character, skipping what a `\` escapes.
pub open spec fn has_pattern_from(v: Seq<char>, i: int) -> bool
    decreases v.len() - i,
{
    if i < 0 || i >= v.len() {
        false
    } else if v[i] == '\\' {
        if i + 1 < v.len() {
            has_pattern_from(v, i + 2)
        } else {
            false
        }
    } else if is_pattern_char(v[i]) {
        true
    } else {
        has_pattern_from(v, i + 1)
    }
}

/// Whether `component` holds an unescaped `*`, `?` or `[`.
pub fn is_pattern(component: &str) -> (r: bool)
    ensures
        r == has_pattern_from(component@, 0),
{
    let chars = chars_of(component);
    let mut i: usize = 0;
    while i < chars.len()
        invariant
            i <= chars.len() + 1,
            chars@ == component@,
            has_pattern_from(chars@, 0) == has_pattern_from(chars@, i as int),
        decreases chars.len() + 1 - i,
    {
        let c = chars[i];
        if c == '\\' {
            if i + 1 < chars.len() {
                i = i + 2;
            } else {
                return false;
            }
        } else if c == '*' || c == '?' || c == '[' {
            return true;
        } else {
            i = i + 1;
        }
    }
    false
}

/// The names in `names` that `component` matches, in the order given.
pub fn matching_names(component: &str, names: &Vec<String>) -> (r: Vec<String>)
    ensures
        r@.map_values(|s: String| s@) == names@.map_values(|s: String| s@).filter(
            |n: Seq<char>| glob::glob_matches(component@, n),
        ),
{
    let pattern = chars_of(component);
    let mut out: Vec<String> = Vec::new();
    let mut i: usize = 0;
    let ghost pred = |n: Seq<char>| glob::glob_matches(component@, n);
    while i < names.len()
        invariant
            i <= names.len(),
            pattern@ == component@,
            pred == (|n: Seq<char>| glob::glob_matches(component@, n)),
            out@.map_values(|s: String| s@) == names@.map_values(|s: String| s@).take(
                i as int,
            ).filter(pred),
        decreases names.len() - i,
    {
        let name = chars_of(names[i].as_str());
        let ghost all = names@.map_values(|s: String| s@);
        assert(all.take(i + 1).drop_last() =~= all.take(i as int));
        reveal_with_fuel(Seq::filter, 1);
        if glob::matches(pattern.as_slice(), name.as_slice()) {
            out.push(names[i].clone());
        }
        i = i + 1;
        assert(out@.map_values(|s: String| s@) =~= all.take(i as int).filter(pred));
    }
    assert(names@.map_values(|s: String| s@).take(names.len() as int) =~= names@.map_values(
        |s: String| s@,
    ));
    out
}

// --- the walk of a pattern over the directories ------------------------------------------------

/// `v` with each `\` dropped and the character after it kept: the text a literal component names.
pub open spec fn unescape_spec(v: Seq<char>) -> Seq<char>
    decreases v.len(),
{
    if v.len() == 0 {
        seq![]
    } else if v[0] == '\\' && v.len() > 1 {
        seq![v[1]] + unescape_spec(v.skip(2))
    } else {
        seq![v[0]] + unescape_spec(v.skip(1))
    }
}

/// The text a component without an unescaped pattern character names.
pub fn unescape(v: &[char]) -> (r: Vec<char>)
    ensures
        r@ == unescape_spec(v@),
{
    let mut out: Vec<char> = Vec::new();
    let mut i: usize = 0;
    assert(v@.skip(0) =~= v@);
    while i < v.len()
        invariant
            i <= v.len(),
            out@ + unescape_spec(v@.skip(i as int)) == unescape_spec(v@),
        decreases v.len() - i,
    {
        let ghost rest = v@.skip(i as int);
        let ghost before = out@;
        if v[i] == '\\' && i + 1 < v.len() {
            out.push(v[i + 1]);
            assert(rest.skip(2) =~= v@.skip(i + 2));
            assert(before + (seq![rest[1]] + unescape_spec(rest.skip(2))) =~= out@ + unescape_spec(v@.skip(i + 2)));
            i = i + 2;
        } else {
            out.push(v[i]);
            assert(rest.skip(1) =~= v@.skip(i + 1));
            assert(before + (seq![rest[0]] + unescape_spec(rest.skip(1))) =~= out@ + unescape_spec(v@.skip(i + 1)));
            i = i + 1;
        }
    }
    assert(v@.skip(i as int).len() == 0);
    assert(out@ + seq![] =~= out@);
    out
}

/// One component of a pattern as the walk takes it: the root, a name to join as it is, or a
/// pattern to match against what a directory holds.
#[derive(Debug, Clone, PartialEq, Eq)]
pub enum GlobComponent {
    Root,
    Literal(String),
    Pattern(String),
}

/// A component as plain values.
pub enum ComponentView {
    Root,
    Literal(Seq<char>),
    Pattern(Seq<char>),
}

impl View for GlobComponent {
    type V = ComponentView;

    open spec fn view(&self) -> ComponentView {
        match self {
            GlobComponent::Root => ComponentView::Root,
            GlobComponent::Literal(t) => ComponentView::Literal(t@),
            GlobComponent::Pattern(t) => ComponentView::Pattern(t@),
        }
    }
}

/// Whether the `j`-th piece between `/`s is a component: not empty, and not a `.` except a
/// leading one of a relative pattern.
pub open spec fn piece_kept(pieces: Seq<Seq<char>>, j: int, absolute: bool) -> bool {
    pieces[j].len() > 0 && (pieces[j] != seq!['.'] || (j == 0 && !absolute))
}

/// A piece as a component: a pattern when an unescaped pattern character is in it, else the name
/// it spells.
pub open spec fn piece_component(piece: Seq<char>) -> ComponentView {
    if has_pattern_from(piece, 0) {
        ComponentView::Pattern(piece)
    } else {
        ComponentView::Literal(unescape_spec(piece))
    }
}

/// The components of the first `j` pieces.
pub open spec fn pieces_upto(pieces: Seq<Seq<char>>, j: int, absolute: bool) -> Seq<ComponentView>
    decreases j,
{
    if j <= 0 || j > pieces.len() {
        seq![]
    } else {
        let rest = pieces_upto(pieces, j - 1, absolute);
        if piece_kept(pieces, j - 1, absolute) {
            rest.push(piece_component(pieces[j - 1]))
        } else {
            rest
        }
    }
}

/// Whether a pattern is absolute.
pub open spec fn absolute_spec(pattern: Seq<char>) -> bool {
    pattern.len() > 0 && pattern[0] == '/'
}

/// The components of a pattern, as a path reads them: the root when it is absolute, then each
/// piece between `/`s, empty ones and any `.` but a leading one left out.
pub open spec fn components_spec(pattern: Seq<char>) -> Seq<ComponentView> {
    let absolute = absolute_spec(pattern);
    let pieces = split_on(pattern, '/');
    (if absolute { seq![ComponentView::Root] } else { seq![] }) + pieces_upto(pieces, pieces.len() as int, absolute)
}

/// The components of a pattern, as a path reads them.
pub fn glob_components(pattern: &str) -> (r: Vec<GlobComponent>)
    ensures
        r@.map_values(|c: GlobComponent| c@) == components_spec(pattern@),
{
    let chars = chars_of(pattern);
    let absolute = chars.len() > 0 && chars[0] == '/';
    let pieces = crate::text::split(chars.as_slice(), '/');
    let ghost pv = pieces@.map_values(|p: Vec<char>| p@);
    let mut out: Vec<GlobComponent> = Vec::new();
    if absolute {
        out.push(GlobComponent::Root);
    }
    let ghost head = out@.map_values(|c: GlobComponent| c@);
    assert(head =~= (if absolute { seq![ComponentView::Root] } else { Seq::<ComponentView>::empty() }));
    let mut j: usize = 0;
    while j < pieces.len()
        invariant
            j <= pieces.len(),
            pv == pieces@.map_values(|p: Vec<char>| p@),
            absolute == absolute_spec(pattern@),
            chars@ == pattern@,
            out@.map_values(|c: GlobComponent| c@) == head + pieces_upto(pv, j as int, absolute),
        decreases pieces.len() - j,
    {
        let piece = &pieces[j];
        assert(pv[j as int] == piece@);
        let dot = piece.len() == 1 && piece[0] == '.';
        assert(dot == (piece@ == seq!['.'])) by {
            if piece@ == seq!['.'] {
                assert(piece@[0] == '.');
            }
            if dot {
                assert(piece@ =~= seq!['.']);
            }
        }
        let ghost before = out@.map_values(|c: GlobComponent| c@);
        if piece.len() > 0 && (!dot || (j == 0 && !absolute)) {
            let text = string_of(piece.as_slice());
            let c = if is_pattern(text.as_str()) {
                GlobComponent::Pattern(text)
            } else {
                GlobComponent::Literal(string_of(unescape(piece.as_slice()).as_slice()))
            };
            out.push(c);
            assert(out@.map_values(|c: GlobComponent| c@) =~= before.push(piece_component(pv[j as int])));
        }
        j = j + 1;
    }
    out
}

/// The paths, in order, that `names` in the directory of `prefix` give for `pattern`.
pub open spec fn matched_paths(prefix: Seq<char>, pattern: Seq<char>, bare: bool, names: Seq<Seq<char>>) -> Seq<Seq<char>> {
    names.filter(|n: Seq<char>| glob::glob_matches(pattern, n)).map_values(|n: Seq<char>| join_spec(prefix, n, bare))
}

/// What the first `i` prefixes give for `pattern`: each one's listing matched, a prefix whose
/// directory could not be listed giving nothing.
pub open spec fn pattern_step_upto(
    prefixes: Seq<Seq<char>>,
    pattern: Seq<char>,
    bare: bool,
    listings: Seq<Option<Seq<Seq<char>>>>,
    i: int,
) -> Seq<Seq<char>>
    decreases i,
{
    if i <= 0 || i > prefixes.len() {
        seq![]
    } else {
        pattern_step_upto(prefixes, pattern, bare, listings, i - 1) + match (if i - 1 < listings.len() { listings[i - 1] } else { None }) {
            Some(names) => matched_paths(prefixes[i - 1], pattern, bare, names),
            None => seq![],
        }
    }
}

/// The paths after one more component: the root alone after the root; each prefix with a literal
/// name joined on; each prefix's listing matched against a pattern. The first component of a
/// relative pattern stands alone.
pub open spec fn step_spec(
    prefixes: Seq<Seq<char>>,
    component: ComponentView,
    first: bool,
    absolute: bool,
    listings: Seq<Option<Seq<Seq<char>>>>,
) -> Seq<Seq<char>> {
    let bare = first && !absolute;
    match component {
        ComponentView::Root => seq![seq!['/']],
        ComponentView::Literal(name) => prefixes.map_values(|p: Seq<char>| join_spec(p, name, bare)),
        ComponentView::Pattern(pattern) => pattern_step_upto(prefixes, pattern, bare, listings, prefixes.len() as int),
    }
}

/// Listings as plain values.
pub open spec fn listings_view(v: Seq<Option<Vec<String>>>) -> Seq<Option<Seq<Seq<char>>>> {
    v.map_values(|l: Option<Vec<String>>| match l {
        Some(names) => Some(names@.map_values(|s: String| s@)),
        None => None,
    })
}

/// The paths after one more component. `listings[i]` is what the directory of `prefixes[i]`
/// holds, or `None` when it cannot be listed; only a pattern reads them.
pub fn glob_step(
    prefixes: &Vec<String>,
    component: &GlobComponent,
    first: bool,
    absolute: bool,
    listings: &Vec<Option<Vec<String>>>,
) -> (r: Vec<String>)
    ensures
        r@.map_values(|s: String| s@) == step_spec(
            prefixes@.map_values(|s: String| s@),
            component@,
            first,
            absolute,
            listings_view(listings@),
        ),
{
    let ghost pv = prefixes@.map_values(|s: String| s@);
    let bare = first && !absolute;
    let mut out: Vec<String> = Vec::new();
    match component {
        GlobComponent::Root => {
            proof {
                reveal_strlit("/");
                assert("/"@ =~= seq!['/']);
            }
            out.push(string_of(chars_of("/").as_slice()));
            assert(out@.map_values(|s: String| s@) =~= seq![seq!['/']]);
        },
        GlobComponent::Literal(name) => {
            let mut i: usize = 0;
            while i < prefixes.len()
                invariant
                    i <= prefixes.len(),
                    pv == prefixes@.map_values(|s: String| s@),
                    bare == (first && !absolute),
                    out@.map_values(|s: String| s@) == pv.take(i as int).map_values(|p: Seq<char>| join_spec(p, name@, bare)),
                decreases prefixes.len() - i,
            {
                let j = join(prefixes[i].as_str(), name.as_str(), bare);
                let ghost before = out@.map_values(|s: String| s@);
                out.push(j);
                assert(out@.map_values(|s: String| s@) =~= before.push(j@));
                assert(pv.take(i + 1).map_values(|p: Seq<char>| join_spec(p, name@, bare)) =~= pv.take(i as int).map_values(
                    |p: Seq<char>| join_spec(p, name@, bare),
                ).push(join_spec(pv[i as int], name@, bare)));
                i = i + 1;
            }
            assert(pv.take(prefixes.len() as int) =~= pv);
        },
        GlobComponent::Pattern(pattern) => {
            let ghost lv = listings_view(listings@);
            let mut i: usize = 0;
            while i < prefixes.len()
                invariant
                    i <= prefixes.len(),
                    pv == prefixes@.map_values(|s: String| s@),
                    lv == listings_view(listings@),
                    bare == (first && !absolute),
                    out@.map_values(|s: String| s@) == pattern_step_upto(pv, pattern@, bare, lv, i as int),
                decreases prefixes.len() - i,
            {
                let ghost before = out@.map_values(|s: String| s@);
                if i < listings.len() {
                    match &listings[i] {
                        Some(names) => {
                            let matched = matching_names(pattern.as_str(), names);
                            let ghost mv = matched@.map_values(|s: String| s@);
                            let mut k: usize = 0;
                            while k < matched.len()
                                invariant
                                    k <= matched.len(),
                                    mv == matched@.map_values(|s: String| s@),
                                    out@.map_values(|s: String| s@) == before + mv.take(k as int).map_values(
                                        |n: Seq<char>| join_spec(pv[i as int], n, bare),
                                    ),
                                    i < prefixes.len(),
                                    pv == prefixes@.map_values(|s: String| s@),
                                decreases matched.len() - k,
                            {
                                let j = join(prefixes[i].as_str(), matched[k].as_str(), bare);
                                let ghost b2 = out@.map_values(|s: String| s@);
                                out.push(j);
                                assert(out@.map_values(|s: String| s@) =~= b2.push(j@));
                                assert(mv.take(k + 1).map_values(|n: Seq<char>| join_spec(pv[i as int], n, bare)) =~= mv.take(
                                    k as int,
                                ).map_values(|n: Seq<char>| join_spec(pv[i as int], n, bare)).push(join_spec(pv[i as int], mv[k as int], bare)));
                                k = k + 1;
                            }
                            assert(mv.take(matched.len() as int) =~= mv);
                            assert(lv[i as int] == Some(names@.map_values(|s: String| s@)));
                        },
                        None => {
                            assert(lv[i as int] is None);
                            assert(out@.map_values(|s: String| s@) =~= before + Seq::<Seq<char>>::empty());
                        },
                    }
                } else {
                    assert(out@.map_values(|s: String| s@) =~= before + Seq::<Seq<char>>::empty());
                }
                i = i + 1;
            }
        },
    }
    out
}

/// The paths a finished walk names: every one that is not empty.
pub fn walked_paths(prefixes: Vec<String>) -> (r: Vec<String>)
    ensures
        r@.map_values(|s: String| s@) == prefixes@.map_values(|s: String| s@).filter(|p: Seq<char>| p.len() > 0),
{
    let ghost pv = prefixes@.map_values(|s: String| s@);
    let mut out: Vec<String> = Vec::new();
    let mut i: usize = 0;
    while i < prefixes.len()
        invariant
            i <= prefixes.len(),
            pv == prefixes@.map_values(|s: String| s@),
            out@.map_values(|s: String| s@) == pv.take(i as int).filter(|p: Seq<char>| p.len() > 0),
        decreases prefixes.len() - i,
    {
        assert(pv.take(i + 1).drop_last() =~= pv.take(i as int));
        reveal_with_fuel(Seq::filter, 1);
        if chars_of(prefixes[i].as_str()).len() > 0 {
            let ghost before = out@.map_values(|s: String| s@);
            out.push(string_of(chars_of(prefixes[i].as_str()).as_slice()));
            assert(out@.map_values(|s: String| s@) =~= before.push(pv[i as int]));
        }
        i = i + 1;
    }
    assert(pv.take(prefixes.len() as int) =~= pv);
    out
}

// --- laws --------------------------------------------------------------------------------------

proof fn lemma_flag_ignores_scope(s1: ScopeView, s2: ScopeView, chars: Seq<char>, i: int)
    ensures
        subst_from(s1, chars, i).1 == subst_from(s2, chars, i).1,
    decreases chars.len() - i,
{
    if 0 <= i < chars.len() {
        let c = chars[i];
        if c == '\\' {
            if i + 1 < chars.len() {
                lemma_flag_ignores_scope(s1, s2, chars, i + 2);
            } else {
                lemma_flag_ignores_scope(s1, s2, chars, i + 1);
            }
        } else if c == '~' && i == 0 && (chars.len() == 1 || chars[1] == '/') {
            lemma_flag_ignores_scope(s1, s2, chars, i + 1);
        } else if c == '$' {
            match read_name_spec(chars, i + 1) {
                Some((name, next)) => {
                    if next > i && next <= chars.len() {
                        lemma_flag_ignores_scope(s1, s2, chars, next);
                    }
                },
                None => {
                    lemma_flag_ignores_scope(s1, s2, chars, i + 1);
                },
            }
        } else {
            lemma_flag_ignores_scope(s1, s2, chars, i + 1);
        }
    }
}

/// A value's content never becomes a command's structure: whether a word globs after
/// substitution does not depend on what any variable, or the home directory, holds.
pub proof fn law_values_never_glob(s1: ScopeView, s2: ScopeView, text: Seq<char>)
    ensures
        subst_from(s1, text, 0).1 == subst_from(s2, text, 0).1,
{
    lemma_flag_ignores_scope(s1, s2, text, 0);
}

} // verus!
