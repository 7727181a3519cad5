//! Characters and strings: the small vocabulary every other module reads and writes text with.
//!
//! Text is carried as `String` at the edges and worked on as a sequence of characters inside,
//! so every contract can speak of `Seq<char>`.

use vstd::prelude::*;

verus! {

broadcast use vstd::string::group_string_axioms;

/// Appends one character to a string.
///
/// Trusted: `String::push`, which std documents as appending the character to the end.
#[verifier::external_body]
pub(crate) fn push_char(s: &mut String, c: char)
    ensures
        final(s)@ == old(s)@.push(c),
{
    s.push(c);
}

/// An optional text as plain values.
pub open spec fn opt_str(o: Option<&str>) -> Option<Seq<char>> {
    match o {
        Some(s) => Some(s@),
        None => None,
    }
}

/// The characters of `s`, in order.
pub fn chars_of(s: &str) -> (v: Vec<char>)
    ensures
        v@ == s@,
{
    let mut v: Vec<char> = Vec::new();
    for c in it: s.chars()
        invariant
            v@ == it.seq().take(it.index() as int),
            it.seq() == s@,
    {
        v.push(c);
    }
    v
}

/// The string made of `v`'s characters, in order.
pub fn string_of(v: &[char]) -> (s: String)
    ensures
        s@ == v@,
{
    let mut s = String::new();
    let mut i: usize = 0;
    while i < v.len()
        invariant
            i <= v.len(),
            s@ == v@.take(i as int),
        decreases v.len() - i,
    {
        push_char(&mut s, v[i]);
        i = i + 1;
    }
    assert(v@.take(v@.len() as int) =~= v@);
    s
}

/// Appends the characters of `t` to `s`.
pub fn append(s: &mut String, t: &str)
    ensures
        final(s)@ == old(s)@ + t@,
{
    let v = chars_of(t);
    let ghost start = s@;
    let mut i: usize = 0;
    while i < v.len()
        invariant
            i <= v.len(),
            v@ == t@,
            s@ == start + v@.take(i as int),
        decreases v.len() - i,
    {
        push_char(s, v[i]);
        i = i + 1;
        assert(start + v@.take(i as int) =~= (start + v@.take(i - 1)).push(v@[i - 1]));
    }
    assert(v@.take(v@.len() as int) =~= v@);
}

/// `a` followed by `b`.
pub fn joined(a: &str, b: &str) -> (r: String)
    ensures
        r@ == a@ + b@,
{
    let mut r = string_of(chars_of(a).as_slice());
    append(&mut r, b);
    r
}

/// `parts` one after another with `sep` between each two.
pub open spec fn interspersed(parts: Seq<Seq<char>>, sep: Seq<char>) -> Seq<char>
    decreases parts.len(),
{
    if parts.len() == 0 {
        seq![]
    } else if parts.len() == 1 {
        parts[0]
    } else {
        interspersed(parts.drop_last(), sep) + sep + parts.last()
    }
}

/// `parts` one after another with `sep` between each two, as `join` on a slice of strings.
pub fn join_with(parts: &Vec<String>, sep: &str) -> (r: String)
    ensures
        r@ == interspersed(parts@.map_values(|p: String| p@), sep@),
{
    let ghost pv = parts@.map_values(|p: String| p@);
    if parts.len() == 0 {
        return String::new();
    }
    let mut r = parts[0].clone();
    assert(pv.take(1) =~= seq![pv[0]]);
    let mut i: usize = 1;
    while i < parts.len()
        invariant
            1 <= i <= parts.len(),
            pv == parts@.map_values(|p: String| p@),
            r@ == interspersed(pv.take(i as int), sep@),
        decreases parts.len() - i,
    {
        append(&mut r, sep);
        append(&mut r, parts[i].as_str());
        i = i + 1;
        assert(pv.take(i as int).drop_last() =~= pv.take(i - 1));
    }
    assert(pv.take(parts.len() as int) =~= pv);
    r
}

/// A copy of `v`.
pub fn copy_chars(v: &[char]) -> (r: Vec<char>)
    ensures
        r@ == v@,
{
    let mut r: Vec<char> = Vec::new();
    let mut i: usize = 0;
    while i < v.len()
        invariant
            i <= v.len(),
            r@ == v@.take(i as int),
        decreases v.len() - i,
    {
        r.push(v[i]);
        i = i + 1;
    }
    assert(v@.take(v@.len() as int) =~= v@);
    r
}

/// `a` followed by `b`.
pub fn concat(a: &[char], b: &[char]) -> (r: Vec<char>)
    ensures
        r@ == a@ + b@,
{
    let mut r = copy_chars(a);
    let mut i: usize = 0;
    while i < b.len()
        invariant
            i <= b.len(),
            r@ == a@ + b@.take(i as int),
        decreases b.len() - i,
    {
        r.push(b[i]);
        i = i + 1;
        assert(a@ + b@.take(i as int) =~= (a@ + b@.take(i - 1)).push(b@[i - 1]));
    }
    assert(b@.take(b@.len() as int) =~= b@);
    r
}

/// Whether two character sequences are the same.
pub fn chars_eq(a: &[char], b: &[char]) -> (r: bool)
    ensures
        r == (a@ == b@),
{
    if a.len() != b.len() {
        return false;
    }
    let mut i: usize = 0;
    while i < a.len()
        invariant
            a.len() == b.len(),
            i <= a.len(),
            forall|j: int| 0 <= j < i ==> a@[j] == b@[j],
        decreases a.len() - i,
    {
        if a[i] != b[i] {
            return false;
        }
        i = i + 1;
    }
    assert(a@ =~= b@);
    true
}

/// Whether `v` spells the string `s`.
pub fn eq_str(v: &[char], s: &str) -> (r: bool)
    ensures
        r == (v@ == s@),
{
    let w = chars_of(s);
    chars_eq(v, w.as_slice())
}

/// Whether `c` occurs in `v`.
pub fn contains_char(v: &[char], c: char) -> (r: bool)
    ensures
        r == v@.contains(c),
{
    let mut i: usize = 0;
    while i < v.len()
        invariant
            i <= v.len(),
            forall|j: int| 0 <= j < i ==> v@[j] != c,
        decreases v.len() - i,
    {
        if v[i] == c {
            assert(v@[i as int] == c);
            return true;
        }
        i = i + 1;
    }
    false
}

/// Whether `v` begins with `prefix`.
pub open spec fn starts_with(v: Seq<char>, prefix: Seq<char>) -> bool {
    prefix.len() <= v.len() && v.take(prefix.len() as int) == prefix
}

/// Whether `v` begins with `prefix`.
pub fn has_prefix(v: &[char], prefix: &[char]) -> (r: bool)
    ensures
        r == starts_with(v@, prefix@),
{
    if prefix.len() > v.len() {
        return false;
    }
    let mut i: usize = 0;
    while i < prefix.len()
        invariant
            prefix.len() <= v.len(),
            i <= prefix.len(),
            forall|j: int| 0 <= j < i ==> v@[j] == prefix@[j],
        decreases prefix.len() - i,
    {
        if v[i] != prefix[i] {
            assert(v@.take(prefix.len() as int)[i as int] != prefix@[i as int]);
            return false;
        }
        i = i + 1;
    }
    assert(v@.take(prefix.len() as int) =~= prefix@);
    true
}

/// The characters of `v` from `from` on.
pub fn suffix_from(v: &[char], from: usize) -> (r: Vec<char>)
    requires
        from <= v.len(),
    ensures
        r@ == v@.skip(from as int),
{
    let mut r: Vec<char> = Vec::new();
    let mut i: usize = from;
    while i < v.len()
        invariant
            from <= i <= v.len(),
            r@ == v@.subrange(from as int, i as int),
        decreases v.len() - i,
    {
        r.push(v[i]);
        i = i + 1;
        assert(v@.subrange(from as int, i as int) =~= v@.subrange(from as int, i - 1).push(
            v@[i - 1],
        ));
    }
    assert(v@.subrange(from as int, v.len() as int) =~= v@.skip(from as int));
    r
}

/// The characters of `v` before `to`.
pub fn prefix_to(v: &[char], to: usize) -> (r: Vec<char>)
    requires
        to <= v.len(),
    ensures
        r@ == v@.take(to as int),
{
    let mut r: Vec<char> = Vec::new();
    let mut i: usize = 0;
    while i < to
        invariant
            i <= to <= v.len(),
            r@ == v@.take(i as int),
        decreases to - i,
    {
        r.push(v[i]);
        i = i + 1;
        assert(v@.take(i as int) =~= v@.take(i - 1).push(v@[i - 1]));
    }
    r
}

// --- character classes -------------------------------------------------------------------------

/// Unicode's `White_Space` property, which `char::is_whitespace` reads.
pub open spec fn is_ws(c: char) -> bool {
    let u = c as u32;
    ||| 0x09 <= u <= 0x0d
    ||| u == 0x20
    ||| u == 0x85
    ||| u == 0xa0
    ||| u == 0x1680
    ||| 0x2000 <= u <= 0x200a
    ||| u == 0x2028
    ||| u == 0x2029
    ||| u == 0x202f
    ||| u == 0x205f
    ||| u == 0x3000
}

/// Whether `c` is white space in Unicode's sense.
pub fn is_white_space(c: char) -> (r: bool)
    ensures
        r == is_ws(c),
{
    let u = c as u32;
    (0x09 <= u && u <= 0x0d) || u == 0x20 || u == 0x85 || u == 0xa0 || u == 0x1680 || (0x2000
        <= u && u <= 0x200a) || u == 0x2028 || u == 0x2029 || u == 0x202f || u == 0x205f || u
        == 0x3000
}

/// Unicode's `Cc` general category, which `char::is_control` reads.
pub open spec fn is_cc(c: char) -> bool {
    let u = c as u32;
    u <= 0x1f || (0x7f <= u && u <= 0x9f)
}

/// Whether `c` is a control character.
pub fn is_control_char(c: char) -> (r: bool)
    ensures
        r == is_cc(c),
{
    let u = c as u32;
    u <= 0x1f || (0x7f <= u && u <= 0x9f)
}

/// An ASCII digit.
pub open spec fn is_ascii_digit(c: char) -> bool {
    '0' <= c && c <= '9'
}

/// `c` with an ASCII capital replaced by its small letter; everything else as it is.
pub open spec fn ascii_lower(c: char) -> char {
    if 'A' <= c && c <= 'Z' {
        ((c as u32) + 32) as char
    } else {
        c
    }
}

/// `v` with every ASCII capital made small.
pub open spec fn ascii_lowercase(v: Seq<char>) -> Seq<char> {
    v.map_values(|c: char| ascii_lower(c))
}

/// `v` with every ASCII capital made small, as `str::to_ascii_lowercase` does.
pub fn to_ascii_lowercase(v: &[char]) -> (r: Vec<char>)
    ensures
        r@ == ascii_lowercase(v@),
{
    let mut r: Vec<char> = Vec::new();
    let mut i: usize = 0;
    while i < v.len()
        invariant
            i <= v.len(),
            r@ == ascii_lowercase(v@.take(i as int)),
        decreases v.len() - i,
    {
        let c = v[i];
        let lower = if 'A' <= c && c <= 'Z' {
            lower_of_capital(c)
        } else {
            c
        };
        r.push(lower);
        i = i + 1;
        assert(ascii_lowercase(v@.take(i as int)) =~= ascii_lowercase(v@.take(i - 1)).push(
            ascii_lower(v@[i - 1]),
        ));
    }
    assert(v@.take(v@.len() as int) =~= v@);
    r
}

/// The small letter of an ASCII capital.
fn lower_of_capital(c: char) -> (r: char)
    requires
        'A' <= c && c <= 'Z',
    ensures
        r == ascii_lower(c),
{
    let b: u8 = c as u8;
    assert(b as u32 == c as u32);
    ((b + 32) as char)
}

// --- trimming, splitting -----------------------------------------------------------------------

/// `v` without its leading white space.
pub open spec fn trim_start(v: Seq<char>) -> Seq<char>
    decreases v.len(),
{
    if v.len() > 0 && is_ws(v[0]) {
        trim_start(v.drop_first())
    } else {
        v
    }
}

/// `v` without its trailing white space.
pub open spec fn trim_end(v: Seq<char>) -> Seq<char>
    decreases v.len(),
{
    if v.len() > 0 && is_ws(v.last()) {
        trim_end(v.drop_last())
    } else {
        v
    }
}

/// `v` without white space at either end, as `str::trim` leaves it.
pub open spec fn trimmed(v: Seq<char>) -> Seq<char> {
    trim_end(trim_start(v))
}

proof fn lemma_trim_start_skip(v: Seq<char>, i: int)
    requires
        0 <= i <= v.len(),
        forall|j: int| 0 <= j < i ==> is_ws(v[j]),
    ensures
        trim_start(v) == trim_start(v.skip(i)),
    decreases i,
{
    if i > 0 {
        assert(v.drop_first().skip(i - 1) =~= v.skip(i));
        lemma_trim_start_skip(v.drop_first(), i - 1);
    } else {
        assert(v.skip(0) =~= v);
    }
}

proof fn lemma_trim_end_take(v: Seq<char>, i: int)
    requires
        0 <= i <= v.len(),
        forall|j: int| i <= j < v.len() ==> is_ws(v[j]),
    ensures
        trim_end(v) == trim_end(v.take(i)),
    decreases v.len() - i,
{
    if i < v.len() {
        assert(v.drop_last().take(i) =~= v.take(i));
        lemma_trim_end_take(v.drop_last(), i);
    } else {
        assert(v.take(i) =~= v);
    }
}

/// `v` without white space at either end.
pub fn trim(v: &[char]) -> (r: Vec<char>)
    ensures
        r@ == trimmed(v@),
{
    let mut start: usize = 0;
    while start < v.len() && is_white_space(v[start])
        invariant
            start <= v.len(),
            forall|j: int| 0 <= j < start ==> is_ws(v@[j]),
        decreases v.len() - start,
    {
        start = start + 1;
    }
    proof {
        lemma_trim_start_skip(v@, start as int);
    }
    let rest = suffix_from(v, start);
    assert(trim_start(rest@) == rest@);
    let mut end: usize = rest.len();
    while end > 0 && is_white_space(rest[end - 1])
        invariant
            end <= rest.len(),
            forall|j: int| end <= j < rest.len() ==> is_ws(rest@[j]),
        decreases end,
    {
        end = end - 1;
    }
    proof {
        lemma_trim_end_take(rest@, end as int);
        let t = rest@.take(end as int);
        if t.len() > 0 {
            assert(t.last() == rest@[end - 1]);
        }
    }
    prefix_to(rest.as_slice(), end)
}

/// The pieces of `v` between occurrences of `sep`, scanning from `i` with `cur` collected.
pub open spec fn split_from(v: Seq<char>, sep: char, i: int, cur: Seq<char>) -> Seq<Seq<char>>
    decreases v.len() - i,
{
    if i >= v.len() {
        seq![cur]
    } else if v[i] == sep {
        seq![cur] + split_from(v, sep, i + 1, seq![])
    } else {
        split_from(v, sep, i + 1, cur.push(v[i]))
    }
}

/// The pieces of `v` between occurrences of `sep`, as `str::split` yields them.
pub open spec fn split_on(v: Seq<char>, sep: char) -> Seq<Seq<char>> {
    split_from(v, sep, 0, seq![])
}

/// The pieces of `v` between occurrences of `sep`.
pub fn split(v: &[char], sep: char) -> (r: Vec<Vec<char>>)
    ensures
        r@.map_values(|p: Vec<char>| p@) == split_on(v@, sep),
{
    let mut out: Vec<Vec<char>> = Vec::new();
    let mut cur: Vec<char> = Vec::new();
    let mut i: usize = 0;
    while i < v.len()
        invariant
            i <= v.len(),
            out@.map_values(|p: Vec<char>| p@) + split_from(v@, sep, i as int, cur@) == split_on(
                v@,
                sep,
            ),
        decreases v.len() - i,
    {
        let ghost before = out@.map_values(|p: Vec<char>| p@);
        if v[i] == sep {
            let piece = cur;
            cur = Vec::new();
            out.push(piece);
            assert(out@.map_values(|p: Vec<char>| p@) =~= before.push(piece@));
            assert(before + split_from(v@, sep, i as int, piece@) =~= before.push(piece@)
                + split_from(v@, sep, i + 1, seq![]));
        } else {
            cur.push(v[i]);
        }
        i = i + 1;
    }
    let ghost before = out@.map_values(|p: Vec<char>| p@);
    out.push(cur);
    assert(out@.map_values(|p: Vec<char>| p@) =~= before + split_from(v@, sep, v.len() as int, cur@));
    out
}

/// The white-space separated words of `v` from `i`, with `cur` collected so far.
pub open spec fn words_from(v: Seq<char>, i: int, cur: Seq<char>) -> Seq<Seq<char>>
    decreases v.len() - i,
{
    if i >= v.len() {
        if cur.len() > 0 {
            seq![cur]
        } else {
            seq![]
        }
    } else if is_ws(v[i]) {
        (if cur.len() > 0 {
            seq![cur]
        } else {
            seq![]
        }) + words_from(v, i + 1, seq![])
    } else {
        words_from(v, i + 1, cur.push(v[i]))
    }
}

/// The white-space separated words of `v`, as `str::split_whitespace` yields them.
pub open spec fn words(v: Seq<char>) -> Seq<Seq<char>> {
    words_from(v, 0, seq![])
}

/// The white-space separated words of `v`.
pub fn split_words(v: &[char]) -> (r: Vec<Vec<char>>)
    ensures
        r@.map_values(|p: Vec<char>| p@) == words(v@),
{
    let mut out: Vec<Vec<char>> = Vec::new();
    let mut cur: Vec<char> = Vec::new();
    let mut i: usize = 0;
    while i < v.len()
        invariant
            i <= v.len(),
            out@.map_values(|p: Vec<char>| p@) + words_from(v@, i as int, cur@) == words(v@),
        decreases v.len() - i,
    {
        let ghost before = out@.map_values(|p: Vec<char>| p@);
        if is_white_space(v[i]) {
            if cur.len() > 0 {
                let piece = cur;
                cur = Vec::new();
                out.push(piece);
                assert(out@.map_values(|p: Vec<char>| p@) =~= before.push(piece@));
                assert(before + words_from(v@, i as int, piece@) =~= before.push(piece@)
                    + words_from(v@, i + 1, seq![]));
            } else {
                assert(words_from(v@, i as int, cur@) =~= words_from(v@, i + 1, seq![]));
                assert(cur@ =~= seq![]);
            }
        } else {
            cur.push(v[i]);
        }
        i = i + 1;
    }
    let ghost before = out@.map_values(|p: Vec<char>| p@);
    if cur.len() > 0 {
        out.push(cur);
        assert(out@.map_values(|p: Vec<char>| p@) =~= before + words_from(
            v@,
            v.len() as int,
            cur@,
        ));
    } else {
        assert(before + words_from(v@, v.len() as int, cur@) =~= before);
    }
    out
}


// --- case --------------------------------------------------------------------------------------

/// The characters `char::to_uppercase` yields for `c`.
pub uninterp spec fn char_upper(c: char) -> Seq<char>;

/// The characters `char::to_lowercase` yields for `c`.
pub uninterp spec fn char_lower(c: char) -> Seq<char>;

/// The string `str::to_lowercase` yields for `s`.
pub uninterp spec fn str_lower(s: Seq<char>) -> Seq<char>;

/// The capital form of `c`, as Unicode maps it.
///
/// Trusted: `char::to_uppercase`, collected; a function of the character alone, named rather
/// than restated since the mapping is Unicode's table.
#[verifier::external_body]
fn upper_of(c: char) -> (r: String)
    ensures
        r@ == char_upper(c),
{
    c.to_uppercase().collect::<String>()
}

/// The small form of `c`, as Unicode maps it.
///
/// Trusted: `char::to_lowercase`, collected; a function of the character alone, named rather
/// than restated since the mapping is Unicode's table.
#[verifier::external_body]
fn lower_of(c: char) -> (r: String)
    ensures
        r@ == char_lower(c),
{
    c.to_lowercase().collect::<String>()
}

/// `s` in small letters, as Unicode maps it.
///
/// Trusted: `str::to_lowercase`; a function of the text alone, named rather than restated since
/// the mapping is Unicode's table.
#[verifier::external_body]
pub(crate) fn lowercase_text(s: &str) -> (r: String)
    ensures
        r@ == str_lower(s@),
{
    s.to_lowercase()
}

/// `text` with its first character in capitals.
pub open spec fn capitalised(text: Seq<char>) -> Seq<char> {
    if text.len() == 0 {
        seq![]
    } else {
        char_upper(text[0]) + text.drop_first()
    }
}

/// `text` with its first character small.
pub open spec fn uncapitalised(text: Seq<char>) -> Seq<char> {
    if text.len() == 0 {
        seq![]
    } else {
        char_lower(text[0]) + text.drop_first()
    }
}

/// `text` with its first character in capitals, the rest as it is.
pub fn capitalise(text: &str) -> (r: String)
    ensures
        r@ == capitalised(text@),
{
    let v = chars_of(text);
    if v.len() == 0 {
        return String::new();
    }
    let first = chars_of(upper_of(v[0]).as_str());
    let rest = suffix_from(v.as_slice(), 1);
    assert(rest@ =~= v@.drop_first());
    string_of(concat(first.as_slice(), rest.as_slice()).as_slice())
}

/// `text` with its first character small, the rest as it is.
pub fn lowercase_first(text: &str) -> (r: String)
    ensures
        r@ == uncapitalised(text@),
{
    let v = chars_of(text);
    if v.len() == 0 {
        return String::new();
    }
    let first = chars_of(lower_of(v[0]).as_str());
    let rest = suffix_from(v.as_slice(), 1);
    assert(rest@ =~= v@.drop_first());
    string_of(concat(first.as_slice(), rest.as_slice()).as_slice())
}

} // verus!
