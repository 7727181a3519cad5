//! Small decisions the shell's evaluator makes about words, types and counts.

use vstd::prelude::*;

use crate::text::{chars_of, eq_str, has_prefix, split, split_on, starts_with, trim, trimmed};

verus! {

broadcast use vstd::string::group_string_axioms;

/// A descriptor number as the process sees one: numbers above the limit cannot exist, and
/// saturating keeps a nonsensical one from wrapping into a real descriptor.
pub fn narrow_fd(number: u32) -> (r: u16)
    ensures
        r == (if number <= 65535 { number as u16 } else { 65535u16 }),
{
    if number <= 65535 {
        number as u16
    } else {
        65535u16
    }
}

/// The value model's type names.
pub open spec fn type_names() -> Seq<Seq<char>> {
    seq![
        "null"@, "bool"@, "int"@, "float"@, "decimal"@, "string"@, "bytes"@, "path"@,
        "timestamp"@, "duration"@, "bytesize"@, "percent"@, "regex"@, "uuid"@, "ip"@,
        "ipnetwork"@, "port"@, "list"@, "map"@, "record"@, "error"@
    ]
}

/// Whether `name` spells one of the value model's type names.
pub fn is_type_name(name: &str) -> (r: bool)
    ensures
        r == type_names().contains(name@),
{
    let v = chars_of(name);
    let names: [&'static str; 21] = [
        "null", "bool", "int", "float", "decimal", "string", "bytes", "path", "timestamp",
        "duration", "bytesize", "percent", "regex", "uuid", "ip", "ipnetwork", "port", "list",
        "map", "record", "error",
    ];
    let ghost all = type_names();
    assert(forall|k: int| 0 <= k < 21 ==> names@[k]@ == all[k]);
    let mut k: usize = 0;
    while k < 21
        invariant
            k <= 21,
            v@ == name@,
            all == type_names(),
            forall|j: int| 0 <= j < 21 ==> names@[j]@ == all[j],
            forall|j: int| 0 <= j < k ==> all[j] != name@,
        decreases 21 - k,
    {
        if eq_str(v.as_slice(), names[k]) {
            assert(all[k as int] == name@);
            return true;
        }
        k = k + 1;
    }
    assert(!all.contains(name@)) by {
        if all.contains(name@) {
            let j = choose|j: int| 0 <= j < all.len() && all[j] == name@;
            assert(all.len() == 21);
        }
    }
    false
}

/// Whether a character may stand in an environment variable's name.
pub open spec fn name_char(c: char) -> bool {
    ('a' <= c && c <= 'z') || ('A' <= c && c <= 'Z') || ('0' <= c && c <= '9') || c == '_'
}

/// The position of the first `=` from `i` on.
pub open spec fn first_equals(word: Seq<char>, i: int) -> Option<int>
    decreases word.len() - i,
{
    if i < 0 || i >= word.len() {
        None
    } else if word[i] == '=' {
        Some(i)
    } else {
        first_equals(word, i + 1)
    }
}

/// Whether a word spells `NAME=…`: before its first `=`, a non-empty name made of ASCII
/// letters, digits and `_`, not starting with a digit.
pub open spec fn assignment_spec(word: Seq<char>) -> bool {
    match first_equals(word, 0) {
        None => false,
        Some(e) => {
            let name = word.take(e);
            &&& name.len() > 0
            &&& (('a' <= name[0] && name[0] <= 'z') || ('A' <= name[0] && name[0] <= 'Z') || name[0] == '_')
            &&& forall|i: int| 0 <= i < name.len() ==> name_char(#[trigger] name[i])
        },
    }
}

/// Whether a word spells `NAME=…` with an environment variable's name before the `=`.
pub fn is_assignment_word(word: &str) -> (r: bool)
    ensures
        r == assignment_spec(word@),
{
    let v = chars_of(word);
    let mut eq_at: usize = 0;
    while eq_at < v.len()
        invariant
            eq_at <= v.len(),
            v@ == word@,
            first_equals(word@, 0) == first_equals(word@, eq_at as int),
        ensures
            eq_at <= v.len(),
            eq_at < v.len() ==> v@[eq_at as int] == '=',
            first_equals(word@, 0) == first_equals(word@, eq_at as int),
        decreases v.len() - eq_at,
    {
        if v[eq_at] == '=' {
            break;
        }
        eq_at = eq_at + 1;
    }
    if eq_at == v.len() {
        return false;
    }
    assert(first_equals(word@, 0) == Some(eq_at as int));
    if eq_at == 0 {
        return false;
    }
    let c0 = v[0];
    if !(('a' <= c0 && c0 <= 'z') || ('A' <= c0 && c0 <= 'Z') || c0 == '_') {
        return false;
    }
    let mut i: usize = 0;
    while i < eq_at
        invariant
            i <= eq_at,
            eq_at <= v.len(),
            v@ == word@,
            first_equals(word@, 0) == Some(eq_at as int),
            forall|j: int| 0 <= j < i ==> name_char(#[trigger] word@.take(eq_at as int)[j]),
        decreases eq_at - i,
    {
        let c = v[i];
        assert(word@.take(eq_at as int)[i as int] == c);
        if !(('a' <= c && c <= 'z') || ('A' <= c && c <= 'Z') || ('0' <= c && c <= '9') || c == '_') {
            assert(!name_char(word@.take(eq_at as int)[i as int]));
            return false;
        }
        i = i + 1;
    }
    true
}

/// Whether one alternative of a declared input type admits something other than objects.
pub open spec fn admits_bytes_alternative(a: Seq<char>) -> bool {
    ||| a == "any"@
    ||| a == "null"@
    ||| a == "string"@
    ||| a == "bytes"@
    ||| a == "value"@
    ||| starts_with(a, "string"@)
    ||| starts_with(a, "bytes"@)
}

/// Whether a declared input type, alternatives separated by `|`, admits something other than a
/// stream of objects.
pub open spec fn accepts_bytes_spec(input: Seq<char>) -> bool {
    exists|i: int|
        0 <= i < split_on(input, '|').len() && admits_bytes_alternative(
            trimmed(#[trigger] split_on(input, '|')[i]),
        )
}

/// Whether a declared input type admits something other than a stream of objects.
pub fn accepts_bytes(input: &str) -> (r: bool)
    ensures
        r == accepts_bytes_spec(input@),
{
    let parts = split(chars_of(input).as_slice(), '|');
    let ghost ps = parts@.map_values(|p: Vec<char>| p@);
    let mut i: usize = 0;
    while i < parts.len()
        invariant
            i <= parts.len(),
            ps == parts@.map_values(|p: Vec<char>| p@),
            ps == split_on(input@, '|'),
            forall|j: int| 0 <= j < i ==> !admits_bytes_alternative(trimmed(#[trigger] ps[j])),
        decreases parts.len() - i,
    {
        let a = trim(parts[i].as_slice());
        assert(ps[i as int] == parts@[i as int]@);
        let hit = eq_str(a.as_slice(), "any") || eq_str(a.as_slice(), "null") || eq_str(a.as_slice(), "string")
            || eq_str(a.as_slice(), "bytes") || eq_str(a.as_slice(), "value") || has_prefix(
            a.as_slice(),
            chars_of("string").as_slice(),
        ) || has_prefix(a.as_slice(), chars_of("bytes").as_slice());
        if hit {
            assert(admits_bytes_alternative(trimmed(split_on(input@, '|')[i as int])));
            return true;
        }
        i = i + 1;
    }
    false
}

/// `one` for a count of one, `many` for anything else.
pub fn plural(count: u64, one: &'static str, many: &'static str) -> (r: &'static str)
    ensures
        r == (if count == 1 { one } else { many }),
{
    if count == 1 {
        one
    } else {
        many
    }
}

/// The row limit a rendered table honours, from the `render.table.max_rows` setting: a
/// positive number that fits, and no limit for 0, a negative number or no setting.
pub fn table_row_limit(setting: Option<i64>) -> (r: Option<usize>)
    ensures
        r == (match setting {
            Some(rows) => if rows > 0 && rows <= usize::MAX { Some(rows as usize) } else { None },
            None => None,
        }),
{
    match setting {
        Some(rows) => {
            if rows > 0 && (rows as u64) <= (usize::MAX as u64) {
                Some(rows as usize)
            } else {
                None
            }
        },
        None => None,
    }
}

} // verus!
