//! Glob matching: `*`, `?` and `[…]`, with a leading `.` matched only by
//! a literal `.`, and `**` no different from `*`. A `\` makes the character after it literal,
//! inside a class too, so a character that reached a pattern as text matches only itself.
//!
//! The matcher is iterative with one backtrack point, so a pathological pattern costs neither
//! the stack nor the clock; its contract is the plain recursive reading of the pattern.

use vstd::prelude::*;

verus! {

// --- the meaning of a pattern ------------------------------------------------------------------

/// Scans a `[…]` class from `index`, with `found` what matched so far: where the class ends and
/// whether `c` is in it (`!=` `negated`), or `None` when the class is never closed.
pub open spec fn class_scan(
    pat: Seq<char>,
    index: int,
    first: bool,
    found: bool,
    c: char,
    negated: bool,
) -> Option<(int, bool)>
    decreases pat.len() - index,
{
    if index < 0 || index >= pat.len() {
        None
    } else if pat[index] == ']' && !first {
        Some((index + 1, found != negated))
    } else if pat[index] == '\\' && index + 1 < pat.len() {
        class_scan(pat, index + 2, false, found || pat[index + 1] == c, c, negated)
    } else if index + 2 < pat.len() && pat[index + 1] == '-' && pat[index + 2] != ']' {
        class_scan(
            pat,
            index + 3,
            false,
            found || ((pat[index] as u32) <= (c as u32) && (c as u32) <= (pat[index + 2] as u32)),
            c,
            negated,
        )
    } else {
        class_scan(pat, index + 1, false, found || pat[index] == c, c, negated)
    }
}

/// Whether the class opening at `open` is negated by `!` or `^`.
pub open spec fn class_negated(pat: Seq<char>, open: int) -> bool {
    open + 1 < pat.len() && (pat[open + 1] == '!' || pat[open + 1] == '^')
}

/// The class opening at `open`, tried on `c`.
pub open spec fn class_spec(pat: Seq<char>, open: int, c: char) -> Option<(int, bool)> {
    let negated = class_negated(pat, open);
    class_scan(pat, if negated { open + 2 } else { open + 1 }, true, false, c, negated)
}

/// Where the class opening at `open` ends, whatever it is tried on.
pub open spec fn class_end(pat: Seq<char>, open: int) -> Option<int> {
    match class_spec(pat, open, ' ') {
        Some((end, _)) => Some(end),
        None => None,
    }
}

/// Where the token at `p` ends.
pub open spec fn tok_next(pat: Seq<char>, p: int) -> int {
    if pat[p] == '\\' && p + 1 < pat.len() {
        p + 2
    } else if pat[p] == '[' {
        match class_end(pat, p) {
            Some(end) => end,
            None => p + 1,
        }
    } else {
        p + 1
    }
}

/// Whether the token at `p` — an escaped character, a `?`, a class or a literal — admits `c`.
/// An escaped character admits itself alone; an unclosed class is a literal `[`: it admits `[`
/// alone and takes one character of the pattern; a `\` that ends the pattern is literal.
pub open spec fn tok_matches(pat: Seq<char>, p: int, c: char) -> bool {
    if pat[p] == '\\' && p + 1 < pat.len() {
        pat[p + 1] == c
    } else if pat[p] == '?' {
        true
    } else if pat[p] == '[' {
        match class_spec(pat, p, c) {
            Some((_, admitted)) => admitted,
            None => c == '[',
        }
    } else {
        pat[p] == c
    }
}

/// Whether `pat` from `p` matches `name` from `n`: `*` any run, every other token one character.
pub open spec fn glob_from(pat: Seq<char>, p: int, name: Seq<char>, n: int) -> bool
    decreases name.len() - n, pat.len() - p,
{
    if p < 0 || n < 0 || n > name.len() {
        false
    } else if p >= pat.len() {
        n == name.len()
    } else if pat[p] == '*' {
        glob_from(pat, p + 1, name, n) || (n < name.len() && glob_from(pat, p, name, n + 1))
    } else {
        n < name.len() && tok_matches(pat, p, name[n]) && tok_next(pat, p) > p && glob_from(
            pat,
            tok_next(pat, p),
            name,
            n + 1,
        )
    }
}

/// Whether `name` matches `pat`: a hidden name needs a pattern that begins with a literal `.`.
pub open spec fn glob_matches(pat: Seq<char>, name: Seq<char>) -> bool {
    if name.len() > 0 && name[0] == '.' && !(pat.len() > 0 && pat[0] == '.') {
        false
    } else {
        glob_from(pat, 0, name, 0)
    }
}

// --- facts about the meaning -------------------------------------------------------------------

proof fn lemma_class_scan_end(
    pat: Seq<char>,
    index: int,
    first: bool,
    f1: bool,
    f2: bool,
    c1: char,
    c2: char,
    negated: bool,
)
    ensures
        class_scan(pat, index, first, f1, c1, negated) is Some <==> class_scan(
            pat,
            index,
            first,
            f2,
            c2,
            negated,
        ) is Some,
        class_scan(pat, index, first, f1, c1, negated) is Some ==> class_scan(
            pat,
            index,
            first,
            f1,
            c1,
            negated,
        ).unwrap().0 == class_scan(pat, index, first, f2, c2, negated).unwrap().0,
        class_scan(pat, index, first, f1, c1, negated) is Some ==> class_scan(
            pat,
            index,
            first,
            f1,
            c1,
            negated,
        ).unwrap().0 > index,
        class_scan(pat, index, first, f1, c1, negated) is Some ==> class_scan(
            pat,
            index,
            first,
            f1,
            c1,
            negated,
        ).unwrap().0 <= pat.len(),
    decreases pat.len() - index,
{
    if index < 0 || index >= pat.len() {
    } else if pat[index] == ']' && !first {
    } else if pat[index] == '\\' && index + 1 < pat.len() {
        lemma_class_scan_end(pat, index + 2, false, f1 || pat[index + 1] == c1, f2 || pat[index + 1] == c2, c1, c2, negated);
    } else if index + 2 < pat.len() && pat[index + 1] == '-' && pat[index + 2] != ']' {
        lemma_class_scan_end(
            pat,
            index + 3,
            false,
            f1 || ((pat[index] as u32) <= (c1 as u32) && (c1 as u32) <= (pat[index + 2] as u32)),
            f2 || ((pat[index] as u32) <= (c2 as u32) && (c2 as u32) <= (pat[index + 2] as u32)),
            c1,
            c2,
            negated,
        );
    } else {
        lemma_class_scan_end(
            pat,
            index + 1,
            false,
            f1 || pat[index] == c1,
            f2 || pat[index] == c2,
            c1,
            c2,
            negated,
        );
    }
}

/// A class ends at the same place whatever it is tried on, and after the place it opened.
proof fn lemma_class_end(pat: Seq<char>, open: int, c: char)
    requires
        0 <= open,
    ensures
        class_spec(pat, open, c) is Some <==> class_end(pat, open) is Some,
        class_spec(pat, open, c) is Some ==> class_spec(pat, open, c).unwrap().0 == class_end(
            pat,
            open,
        ).unwrap(),
        class_end(pat, open) is Some ==> open < class_end(pat, open).unwrap() <= pat.len(),
{
    let negated = class_negated(pat, open);
    let start = if negated {
        open + 2
    } else {
        open + 1
    };
    lemma_class_scan_end(pat, start, true, false, false, c, ' ', negated);
    lemma_class_scan_end(pat, start, true, false, false, ' ', ' ', negated);
}

/// Where the token at `p` ends: past `p`, within the pattern.
proof fn lemma_tok_next(pat: Seq<char>, p: int)
    requires
        0 <= p < pat.len(),
    ensures
        p < tok_next(pat, p) <= pat.len(),
{
    if pat[p] == '[' {
        lemma_class_end(pat, p, ' ');
    }
}

/// Where `t` tokens from `a` end.
pub open spec fn steps(pat: Seq<char>, a: int, t: nat) -> int
    decreases t,
{
    if t == 0 {
        a
    } else {
        tok_next(pat, steps(pat, a, (t - 1) as nat))
    }
}

/// The `t` tokens from `a` are all inside the pattern and none of them is a `*`.
pub open spec fn starless(pat: Seq<char>, a: int, t: nat) -> bool {
    forall|j: nat|
        j < t ==> 0 <= #[trigger] steps(pat, a, j) < pat.len() && pat[steps(pat, a, j)] != '*'
}

/// A match from `a` at `k` passes the `t` star-free tokens after `a` and continues from where
/// they end, `t` characters later.
proof fn lemma_walk(pat: Seq<char>, a: int, t: nat, name: Seq<char>, k: int)
    requires
        starless(pat, a, t),
        glob_from(pat, a, name, k),
    ensures
        k + t <= name.len(),
        glob_from(pat, steps(pat, a, t), name, k + t),
    decreases t,
{
    if t > 0 {
        let t1 = (t - 1) as nat;
        assert(starless(pat, a, t1)) by {
            assert forall|j: nat| j < t1 implies 0 <= #[trigger] steps(pat, a, j) < pat.len()
                && pat[steps(pat, a, j)] != '*' by {
                assert(j < t);
            }
        }
        lemma_walk(pat, a, t1, name, k);
        let q = steps(pat, a, t1);
        assert(0 <= q < pat.len() && pat[q] != '*') by {
            assert(t1 < t);
        }
    }
}

/// A `*` at `p` that matches from `m` matches from every earlier `n`.
proof fn lemma_star_down(pat: Seq<char>, p: int, name: Seq<char>, n: int, m: int)
    requires
        0 <= p < pat.len(),
        pat[p] == '*',
        0 <= n <= m <= name.len(),
        glob_from(pat, p, name, m),
    ensures
        glob_from(pat, p, name, n),
    decreases m - n,
{
    if n < m {
        lemma_star_down(pat, p, name, n + 1, m);
    }
}

/// A `*` at `p` matching from `n` is some later start of what follows it.
proof fn lemma_star_start(pat: Seq<char>, p: int, name: Seq<char>, n: int) -> (k: int)
    requires
        0 <= p < pat.len(),
        pat[p] == '*',
        0 <= n <= name.len(),
        glob_from(pat, p, name, n),
    ensures
        n <= k <= name.len(),
        glob_from(pat, p + 1, name, k),
    decreases name.len() - n,
{
    if glob_from(pat, p + 1, name, n) {
        n
    } else {
        lemma_star_start(pat, p, name, n + 1)
    }
}

/// With a star at `sp` and the walk from `sp + 1` at `sn` having reached `(p, n)`, the star's
/// own match from `sn` is the match from `p` at `n` when `p` is a star too.
proof fn lemma_star_meets_star(
    pat: Seq<char>,
    sp: int,
    sn: int,
    p: int,
    name: Seq<char>,
    n: int,
)
    requires
        0 <= sp < pat.len(),
        pat[sp] == '*',
        0 <= sn <= n <= name.len(),
        0 <= p < pat.len(),
        pat[p] == '*',
        p == steps(pat, sp + 1, (n - sn) as nat),
        starless(pat, sp + 1, (n - sn) as nat),
        glob_from(pat, sp + 1, name, sn) == glob_from(pat, p, name, n),
    ensures
        glob_from(pat, sp, name, sn) == glob_from(pat, p, name, n),
{
    if glob_from(pat, sp, name, sn) {
        let k = lemma_star_start(pat, sp, name, sn);
        lemma_walk(pat, sp + 1, (n - sn) as nat, name, k);
        lemma_star_down(pat, p, name, n, k + (n - sn));
    }
}

/// With the walk from `sp + 1` at `sn` having reached the end of the name at `p`, the star's
/// match from `sn` is the match from `p` at the end.
proof fn lemma_star_at_end(pat: Seq<char>, sp: int, sn: int, p: int, name: Seq<char>)
    requires
        0 <= sp < pat.len(),
        pat[sp] == '*',
        0 <= sn <= name.len(),
        p == steps(pat, sp + 1, (name.len() - sn) as nat),
        starless(pat, sp + 1, (name.len() - sn) as nat),
        glob_from(pat, sp + 1, name, sn) == glob_from(pat, p, name, name.len() as int),
    ensures
        glob_from(pat, sp, name, sn) == glob_from(pat, p, name, name.len() as int),
{
    if glob_from(pat, sp, name, sn) {
        let k = lemma_star_start(pat, sp, name, sn);
        lemma_walk(pat, sp + 1, (name.len() - sn) as nat, name, k);
    }
}

// --- the matcher -------------------------------------------------------------------------------

/// Matches a `[…]` class opening at `open` against `candidate`: where it ends and whether it
/// admitted the candidate, or `None` when the class is never closed.
pub fn class(pattern: &[char], open: usize, candidate: char) -> (r: Option<(usize, bool)>)
    requires
        open < pattern.len(),
    ensures
        match r {
            Some((end, admitted)) => class_spec(pattern@, open as int, candidate) == Some(
                (end as int, admitted),
            ),
            None => class_spec(pattern@, open as int, candidate) is None,
        },
{
    let mut index = open + 1;
    let negated = index < pattern.len() && (pattern[index] == '!' || pattern[index] == '^');
    if negated {
        index = index + 1;
    }
    let mut found = false;
    let mut first = true;
    assert(class_spec(pattern@, open as int, candidate) == class_scan(
        pattern@,
        index as int,
        first,
        found,
        candidate,
        negated,
    ));
    while index < pattern.len()
        invariant
            open < index <= pattern.len() + 1,
            class_spec(pattern@, open as int, candidate) == class_scan(
                pattern@,
                index as int,
                first,
                found,
                candidate,
                negated,
            ),
        decreases pattern.len() - index,
    {
        let character = pattern[index];
        if character == ']' && !first {
            return Some((index + 1, found != negated));
        }
        first = false;
        if character == '\\' && pattern.len() - index > 1 {
            if pattern[index + 1] == candidate {
                found = true;
            }
            index = index + 2;
        } else if pattern.len() - index > 2 && pattern[index + 1] == '-' && pattern[index + 2] != ']' {
            let upper = pattern[index + 2];
            if (character as u32) <= (candidate as u32) && (candidate as u32) <= (upper as u32) {
                found = true;
            }
            index = index + 3;
        } else {
            if character == candidate {
                found = true;
            }
            index = index + 1;
        }
    }
    None
}

/// Whether `name` from `n` matches `pattern` from `p`, with one backtrack point for `*`.
pub fn matches_from(pattern: &[char], p0: usize, name: &[char], n0: usize) -> (r: bool)
    requires
        p0 <= pattern.len(),
        n0 <= name.len(),
    ensures
        r == glob_from(pattern@, p0 as int, name@, n0 as int),
{
    let ghost pat = pattern@;
    let ghost nm = name@;
    let ghost whole = glob_from(pat, p0 as int, nm, n0 as int);
    let mut p = p0;
    let mut n = n0;
    let mut star: Option<(usize, usize)> = None;
    while n < name.len()
        invariant
            pat == pattern@,
            nm == name@,
            whole == glob_from(pattern@, p0 as int, name@, n0 as int),
            p <= pattern.len(),
            n <= name.len(),
            match star {
                None => whole == glob_from(pat, p as int, nm, n as int),
                Some((sp, sn)) => {
                    &&& sp < p
                    &&& pat[sp as int] == '*'
                    &&& sn <= n
                    &&& whole == glob_from(pat, sp as int, nm, sn as int)
                    &&& glob_from(pat, sp + 1, nm, sn as int) == glob_from(
                        pat,
                        p as int,
                        nm,
                        n as int,
                    )
                    &&& p == steps(pat, sp + 1, (n - sn) as nat)
                    &&& starless(pat, sp + 1, (n - sn) as nat)
                },
            },
        decreases
            name.len() - match star {
                Some((_, sn)) => sn,
                None => 0,
            },
            (name.len() - n) + (pattern.len() - p),
    {
        // Whether the token at `p` admitted `name[n]`, and where it ends.
        let mut advanced: Option<usize> = None;
        if p < pattern.len() {
            let token = pattern[p];
            if token == '*' {
                proof {
                    if let Some((sp, sn)) = star {
                        lemma_star_meets_star(pat, sp as int, sn as int, p as int, nm, n as int);
                    }
                }
                star = Some((p, n));
                p = p + 1;
                proof {
                    assert(steps(pat, p as int, 0) == p as int);
                    assert(starless(pat, p as int, 0));
                }
                continue;
            } else if token == '\\' && p + 1 < pattern.len() {
                if pattern[p + 1] == name[n] {
                    advanced = Some(p + 2);
                }
            } else if token == '?' {
                advanced = Some(p + 1);
            } else if token == '[' {
                proof {
                    lemma_class_end(pat, p as int, nm[n as int]);
                }
                match class(pattern, p, name[n]) {
                    Some((next, true)) => {
                        advanced = Some(next);
                    },
                    Some((_, false)) => {},
                    None => {
                        // An unclosed class is a literal `[`.
                        if name[n] == '[' {
                            advanced = Some(p + 1);
                        }
                    },
                }
            } else if token == name[n] {
                advanced = Some(p + 1);
            }
        }
        match advanced {
            Some(next) => {
                proof {
                    lemma_tok_next(pat, p as int);
                    assert(tok_next(pat, p as int) == next);
                    assert(tok_matches(pat, p as int, nm[n as int]));
                    assert(glob_from(pat, p as int, nm, n as int) == glob_from(
                        pat,
                        next as int,
                        nm,
                        n + 1,
                    ));
                    if let Some((sp, sn)) = star {
                        let t = (n - sn) as nat;
                        assert(steps(pat, sp + 1, t + 1) == next);
                        assert(starless(pat, sp + 1, t + 1)) by {
                            assert forall|j: nat| j < t + 1 implies 0 <= #[trigger] steps(
                                pat,
                                sp + 1,
                                j,
                            ) < pat.len() && pat[steps(pat, sp + 1, j)] != '*' by {
                                if j < t {
                                } else {
                                    assert(j == t);
                                }
                            }
                        }
                    }
                }
                p = next;
                n = n + 1;
            },
            None => {
                proof {
                    if p < pattern.len() {
                        if pat[p as int] == '[' {
                            lemma_class_end(pat, p as int, nm[n as int]);
                        }
                        assert(!tok_matches(pat, p as int, nm[n as int]));
                    }
                    assert(!glob_from(pat, p as int, nm, n as int));
                }
                match star {
                    Some((sp, sn)) => {
                        proof {
                            assert(!glob_from(pat, sp + 1, nm, sn as int));
                            assert(glob_from(pat, sp as int, nm, sn as int) == glob_from(
                                pat,
                                sp as int,
                                nm,
                                sn + 1,
                            ));
                        }
                        p = sp + 1;
                        n = sn + 1;
                        star = Some((sp, sn + 1));
                        proof {
                            assert(steps(pat, p as int, 0) == p as int);
                            assert(starless(pat, p as int, 0));
                        }
                    },
                    None => {
                        assert(!whole);
                        return false;
                    },
                }
            },
        }
    }
    proof {
        if let Some((sp, sn)) = star {
            lemma_star_at_end(pat, sp as int, sn as int, p as int, nm);
        }
    }
    // Whatever is left of the pattern must be stars.
    let ghost at_end = p;
    while p < pattern.len() && pattern[p] == '*'
        invariant
            at_end <= p <= pattern.len(),
            whole == glob_from(pattern@, p0 as int, name@, n0 as int),
            whole == glob_from(pat, at_end as int, nm, n as int),
            pat == pattern@,
            nm == name@,
            n == name.len(),
            glob_from(pat, at_end as int, nm, n as int) == glob_from(pat, p as int, nm, n as int),
        decreases pattern.len() - p,
    {
        p = p + 1;
    }
    proof {
        if p < pattern.len() {
            assert(pat[p as int] != '*');
            assert(!glob_from(pat, p as int, nm, n as int));
        }
    }
    p == pattern.len()
}

/// Whether `name` matches `pattern`, with `*`, `?` and `[…]`.
///
/// A leading `.` is matched only by a literal `.`, as everywhere else, so `*` never returns the
/// hidden files nobody asked for.
pub fn matches(pattern: &[char], name: &[char]) -> (r: bool)
    ensures
        r == glob_matches(pattern@, name@),
{
    if name.len() > 0 && name[0] == '.' && !(pattern.len() > 0 && pattern[0] == '.') {
        return false;
    }
    matches_from(pattern, 0, name, 0)
}


// --- laws --------------------------------------------------------------------------------------

/// A character that is literal in a pattern.
pub open spec fn is_literal_char(c: char) -> bool {
    c != '*' && c != '?' && c != '[' && c != '\\'
}

proof fn lemma_literal_from(pat: Seq<char>, p: int, name: Seq<char>, n: int)
    requires
        0 <= p <= pat.len(),
        0 <= n <= name.len(),
        forall|i: int| 0 <= i < pat.len() ==> is_literal_char(#[trigger] pat[i]),
    ensures
        glob_from(pat, p, name, n) <==> name.skip(n) == pat.skip(p),
    decreases pat.len() - p,
{
    if p < pat.len() {
        if n < name.len() {
            lemma_literal_from(pat, p + 1, name, n + 1);
            assert(tok_next(pat, p) == p + 1);
            assert(name.skip(n + 1) =~= name.skip(n).drop_first());
            assert(pat.skip(p + 1) =~= pat.skip(p).drop_first());
            if name.skip(n) == pat.skip(p) {
                assert(name.skip(n)[0] == pat.skip(p)[0]);
            }
            if name.skip(n + 1) == pat.skip(p + 1) && name[n] == pat[p] {
                assert(name.skip(n) =~= seq![name[n]] + name.skip(n + 1));
                assert(pat.skip(p) =~= seq![pat[p]] + pat.skip(p + 1));
            }
        } else {
            assert(name.skip(n).len() == 0);
        }
    } else {
        if n < name.len() {
            assert(name.skip(n).len() > 0);
        } else {
            assert(name.skip(n) =~= pat.skip(p));
        }
    }
}

/// A pattern with no `*`, `?` or `[` matches exactly the name that spells it.
pub proof fn law_literal_pattern_matches_itself_only(pat: Seq<char>, name: Seq<char>)
    requires
        forall|i: int| 0 <= i < pat.len() ==> is_literal_char(#[trigger] pat[i]),
    ensures
        glob_from(pat, 0, name, 0) <==> name == pat,
{
    lemma_literal_from(pat, 0, name, 0);
    assert(name.skip(0) =~= name);
    assert(pat.skip(0) =~= pat);
}

proof fn lemma_star_all(pat: Seq<char>, name: Seq<char>, n: int)
    requires
        pat == seq!['*'],
        0 <= n <= name.len(),
    ensures
        glob_from(pat, 0, name, n),
    decreases name.len() - n,
{
    assert(glob_from(pat, 1, name, name.len() as int));
    if n < name.len() {
        lemma_star_all(pat, name, n + 1);
    }
}

/// `*` matches every name, except a hidden one: a leading `.` is matched only by a literal `.`.
pub proof fn law_star_matches_every_visible_name(name: Seq<char>)
    ensures
        glob_matches(seq!['*'], name) <==> !(name.len() > 0 && name[0] == '.'),
{
    lemma_star_all(seq!['*'], name, 0);
}

proof fn lemma_double_star(name: Seq<char>, n: int)
    requires
        0 <= n <= name.len(),
    ensures
        glob_from(seq!['*', '*'], 1, name, n) == glob_from(seq!['*'], 0, name, n),
        glob_from(seq!['*', '*'], 0, name, n) == glob_from(seq!['*'], 0, name, n),
    decreases name.len() - n,
{
    lemma_star_all(seq!['*'], name, n);
    let two = seq!['*', '*'];
    if n < name.len() {
        lemma_double_star(name, n + 1);
    }
    assert(glob_from(two, 2, name, name.len() as int));
    lemma_star_down(two, 1, name, n, name.len() as int);
}

/// `**` is no recursive descent: it matches exactly what `*` matches.
pub proof fn law_double_star_is_star(name: Seq<char>)
    ensures
        glob_matches(seq!['*', '*'], name) == glob_matches(seq!['*'], name),
{
    lemma_double_star(name, 0);
}

/// A `?` takes exactly one character.
pub proof fn law_question_mark_takes_one(name: Seq<char>)
    ensures
        glob_from(seq!['?'], 0, name, 0) <==> name.len() == 1,
{
    let q = seq!['?'];
    assert(tok_next(q, 0) == 1);
    if name.len() == 1 {
        assert(glob_from(q, 1, name, 1));
    } else if name.len() > 1 {
        assert(!glob_from(q, 1, name, 1));
    }
}

/// A `[` that no `]` closes is a literal `[`: the pattern `[` matches the name `[` and nothing
/// else.
pub proof fn law_unclosed_class_is_literal(name: Seq<char>)
    ensures
        glob_from(seq!['['], 0, name, 0) <==> name == seq!['['],
{
    let pat = seq!['['];
    assert(class_negated(pat, 0) == false);
    assert(class_spec(pat, 0, ' ') is None);
    assert(tok_next(pat, 0) == 1);
    if name.len() > 0 {
        assert(class_spec(pat, 0, name[0]) is None);
        if name.len() == 1 && name[0] == '[' {
            assert(glob_from(pat, 1, name, 1));
            assert(name =~= seq!['[']);
        } else if name.len() > 1 {
            assert(!glob_from(pat, 1, name, 1));
        }
    }
}

// --- literal text in a pattern -----------------------------------------------------------------

/// A character a pattern gives a meaning to somewhere: `*`, `?`, `[`, `]`, `\\`, and, in a class,
/// `!`, `^` and `-`.
pub open spec fn is_special(c: char) -> bool {
    c == '*' || c == '?' || c == '[' || c == ']' || c == '\\' || c == '!' || c == '^' || c == '-'
}

/// `c` as literal pattern text: after a `\\` where it is special.
pub open spec fn escaped(c: char) -> Seq<char> {
    if is_special(c) { seq!['\\', c] } else { seq![c] }
}

/// `text` as literal pattern text, character by character.
pub open spec fn escape_all(text: Seq<char>) -> Seq<char>
    decreases text.len(),
{
    if text.len() == 0 {
        seq![]
    } else {
        escape_all(text.drop_last()) + escaped(text.last())
    }
}

proof fn lemma_escape_concat(a: Seq<char>, b: Seq<char>)
    ensures
        escape_all(a + b) == escape_all(a) + escape_all(b),
    decreases b.len(),
{
    if b.len() == 0 {
        assert(a + b =~= a);
        assert(escape_all(a) + escape_all(b) =~= escape_all(a));
    } else {
        lemma_escape_concat(a, b.drop_last());
        assert((a + b).drop_last() =~= a + b.drop_last());
        assert((a + b).last() == b.last());
        assert(escape_all(a) + escape_all(b.drop_last()) + escaped(b.last()) =~= escape_all(a) + (escape_all(
            b.drop_last(),
        ) + escaped(b.last())));
    }
}

proof fn lemma_escaped_walk(s: Seq<char>, k: int, name: Seq<char>, n: int)
    requires
        0 <= k <= s.len(),
        0 <= n <= name.len(),
    ensures
        glob_from(escape_all(s), escape_all(s.take(k)).len() as int, name, n) <==> name.skip(n) == s.skip(k),
    decreases s.len() - k,
{
    let pat = escape_all(s);
    let p = escape_all(s.take(k)).len() as int;
    lemma_escape_concat(s.take(k), s.skip(k));
    assert(s.take(k) + s.skip(k) =~= s);
    if k == s.len() {
        assert(s.skip(k).len() == 0);
        assert(escape_all(s.skip(k)) =~= seq![]);
        assert(p == pat.len());
        if n < name.len() {
            assert(name.skip(n).len() > 0);
        } else {
            assert(name.skip(n) =~= s.skip(k));
        }
    } else {
        let c = s[k];
        lemma_escape_concat(s.take(k), seq![c]);
        assert(s.take(k + 1) =~= s.take(k) + seq![c]);
        assert(escape_all(seq![c]) =~= escaped(c)) by {
            assert(seq![c].drop_last() =~= Seq::<char>::empty());
            assert(seq![c].last() == c);
            assert(escape_all(Seq::<char>::empty()) =~= Seq::<char>::empty());
            assert(escape_all(seq![c]) == escape_all(seq![c].drop_last()) + escaped(seq![c].last()));
        }
        lemma_escape_concat(s.take(k + 1), s.skip(k + 1));
        assert(s.take(k + 1) + s.skip(k + 1) =~= s);
        let q = escape_all(s.take(k + 1)).len() as int;
        assert(pat == escape_all(s.take(k)) + escaped(c) + escape_all(s.skip(k + 1)));
        if is_special(c) {
            assert(pat[p] == '\\' && pat[p + 1] == c && q == p + 2);
        } else {
            assert(pat[p] == c && q == p + 1);
        }
        assert(tok_next(pat, p) == q);
        assert(pat[p] != '*');
        if n < name.len() {
            lemma_escaped_walk(s, k + 1, name, n + 1);
            assert(tok_matches(pat, p, name[n]) == (name[n] == c));
            assert(name.skip(n) =~= seq![name[n]] + name.skip(n + 1));
            assert(s.skip(k) =~= seq![c] + s.skip(k + 1));
            if name.skip(n) == s.skip(k) {
                assert(name.skip(n)[0] == s.skip(k)[0]);
                assert(name.skip(n).drop_first() =~= name.skip(n + 1));
                assert(s.skip(k).drop_first() =~= s.skip(k + 1));
            }
        } else {
            assert(name.skip(n).len() == 0);
            assert(s.skip(k).len() > 0);
        }
    }
}

/// Text that reached a pattern as text matches only itself: escaped, none of its characters is a
/// wildcard or a class, and a leading `.` in it is a literal `.`.
pub proof fn law_escaped_text_matches_only_itself(text: Seq<char>, name: Seq<char>)
    ensures
        glob_matches(escape_all(text), name) <==> name == text,
{
    lemma_escaped_walk(text, 0, name, 0);
    assert(text.take(0) =~= Seq::<char>::empty());
    assert(escape_all(text.take(0)) =~= Seq::<char>::empty());
    assert(name.skip(0) =~= name);
    assert(text.skip(0) =~= text);
    if name.len() > 0 && name[0] == '.' && name == text {
        lemma_escape_concat(text.take(1), text.skip(1));
        assert(text.take(1) + text.skip(1) =~= text);
        assert(text.take(1) =~= seq![text[0]]);
        assert(seq![text[0]].drop_last() =~= Seq::<char>::empty());
        assert(escape_all(text.take(1)) =~= seq!['.']);
    }
}

proof fn lemma_scan_same_tail(a: Seq<char>, b: Seq<char>, index: int, first: bool, found: bool, c: char, negated: bool)
    requires
        a.len() == b.len(),
        0 <= index,
        forall|k: int| index <= k < a.len() ==> a[k] == b[k],
    ensures
        class_scan(a, index, first, found, c, negated) == class_scan(b, index, first, found, c, negated),
    decreases a.len() - index,
{
    if index < a.len() {
        if a[index] == ']' && !first {
        } else if a[index] == '\\' && index + 1 < a.len() {
            lemma_scan_same_tail(a, b, index + 2, false, found || a[index + 1] == c, c, negated);
        } else if index + 2 < a.len() && a[index + 1] == '-' && a[index + 2] != ']' {
            lemma_scan_same_tail(
                a,
                b,
                index + 3,
                false,
                found || ((a[index] as u32) <= (c as u32) && (c as u32) <= (a[index + 2] as u32)),
                c,
                negated,
            );
        } else {
            lemma_scan_same_tail(a, b, index + 1, false, found || a[index] == c, c, negated);
        }
    }
}

/// `[^…]` is the same negated class as `[!…]`: whatever it is tried on, a class opened by `[^`
/// ends where, and admits what, the class with `!` in place of the `^` does; and either admits a
/// character exactly when the class without the negation does not.
pub proof fn law_caret_negates_as_bang_does(pat: Seq<char>, open: int, c: char)
    requires
        0 <= open,
        open + 1 < pat.len(),
        pat[open] == '[',
        pat[open + 1] == '^',
    ensures
        class_spec(pat, open, c) == class_spec(pat.update(open + 1, '!'), open, c),
        class_negated(pat, open),
        class_spec(pat, open, c) matches Some((end, admitted)) ==> class_scan(pat, open + 2, true, false, c, false) == Some(
            (end, !admitted),
        ),
{
    let bang = pat.update(open + 1, '!');
    lemma_scan_same_tail(pat, bang, open + 2, true, false, c, true);
    lemma_negation_flips(pat, open + 2, true, false, c);
}

proof fn lemma_negation_flips(pat: Seq<char>, index: int, first: bool, found: bool, c: char)
    ensures
        match (class_scan(pat, index, first, found, c, true), class_scan(pat, index, first, found, c, false)) {
            (Some((e1, a1)), Some((e2, a2))) => e1 == e2 && a1 == !a2,
            (None, None) => true,
            _ => false,
        },
    decreases pat.len() - index,
{
    if index < 0 || index >= pat.len() {
    } else if pat[index] == ']' && !first {
    } else if pat[index] == '\\' && index + 1 < pat.len() {
        lemma_negation_flips(pat, index + 2, false, found || pat[index + 1] == c, c);
    } else if index + 2 < pat.len() && pat[index + 1] == '-' && pat[index + 2] != ']' {
        lemma_negation_flips(
            pat,
            index + 3,
            false,
            found || ((pat[index] as u32) <= (c as u32) && (c as u32) <= (pat[index + 2] as u32)),
            c,
        );
    } else {
        lemma_negation_flips(pat, index + 1, false, found || pat[index] == c, c);
    }
}

/// `[!…]` is the complement of the class: it ends where the class without the `!` would, read
/// from the same place, and admits a character exactly when that class does not.
pub proof fn law_bang_negates(pat: Seq<char>, open: int, c: char)
    requires
        0 <= open,
        open + 1 < pat.len(),
        pat[open] == '[',
        pat[open + 1] == '!',
    ensures
        class_negated(pat, open),
        class_spec(pat, open, c) matches Some((end, admitted)) ==> class_scan(pat, open + 2, true, false, c, false) == Some(
            (end, !admitted),
        ),
        class_spec(pat, open, c) is None ==> class_scan(pat, open + 2, true, false, c, false) is None,
{
    lemma_negation_flips(pat, open + 2, true, false, c);
}

} // verus!
