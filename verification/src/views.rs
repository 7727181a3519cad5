//! Laying a package's view out for a terminal: every string a package sends is cleaned of
//! control characters, every line is fitted to the width, and the height is never exceeded.
//! What is laid out here is plain text; colour is the terminal theme's.

use vstd::prelude::*;

use crate::text::{chars_of, concat, is_cc, is_control_char, split, split_on, split_words, string_of, words};

verus! {

broadcast use vstd::string::group_string_axioms;

/// `text` with every control character made a space: no escape sequence, no line break and no
/// tab reaches the terminal.
pub open spec fn clean_spec(text: Seq<char>) -> Seq<char> {
    text.map_values(|c: char| if is_cc(c) { ' ' } else { c })
}

/// `text` with every control character made a space.
pub fn clean(text: &str) -> (r: String)
    ensures
        r@ == clean_spec(text@),
{
    let v = chars_of(text);
    let mut out: Vec<char> = Vec::new();
    let mut i: usize = 0;
    while i < v.len()
        invariant
            i <= v.len(),
            v@ == text@,
            out@ == clean_spec(v@.take(i as int)),
        decreases v.len() - i,
    {
        let c = v[i];
        out.push(if is_control_char(c) { ' ' } else { c });
        assert(clean_spec(v@.take(i + 1)) =~= clean_spec(v@.take(i as int)).push(
            if is_cc(c) { ' ' } else { c },
        ));
        i = i + 1;
    }
    assert(v@.take(v.len() as int) =~= v@);
    string_of(out.as_slice())
}

/// `line` as it fits `width` characters: whole when it fits, else its first `width - 1`
/// characters and an ellipsis.
pub open spec fn fit_spec(line: Seq<char>, width: nat) -> Seq<char> {
    if line.len() <= width {
        line
    } else {
        line.take(if width >= 1 { width - 1 } else { 0 }).push('…')
    }
}

/// `line` fitted to `width` characters.
pub fn fit(line: &str, width: usize) -> (r: String)
    ensures
        r@ == fit_spec(line@, width as nat),
{
    let v = chars_of(line);
    if v.len() <= width {
        return string_of(v.as_slice());
    }
    let keep = if width >= 1 { width - 1 } else { 0 };
    let mut cut = crate::text::prefix_to(v.as_slice(), keep);
    cut.push('…');
    string_of(cut.as_slice())
}

/// `line` padded with spaces to `width` characters, and as it is where it is longer.
pub open spec fn pad_spec(line: Seq<char>, width: nat) -> Seq<char> {
    line + Seq::new(if width > line.len() { (width - line.len()) as nat } else { 0 }, |i: int| ' ')
}

/// `line` padded with spaces to `width` characters.
pub fn pad(line: &str, width: usize) -> (r: String)
    ensures
        r@ == pad_spec(line@, width as nat),
{
    let mut v = chars_of(line);
    let count = v.len();
    let extra = if width > count { width - count } else { 0 };
    let mut k: usize = 0;
    while k < extra
        invariant
            k <= extra,
            v@ == line@ + Seq::new(k as nat, |i: int| ' '),
        decreases extra - k,
    {
        v.push(' ');
        assert(line@ + Seq::new((k + 1) as nat, |i: int| ' ') =~= (line@ + Seq::new(k as nat, |i: int| ' ')).push(' '));
        k = k + 1;
    }
    string_of(v.as_slice())
}

/// The lines one paragraph's words make, filled greedily: a word goes on the current line
/// while the line stays within `width`, and a line is broken before a word that would overflow
/// it; the last line is fitted.
pub open spec fn fill_spec(words: Seq<Seq<char>>, width: nat, line: Seq<char>) -> Seq<Seq<char>>
    decreases words.len(),
{
    if words.len() == 0 {
        seq![fit_spec(line, width)]
    } else {
        let w = words[0];
        let next = if line.len() == 0 { w } else { line + seq![' '] + w };
        if next.len() > width && line.len() > 0 {
            seq![line] + fill_spec(words.drop_first(), width, w)
        } else {
            fill_spec(words.drop_first(), width, next)
        }
    }
}

/// The lines of paragraphs from `i` on.
pub open spec fn wrap_from(paragraphs: Seq<Seq<char>>, width: nat, i: int) -> Seq<Seq<char>>
    decreases paragraphs.len() - i,
{
    if i < 0 || i >= paragraphs.len() {
        seq![]
    } else {
        fill_spec(words(paragraphs[i]), width, seq![]) + wrap_from(paragraphs, width, i + 1)
    }
}

/// `text` wrapped to `width`: each `\n`-separated paragraph filled on its own.
pub open spec fn wrap_spec(text: Seq<char>, width: nat) -> Seq<Seq<char>> {
    wrap_from(split_on(text, '\n'), width, 0)
}

fn fill(words: &Vec<Vec<char>>, width: usize) -> (r: Vec<String>)
    ensures
        r@.map_values(|s: String| s@) == fill_spec(words@.map_values(|w: Vec<char>| w@), width as nat, seq![]),
{
    let ghost ws = words@.map_values(|w: Vec<char>| w@);
    let mut out: Vec<String> = Vec::new();
    let mut line: Vec<char> = Vec::new();
    let mut i: usize = 0;
    assert(ws.skip(0) =~= ws);
    assert(out@.map_values(|s: String| s@) =~= seq![]);
    assert(line@ =~= seq![]);
    while i < words.len()
        invariant
            i <= words.len(),
            ws == words@.map_values(|w: Vec<char>| w@),
            out@.map_values(|s: String| s@) + fill_spec(ws.skip(i as int), width as nat, line@)
                == fill_spec(ws, width as nat, seq![]),
        decreases words.len() - i,
    {
        let w = &words[i];
        assert(ws.skip(i as int)[0] == w@);
        assert(ws.skip(i as int).drop_first() =~= ws.skip(i + 1));
        let next: Vec<char> = if line.len() == 0 {
            crate::text::copy_chars(w.as_slice())
        } else {
            let mut with_space = crate::text::copy_chars(line.as_slice());
            with_space.push(' ');
            assert(with_space@ =~= line@ + seq![' ']);
            concat(with_space.as_slice(), w.as_slice())
        };
        let ghost before = out@.map_values(|s: String| s@);
        if next.len() > width && line.len() > 0 {
            let s = string_of(line.as_slice());
            out.push(s);
            assert(out@.map_values(|s: String| s@) =~= before.push(line@));
            assert(before + (seq![line@] + fill_spec(ws.skip(i + 1), width as nat, w@))
                =~= before.push(line@) + fill_spec(ws.skip(i + 1), width as nat, w@));
            line = crate::text::copy_chars(w.as_slice());
        } else {
            line = next;
        }
        i = i + 1;
    }
    let last = fit(string_of(line.as_slice()).as_str(), width);
    let ghost before = out@.map_values(|s: String| s@);
    out.push(last);
    assert(ws.skip(words.len() as int) =~= seq![]);
    assert(out@.map_values(|s: String| s@) =~= before + fill_spec(ws.skip(words.len() as int), width as nat, line@));
    out
}

/// `text` wrapped to `width`: each paragraph filled greedily, its last line fitted.
pub fn wrap(text: &str, width: usize) -> (r: Vec<String>)
    ensures
        r@.map_values(|s: String| s@) == wrap_spec(text@, width as nat),
{
    let paragraphs = split(chars_of(text).as_slice(), '\n');
    let ghost ps = paragraphs@.map_values(|p: Vec<char>| p@);
    let mut out: Vec<String> = Vec::new();
    let mut i: usize = 0;
    while i < paragraphs.len()
        invariant
            i <= paragraphs.len(),
            ps == paragraphs@.map_values(|p: Vec<char>| p@),
            ps == split_on(text@, '\n'),
            out@.map_values(|s: String| s@) + wrap_from(ps, width as nat, i as int) == wrap_spec(text@, width as nat),
        decreases paragraphs.len() - i,
    {
        let ws = split_words(paragraphs[i].as_slice());
        assert(ps[i as int] == paragraphs@[i as int]@);
        let lines = fill(&ws, width);
        let ghost before = out@.map_values(|s: String| s@);
        let mut k: usize = 0;
        while k < lines.len()
            invariant
                k <= lines.len(),
                out@.map_values(|s: String| s@) == before + lines@.map_values(|s: String| s@).take(k as int),
            decreases lines.len() - k,
        {
            let s = string_of(chars_of(lines[k].as_str()).as_slice());
            let ghost b2 = out@.map_values(|s: String| s@);
            out.push(s);
            assert(out@.map_values(|s: String| s@) =~= b2.push(lines@[k as int]@));
            assert(lines@.map_values(|s: String| s@).take(k + 1) =~= lines@.map_values(|s: String| s@).take(
                k as int,
            ).push(lines@[k as int]@));
            k = k + 1;
        }
        assert(lines@.map_values(|s: String| s@).take(lines.len() as int) =~= lines@.map_values(|s: String| s@));
        assert(before + (fill_spec(words(ps[i as int]), width as nat, seq![]) + wrap_from(ps, width as nat, i + 1))
            =~= (before + fill_spec(words(ps[i as int]), width as nat, seq![])) + wrap_from(ps, width as nat, i + 1));
        i = i + 1;
    }
    out
}

/// The newest `height` of `lines`, each cleaned and fitted to `width`.
pub open spec fn log_stream_spec(lines: Seq<Seq<char>>, width: nat, height: nat) -> Seq<Seq<char>> {
    let skip = if lines.len() > height { lines.len() - height } else { 0 };
    lines.skip(skip).map_values(|l: Seq<char>| fit_spec(clean_spec(l), width))
}

/// A log stream laid out in `width` by `height`: the newest lines are the ones shown.
pub fn log_stream(lines: &Vec<String>, width: usize, height: usize) -> (r: Vec<String>)
    ensures
        r@.map_values(|s: String| s@) == log_stream_spec(lines@.map_values(|s: String| s@), width as nat, height as nat),
{
    let skip = if lines.len() > height { lines.len() - height } else { 0 };
    let ghost all = lines@.map_values(|s: String| s@);
    let mut out: Vec<String> = Vec::new();
    let mut i: usize = skip;
    while i < lines.len()
        invariant
            skip <= i <= lines.len(),
            skip == (if lines.len() > height { lines.len() - height } else { 0 }),
            all == lines@.map_values(|s: String| s@),
            out@.map_values(|s: String| s@) == all.skip(skip as int).take(i - skip).map_values(
                |l: Seq<char>| fit_spec(clean_spec(l), width as nat),
            ),
        decreases lines.len() - i,
    {
        let s = fit(clean(lines[i].as_str()).as_str(), width);
        let ghost before = out@.map_values(|s: String| s@);
        out.push(s);
        assert(out@.map_values(|s: String| s@) =~= before.push(fit_spec(clean_spec(all[i as int]), width as nat)));
        assert(all.skip(skip as int).take(i + 1 - skip) =~= all.skip(skip as int).take(i - skip).push(all[i as int]));
        i = i + 1;
    }
    assert(all.skip(skip as int).take(lines.len() - skip) =~= all.skip(skip as int));
    out
}

/// The first item a list `height` rows high shows, so that the selected item is on screen.
pub open spec fn list_first(selected: Option<usize>, height: nat) -> int {
    match selected {
        Some(at) => {
            let back = if height >= 1 { height - 1 } else { 0 };
            if at >= back { at - back } else { 0 }
        },
        None => 0,
    }
}

/// One row of a list: the selected item marked and padded to the width, any other indented.
pub open spec fn list_row(item: Seq<char>, selected: bool, width: nat) -> Seq<char> {
    if selected {
        pad_spec(fit_spec("▶ "@ + clean_spec(item), width), width)
    } else {
        fit_spec("  "@ + clean_spec(item), width)
    }
}

/// A list laid out in `width` by `height`: a window of at most `height` items that keeps the
/// selected one on screen.
pub open spec fn list_spec(items: Seq<Seq<char>>, selected: Option<usize>, width: nat, height: nat) -> Seq<Seq<char>> {
    let first = list_first(selected, height);
    let end = if first + height < items.len() { first + height } else { items.len() as int };
    Seq::new(
        if end > first { (end - first) as nat } else { 0 },
        |k: int| list_row(items[first + k], selected == Some((first + k) as usize), width),
    )
}

/// A list laid out in `width` by `height`.
pub fn list(items: &Vec<String>, selected: Option<usize>, width: usize, height: usize) -> (r: Vec<String>)
    ensures
        r@.map_values(|s: String| s@) == list_spec(items@.map_values(|s: String| s@), selected, width as nat, height as nat),
{
    let ghost all = items@.map_values(|s: String| s@);
    let first: usize = match selected {
        Some(at) => {
            let back = if height >= 1 { height - 1 } else { 0 };
            if at >= back { at - back } else { 0 }
        },
        None => 0,
    };
    let end: usize = if first < items.len() && height < items.len() - first { first + height } else { items.len() };
    let ghost expected = list_spec(all, selected, width as nat, height as nat);
    assert(list_first(selected, height as nat) == first as int);
    let mut out: Vec<String> = Vec::new();
    let mut i: usize = first;
    while i < end
        invariant
            first <= i <= end || (end <= first && i == first),
            end <= items.len(),
            all == items@.map_values(|s: String| s@),
            expected == list_spec(all, selected, width as nat, height as nat),
            list_first(selected, height as nat) == first as int,
            end as int == (if first + height < items.len() { first + height } else { items.len() as int }),
            out@.map_values(|s: String| s@) == expected.take(i - first),
        decreases end - i,
    {
        let item = clean(items[i].as_str());
        let row = if selected == Some(i) {
            let marked = concat(chars_of("▶ ").as_slice(), chars_of(item.as_str()).as_slice());
            pad(fit(string_of(marked.as_slice()).as_str(), width).as_str(), width)
        } else {
            let indented = concat(chars_of("  ").as_slice(), chars_of(item.as_str()).as_slice());
            fit(string_of(indented.as_slice()).as_str(), width)
        };
        assert(all[i as int] == items@[i as int]@);
        assert(row@ == list_row(all[i as int], selected == Some(i), width as nat));
        let ghost before = out@.map_values(|s: String| s@);
        out.push(row);
        assert(expected.len() == end - first);
        assert(expected[i - first] == list_row(all[i as int], selected == Some(i), width as nat));
        assert(out@.map_values(|s: String| s@) =~= before.push(row@));
        assert(expected.take(i + 1 - first) =~= expected.take(i - first).push(expected[i - first]));
        i = i + 1;
    }
    assert(expected.take(if end > first { end - first } else { 0 }) =~= expected);
    out
}

/// A command palette laid out in `width` by `height`: the query on the first row, the items
/// below it.
pub open spec fn palette_spec(query: Seq<char>, items: Seq<Seq<char>>, selected: Option<usize>, width: nat, height: nat) -> Seq<Seq<char>> {
    seq![fit_spec("> "@ + clean_spec(query), width)] + list_spec(
        items,
        selected,
        width,
        if height >= 1 { (height - 1) as nat } else { 0 },
    )
}

/// A command palette laid out in `width` by `height`.
pub fn palette(query: &str, items: &Vec<String>, selected: Option<usize>, width: usize, height: usize) -> (r: Vec<String>)
    ensures
        r@.map_values(|s: String| s@) == palette_spec(query@, items@.map_values(|s: String| s@), selected, width as nat, height as nat),
{
    let mut first = string_of(chars_of("> ").as_slice());
    let q = clean(query);
    crate::text::append(&mut first, q.as_str());
    let mut lines: Vec<String> = Vec::new();
    lines.push(fit(first.as_str(), width));
    let room = if height >= 1 { height - 1 } else { 0 };
    let mut rest = list(items, selected, width, room);
    let ghost head = lines@.map_values(|s: String| s@);
    let ghost tail = rest@.map_values(|s: String| s@);
    lines.append(&mut rest);
    assert(lines@.map_values(|s: String| s@) =~= head + tail);
    lines
}

/// An object picker laid out in `width` by `height`: its title on the first row when it has
/// one, the items in the rows left.
pub open spec fn picker_spec(title: Seq<char>, items: Seq<Seq<char>>, selected: Option<usize>, width: nat, height: nat) -> Seq<Seq<char>> {
    let head: Seq<Seq<char>> = if clean_spec(title).len() == 0 { seq![] } else { seq![fit_spec(clean_spec(title), width)] };
    head + list_spec(items, selected, width, if height >= head.len() { (height - head.len()) as nat } else { 0 })
}

/// An object picker laid out in `width` by `height`.
pub fn picker(title: &str, items: &Vec<String>, selected: Option<usize>, width: usize, height: usize) -> (r: Vec<String>)
    ensures
        r@.map_values(|s: String| s@) == picker_spec(title@, items@.map_values(|s: String| s@), selected, width as nat, height as nat),
{
    let t = clean(title);
    let mut lines: Vec<String> = Vec::new();
    if chars_of(t.as_str()).len() > 0 {
        lines.push(fit(t.as_str(), width));
    }
    let used = lines.len();
    let room = if height >= used { height - used } else { 0 };
    let mut rest = list(items, selected, width, room);
    let ghost head = lines@.map_values(|s: String| s@);
    let ghost tail = rest@.map_values(|s: String| s@);
    lines.append(&mut rest);
    assert(lines@.map_values(|s: String| s@) =~= head + tail);
    lines
}

/// The tab a tabs view shows: the one asked for (the first, when none is or the number does
/// not fit the machine's index), and never past the last.
pub open spec fn active_tab_spec(requested: Option<u64>, count: nat) -> nat {
    let wanted: nat = match requested {
        Some(at) => if at <= usize::MAX { at as nat } else { 0 },
        None => 0,
    };
    let last: nat = if count >= 1 { (count - 1) as nat } else { 0 };
    if wanted < last { wanted } else { last }
}

/// The tab a tabs view shows, of `count`.
pub fn active_tab(requested: Option<u64>, count: usize) -> (r: usize)
    ensures
        r as nat == active_tab_spec(requested, count as nat),
{
    let last: usize = if count >= 1 { count - 1 } else { 0 };
    let wanted: usize = match requested {
        Some(at) => if at <= usize::MAX as u64 { at as usize } else { 0 },
        None => 0,
    };
    if wanted < last { wanted } else { last }
}

/// The bar of a tabs view: each title, cleaned, between spaces.
pub open spec fn tab_bar_spec(titles: Seq<Seq<char>>) -> Seq<char>
    decreases titles.len(),
{
    if titles.len() == 0 {
        seq![]
    } else {
        tab_bar_spec(titles.drop_last()) + " "@ + clean_spec(titles.last()) + " "@
    }
}

/// The bar of a tabs view.
pub fn tab_bar(titles: &Vec<String>) -> (r: String)
    ensures
        r@ == tab_bar_spec(titles@.map_values(|s: String| s@)),
{
    let ghost tv = titles@.map_values(|s: String| s@);
    let mut bar = String::new();
    let mut i: usize = 0;
    while i < titles.len()
        invariant
            i <= titles.len(),
            tv == titles@.map_values(|s: String| s@),
            bar@ == tab_bar_spec(tv.take(i as int)),
        decreases titles.len() - i,
    {
        crate::text::append(&mut bar, " ");
        let t = clean(titles[i].as_str());
        crate::text::append(&mut bar, t.as_str());
        crate::text::append(&mut bar, " ");
        assert(tv.take(i + 1).drop_last() =~= tv.take(i as int));
        i = i + 1;
    }
    assert(tv.take(titles.len() as int) =~= tv);
    bar
}

/// A vertical stack of panes laid out `height` rows high: each pane gets the rows the panes
/// above it left and is cut to them, and a trailing status line sits on the last row, with
/// blank rows between the body and it. `panes` are the panes' own lines, laid out for the rows
/// each was given.
pub open spec fn stack_from(panes: Seq<Seq<Seq<char>>>, body: nat, i: int, above: Seq<Seq<char>>) -> Seq<Seq<char>>
    decreases panes.len() - i,
{
    if i < 0 || i >= panes.len() || above.len() >= body {
        above
    } else {
        let room = body - above.len();
        let cut = if panes[i].len() > room { panes[i].take(room) } else { panes[i] };
        stack_from(panes, body, i + 1, above + cut)
    }
}

/// The rows left for the body of a stack `height` high.
pub open spec fn body_rows(height: nat, status: bool) -> nat {
    if status && height >= 1 { (height - 1) as nat } else if status { 0 } else { height }
}

/// The stack: the body, then, where there is a status line, blank rows to the last row and the
/// status line on it.
pub open spec fn stack_spec(panes: Seq<Seq<Seq<char>>>, status: Option<Seq<char>>, height: nat) -> Seq<Seq<char>> {
    let body = body_rows(height, status is Some);
    let stacked = stack_from(panes, body, 0, seq![]);
    match status {
        None => stacked,
        Some(line) => {
            let blank = if stacked.len() < body { (body - stacked.len()) as nat } else { 0 };
            stacked + Seq::new(blank, |k: int| seq![]) + seq![line]
        },
    }
}

/// Stacks panes vertically in `height` rows, pinning a trailing status line to the last row.
/// `status` is the status line as laid out, where the last pane is one.
pub fn stack(panes: &Vec<Vec<String>>, status: Option<String>, height: usize) -> (r: Vec<String>)
    ensures
        r@.map_values(|s: String| s@) == stack_spec(
            panes@.map_values(|p: Vec<String>| p@.map_values(|s: String| s@)),
            match status {
                Some(s) => Some(s@),
                None => None,
            },
            height as nat,
        ),
{
    let ghost ps = panes@.map_values(|p: Vec<String>| p@.map_values(|s: String| s@));
    let body: usize = if status.is_some() {
        if height >= 1 { height - 1 } else { 0 }
    } else {
        height
    };
    let mut out: Vec<String> = Vec::new();
    let mut i: usize = 0;
    assert(out@.map_values(|s: String| s@) =~= seq![]);
    while i < panes.len()
        invariant
            i <= panes.len(),
            body as nat == body_rows(height as nat, status is Some),
            ps == panes@.map_values(|p: Vec<String>| p@.map_values(|s: String| s@)),
            out.len() <= body,
            stack_from(ps, body as nat, i as int, out@.map_values(|s: String| s@)) == stack_from(ps, body as nat, 0, seq![]),
        ensures
            out@.map_values(|s: String| s@) == stack_from(ps, body as nat, 0, seq![]),
            out.len() <= body,
        decreases panes.len() - i,
    {
        if out.len() >= body {
            break;
        }
        let room = body - out.len();
        let pane = &panes[i];
        let take = if pane.len() > room { room } else { pane.len() };
        let ghost before = out@.map_values(|s: String| s@);
        let ghost cut = if ps[i as int].len() > room { ps[i as int].take(room as int) } else { ps[i as int] };
        assert(ps[i as int] == pane@.map_values(|s: String| s@));
        let mut k: usize = 0;
        while k < take
            invariant
                k <= take,
                take <= pane.len(),
                out@.map_values(|s: String| s@) == before + pane@.map_values(|s: String| s@).take(k as int),
            decreases take - k,
        {
            let s = string_of(chars_of(pane[k].as_str()).as_slice());
            let ghost b2 = out@.map_values(|s: String| s@);
            out.push(s);
            assert(out@.map_values(|s: String| s@) =~= b2.push(pane@[k as int]@));
            assert(pane@.map_values(|s: String| s@).take(k + 1) =~= pane@.map_values(|s: String| s@).take(k as int).push(
                pane@[k as int]@,
            ));
            k = k + 1;
        }
        assert(pane@.map_values(|s: String| s@).take(take as int) =~= cut);
        i = i + 1;
    }
    match status {
        None => out,
        Some(line) => {
            let ghost stacked = out@.map_values(|s: String| s@);
            let mut blank: usize = 0;
            let need = body - out.len();
            while blank < need
                invariant
                    blank <= need,
                    out@.map_values(|s: String| s@) == stacked + Seq::new(blank as nat, |k: int| Seq::<char>::empty()),
                decreases need - blank,
            {
                let e = string_of(&[]);
                assert(e@ =~= Seq::<char>::empty());
                let ghost before = out@.map_values(|s: String| s@);
                out.push(e);
                assert(out@.map_values(|s: String| s@) =~= before.push(e@));
                assert(before.push(e@) =~= stacked + Seq::new((blank + 1) as nat, |k: int| Seq::<char>::empty()));
                blank = blank + 1;
            }
            let ghost filled = out@.map_values(|s: String| s@);
            out.push(line);
            assert(out@.map_values(|s: String| s@) =~= filled.push(line@));
            out
        },
    }
}

/// The node lines and edge lines of a graph: `● label` per node, then `from ─▶ to`, or
/// `from ─label─▶ to` for a labelled edge, every part cleaned and every line fitted.
pub open spec fn graph_spec(nodes: Seq<Seq<char>>, edges: Seq<(Seq<char>, Seq<char>, Seq<char>)>, width: nat) -> Seq<Seq<char>> {
    nodes.map_values(|n: Seq<char>| fit_spec("● "@ + clean_spec(n), width)) + edges.map_values(
        |e: (Seq<char>, Seq<char>, Seq<char>)|
            fit_spec(
                if clean_spec(e.2).len() == 0 {
                    clean_spec(e.0) + " ─▶ "@ + clean_spec(e.1)
                } else {
                    clean_spec(e.0) + " ─"@ + clean_spec(e.2) + "─▶ "@ + clean_spec(e.1)
                },
                width,
            ),
    )
}

/// A graph laid out in `width`: its nodes, then its edges as `(from, to, label)`.
pub fn graph(nodes: &Vec<String>, edges: &Vec<(String, String, String)>, width: usize) -> (r: Vec<String>)
    ensures
        r@.map_values(|s: String| s@) == graph_spec(
            nodes@.map_values(|s: String| s@),
            edges@.map_values(|e: (String, String, String)| (e.0@, e.1@, e.2@)),
            width as nat,
        ),
{
    let ghost nv = nodes@.map_values(|s: String| s@);
    let ghost ev = edges@.map_values(|e: (String, String, String)| (e.0@, e.1@, e.2@));
    let ghost node_line = |n: Seq<char>| fit_spec("● "@ + clean_spec(n), width as nat);
    let ghost edge_line = |e: (Seq<char>, Seq<char>, Seq<char>)|
        fit_spec(
            if clean_spec(e.2).len() == 0 {
                clean_spec(e.0) + " ─▶ "@ + clean_spec(e.1)
            } else {
                clean_spec(e.0) + " ─"@ + clean_spec(e.2) + "─▶ "@ + clean_spec(e.1)
            },
            width as nat,
        );
    let mut out: Vec<String> = Vec::new();
    let mut i: usize = 0;
    while i < nodes.len()
        invariant
            i <= nodes.len(),
            nv == nodes@.map_values(|s: String| s@),
            node_line == (|n: Seq<char>| fit_spec("● "@ + clean_spec(n), width as nat)),
            out@.map_values(|s: String| s@) == nv.take(i as int).map_values(node_line),
        decreases nodes.len() - i,
    {
        let line = concat(chars_of("● ").as_slice(), chars_of(clean(nodes[i].as_str()).as_str()).as_slice());
        let fitted = fit(string_of(line.as_slice()).as_str(), width);
        let ghost before = out@.map_values(|s: String| s@);
        out.push(fitted);
        assert(out@.map_values(|s: String| s@) =~= before.push(node_line(nv[i as int])));
        assert(nv.take(i + 1).map_values(node_line) =~= nv.take(i as int).map_values(node_line).push(node_line(nv[i as int])));
        i = i + 1;
    }
    assert(nv.take(nodes.len() as int) =~= nv);
    let ghost first = out@.map_values(|s: String| s@);
    let mut k: usize = 0;
    while k < edges.len()
        invariant
            k <= edges.len(),
            ev == edges@.map_values(|e: (String, String, String)| (e.0@, e.1@, e.2@)),
            edge_line == (|e: (Seq<char>, Seq<char>, Seq<char>)|
                fit_spec(
                    if clean_spec(e.2).len() == 0 {
                        clean_spec(e.0) + " ─▶ "@ + clean_spec(e.1)
                    } else {
                        clean_spec(e.0) + " ─"@ + clean_spec(e.2) + "─▶ "@ + clean_spec(e.1)
                    },
                    width as nat,
                )),
            out@.map_values(|s: String| s@) == first + ev.take(k as int).map_values(edge_line),
        decreases edges.len() - k,
    {
        let from = chars_of(clean(edges[k].0.as_str()).as_str());
        let to = chars_of(clean(edges[k].1.as_str()).as_str());
        let label = chars_of(clean(edges[k].2.as_str()).as_str());
        let text = if label.len() == 0 {
            concat(concat(from.as_slice(), chars_of(" ─▶ ").as_slice()).as_slice(), to.as_slice())
        } else {
            let a = concat(concat(from.as_slice(), chars_of(" ─").as_slice()).as_slice(), label.as_slice());
            concat(concat(a.as_slice(), chars_of("─▶ ").as_slice()).as_slice(), to.as_slice())
        };
        let fitted = fit(string_of(text.as_slice()).as_str(), width);
        let ghost before = out@.map_values(|s: String| s@);
        out.push(fitted);
        assert(out@.map_values(|s: String| s@) =~= before.push(edge_line(ev[k as int])));
        assert(ev.take(k + 1).map_values(edge_line) =~= ev.take(k as int).map_values(edge_line).push(edge_line(ev[k as int])));
        k = k + 1;
    }
    assert(ev.take(edges.len() as int) =~= ev);
    out
}

/// A node of a tree view: its label, and its children in order.
#[derive(Debug)]
pub struct TreeNode {
    /// The label as the package sent it.
    pub label: String,
    /// The children.
    pub children: Vec<TreeNode>,
}

/// The connector before a node: the last child closes its branch.
pub open spec fn branch(last: bool) -> Seq<char> {
    if last { "└─"@ } else { "├─"@ }
}

/// What a node's children are indented by, below it: under a last child the branch has ended.
pub open spec fn indent(last: bool) -> Seq<char> {
    if last { "   "@ } else { "│  "@ }
}

/// The lines of `node` and everything under it, each child indented below `prefix`; the root
/// of a tree stands alone, unconnected.
pub open spec fn walk_spec(node: TreeNode, prefix: Seq<char>, last: bool, root: bool) -> Seq<Seq<char>>
    decreases node, 0int,
{
    let label = clean_spec(node.label@);
    let line = if root { label } else { prefix + branch(last) + " "@ + label };
    let next = if root { seq![] } else { prefix + indent(last) };
    seq![line] + children_spec(node.children@, next, node.children@.len() as int)
}

/// The lines of the first `n` of `children`, each below `prefix`; the last of all of them
/// closes the branch.
pub open spec fn children_spec(children: Seq<TreeNode>, prefix: Seq<char>, n: int) -> Seq<Seq<char>>
    decreases children, n,
{
    if n <= 0 || n > children.len() {
        seq![]
    } else {
        children_spec(children, prefix, n - 1) + walk_spec(children[n - 1], prefix, n == children.len(), false)
    }
}

/// A tree laid out in `width`: from its root, or, with none, its top-level nodes side by side.
pub open spec fn tree_spec(root: Option<TreeNode>, top: Seq<TreeNode>, width: nat) -> Seq<Seq<char>> {
    let lines = match root {
        Some(r) => walk_spec(r, seq![], true, true),
        None => children_spec(top, seq![], top.len() as int),
    };
    lines.map_values(|l: Seq<char>| fit_spec(l, width))
}

fn walk(node: &TreeNode, prefix: &str, last: bool, root: bool, out: &mut Vec<String>)
    ensures
        final(out)@.map_values(|s: String| s@) == old(out)@.map_values(|s: String| s@) + walk_spec(*node, prefix@, last, root),
    decreases node, 0int,
{
    let label = clean(node.label.as_str());
    let ghost start = out@.map_values(|s: String| s@);
    let line = if root {
        label
    } else {
        let mut l = string_of(chars_of(prefix).as_slice());
        crate::text::append(&mut l, if last { "└─" } else { "├─" });
        crate::text::append(&mut l, " ");
        crate::text::append(&mut l, label.as_str());
        l
    };
    out.push(line);
    let next = if root {
        String::new()
    } else {
        let mut n = string_of(chars_of(prefix).as_slice());
        crate::text::append(&mut n, if last { "   " } else { "│  " });
        n
    };
    proof {
        reveal_strlit("");
    }
    let ghost head = out@.map_values(|s: String| s@);
    assert(head =~= start.push(line@));
    let count = node.children.len();
    let mut k: usize = 0;
    while k < count
        invariant
            k <= count,
            count == node.children@.len(),
            out@.map_values(|s: String| s@) == head + children_spec(node.children@, next@, k as int),
        decreases count - k,
    {
        let ghost before = out@.map_values(|s: String| s@);
        assert(decreases_to!(node => node.children@[k as int]));
        walk(&node.children[k], next.as_str(), k + 1 == count, false, out);
        k = k + 1;
        assert(children_spec(node.children@, next@, k as int) == children_spec(node.children@, next@, k - 1)
            + walk_spec(node.children@[k - 1], next@, k == count, false));
        assert(out@.map_values(|s: String| s@) =~= head + children_spec(node.children@, next@, k as int));
    }
    assert(walk_spec(*node, prefix@, last, root) =~= seq![line@] + children_spec(node.children@, next@, count as int));
    assert(out@.map_values(|s: String| s@) =~= start + walk_spec(*node, prefix@, last, root));
}

/// A tree laid out in `width`: from `root` when there is one, else from the top-level nodes.
pub fn tree(root: Option<&TreeNode>, top: &Vec<TreeNode>, width: usize) -> (r: Vec<String>)
    ensures
        r@.map_values(|s: String| s@) == tree_spec(
            match root {
                Some(n) => Some(*n),
                None => None,
            },
            top@,
            width as nat,
        ),
{
    let mut lines: Vec<String> = Vec::new();
    proof {
        reveal_strlit("");
    }
    match root {
        Some(r) => {
            walk(r, "", true, true, &mut lines);
            assert(lines@.map_values(|s: String| s@) =~= walk_spec(*r, seq![], true, true));
        },
        None => {
            let count = top.len();
            let mut k: usize = 0;
            while k < count
                invariant
                    k <= count,
                    count == top@.len(),
                    lines@.map_values(|s: String| s@) == children_spec(top@, seq![], k as int),
                decreases count - k,
            {
                walk(&top[k], "", k + 1 == count, false, &mut lines);
                k = k + 1;
                proof {
                    reveal_strlit("");
                }
                assert(children_spec(top@, seq![], k as int) == children_spec(top@, seq![], k - 1)
                    + walk_spec(top@[k - 1], seq![], k == count, false));
                assert(lines@.map_values(|s: String| s@) =~= children_spec(top@, seq![], k as int));
            }
        },
    }
    let ghost all = lines@.map_values(|s: String| s@);
    let mut out: Vec<String> = Vec::new();
    let mut i: usize = 0;
    while i < lines.len()
        invariant
            i <= lines.len(),
            all == lines@.map_values(|s: String| s@),
            out@.map_values(|s: String| s@) == all.take(i as int).map_values(|l: Seq<char>| fit_spec(l, width as nat)),
        decreases lines.len() - i,
    {
        let f = fit(lines[i].as_str(), width);
        let ghost before = out@.map_values(|s: String| s@);
        out.push(f);
        assert(all.take(i + 1).map_values(|l: Seq<char>| fit_spec(l, width as nat)) =~= all.take(i as int).map_values(
            |l: Seq<char>| fit_spec(l, width as nat),
        ).push(fit_spec(all[i as int], width as nat)));
        assert(out@.map_values(|s: String| s@) =~= before.push(f@));
        i = i + 1;
    }
    assert(all.take(lines.len() as int) =~= all);
    out
}

/// The widest of `keys`, in characters.
pub open spec fn widest(keys: Seq<Seq<char>>) -> nat
    decreases keys.len(),
{
    if keys.len() == 0 {
        0
    } else {
        let rest = widest(keys.drop_last());
        if keys.last().len() > rest { keys.last().len() } else { rest }
    }
}

/// A key-value block: the title, fitted, where there is one, then each key padded to the
/// widest key, two spaces, and the value fitted to what is left of the width.
pub open spec fn key_value_spec(title: Seq<char>, pairs: Seq<(Seq<char>, Seq<char>)>, width: nat) -> Seq<Seq<char>> {
    let t = clean_spec(title);
    let keys = pairs.map_values(|p: (Seq<char>, Seq<char>)| clean_spec(p.0));
    let kw = widest(keys);
    let room: nat = if width > kw + 2 { (width - (kw + 2)) as nat } else { 0 };
    let head: Seq<Seq<char>> = if t.len() > 0 { seq![fit_spec(t, width)] } else { seq![] };
    head + pairs.map_values(|p: (Seq<char>, Seq<char>)| pad_spec(clean_spec(p.0), kw) + "  "@ + fit_spec(clean_spec(p.1), room))
}

/// A key-value block laid out in `width`.
pub fn key_value(title: &str, pairs: &Vec<(String, String)>, width: usize) -> (r: Vec<String>)
    ensures
        r@.map_values(|s: String| s@) == key_value_spec(title@, pairs@.map_values(|p: (String, String)| (p.0@, p.1@)), width as nat),
{
    let ghost pv = pairs@.map_values(|p: (String, String)| (p.0@, p.1@));
    let ghost keys = pv.map_values(|p: (Seq<char>, Seq<char>)| clean_spec(p.0));
    let mut key_width: usize = 0;
    let mut i: usize = 0;
    while i < pairs.len()
        invariant
            i <= pairs.len(),
            pv == pairs@.map_values(|p: (String, String)| (p.0@, p.1@)),
            keys == pv.map_values(|p: (Seq<char>, Seq<char>)| clean_spec(p.0)),
            key_width as nat == widest(keys.take(i as int)),
            key_width <= usize::MAX,
        decreases pairs.len() - i,
    {
        let n = chars_of(clean(pairs[i].0.as_str()).as_str()).len();
        assert(keys.take(i + 1).drop_last() =~= keys.take(i as int));
        assert(keys.take(i + 1).last() == keys[i as int]);
        if n > key_width {
            key_width = n;
        }
        i = i + 1;
    }
    assert(keys.take(pairs.len() as int) =~= keys);
    let room: usize = if key_width < usize::MAX - 2 && width > key_width + 2 { width - (key_width + 2) } else { 0 };
    proof {
        if !(key_width < usize::MAX - 2) {
            assert(width <= usize::MAX);
        }
    }
    let mut out: Vec<String> = Vec::new();
    let t = clean(title);
    if chars_of(t.as_str()).len() > 0 {
        out.push(fit(t.as_str(), width));
    }
    let ghost head = out@.map_values(|s: String| s@);
    let ghost row = |p: (Seq<char>, Seq<char>)| pad_spec(clean_spec(p.0), key_width as nat) + "  "@ + fit_spec(clean_spec(p.1), room as nat);
    let mut k: usize = 0;
    while k < pairs.len()
        invariant
            k <= pairs.len(),
            pv == pairs@.map_values(|p: (String, String)| (p.0@, p.1@)),
            row == (|p: (Seq<char>, Seq<char>)| pad_spec(clean_spec(p.0), key_width as nat) + "  "@ + fit_spec(clean_spec(p.1), room as nat)),
            out@.map_values(|s: String| s@) == head + pv.take(k as int).map_values(row),
        decreases pairs.len() - k,
    {
        let key = pad(clean(pairs[k].0.as_str()).as_str(), key_width);
        let value = fit(clean(pairs[k].1.as_str()).as_str(), room);
        let a = concat(chars_of(key.as_str()).as_slice(), chars_of("  ").as_slice());
        let line = string_of(concat(a.as_slice(), chars_of(value.as_str()).as_slice()).as_slice());
        let ghost before = out@.map_values(|s: String| s@);
        out.push(line);
        assert(out@.map_values(|s: String| s@) =~= before.push(row(pv[k as int])));
        assert(pv.take(k + 1).map_values(row) =~= pv.take(k as int).map_values(row).push(row(pv[k as int])));
        k = k + 1;
    }
    assert(pv.take(pairs.len() as int) =~= pv);
    out
}

/// The width each of `count` side-by-side panes gets: the width less one border column between
/// each two, shared evenly.
pub open spec fn column_width_spec(width: nat, count: nat) -> nat {
    let borders: int = count - 1;
    if width > borders { ((width - borders) / (count as int)) as nat } else { 0 }
}

/// The width each of `count` side-by-side panes gets.
pub fn column_width(width: usize, count: usize) -> (r: usize)
    requires
        count > 0,
    ensures
        r as nat == column_width_spec(width as nat, count as nat),
{
    let borders = count - 1;
    if width > borders { (width - borders) / count } else { 0 }
}

/// The row `row` of side-by-side columns each `each` wide: every column's line, or nothing,
/// fitted and padded to the width, joined by a border.
pub open spec fn row_spec(columns: Seq<Seq<Seq<char>>>, each: nat, row: int) -> Seq<char>
    decreases columns.len(),
{
    if columns.len() == 0 {
        seq![]
    } else {
        let last = columns.last();
        let cell = pad_spec(fit_spec(if row < last.len() { last[row] } else { seq![] }, each), each);
        if columns.len() == 1 {
            cell
        } else {
            row_spec(columns.drop_last(), each, row) + "│"@ + cell
        }
    }
}

/// The rows of side-by-side columns: as many as the tallest column, at most `height`.
pub open spec fn side_by_side_spec(columns: Seq<Seq<Seq<char>>>, each: nat, height: nat) -> Seq<Seq<char>> {
    let tallest = widest_count(columns);
    let rows: nat = if tallest < height { tallest } else { height };
    Seq::new(rows, |row: int| row_spec(columns, each, row))
}

/// The most lines any of `columns` has.
pub open spec fn widest_count(columns: Seq<Seq<Seq<char>>>) -> nat
    decreases columns.len(),
{
    if columns.len() == 0 {
        0
    } else {
        let rest = widest_count(columns.drop_last());
        if columns.last().len() > rest { columns.last().len() } else { rest }
    }
}

fn cell(column: &Vec<String>, row: usize, each: usize) -> (r: Vec<char>)
    ensures
        r@ == pad_spec(fit_spec(if row < column.len() { column@[row as int]@ } else { seq![] }, each as nat), each as nat),
{
    let text = if row < column.len() { column[row].as_str().to_owned() } else { String::new() };
    chars_of(pad(fit(text.as_str(), each).as_str(), each).as_str())
}

/// Side-by-side columns, each laid out `each` wide, as rows at most `height` high.
pub fn side_by_side(columns: &Vec<Vec<String>>, each: usize, height: usize) -> (r: Vec<String>)
    ensures
        r@.map_values(|s: String| s@) == side_by_side_spec(
            columns@.map_values(|c: Vec<String>| c@.map_values(|s: String| s@)),
            each as nat,
            height as nat,
        ),
{
    let ghost cv = columns@.map_values(|c: Vec<String>| c@.map_values(|s: String| s@));
    let mut tallest: usize = 0;
    let mut c: usize = 0;
    while c < columns.len()
        invariant
            c <= columns.len(),
            cv == columns@.map_values(|c: Vec<String>| c@.map_values(|s: String| s@)),
            tallest as nat == widest_count(cv.take(c as int)),
        decreases columns.len() - c,
    {
        assert(cv.take(c + 1).drop_last() =~= cv.take(c as int));
        assert(cv.take(c + 1).last() == cv[c as int]);
        assert(cv[c as int].len() == columns@[c as int].len());
        if columns[c].len() > tallest {
            tallest = columns[c].len();
        }
        c = c + 1;
    }
    assert(cv.take(columns.len() as int) =~= cv);
    let rows = if tallest < height { tallest } else { height };
    let ghost expected = side_by_side_spec(cv, each as nat, height as nat);
    let mut out: Vec<String> = Vec::new();
    let mut row: usize = 0;
    while row < rows
        invariant
            row <= rows,
            rows as nat == (if tallest < height { tallest as nat } else { height as nat }),
            tallest as nat == widest_count(cv),
            cv == columns@.map_values(|c: Vec<String>| c@.map_values(|s: String| s@)),
            expected == side_by_side_spec(cv, each as nat, height as nat),
            out@.map_values(|s: String| s@) == expected.take(row as int),
        decreases rows - row,
    {
        let mut line: Vec<char> = Vec::new();
        let mut k: usize = 0;
        while k < columns.len()
            invariant
                k <= columns.len(),
                cv == columns@.map_values(|c: Vec<String>| c@.map_values(|s: String| s@)),
                line@ == row_spec(cv.take(k as int), each as nat, row as int),
            decreases columns.len() - k,
        {
            let piece = cell(&columns[k], row, each);
            assert(cv.take(k + 1).drop_last() =~= cv.take(k as int));
            assert(cv.take(k + 1).last() == cv[k as int]);
            assert(cv[k as int] == columns@[k as int]@.map_values(|s: String| s@));
            if k == 0 {
                line = piece;
            } else {
                let with_border = concat(line.as_slice(), chars_of("│").as_slice());
                line = concat(with_border.as_slice(), piece.as_slice());
            }
            k = k + 1;
        }
        assert(cv.take(columns.len() as int) =~= cv);
        let s = string_of(line.as_slice());
        let ghost before = out@.map_values(|s: String| s@);
        out.push(s);
        assert(out@.map_values(|s: String| s@) =~= before.push(expected[row as int]));
        assert(expected.take(row + 1) =~= expected.take(row as int).push(expected[row as int]));
        row = row + 1;
    }
    assert(expected.take(rows as int) =~= expected);
    out
}

// --- a view as a tree of components ------------------------------------------------------------

/// One tab of a tabs view: its title and what it shows.
#[derive(Debug)]
pub struct Tab {
    /// The title on the bar.
    pub title: String,
    /// The body shown while the tab is active.
    pub body: Component,
}

/// A package's view: the components the host lays out, each holding what it shows.
#[derive(Debug)]
pub enum Component {
    /// Text, wrapped to the width.
    Text(String),
    /// A tree from its root, or from its top-level nodes where it has none.
    Tree { root: Option<TreeNode>, top: Vec<TreeNode> },
    /// Nodes, then edges as `(from, to, label)`.
    Graph { nodes: Vec<String>, edges: Vec<(String, String, String)> },
    /// A title and key-value pairs.
    KeyValue { title: String, pairs: Vec<(String, String)> },
    /// Log lines, the newest last.
    LogStream(Vec<String>),
    /// Tabs, and the one asked to be active.
    Tabs { tabs: Vec<Tab>, active: Option<u64> },
    /// Panes side by side (`horizontal`) or stacked.
    Split { horizontal: bool, panes: Vec<Component> },
    /// A query and the items it matches.
    Palette { query: String, items: Vec<String>, selected: Option<usize> },
    /// A title and items to pick from.
    Picker { title: String, items: Vec<String>, selected: Option<usize> },
    /// One status line.
    StatusLine(String),
    /// Lines another renderer already laid out.
    Drawn(Vec<String>),
    /// A component the host does not know: it shows nothing.
    Unknown,
}

/// Lines as plain values.
pub open spec fn lines_of(v: Seq<String>) -> Seq<Seq<char>> {
    v.map_values(|s: String| s@)
}

/// `n` less one, and no less than nothing.
pub open spec fn less_one(n: nat) -> nat {
    if n >= 1 { (n - 1) as nat } else { 0 }
}

/// The columns the first `n` panes make, each laid out `width` by `height`.
pub open spec fn columns_spec(panes: Seq<Component>, width: nat, height: nat, n: int) -> Seq<Seq<Seq<char>>>
    decreases panes, n,
{
    if n <= 0 || n > panes.len() {
        seq![]
    } else {
        columns_spec(panes, width, height, n - 1).push(layout_spec(panes[n - 1], width, height))
    }
}

/// Stacked panes, from the `i`-th of the first `n`, below the lines `above`: each is laid out
/// in the rows the panes above it left, and cut to them.
pub open spec fn stacked_from(
    panes: Seq<Component>,
    width: nat,
    body: nat,
    n: int,
    i: int,
    above: Seq<Seq<char>>,
) -> Seq<Seq<char>>
    decreases panes, n - i,
{
    if i < 0 || i >= n || n > panes.len() || above.len() >= body {
        above
    } else {
        let room = (body - above.len()) as nat;
        let laid = layout_spec(panes[i], width, room);
        let cut = if laid.len() > room { laid.take(room as int) } else { laid };
        stacked_from(panes, width, body, n, i + 1, above + cut)
    }
}

/// Whether the last of `panes` is a status line.
pub open spec fn ends_in_status(panes: Seq<Component>) -> bool {
    panes.len() > 0 && panes.last() is StatusLine
}

/// A status line laid out `width` wide: cleaned, fitted and padded.
pub open spec fn status_spec(text: Seq<char>, width: nat) -> Seq<char> {
    pad_spec(fit_spec(clean_spec(text), width), width)
}

/// A component laid out `width` columns by `height` rows.
pub open spec fn layout_spec(c: Component, width: nat, height: nat) -> Seq<Seq<char>>
    decreases c, 0int,
{
    match c {
        Component::Text(t) => wrap_spec(clean_spec(t@), width),
        Component::Tree { root, top } => tree_spec(root, top@, width),
        Component::Graph { nodes, edges } => graph_spec(
            lines_of(nodes@),
            edges@.map_values(|e: (String, String, String)| (e.0@, e.1@, e.2@)),
            width,
        ),
        Component::KeyValue { title, pairs } => key_value_spec(
            title@,
            pairs@.map_values(|p: (String, String)| (p.0@, p.1@)),
            width,
        ),
        Component::LogStream(lines) => log_stream_spec(lines_of(lines@), width, height),
        Component::Tabs { tabs, active } => {
            let k = active_tab_spec(active, tabs@.len());
            seq![tab_bar_spec(tabs@.map_values(|t: Tab| t.title@))] + if k < tabs@.len() {
                layout_spec(tabs@[k as int].body, width, less_one(height))
            } else {
                seq![]
            }
        },
        Component::Split { horizontal, panes } => if panes@.len() == 0 {
            seq![]
        } else if horizontal {
            let each = column_width_spec(width, panes@.len());
            side_by_side_spec(
                columns_spec(panes@, if each >= 1 { each } else { 1 }, height, panes@.len() as int),
                each,
                height,
            )
        } else {
            let status = ends_in_status(panes@);
            let body = body_rows(height, status);
            let n = if status { panes@.len() - 1 } else { panes@.len() as int };
            let stacked = stacked_from(panes@, width, body, n, 0, seq![]);
            if status {
                let blank = if stacked.len() < body { (body - stacked.len()) as nat } else { 0 };
                stacked + Seq::new(blank, |k: int| Seq::<char>::empty()) + match panes@.last() {
                    Component::StatusLine(t) => seq![status_spec(t@, width)],
                    _ => seq![],
                }
            } else {
                stacked
            }
        },
        Component::Palette { query, items, selected } => palette_spec(query@, lines_of(items@), selected, width, height),
        Component::Picker { title, items, selected } => picker_spec(title@, lines_of(items@), selected, width, height),
        Component::StatusLine(t) => seq![status_spec(t@, width)],
        Component::Drawn(lines) => lines_of(lines@),
        Component::Unknown => seq![],
    }
}

/// A copy of some lines.
fn copy_lines(v: &Vec<String>) -> (r: Vec<String>)
    ensures
        lines_of(r@) == lines_of(v@),
{
    let mut r: Vec<String> = Vec::new();
    let mut i: usize = 0;
    while i < v.len()
        invariant
            i <= v.len(),
            lines_of(r@) == lines_of(v@).take(i as int),
        decreases v.len() - i,
    {
        let s = string_of(chars_of(v[i].as_str()).as_slice());
        let ghost before = lines_of(r@);
        r.push(s);
        assert(lines_of(r@) =~= before.push(v@[i as int]@));
        assert(lines_of(v@).take(i + 1) =~= lines_of(v@).take(i as int).push(v@[i as int]@));
        i = i + 1;
    }
    assert(lines_of(v@).take(v.len() as int) =~= lines_of(v@));
    r
}

/// Appends the first `count` of `lines` to `out`.
fn append_first(out: &mut Vec<String>, lines: &Vec<String>, count: usize)
    requires
        count <= lines.len(),
    ensures
        lines_of(final(out)@) == lines_of(old(out)@) + lines_of(lines@).take(count as int),
        final(out).len() == old(out).len() + count,
{
    let ghost start = lines_of(out@);
    let mut k: usize = 0;
    while k < count
        invariant
            k <= count,
            count <= lines.len(),
            lines_of(out@) == start + lines_of(lines@).take(k as int),
            out.len() == old(out).len() + k,
        decreases count - k,
    {
        let s = string_of(chars_of(lines[k].as_str()).as_slice());
        let ghost before = lines_of(out@);
        out.push(s);
        assert(lines_of(out@) =~= before.push(lines@[k as int]@));
        assert(lines_of(lines@).take(k + 1) =~= lines_of(lines@).take(k as int).push(lines@[k as int]@));
        k = k + 1;
    }
}

/// A component laid out `width` columns by `height` rows.
pub fn layout(c: &Component, width: usize, height: usize) -> (r: Vec<String>)
    ensures
        lines_of(r@) == layout_spec(*c, width as nat, height as nat),
    decreases c,
{
    match c {
        Component::Text(t) => wrap(clean(t.as_str()).as_str(), width),
        Component::Tree { root, top } => tree(
            match root {
                Some(n) => Some(n),
                None => None,
            },
            top,
            width,
        ),
        Component::Graph { nodes, edges } => graph(nodes, edges, width),
        Component::KeyValue { title, pairs } => key_value(title.as_str(), pairs, width),
        Component::LogStream(lines) => log_stream(lines, width, height),
        Component::Tabs { tabs, active } => {
            let k = active_tab(*active, tabs.len());
            let mut titles: Vec<String> = Vec::new();
            let mut i: usize = 0;
            while i < tabs.len()
                invariant
                    i <= tabs.len(),
                    lines_of(titles@) == tabs@.map_values(|t: Tab| t.title@).take(i as int),
                decreases tabs.len() - i,
            {
                let s = string_of(chars_of(tabs[i].title.as_str()).as_slice());
                let ghost before = lines_of(titles@);
                titles.push(s);
                assert(lines_of(titles@) =~= before.push(tabs@[i as int].title@));
                assert(tabs@.map_values(|t: Tab| t.title@).take(i + 1) =~= tabs@.map_values(|t: Tab| t.title@).take(
                    i as int,
                ).push(tabs@[i as int].title@));
                i = i + 1;
            }
            assert(tabs@.map_values(|t: Tab| t.title@).take(tabs.len() as int) =~= tabs@.map_values(|t: Tab| t.title@));
            let mut out: Vec<String> = Vec::new();
            out.push(tab_bar(&titles));
            assert(lines_of(out@) =~= seq![tab_bar_spec(tabs@.map_values(|t: Tab| t.title@))]);
            if k < tabs.len() {
                let rows = if height >= 1 { height - 1 } else { 0 };
                assert(decreases_to!(c => tabs@[k as int].body));
                let body = layout(&tabs[k].body, width, rows);
                append_first(&mut out, &body, body.len());
                assert(lines_of(body@).take(body.len() as int) =~= lines_of(body@));
            } else {
                assert(lines_of(out@) =~= lines_of(out@) + Seq::<Seq<char>>::empty());
            }
            out
        },
        Component::Split { horizontal, panes } => {
            if panes.len() == 0 {
                return Vec::new();
            }
            if *horizontal {
                let each = column_width(width, panes.len());
                let inner = if each >= 1 { each } else { 1 };
                let mut columns: Vec<Vec<String>> = Vec::new();
                let mut i: usize = 0;
                while i < panes.len()
                    invariant
                        i <= panes.len(),
                        *c == (Component::Split { horizontal: *horizontal, panes: *panes }),
                        columns@.map_values(|v: Vec<String>| lines_of(v@)) == columns_spec(
                            panes@,
                            inner as nat,
                            height as nat,
                            i as int,
                        ),
                    decreases panes.len() - i,
                {
                    assert(decreases_to!(*c => c->panes));
                    assert(c->panes == *panes);
                    assert(decreases_to!(*panes => panes@));
                    assert(decreases_to!(panes@ => panes@[i as int]));
                    assert(decreases_to!(c => panes@[i as int]));
                    let laid = layout(&panes[i], inner, height);
                    let ghost before = columns@.map_values(|v: Vec<String>| lines_of(v@));
                    columns.push(laid);
                    assert(columns@.map_values(|v: Vec<String>| lines_of(v@)) =~= before.push(lines_of(laid@)));
                    i = i + 1;
                }
                let r = side_by_side(&columns, each, height);
                assert(columns@.map_values(|v: Vec<String>| lines_of(v@)) =~= columns@.map_values(
                    |v: Vec<String>| v@.map_values(|s: String| s@),
                ));
                r
            } else {
                let last = panes.len() - 1;
                let status = match &panes[last] {
                    Component::StatusLine(_) => true,
                    _ => false,
                };
                assert(status == ends_in_status(panes@));
                let body: usize = if status {
                    if height >= 1 { height - 1 } else { 0 }
                } else {
                    height
                };
                let n: usize = if status { last } else { panes.len() };
                let ghost whole = stacked_from(panes@, width as nat, body as nat, n as int, 0, seq![]);
                let mut out: Vec<String> = Vec::new();
                let mut i: usize = 0;
                while i < n
                    invariant
                        i <= n,
                        n <= panes.len(),
                        *c == (Component::Split { horizontal: *horizontal, panes: *panes }),
                        out.len() <= body,
                        whole == stacked_from(panes@, width as nat, body as nat, n as int, 0, seq![]),
                        stacked_from(panes@, width as nat, body as nat, n as int, i as int, lines_of(out@)) == whole,
                    ensures
                        lines_of(out@) == whole,
                        out.len() <= body,
                    decreases n - i,
                {
                    if out.len() >= body {
                        break;
                    }
                    let room = body - out.len();
                    assert(decreases_to!(*c => c->panes));
                    assert(c->panes == *panes);
                    assert(decreases_to!(*panes => panes@));
                    assert(decreases_to!(panes@ => panes@[i as int]));
                    assert(decreases_to!(c => panes@[i as int]));
                    let laid = layout(&panes[i], width, room);
                    let take = if laid.len() > room { room } else { laid.len() };
                    let ghost above = lines_of(out@);
                    append_first(&mut out, &laid, take);
                    assert(lines_of(laid@).take(take as int) == (if lines_of(laid@).len() > room {
                        lines_of(laid@).take(room as int)
                    } else {
                        lines_of(laid@)
                    }));
                    i = i + 1;
                }
                if status {
                    let ghost stacked = lines_of(out@);
                    let need = body - out.len();
                    let mut blank: usize = 0;
                    while blank < need
                        invariant
                            blank <= need,
                            lines_of(out@) == stacked + Seq::new(blank as nat, |k: int| Seq::<char>::empty()),
                        decreases need - blank,
                    {
                        let e = String::new();
                        let ghost before = lines_of(out@);
                        out.push(e);
                        assert(lines_of(out@) =~= before.push(e@));
                        assert(before.push(e@) =~= stacked + Seq::new((blank + 1) as nat, |k: int| Seq::<char>::empty()));
                        blank = blank + 1;
                    }
                    match &panes[last] {
                        Component::StatusLine(t) => {
                            let line = pad(fit(clean(t.as_str()).as_str(), width).as_str(), width);
                            let ghost filled = lines_of(out@);
                            out.push(line);
                            assert(lines_of(out@) =~= filled + seq![status_spec(t@, width as nat)]);
                        },
                        _ => {},
                    }
                }
                out
            }
        },
        Component::Palette { query, items, selected } => palette(query.as_str(), items, *selected, width, height),
        Component::Picker { title, items, selected } => picker(title.as_str(), items, *selected, width, height),
        Component::StatusLine(t) => {
            let line = pad(fit(clean(t.as_str()).as_str(), width).as_str(), width);
            let mut out: Vec<String> = Vec::new();
            out.push(line);
            assert(lines_of(out@) =~= seq![status_spec(t@, width as nat)]);
            out
        },
        Component::Drawn(lines) => copy_lines(lines),
        Component::Unknown => {
            let out: Vec<String> = Vec::new();
            assert(lines_of(out@) =~= Seq::<Seq<char>>::empty());
            out
        },
    }
}

/// The lines a view shows on a terminal `columns` wide and `rows` high: laid out at least four
/// columns wide and one row high, and cut to the rows.
pub open spec fn render_spec(c: Component, columns: nat, rows: nat) -> Seq<Seq<char>> {
    let w: nat = if columns >= 4 { columns } else { 4 };
    let h: nat = if rows >= 1 { rows } else { 1 };
    let lines = layout_spec(c, w, h);
    if lines.len() > h { lines.take(h as int) } else { lines }
}

/// Lays a view out for a terminal `columns` wide and `rows` high.
pub fn render(c: &Component, columns: usize, rows: usize) -> (r: Vec<String>)
    ensures
        lines_of(r@) == render_spec(*c, columns as nat, rows as nat),
{
    let w = if columns >= 4 { columns } else { 4 };
    let h = if rows >= 1 { rows } else { 1 };
    let lines = layout(c, w, h);
    let count = if lines.len() > h { h } else { lines.len() };
    let mut out: Vec<String> = Vec::new();
    append_first(&mut out, &lines, count);
    assert(lines_of(out@) =~= Seq::<Seq<char>>::empty() + lines_of(lines@).take(count as int));
    proof {
        if lines.len() <= h {
            assert(lines_of(lines@).take(count as int) =~= lines_of(lines@));
        }
    }
    out
}

// --- laws --------------------------------------------------------------------------------------

/// A fitted line never exceeds the terminal: at most `width` characters, for any width of at
/// least one column.
pub proof fn law_fit_never_exceeds(line: Seq<char>, width: nat)
    requires
        width >= 1,
    ensures
        fit_spec(line, width).len() <= width,
        line.len() <= width ==> fit_spec(line, width) == line,
{
}

/// Nothing a package sends reaches the terminal as a control character: cleaning keeps the
/// length and leaves none.
pub proof fn law_clean_leaves_no_control(text: Seq<char>)
    ensures
        clean_spec(text).len() == text.len(),
        forall|i: int| 0 <= i < text.len() ==> !is_cc(#[trigger] clean_spec(text)[i]),
        forall|i: int| 0 <= i < text.len() && !is_cc(text[i]) ==> #[trigger] clean_spec(text)[i] == text[i],
{
}

/// How many nodes a tree holds: the node and everything under it.
pub open spec fn size(node: TreeNode) -> nat
    decreases node, 0int,
{
    1 + sizes(node.children@, node.children@.len() as int)
}

/// How many nodes the first `n` of `children` hold, with everything under them.
pub open spec fn sizes(children: Seq<TreeNode>, n: int) -> nat
    decreases children, n,
{
    if n <= 0 || n > children.len() {
        0
    } else {
        sizes(children, n - 1) + size(children[n - 1])
    }
}

proof fn lemma_walk_len(node: TreeNode, prefix: Seq<char>, last: bool, root: bool)
    ensures
        walk_spec(node, prefix, last, root).len() == size(node),
    decreases node, 0int,
{
    let next = if root { seq![] } else { prefix + indent(last) };
    lemma_children_len(node.children@, next, node.children@.len() as int);
}

proof fn lemma_children_len(children: Seq<TreeNode>, prefix: Seq<char>, n: int)
    ensures
        children_spec(children, prefix, n).len() == sizes(children, n),
    decreases children, n,
{
    if 0 < n <= children.len() {
        lemma_children_len(children, prefix, n - 1);
        lemma_walk_len(children[n - 1], prefix, n == children.len(), false);
    }
}

/// A tree shows every node on a line of its own, and no line wider than the terminal.
pub proof fn law_tree_shows_every_node(root: TreeNode, width: nat)
    requires
        width >= 1,
    ensures
        tree_spec(Some(root), seq![], width).len() == size(root),
        forall|i: int| 0 <= i < size(root) ==> (#[trigger] tree_spec(Some(root), seq![], width)[i]).len() <= width,
{
    lemma_walk_len(root, seq![], true, true);
}

/// A log stream never exceeds the terminal and shows the newest lines: at most `height` lines,
/// each within `width`, the last of them the last line sent.
pub proof fn law_log_stream_fits(lines: Seq<Seq<char>>, width: nat, height: nat)
    requires
        width >= 1,
    ensures
        log_stream_spec(lines, width, height).len() <= height,
        forall|i: int| 0 <= i < log_stream_spec(lines, width, height).len() ==> (#[trigger] log_stream_spec(lines, width, height)[i]).len() <= width,
        lines.len() > 0 && height >= 1 ==> log_stream_spec(lines, width, height).last() == fit_spec(
            clean_spec(lines.last()),
            width,
        ),
{
    let shown = log_stream_spec(lines, width, height);
    assert forall|i: int| 0 <= i < shown.len() implies (#[trigger] shown[i]).len() <= width by {
        let skip = if lines.len() > height { lines.len() - height } else { 0 };
        law_fit_never_exceeds(clean_spec(lines.skip(skip)[i]), width);
    }
}

proof fn lemma_stack_within(panes: Seq<Seq<Seq<char>>>, body: nat, i: int, above: Seq<Seq<char>>)
    requires
        above.len() <= body,
    ensures
        stack_from(panes, body, i, above).len() <= body,
        above.len() <= stack_from(panes, body, i, above).len(),
        stack_from(panes, body, i, above).take(above.len() as int) == above,
    decreases panes.len() - i,
{
    if !(i < 0 || i >= panes.len() || above.len() >= body) {
        let room = body - above.len();
        let cut = if panes[i].len() > room { panes[i].take(room) } else { panes[i] };
        lemma_stack_within(panes, body, i + 1, above + cut);
        let whole = stack_from(panes, body, i + 1, above + cut);
        assert(whole.take((above + cut).len() as int).take(above.len() as int) =~= whole.take(above.len() as int));
        assert((above + cut).take(above.len() as int) =~= above);
    } else {
        assert(above.take(above.len() as int) =~= above);
    }
}

/// A trailing status line is pinned to the last row: the stack is exactly as high as the
/// terminal, and its last row is the status line.
pub proof fn law_status_line_pinned(panes: Seq<Seq<Seq<char>>>, status: Seq<char>, height: nat)
    requires
        height >= 1,
    ensures
        stack_spec(panes, Some(status), height).len() == height,
        stack_spec(panes, Some(status), height).last() == status,
{
    let body = body_rows(height, true);
    lemma_stack_within(panes, body, 0, seq![]);
}

/// A tabs view always shows one of its tabs: the active one is never past the last.
pub proof fn law_the_active_tab_exists(requested: Option<u64>, count: nat)
    requires
        count >= 1,
    ensures
        active_tab_spec(requested, count) < count,
{
}

/// A view never takes more rows than the terminal has: at most `rows`, and one where the
/// terminal reports none.
pub proof fn law_a_view_fits_the_rows(c: Component, columns: nat, rows: nat)
    ensures
        render_spec(c, columns, rows).len() <= if rows >= 1 { rows } else { 1 },
{
}

} // verus!
