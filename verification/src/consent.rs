//! The just-in-time question: when a package's call needs a permission nobody decided, whether
//! the person at the terminal is asked at all, what they are told, what each answer does, and
//! the words a refusal carries. Printing, reading the terminal and recording decisions are the
//! caller's; every decision and every sentence is made here.

use vstd::prelude::*;

use crate::invocation::strings_view;
use crate::text::{append, capitalise, capitalised, chars_of, eq_str, interspersed, join_with, joined,
    lowercase_first, lowercase_text, str_lower, string_of, trim, trimmed, uncapitalised};

verus! {

/// What the consent source does before any question.
#[derive(Debug, Clone, Copy, PartialEq, Eq, Structural)]
pub enum Opening {
    /// Answer denied, with the remedy, asking nothing: this session already heard a no.
    Denied,
    /// Answer that consent is required, with the remedy: there is nobody at a terminal to ask.
    Required,
    /// Put the question to the person at the terminal.
    Ask,
}

/// What the consent source does before any question, from whether this session remembers a
/// denial of the same subject and whether a person is at a terminal.
pub open spec fn opening_spec(remembered: bool, interactive: bool) -> Opening {
    if remembered {
        Opening::Denied
    } else if !interactive {
        Opening::Required
    } else {
        Opening::Ask
    }
}

/// What the consent source does before any question: a remembered denial answers at once, and
/// without a terminal the request is answered as needing consent.
pub fn opening(remembered: bool, interactive: bool) -> (r: Opening)
    ensures
        r == opening_spec(remembered, interactive),
{
    if remembered {
        Opening::Denied
    } else if !interactive {
        Opening::Required
    } else {
        Opening::Ask
    }
}

/// What an answer at the prompt chose.
#[derive(Debug, Clone, Copy, PartialEq, Eq, Structural)]
pub enum Choice {
    /// Allow this call only; nothing is recorded.
    Once,
    /// Allow, and record the decision for this session.
    Session,
    /// Allow, and record the decision for good, writing the decisions to disk.
    Always,
    /// Show the permission in full and ask again.
    Details,
    /// Deny, and remember the denial for this session.
    Deny,
}

/// What an answer already trimmed and in small letters chose: `o`/`once`, `s`/`session`,
/// `a`/`always`, `d`/`details`; anything else is a denial.
pub open spec fn choice_of(lowered: Seq<char>) -> Choice {
    if lowered == "o"@ || lowered == "once"@ {
        Choice::Once
    } else if lowered == "s"@ || lowered == "session"@ {
        Choice::Session
    } else if lowered == "a"@ || lowered == "always"@ {
        Choice::Always
    } else if lowered == "d"@ || lowered == "details"@ {
        Choice::Details
    } else {
        Choice::Deny
    }
}

/// What a typed answer chose: trimmed and in small letters, `o`/`once`, `s`/`session`,
/// `a`/`always`, `d`/`details`; anything else is a denial.
pub open spec fn choice_spec(typed: Seq<char>) -> Choice {
    choice_of(str_lower(trimmed(typed)))
}

/// What an answer already trimmed and in small letters chose.
pub fn choice_of_lowered(lowered: &str) -> (r: Choice)
    ensures
        r == choice_of(lowered@),
{
    let a = chars_of(lowered);
    if eq_str(a.as_slice(), "o") || eq_str(a.as_slice(), "once") {
        Choice::Once
    } else if eq_str(a.as_slice(), "s") || eq_str(a.as_slice(), "session") {
        Choice::Session
    } else if eq_str(a.as_slice(), "a") || eq_str(a.as_slice(), "always") {
        Choice::Always
    } else if eq_str(a.as_slice(), "d") || eq_str(a.as_slice(), "details") {
        Choice::Details
    } else {
        Choice::Deny
    }
}

/// Reads the answer to the consent question.
pub fn read_choice(typed: &str) -> (r: Choice)
    ensures
        r == choice_spec(typed@),
{
    let t = trim(chars_of(typed).as_slice());
    let lower = lowercase_text(string_of(t.as_slice()).as_str());
    choice_of_lowered(lower.as_str())
}

/// Whether a choice allows the call.
pub open spec fn allows(choice: Choice) -> bool {
    choice == Choice::Once || choice == Choice::Session || choice == Choice::Always
}

/// The question, line by line: who needs what (the program and its arguments for a helper, the
/// permission and its subject otherwise), the reason, and the choices.
pub open spec fn prompt_spec(
    name: Seq<char>,
    program: Option<Seq<char>>,
    arguments: Seq<Seq<char>>,
    title: Seq<char>,
    subject: Seq<char>,
    purpose: Option<Seq<char>>,
) -> Seq<Seq<char>> {
    let display = capitalised(name);
    let head = match program {
        Some(p) => seq![display + " needs to run:"@, "  "@ + p + " "@ + interspersed(arguments, " "@)],
        None => seq![display + " needs permission to "@ + uncapitalised(title) + ":"@, "  "@ + subject],
    };
    let reason = match purpose {
        Some(p) => p,
        None => uncapitalised(title),
    };
    let question = if program is Some { "Allow this helper?"@ } else { "Allow this?"@ };
    let what = if program is Some { "program"@ } else { "scope"@ };
    seq![""@] + head + seq![
        ""@,
        "Reason:"@,
        "  "@ + reason,
        ""@,
        question,
        "  [o] once  [s] this session  [a] always for this "@ + what + "  [n] deny  [d] details"@,
    ]
}

/// The question put to the person at the terminal for package `name`.
pub fn prompt(
    name: &str,
    program: Option<&str>,
    arguments: &Vec<String>,
    title: &str,
    subject: &str,
    purpose: Option<&str>,
) -> (r: Vec<String>)
    ensures
        strings_view(r@) == prompt_spec(
            name@,
            match program {
                Some(p) => Some(p@),
                None => None,
            },
            strings_view(arguments@),
            title@,
            subject@,
            match purpose {
                Some(p) => Some(p@),
                None => None,
            },
        ),
{
    let display = capitalise(name);
    let mut lines: Vec<String> = Vec::new();
    lines.push(String::new());
    match program {
        Some(p) => {
            let mut first = display.clone();
            append(&mut first, " needs to run:");
            lines.push(first);
            let mut second = joined("  ", p);
            append(&mut second, " ");
            let args = join_with(arguments, " ");
            append(&mut second, args.as_str());
            lines.push(second);
        },
        None => {
            let mut first = display.clone();
            append(&mut first, " needs permission to ");
            let small = lowercase_first(title);
            append(&mut first, small.as_str());
            append(&mut first, ":");
            lines.push(first);
            lines.push(joined("  ", subject));
        },
    }
    lines.push(String::new());
    lines.push(string_of(chars_of("Reason:").as_slice()));
    let reason = match purpose {
        Some(p) => joined("  ", p),
        None => {
            let small = lowercase_first(title);
            joined("  ", small.as_str())
        },
    };
    lines.push(reason);
    lines.push(String::new());
    let (question, what) = match program {
        Some(_) => ("Allow this helper?", "program"),
        None => ("Allow this?", "scope"),
    };
    lines.push(string_of(chars_of(question).as_slice()));
    let mut options = joined("  [o] once  [s] this session  [a] always for this ", what);
    append(&mut options, "  [n] deny  [d] details");
    lines.push(options);
    proof {
        reveal_strlit("");
        let pv = match program {
            Some(p) => Some(p@),
            None => None,
        };
        let uv = match purpose {
            Some(p) => Some(p@),
            None => None,
        };
        let e = prompt_spec(name@, pv, strings_view(arguments@), title@, subject@, uv);
        assert(strings_view(lines@).len() == e.len());
        assert forall|i: int| 0 <= i < e.len() implies strings_view(lines@)[i] == e[i] by {
            if i == 0 {} else if i == 1 {} else if i == 2 {} else if i == 3 {} else if i == 4 {}
            else if i == 5 {} else if i == 6 {} else if i == 7 {} else {}
        }
        assert(strings_view(lines@) =~= e);
    }
    lines
}

/// What the person is told after an answer that is kept.
pub open spec fn kept_spec(name: Seq<char>, subject: Seq<char>, choice: Choice) -> Seq<char> {
    if choice == Choice::Session {
        "Allowed "@ + subject + " for "@ + capitalised(name) + " this session."@
    } else {
        "Allowed "@ + subject + " for "@ + capitalised(name) + "."@
    }
}

/// What the person is told after an answer that is kept: for the session, or for good.
pub fn kept_message(name: &str, subject: &str, choice: Choice) -> (r: String)
    requires
        choice == Choice::Session || choice == Choice::Always,
    ensures
        r@ == kept_spec(name@, subject@, choice),
{
    let mut r = joined("Allowed ", subject);
    append(&mut r, " for ");
    let display = capitalise(name);
    append(&mut r, display.as_str());
    if choice == Choice::Session {
        append(&mut r, " this session.");
    } else {
        append(&mut r, ".");
    }
    r
}

/// How a person could allow what was refused: the permission decision that allows it, or the
/// standing grant of the one capability. `scope` is the request's scope as `--scope` words.
pub open spec fn remedy_spec(
    name: Seq<char>,
    permission: Seq<char>,
    capability: Seq<char>,
    package: Seq<char>,
    scope: Seq<char>,
) -> Seq<char> {
    "`set permission "@ + name + " "@ + permission + " --decision allow"@ + scope + "`, or `grant capability "@
        + capability + " --plugin "@ + package + scope + " --duration always`"@
}

/// How a person could allow what was refused.
pub fn remedy(name: &str, permission: &str, capability: &str, package: &str, scope: &str) -> (r: String)
    ensures
        r@ == remedy_spec(name@, permission@, capability@, package@, scope@),
{
    let mut r = joined("`set permission ", name);
    append(&mut r, " ");
    append(&mut r, permission);
    append(&mut r, " --decision allow");
    append(&mut r, scope);
    append(&mut r, "`, or `grant capability ");
    append(&mut r, capability);
    append(&mut r, " --plugin ");
    append(&mut r, package);
    append(&mut r, scope);
    append(&mut r, " --duration always`");
    r
}

/// The correlation id of the decisions one question records: the package, `jit`, and the
/// millisecond the question was put.
pub open spec fn correlation_spec(package: Seq<char>, millisecond: i64) -> Seq<char> {
    package + ":jit:"@ + crate::keyless::signed_decimal(millisecond as int)
}

/// The correlation id of the decisions one question records.
pub fn correlation(package: &str, millisecond: i64) -> (r: String)
    ensures
        r@ == correlation_spec(package@, millisecond),
{
    let mut r = joined(package, ":jit:");
    let digits = crate::keyless::i64_text(millisecond);
    append(&mut r, string_of(digits.as_slice()).as_str());
    r
}

/// The refusal a package meets when the shell itself needs a permission nobody enabled: the
/// message, and the help that names how to enable it.
pub struct Refusal {
    /// What was refused.
    pub message: String,
    /// How to allow it.
    pub help: String,
}

/// The refusal's message.
pub open spec fn refusal_message_spec(name: Seq<char>, title: Seq<char>, operation: Seq<char>) -> Seq<char> {
    capitalised(name) + " is installed without permission to "@ + uncapitalised(title) + "; "@ + operation
        + " is not allowed"@
}

/// The refusal's help: the permission decision, and for a permission a profile can enable, the
/// profile too.
pub open spec fn refusal_help_spec(name: Seq<char>, title: Seq<char>, id: Seq<char>, explicit: bool) -> Seq<char> {
    "enable the \""@ + title + "\" permission to continue: `set permission "@ + name + " "@ + id
        + " --decision allow`"@ + if explicit {
        seq![]
    } else {
        ", or `set permission "@ + name + " --profile recommended`"@
    }
}

/// The refusal of `operation` for package `name`, which needs the permission `id` titled `title`;
/// `explicit` says whether only a person naming it can enable it.
pub fn refusal(name: &str, title: &str, id: &str, explicit: bool, operation: &str) -> (r: Refusal)
    ensures
        r.message@ == refusal_message_spec(name@, title@, operation@),
        r.help@ == refusal_help_spec(name@, title@, id@, explicit),
{
    let mut message = capitalise(name);
    append(&mut message, " is installed without permission to ");
    let small = lowercase_first(title);
    append(&mut message, small.as_str());
    append(&mut message, "; ");
    append(&mut message, operation);
    append(&mut message, " is not allowed");
    let mut help = joined("enable the \"", title);
    append(&mut help, "\" permission to continue: `set permission ");
    append(&mut help, name);
    append(&mut help, " ");
    append(&mut help, id);
    append(&mut help, " --decision allow`");
    if !explicit {
        append(&mut help, ", or `set permission ");
        append(&mut help, name);
        append(&mut help, " --profile recommended`");
    }
    Refusal { message, help }
}

/// One grant template of a permission, as `details` shows it: the capability, its scope as
/// text (`None`: unscoped), and whether its enforcement is only advisory.
#[derive(Debug, Clone)]
pub struct TemplateLine {
    /// The capability id.
    pub capability: String,
    /// The scope as text, when it has one.
    pub scope: Option<String>,
    /// Whether the scope is recorded and audited rather than enforced by the broker.
    pub advisory: bool,
}

/// A template line as plain values.
pub open spec fn template_text(t: TemplateLine) -> Seq<char> {
    "    capability "@ + t.capability@ + " — scope "@ + match t.scope {
        Some(s) => s@,
        None => "unscoped"@,
    } + "; enforcement "@ + if t.advisory {
        "advisory — recorded and audited, not a boundary"@
    } else {
        "broker"@
    }
}

/// One permission in full, for `details`: its title, id, kind, risk and phase (and whether its
/// wording is the host's own), its purpose, and each grant it makes, one line each.
pub open spec fn describe_spec(
    title: Seq<char>,
    id: Seq<char>,
    kind: Seq<char>,
    risk: Seq<char>,
    phase: Seq<char>,
    derived: bool,
    purpose: Option<Seq<char>>,
    templates: Seq<TemplateLine>,
) -> Seq<char> {
    let head = "  "@ + title + " ["@ + id + "] — kind "@ + kind + ", risk "@ + risk + ", decided "@ + phase + if derived {
        ", wording the host's own"@
    } else {
        seq![]
    };
    let purpose_line: Seq<Seq<char>> = match purpose {
        Some(p) => seq!["    purpose: "@ + p],
        None => seq![],
    };
    interspersed(seq![head] + purpose_line + templates.map_values(|t: TemplateLine| template_text(t)), "\n"@)
}

/// One permission in full, for `details`; `kind`, `risk` and `phase` are their words.
pub fn describe(
    title: &str,
    id: &str,
    kind: &str,
    risk: &str,
    phase: &str,
    derived: bool,
    purpose: Option<&str>,
    templates: &Vec<TemplateLine>,
) -> (r: String)
    ensures
        r@ == describe_spec(
            title@,
            id@,
            kind@,
            risk@,
            phase@,
            derived,
            match purpose {
                Some(p) => Some(p@),
                None => None,
            },
            templates@,
        ),
{
    let mut head = joined("  ", title);
    append(&mut head, " [");
    append(&mut head, id);
    append(&mut head, "] — kind ");
    append(&mut head, kind);
    append(&mut head, ", risk ");
    append(&mut head, risk);
    append(&mut head, ", decided ");
    append(&mut head, phase);
    if derived {
        append(&mut head, ", wording the host's own");
    }
    let mut lines: Vec<String> = Vec::new();
    lines.push(head);
    if let Some(p) = purpose {
        lines.push(joined("    purpose: ", p));
    }
    let ghost first = strings_view(lines@);
    let ghost tv = templates@.map_values(|t: TemplateLine| template_text(t));
    let mut i: usize = 0;
    while i < templates.len()
        invariant
            i <= templates.len(),
            tv == templates@.map_values(|t: TemplateLine| template_text(t)),
            strings_view(lines@) == first + tv.take(i as int),
        decreases templates.len() - i,
    {
        let t = &templates[i];
        let mut line = joined("    capability ", t.capability.as_str());
        append(&mut line, " — scope ");
        match &t.scope {
            Some(sc) => append(&mut line, sc.as_str()),
            None => append(&mut line, "unscoped"),
        }
        append(&mut line, "; enforcement ");
        if t.advisory {
            append(&mut line, "advisory — recorded and audited, not a boundary");
        } else {
            append(&mut line, "broker");
        }
        let ghost before = strings_view(lines@);
        lines.push(line);
        assert(strings_view(lines@) =~= before.push(line@));
        i = i + 1;
        assert(tv.take(i as int) =~= tv.take(i - 1).push(tv[i - 1]));
    }
    assert(tv.take(templates.len() as int) =~= tv);
    let r = join_with(&lines, "\n");
    proof {
        let pv = match purpose {
            Some(p) => Some(p@),
            None => None,
        };
        let expected = describe_spec(title@, id@, kind@, risk@, phase@, derived, pv, templates@);
        assert(lines@.map_values(|p: String| p@) == strings_view(lines@));
        assert(strings_view(lines@) =~= seq![first[0]] + (match pv {
            Some(p) => seq!["    purpose: "@ + p],
            None => Seq::<Seq<char>>::empty(),
        }) + tv);
    }
    r
}

/// What `details` adds about the call in front of the person: the capability and what it uses,
/// and the scope an `always` answer grants (`None`: unscoped).
pub open spec fn call_details_spec(capability: Seq<char>, uses: Seq<(Seq<char>, Seq<char>)>, scope: Option<Seq<char>>) -> Seq<Seq<char>> {
    seq![
        "    this call: capability "@ + capability + ", "@ + interspersed(
            uses.map_values(|u: (Seq<char>, Seq<char>)| u.0 + " "@ + u.1),
            ", "@,
        ),
        "    an `always` answer grants exactly this scope: "@ + match scope {
            Some(s) => s,
            None => "unscoped"@,
        },
    ]
}

/// What `details` adds about the call in front of the person.
pub fn call_details(capability: &str, uses: &Vec<(String, String)>, scope: Option<&str>) -> (r: Vec<String>)
    ensures
        strings_view(r@) == call_details_spec(
            capability@,
            uses@.map_values(|u: (String, String)| (u.0@, u.1@)),
            match scope {
                Some(s) => Some(s@),
                None => None,
            },
        ),
{
    let ghost uv = uses@.map_values(|u: (String, String)| (u.0@, u.1@));
    let ghost pairs = uv.map_values(|u: (Seq<char>, Seq<char>)| u.0 + " "@ + u.1);
    let mut parts: Vec<String> = Vec::new();
    let mut i: usize = 0;
    while i < uses.len()
        invariant
            i <= uses.len(),
            uv == uses@.map_values(|u: (String, String)| (u.0@, u.1@)),
            pairs == uv.map_values(|u: (Seq<char>, Seq<char>)| u.0 + " "@ + u.1),
            strings_view(parts@) == pairs.take(i as int),
        decreases uses.len() - i,
    {
        let mut part = joined(uses[i].0.as_str(), " ");
        append(&mut part, uses[i].1.as_str());
        let ghost before = strings_view(parts@);
        parts.push(part);
        assert(strings_view(parts@) =~= before.push(part@));
        i = i + 1;
        assert(pairs.take(i as int) =~= pairs.take(i - 1).push(pairs[i - 1]));
    }
    assert(pairs.take(uses.len() as int) =~= pairs);
    let mut first = joined("    this call: capability ", capability);
    append(&mut first, ", ");
    let list = join_with(&parts, ", ");
    assert(parts@.map_values(|p: String| p@) == strings_view(parts@));
    append(&mut first, list.as_str());
    let second = joined("    an `always` answer grants exactly this scope: ", match scope {
        Some(s) => s,
        None => "unscoped",
    });
    let mut r: Vec<String> = Vec::new();
    r.push(first);
    r.push(second);
    proof {
        let sv = match scope {
            Some(s) => Some(s@),
            None => None,
        };
        assert(strings_view(r@) =~= call_details_spec(capability@, uv, sv));
    }
    r
}

// --- laws --------------------------------------------------------------------------------------

/// A denial this session remembers is answered as a denial, whoever is at the terminal: the
/// same question is never put twice.
pub proof fn law_remembered_denial_is_final(interactive: bool)
    ensures
        opening_spec(true, interactive) == Opening::Denied,
{
}

/// With nobody at a terminal nothing is allowed: the request is answered as a denial or as
/// needing consent, never asked.
pub proof fn law_no_terminal_no_question(remembered: bool)
    ensures
        opening_spec(remembered, false) != Opening::Ask,
{
}

/// Only the three allowing words allow: every other answer, an empty or unreadable one among
/// them, shows the details or denies.
pub proof fn law_only_named_answers_allow(typed: Seq<char>)
    ensures
        allows(choice_spec(typed)) <==> ({
            let a = str_lower(trimmed(typed));
            a == "o"@ || a == "once"@ || a == "s"@ || a == "session"@ || a == "a"@ || a == "always"@
        }),
        choice_spec(typed) == Choice::Details <==> ({
            let a = str_lower(trimmed(typed));
            a == "d"@ || a == "details"@
        }),
{
    let a = str_lower(trimmed(typed));
    reveal_strlit("o");
    reveal_strlit("once");
    reveal_strlit("s");
    reveal_strlit("session");
    reveal_strlit("a");
    reveal_strlit("always");
    reveal_strlit("d");
    reveal_strlit("details");
    if a == "d"@ {
        assert(a.len() == 1 && a[0] == 'd');
    }
    if a == "details"@ {
        assert(a.len() == 7 && a[0] == 'd');
    }
}

} // verus!
