//! How `ono` was started.
//!
//! Argument handling happens before any I/O, so that `--help` and `--version` cost nothing and a
//! non-interactive invocation never touches a terminal it was not given.

use vstd::prelude::*;

use crate::hosts::opt_view;
use crate::text::{chars_of, concat, eq_str, string_of};

verus! {

/// What the shell was asked to do.
#[derive(Debug, Clone, PartialEq, Eq)]
pub enum Invocation {
    /// Read from the terminal until the user leaves.
    Interactive(Options),
    /// Run the given source, then exit with its status.
    Source(String, Options),
    /// Run a script file, then exit with its status.
    Script(String, Vec<String>, Options),
    /// Read a script from standard input.
    Stdin(Options),
    /// Serve this machine's providers, over stdin/stdout or over the authenticated
    /// transport when `--listen` says where.
    Agent(Options, AgentOptions),
    /// Print this shell's own peer fingerprint and exit.
    PrintPeerKey,
    /// Print the version and exit.
    Version,
    /// Print usage and exit.
    Help,
    /// The command line could not be understood.
    Usage(String),
}

/// What `--agent` was asked to serve, and with which identity.
#[derive(Debug, Clone, Default, PartialEq, Eq)]
pub struct AgentOptions {
    /// The address to listen on; `None` serves stdin/stdout.
    pub listen: Option<String>,
    /// The file the host identity lives in, overriding the configuration directory's.
    pub host_key: Option<String>,
    /// Print this host's key fingerprint and exit.
    pub print_host_key: bool,
}

/// Settings taken from the command line rather than from configuration.
#[derive(Debug, Clone, Default, PartialEq, Eq)]
pub struct Options {
    /// Skip every configuration layer below the command line.
    pub no_config: bool,
    /// A configuration file replacing the system and user layers.
    pub config: Option<String>,
}

/// Options as plain values.
pub struct OptionsView {
    pub no_config: bool,
    pub config: Option<Seq<char>>,
}

/// Agent options as plain values.
pub struct AgentView {
    pub listen: Option<Seq<char>>,
    pub host_key: Option<Seq<char>>,
    pub print_host_key: bool,
}

/// An invocation as plain values.
pub enum InvocationView {
    Interactive(OptionsView),
    Source(Seq<char>, OptionsView),
    Script(Seq<char>, Seq<Seq<char>>, OptionsView),
    Stdin(OptionsView),
    Agent(OptionsView, AgentView),
    PrintPeerKey,
    Version,
    Help,
    Usage(Seq<char>),
}

impl View for Options {
    type V = OptionsView;

    open spec fn view(&self) -> OptionsView {
        OptionsView { no_config: self.no_config, config: opt_view(self.config) }
    }
}

impl View for AgentOptions {
    type V = AgentView;

    open spec fn view(&self) -> AgentView {
        AgentView {
            listen: opt_view(self.listen),
            host_key: opt_view(self.host_key),
            print_host_key: self.print_host_key,
        }
    }
}

/// The text of each string.
pub open spec fn strings_view(v: Seq<String>) -> Seq<Seq<char>> {
    v.map_values(|s: String| s@)
}

impl View for Invocation {
    type V = InvocationView;

    open spec fn view(&self) -> InvocationView {
        match self {
            Invocation::Interactive(o) => InvocationView::Interactive(o@),
            Invocation::Source(s, o) => InvocationView::Source(s@, o@),
            Invocation::Script(p, a, o) => InvocationView::Script(p@, strings_view(a@), o@),
            Invocation::Stdin(o) => InvocationView::Stdin(o@),
            Invocation::Agent(o, a) => InvocationView::Agent(o@, a@),
            Invocation::PrintPeerKey => InvocationView::PrintPeerKey,
            Invocation::Version => InvocationView::Version,
            Invocation::Help => InvocationView::Help,
            Invocation::Usage(m) => InvocationView::Usage(m@),
        }
    }
}

/// A script when a word is left, else an interactive session.
pub open spec fn script_or_interactive(args: Seq<Seq<char>>, i: int, options: OptionsView) -> InvocationView {
    if 0 <= i < args.len() {
        InvocationView::Script(args[i], args.skip(i + 1), options)
    } else {
        InvocationView::Interactive(options)
    }
}

/// What the words after `--agent`, from `i`, ask of the agent.
pub open spec fn agent_from(
    args: Seq<Seq<char>>,
    i: int,
    options: OptionsView,
    agent: AgentView,
) -> InvocationView
    decreases args.len() - i,
{
    if i < 0 || i >= args.len() {
        InvocationView::Agent(options, agent)
    } else if args[i] == "--listen"@ {
        if i + 1 < args.len() {
            agent_from(args, i + 2, options, AgentView { listen: Some(args[i + 1]), ..agent })
        } else {
            InvocationView::Usage("--listen needs an address"@)
        }
    } else if args[i] == "--host-key"@ {
        if i + 1 < args.len() {
            agent_from(args, i + 2, options, AgentView { host_key: Some(args[i + 1]), ..agent })
        } else {
            InvocationView::Usage("--host-key needs a path"@)
        }
    } else if args[i] == "--print-host-key"@ {
        agent_from(args, i + 1, options, AgentView { print_host_key: true, ..agent })
    } else {
        InvocationView::Usage("unrecognised arguments after --agent: "@ + args[i])
    }
}

/// What the command line from `i` asks for, with the options read so far.
pub open spec fn invocation_from(args: Seq<Seq<char>>, i: int, options: OptionsView) -> InvocationView
    decreases args.len() - i,
{
    if i < 0 || i >= args.len() {
        InvocationView::Interactive(options)
    } else {
        let a = args[i];
        if a == "--version"@ || a == "-V"@ {
            InvocationView::Version
        } else if a == "--help"@ || a == "-h"@ {
            InvocationView::Help
        } else if a == "--print-peer-key"@ {
            InvocationView::PrintPeerKey
        } else if a == "--agent"@ {
            agent_from(
                args,
                i + 1,
                options,
                AgentView { listen: None, host_key: None, print_host_key: false },
            )
        } else if a == "--no-config"@ {
            invocation_from(args, i + 1, OptionsView { no_config: true, ..options })
        } else if a == "--config"@ {
            if i + 1 < args.len() {
                invocation_from(args, i + 2, OptionsView { config: Some(args[i + 1]), ..options })
            } else {
                InvocationView::Usage("--config needs a path"@)
            }
        } else if a == "-c"@ {
            if i + 1 < args.len() {
                InvocationView::Source(args[i + 1], options)
            } else {
                InvocationView::Usage("-c needs a command to run"@)
            }
        } else if a == "-"@ {
            InvocationView::Stdin(options)
        } else if a == "--"@ {
            script_or_interactive(args, i + 1, options)
        } else if a.len() > 1 && a[0] == '-' {
            InvocationView::Usage("unrecognised arguments: "@ + a)
        } else {
            script_or_interactive(args, i, options)
        }
    }
}

/// The usage message `prefix` then `word`.
fn message(prefix: &str, word: &String) -> (r: String)
    ensures
        r@ == prefix@ + word@,
{
    let p = chars_of(prefix);
    let w = chars_of(word.as_str());
    string_of(concat(p.as_slice(), w.as_slice()).as_slice())
}

fn usage(text: &str) -> (r: Invocation)
    ensures
        r@ == InvocationView::Usage(text@),
{
    Invocation::Usage(string_of(chars_of(text).as_slice()))
}

fn rest_of(args: &Vec<String>, from: usize) -> (r: Vec<String>)
    requires
        from <= args.len(),
    ensures
        strings_view(r@) == strings_view(args@).skip(from as int),
{
    let mut r: Vec<String> = Vec::new();
    let mut i = from;
    while i < args.len()
        invariant
            from <= i <= args.len(),
            strings_view(r@) == strings_view(args@).subrange(from as int, i as int),
        decreases args.len() - i,
    {
        let ghost prev = strings_view(r@);
        let word = args[i].clone();
        assert(word@ == args@[i as int]@);
        r.push(word);
        assert(strings_view(r@) =~= prev.push(word@));
        i = i + 1;
        assert(strings_view(args@).subrange(from as int, i as int) =~= strings_view(args@).subrange(
            from as int,
            i - 1,
        ).push(args@[i - 1]@));
    }
    assert(strings_view(args@).subrange(from as int, args.len() as int) =~= strings_view(
        args@,
    ).skip(from as int));
    r
}

fn script_or_interactive_exec(args: &Vec<String>, i: usize, options: Options) -> (r: Invocation)
    requires
        i <= args.len(),
    ensures
        r@ == script_or_interactive(strings_view(args@), i as int, options@),
{
    if i < args.len() {
        Invocation::Script(args[i].clone(), rest_of(args, i + 1), options)
    } else {
        Invocation::Interactive(options)
    }
}

impl Invocation {
    /// Reads the command line, which is `args` without the program name.
    pub fn from_args(args: Vec<String>) -> (r: Self)
        ensures
            r@ == invocation_from(
                strings_view(args@),
                0,
                OptionsView { no_config: false, config: None },
            ),
    {
        let ghost words = strings_view(args@);
        let mut options = Options { no_config: false, config: None };
        let mut i: usize = 0;
        while i < args.len()
            invariant
                i <= args.len(),
                words == strings_view(args@),
                invocation_from(words, 0, OptionsView { no_config: false, config: None })
                    == invocation_from(words, i as int, options@),
            decreases args.len() - i,
        {
            let argument = chars_of(args[i].as_str());
            assert(argument@ == words[i as int]);
            if eq_str(argument.as_slice(), "--version") || eq_str(argument.as_slice(), "-V") {
                return Invocation::Version;
            }
            if eq_str(argument.as_slice(), "--help") || eq_str(argument.as_slice(), "-h") {
                return Invocation::Help;
            }
            if eq_str(argument.as_slice(), "--print-peer-key") {
                return Invocation::PrintPeerKey;
            }
            if eq_str(argument.as_slice(), "--agent") {
                return Self::agent(&args, i + 1, options);
            }
            if eq_str(argument.as_slice(), "--no-config") {
                options.no_config = true;
                i = i + 1;
            } else if eq_str(argument.as_slice(), "--config") {
                if i + 1 < args.len() {
                    options.config = Some(args[i + 1].clone());
                    i = i + 2;
                } else {
                    return usage("--config needs a path");
                }
            } else if eq_str(argument.as_slice(), "-c") {
                if i + 1 < args.len() {
                    return Invocation::Source(args[i + 1].clone(), options);
                } else {
                    return usage("-c needs a command to run");
                }
            } else if eq_str(argument.as_slice(), "-") {
                return Invocation::Stdin(options);
            } else if eq_str(argument.as_slice(), "--") {
                return script_or_interactive_exec(&args, i + 1, options);
            } else if argument.len() > 1 && argument[0] == '-' {
                return Invocation::Usage(message("unrecognised arguments: ", &args[i]));
            } else {
                return script_or_interactive_exec(&args, i, options);
            }
        }
        Invocation::Interactive(options)
    }

    /// Reads the words after `--agent`.
    fn agent(args: &Vec<String>, from: usize, options: Options) -> (r: Self)
        requires
            from <= args.len(),
        ensures
            r@ == agent_from(
                strings_view(args@),
                from as int,
                options@,
                AgentView { listen: None, host_key: None, print_host_key: false },
            ),
    {
        let ghost words = strings_view(args@);
        let mut agent = AgentOptions { listen: None, host_key: None, print_host_key: false };
        let mut i = from;
        while i < args.len()
            invariant
                from <= i <= args.len(),
                words == strings_view(args@),
                agent_from(
                    words,
                    from as int,
                    options@,
                    AgentView { listen: None, host_key: None, print_host_key: false },
                ) == agent_from(words, i as int, options@, agent@),
            decreases args.len() - i,
        {
            let argument = chars_of(args[i].as_str());
            assert(argument@ == words[i as int]);
            if eq_str(argument.as_slice(), "--listen") {
                if i + 1 < args.len() {
                    agent.listen = Some(args[i + 1].clone());
                    i = i + 2;
                } else {
                    return usage("--listen needs an address");
                }
            } else if eq_str(argument.as_slice(), "--host-key") {
                if i + 1 < args.len() {
                    agent.host_key = Some(args[i + 1].clone());
                    i = i + 2;
                } else {
                    return usage("--host-key needs a path");
                }
            } else if eq_str(argument.as_slice(), "--print-host-key") {
                agent.print_host_key = true;
                i = i + 1;
            } else {
                return Invocation::Usage(message("unrecognised arguments after --agent: ", &args[i]));
            }
        }
        Invocation::Agent(options, agent)
    }
}

// --- laws --------------------------------------------------------------------------------------

/// Whether `o` is a run of option groups: `--no-config`, or `--config` and the path after it.
pub open spec fn option_groups(o: Seq<Seq<char>>) -> bool
    decreases o.len(),
{
    if o.len() == 0 {
        true
    } else if o[0] == "--no-config"@ {
        option_groups(o.skip(1))
    } else if o[0] == "--config"@ && o.len() >= 2 {
        option_groups(o.skip(2))
    } else {
        false
    }
}

/// A flag that answers at once, whatever follows it.
pub open spec fn immediate(f: Seq<char>) -> Option<InvocationView> {
    if f == "--version"@ || f == "-V"@ {
        Some(InvocationView::Version)
    } else if f == "--help"@ || f == "-h"@ {
        Some(InvocationView::Help)
    } else if f == "--print-peer-key"@ {
        Some(InvocationView::PrintPeerKey)
    } else {
        None
    }
}

proof fn lemma_groups_then_flag(args: Seq<Seq<char>>, i: int, n: int, options: OptionsView)
    requires
        0 <= i,
        0 <= n,
        i + n < args.len(),
        option_groups(args.subrange(i, i + n)),
        immediate(args[i + n]) is Some,
    ensures
        invocation_from(args, i, options) == immediate(args[i + n]).unwrap(),
    decreases n,
{
    reveal_strlit("--version");
    reveal_strlit("-V");
    reveal_strlit("--help");
    reveal_strlit("-h");
    reveal_strlit("--print-peer-key");
    reveal_strlit("--agent");
    reveal_strlit("--no-config");
    reveal_strlit("--config");
    let o = args.subrange(i, i + n);
    if n > 0 {
        assert(o[0] == args[i]);
        if args[i] == "--no-config"@ {
            assert(o.skip(1) =~= args.subrange(i + 1, i + n));
            lemma_groups_then_flag(args, i + 1, n - 1, OptionsView { no_config: true, ..options });
        } else {
            assert(args[i] == "--config"@ && n >= 2);
            assert(o.skip(2) =~= args.subrange(i + 2, i + n));
            lemma_groups_then_flag(args, i + 2, n - 2, OptionsView { config: Some(args[i + 1]), ..options });
        }
    }
}

/// After any run of option groups (`--no-config`, or `--config` and its path), `--version` or
/// `-V` answers the version, `--help` or `-h` the usage, and `--print-peer-key` the peer key,
/// whatever follows, words nothing recognises included.
pub proof fn law_options_then_immediate_flag(o: Seq<Seq<char>>, f: Seq<char>, rest: Seq<Seq<char>>)
    requires
        option_groups(o),
        immediate(f) is Some,
    ensures
        invocation_from(o + seq![f] + rest, 0, OptionsView { no_config: false, config: None }) == immediate(f).unwrap(),
{
    let args = o + seq![f] + rest;
    assert(args.subrange(0, o.len() as int) =~= o);
    assert(args[o.len() as int] == f);
    lemma_groups_then_flag(args, 0, o.len() as int, OptionsView { no_config: false, config: None });
}

proof fn lemma_agent_keeps_printing(args: Seq<Seq<char>>, i: int, options: OptionsView, agent: AgentView)
    requires
        agent.print_host_key,
    ensures
        agent_from(args, i, options, agent) matches InvocationView::Agent(_, a) ==> a.print_host_key,
    decreases args.len() - i,
{
    if 0 <= i < args.len() {
        if args[i] == "--listen"@ {
            if i + 1 < args.len() {
                lemma_agent_keeps_printing(args, i + 2, options, AgentView { listen: Some(args[i + 1]), ..agent });
            }
        } else if args[i] == "--host-key"@ {
            if i + 1 < args.len() {
                lemma_agent_keeps_printing(args, i + 2, options, AgentView { host_key: Some(args[i + 1]), ..agent });
            }
        } else if args[i] == "--print-host-key"@ {
            lemma_agent_keeps_printing(args, i + 1, options, AgentView { print_host_key: true, ..agent });
        }
    }
}

/// After `--agent`, `--print-host-key` asks for the host key to be printed: an agent invocation
/// read from a word `--print-host-key` on prints it, whatever words come after and whatever
/// was read before.
pub proof fn law_print_host_key_prints(args: Seq<Seq<char>>, i: int, options: OptionsView, agent: AgentView)
    requires
        0 <= i < args.len(),
        args[i] == "--print-host-key"@,
    ensures
        agent_from(args, i, options, agent) matches InvocationView::Agent(_, a) ==> a.print_host_key,
{
    reveal_strlit("--listen");
    reveal_strlit("--host-key");
    reveal_strlit("--print-host-key");
    assert(args[i] != "--listen"@) by {
        assert("--print-host-key"@.len() != "--listen"@.len());
    }
    assert(args[i] != "--host-key"@) by {
        assert("--print-host-key"@.len() != "--host-key"@.len());
    }
    lemma_agent_keeps_printing(args, i + 1, options, AgentView { print_host_key: true, ..agent });
}

} // verus!
