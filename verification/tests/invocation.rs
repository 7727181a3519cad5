use ono_cli::invocation::{AgentOptions, Invocation, Options};

fn args(words: &[&str]) -> Vec<String> {
    words.iter().map(|w| w.to_string()).collect()
}

#[test]
fn no_arguments_is_interactive() {
    assert_eq!(Invocation::from_args(args(&[])), Invocation::Interactive(Options::default()));
}

#[test]
fn a_command_string_is_run_as_source() {
    let invocation = Invocation::from_args(args(&["-c", "echo hi"]));
    assert!(matches!(invocation, Invocation::Source(source, _) if source == "echo hi"));
    assert!(matches!(Invocation::from_args(args(&["-c"])), Invocation::Usage(_)));
}

#[test]
fn flags_before_the_script_are_the_shells() {
    assert_eq!(Invocation::from_args(args(&["--version"])), Invocation::Version);
    assert_eq!(Invocation::from_args(args(&["-h"])), Invocation::Help);
    assert_eq!(Invocation::from_args(args(&["--print-peer-key"])), Invocation::PrintPeerKey);
    assert_eq!(Invocation::from_args(args(&["-"])), Invocation::Stdin(Options::default()));
    assert_eq!(
        Invocation::from_args(args(&["--no-config", "run.ono", "a", "--version"])),
        Invocation::Script(
            "run.ono".into(),
            vec!["a".into(), "--version".into()],
            Options { no_config: true, config: None }
        )
    );
    assert_eq!(
        Invocation::from_args(args(&["--config", "/c.ono", "--", "-x"])),
        Invocation::Script("-x".into(), vec![], Options { no_config: false, config: Some("/c.ono".into()) })
    );
    assert_eq!(
        Invocation::from_args(args(&["--agent", "--listen", "0.0.0.0:7"])),
        Invocation::Agent(
            Options::default(),
            AgentOptions { listen: Some("0.0.0.0:7".into()), host_key: None, print_host_key: false }
        )
    );
    assert!(matches!(Invocation::from_args(args(&["--bogus"])), Invocation::Usage(_)));
    assert!(matches!(Invocation::from_args(args(&["--agent", "--listen"])), Invocation::Usage(_)));
}

#[test]
fn an_immediate_flag_after_option_groups_wins_whatever_follows() {
    let words = |v: &[&str]| v.iter().map(|w| w.to_string()).collect::<Vec<String>>();
    assert_eq!(
        Invocation::from_args(words(&["--no-config", "--config", "--help", "--version", "--bogus"])),
        Invocation::Version
    );
    assert_eq!(Invocation::from_args(words(&["--config", "x", "-h", "-c"])), Invocation::Help);
    assert_eq!(Invocation::from_args(words(&["--print-peer-key", "script.ono"])), Invocation::PrintPeerKey);
}
