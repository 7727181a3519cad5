use ono_cli::hosts::{
    config_dir_from_environment, join_path, parse_ssh_config, parse_u16, HostEntry, HostFileError,
    HostFileRead, HostSources, OwnFileRead,
};

fn env(pairs: &[(&str, &str)]) -> Vec<(String, String)> {
    pairs.iter().map(|(a, b)| (a.to_string(), b.to_string())).collect()
}

#[test]
fn should_read_literal_host_blocks_and_skip_patterns() {
    let parsed = parse_ssh_config(
        "# comment\nHost devbox\n    HostName 10.4.2.11\n    User deploy\n    Port 2222\n\n\
         Host *.example\n    User nobody\n\nHost a b\n  HostName=shared\nMatch all\n  Port 1\n",
    );
    assert_eq!(
        parsed,
        vec![
            HostEntry {
                name: "devbox".into(),
                address: Some("10.4.2.11".into()),
                port: Some(2222),
                user: Some("deploy".into()),
            },
            HostEntry {
                name: "a".into(),
                address: Some("shared".into()),
                port: None,
                user: None,
            },
            HostEntry {
                name: "b".into(),
                address: Some("shared".into()),
                port: None,
                user: None,
            },
        ]
    );
}

#[test]
fn ssh_hosts_are_never_patterns() {
    let parsed = parse_ssh_config("Host * !bad web? real\nHost\n");
    assert_eq!(parsed, vec![HostEntry::named("real")]);
}

#[test]
fn port_reads_as_u16_or_not_at_all() {
    let chars = |s: &str| s.chars().collect::<Vec<char>>();
    assert_eq!(parse_u16(&chars("2222")), Some(2222));
    assert_eq!(parse_u16(&chars("+22")), Some(22));
    assert_eq!(parse_u16(&chars("65535")), Some(65535));
    assert_eq!(parse_u16(&chars("65536")), None);
    assert_eq!(parse_u16(&chars("")), None);
    assert_eq!(parse_u16(&chars("2x")), None);
    let parsed = parse_ssh_config("Host h\nPort 99999\n");
    assert_eq!(parsed[0].port, None);
}

#[test]
fn config_directory_follows_the_precedence() {
    assert_eq!(
        config_dir_from_environment(&env(&[("HOME", "/home/u"), ("ONO_CONFIG_DIR", "/cfg")])),
        Some("/cfg".to_string())
    );
    assert_eq!(
        config_dir_from_environment(&env(&[("HOME", "/home/u"), ("XDG_CONFIG_HOME", "/x")])),
        Some("/x/ono".to_string())
    );
    assert_eq!(
        config_dir_from_environment(&env(&[("HOME", "/home/u")])),
        Some("/home/u/.config/ono".to_string())
    );
    assert_eq!(config_dir_from_environment(&env(&[])), None);
}

#[test]
fn sources_sit_under_home_and_config() {
    let sources = HostSources::from_environment(env(&[("HOME", "/home/u")]));
    assert_eq!(sources.ssh_config, Some("/home/u/.ssh/config".to_string()));
    assert_eq!(sources.config_dir, Some("/home/u/.config/ono".to_string()));
    assert_eq!(sources.own, Some("/home/u/.config/ono/hosts.json".to_string()));
    assert!(sources.trust_store.is_some());
    assert!(sources.authorized_clients.is_some());
    assert_eq!(join_path("/a/", "b"), "/a/b");
}

#[test]
fn missing_host_files_are_empty_sources() {
    let sources = HostSources::from_environment(env(&[("HOME", "/home/u")]));
    assert_eq!(sources.ssh_hosts(HostFileRead::Missing), Ok(Vec::new()));
    assert_eq!(sources.own_hosts(OwnFileRead::Missing), Ok(Vec::new()));
    assert_eq!(
        sources.ssh_hosts(HostFileRead::Unreadable("denied".into())),
        Err(HostFileError::Unreadable("denied".into()))
    );
    assert_eq!(
        sources.own_hosts(OwnFileRead::Malformed("bad".into())),
        Err(HostFileError::NotAHostFile("bad".into()))
    );
    assert_eq!(
        sources.ssh_hosts(HostFileRead::Text("Host x\n".into())),
        Ok(vec![HostEntry::named("x")])
    );
    let none = HostSources::from_environment(env(&[]));
    assert_eq!(none.own_target(), Err(HostFileError::NoConfigDir));
    assert_eq!(none.own_hosts(OwnFileRead::Hosts(vec![HostEntry::named("x")])), Ok(Vec::new()));
}

#[test]
fn host_names_are_the_literal_words_of_host_lines_in_order() {
    let text = "# Host commented\nHOST alpha *.internal beta\n  hostname alpha.example\n\nMatch host gamma\nhost !delta epsilon? zeta\nUser me\n";
    let names: Vec<String> = parse_ssh_config(text).into_iter().map(|e| e.name).collect();
    assert_eq!(names, vec!["alpha".to_string(), "beta".to_string(), "zeta".to_string()]);
}
