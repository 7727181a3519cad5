use ono_cli::consent::{
    call_details, correlation, describe, kept_message, opening, prompt, read_choice, refusal, remedy, Choice, Opening, choice_of_lowered,
    TemplateLine,
};

#[test]
fn a_remembered_denial_is_answered_without_a_question() {
    assert_eq!(opening(true, true), Opening::Denied);
    assert_eq!(opening(true, false), Opening::Denied);
}

#[test]
fn nobody_at_a_terminal_means_consent_is_required() {
    assert_eq!(opening(false, false), Opening::Required);
    assert_eq!(opening(false, true), Opening::Ask);
}

#[test]
fn answers_are_read_trimmed_and_in_small_letters() {
    assert_eq!(read_choice(" O \n"), Choice::Once);
    assert_eq!(read_choice("once"), Choice::Once);
    assert_eq!(read_choice("s"), Choice::Session);
    assert_eq!(read_choice("Session\n"), Choice::Session);
    assert_eq!(read_choice("A"), Choice::Always);
    assert_eq!(read_choice("always"), Choice::Always);
    assert_eq!(read_choice("d"), Choice::Details);
    assert_eq!(read_choice("DETAILS"), Choice::Details);
}

#[test]
fn anything_else_is_a_denial() {
    assert_eq!(read_choice(""), Choice::Deny);
    assert_eq!(read_choice("n"), Choice::Deny);
    assert_eq!(read_choice("yes"), Choice::Deny);
    assert_eq!(read_choice("o o"), Choice::Deny);
}

#[test]
fn the_question_for_a_permission_names_its_subject() {
    let lines = prompt("kubernetes", None, &vec![], "Read your cluster", "cluster prod", None);
    assert_eq!(
        lines,
        vec![
            "",
            "Kubernetes needs permission to read your cluster:",
            "  cluster prod",
            "",
            "Reason:",
            "  read your cluster",
            "",
            "Allow this?",
            "  [o] once  [s] this session  [a] always for this scope  [n] deny  [d] details",
        ]
    );
}

#[test]
fn the_question_for_a_helper_names_the_program_and_its_arguments() {
    let arguments = vec!["get".to_string(), "pods".to_string()];
    let lines = prompt("kubernetes", Some("kubectl"), &arguments, "Run kubectl", "kubectl", Some("to list the pods"));
    assert_eq!(
        lines,
        vec![
            "",
            "Kubernetes needs to run:",
            "  kubectl get pods",
            "",
            "Reason:",
            "  to list the pods",
            "",
            "Allow this helper?",
            "  [o] once  [s] this session  [a] always for this program  [n] deny  [d] details",
        ]
    );
}

#[test]
fn a_helper_with_no_arguments_keeps_the_space_after_its_name() {
    let lines = prompt("k", Some("ls"), &vec![], "List", "ls", None);
    assert_eq!(lines[2], "  ls ");
    assert_eq!(lines[1], "K needs to run:");
}

#[test]
fn a_kept_answer_says_how_long_it_lasts() {
    assert_eq!(
        kept_message("kubernetes", "cluster prod", Choice::Session),
        "Allowed cluster prod for Kubernetes this session."
    );
    assert_eq!(
        kept_message("kubernetes", "cluster prod", Choice::Always),
        "Allowed cluster prod for Kubernetes."
    );
}

#[test]
fn the_remedy_names_the_decision_and_the_grant() {
    assert_eq!(
        remedy("kubernetes", "cluster-read", "process.spawn", "io.example.k8s", " --scope program=kubectl"),
        "`set permission kubernetes cluster-read --decision allow --scope program=kubectl`, or \
         `grant capability process.spawn --plugin io.example.k8s --scope program=kubectl --duration always`"
    );
    assert_eq!(
        remedy("k", "p", "c", "io.k", ""),
        "`set permission k p --decision allow`, or `grant capability c --plugin io.k --duration always`"
    );
}

#[test]
fn the_correlation_names_the_package_and_the_moment() {
    assert_eq!(correlation("io.example.k8s", 1700000000123), "io.example.k8s:jit:1700000000123");
    assert_eq!(correlation("p", 0), "p:jit:0");
    assert_eq!(correlation("p", -5), "p:jit:-5");
}

#[test]
fn a_refusal_names_the_permission_and_how_to_enable_it() {
    let r = refusal("kubernetes", "Read your cluster", "cluster-read", false, "reading pods");
    assert_eq!(r.message, "Kubernetes is installed without permission to read your cluster; reading pods is not allowed");
    assert_eq!(
        r.help,
        "enable the \"Read your cluster\" permission to continue: `set permission kubernetes cluster-read \
         --decision allow`, or `set permission kubernetes --profile recommended`"
    );
}

#[test]
fn an_explicit_permission_is_not_offered_through_a_profile() {
    let r = refusal("kubernetes", "Delete pods", "pods-delete", true, "deleting pods");
    assert_eq!(
        r.help,
        "enable the \"Delete pods\" permission to continue: `set permission kubernetes pods-delete --decision allow`"
    );
    assert_eq!(r.message, "Kubernetes is installed without permission to delete pods; deleting pods is not allowed");
}

#[test]
fn details_describe_the_permission_in_full() {
    let templates = vec![
        TemplateLine { capability: "process.spawn".into(), scope: Some("{\"program\":\"kubectl\"}".into()), advisory: false },
        TemplateLine { capability: "net.connect".into(), scope: None, advisory: true },
    ];
    assert_eq!(
        describe("Run kubectl", "kubectl", "process", "read", "jit", true, Some("to list pods"), &templates),
        "  Run kubectl [kubectl] — kind process, risk read, decided jit, wording the host's own\n\
         \x20   purpose: to list pods\n\
         \x20   capability process.spawn — scope {\"program\":\"kubectl\"}; enforcement broker\n\
         \x20   capability net.connect — scope unscoped; enforcement advisory — recorded and audited, not a boundary"
    );
    assert_eq!(describe("T", "t", "k", "r", "p", false, None, &vec![]), "  T [t] — kind k, risk r, decided p");
}

#[test]
fn details_name_the_call_and_the_scope_an_always_grants() {
    let uses = vec![("program".to_string(), "kubectl".to_string()), ("argument".to_string(), "get".to_string())];
    assert_eq!(
        call_details("process.spawn", &uses, None),
        vec![
            "    this call: capability process.spawn, program kubectl, argument get",
            "    an `always` answer grants exactly this scope: unscoped",
        ]
    );
    assert_eq!(call_details("c", &vec![], Some("{}"))[1], "    an `always` answer grants exactly this scope: {}");
}

#[test]
fn an_answer_in_small_letters_chooses() {
    assert_eq!(choice_of_lowered("once"), Choice::Once);
    assert_eq!(choice_of_lowered("s"), Choice::Session);
    assert_eq!(choice_of_lowered("always"), Choice::Always);
    assert_eq!(choice_of_lowered("details"), Choice::Details);
    // The text is taken as it is: a capital is no answer here.
    assert_eq!(choice_of_lowered("Once"), Choice::Deny);
    assert_eq!(choice_of_lowered(""), Choice::Deny);
}
