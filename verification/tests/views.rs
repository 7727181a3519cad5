use ono_cli::views::{
    active_tab, clean, column_width, fit, graph, key_value, list, log_stream, pad, palette, picker, side_by_side, stack,
    tab_bar, tree, wrap, TreeNode, layout, render, Component, Tab,
};

#[test]
fn control_characters_never_reach_the_terminal() {
    assert_eq!(clean("safe\x1b[31m text\x07"), "safe [31m text ");
    assert_eq!(wrap(&clean("safe\x1b[31m text\x07"), 40), vec!["safe [31m text".to_string()]);
}

#[test]
fn lines_are_fitted_and_padded() {
    assert_eq!(fit("abcdef", 4), "abc…");
    assert_eq!(fit("abc", 4), "abc");
    assert_eq!(fit("abc", 0), "…");
    assert_eq!(pad("ab", 4), "ab  ");
    assert_eq!(pad("abcdef", 4), "abcdef");
}

#[test]
fn text_wraps_word_by_word() {
    assert_eq!(
        wrap("one two three\nfour", 7),
        vec!["one two".to_string(), "three".to_string(), "four".to_string()]
    );
    assert_eq!(wrap("", 5), vec![String::new()]);
    assert_eq!(wrap("abcdefgh", 5), vec!["abcd…".to_string()]);
}

#[test]
fn the_newest_log_lines_are_shown_within_the_terminal() {
    let lines: Vec<String> = (0..50).map(|at| format!("line {at} {}", "x".repeat(100))).collect();
    let shown = log_stream(&lines, 30, 10);
    assert_eq!(shown.len(), 10);
    assert!(shown.iter().all(|line| line.chars().count() <= 30));
    assert!(shown[9].starts_with("line 49"));
}

#[test]
fn a_list_keeps_the_selection_on_screen() {
    let items: Vec<String> = (0..10).map(|at| format!("item {at}")).collect();
    let shown = list(&items, Some(7), 12, 3);
    assert_eq!(shown, vec!["  item 5".to_string(), "  item 6".to_string(), "▶ item 7    ".to_string()]);
    assert_eq!(list(&items, None, 12, 2), vec!["  item 0".to_string(), "  item 1".to_string()]);
}

#[test]
fn a_trailing_status_line_sits_on_the_last_row() {
    let lines = stack(&vec![vec!["body".to_string()]], Some("status".to_string()), 5);
    assert_eq!(lines.len(), 5);
    assert_eq!(lines[0], "body");
    assert_eq!(lines[4], "status");
    let cut = stack(&vec![vec!["a".into(), "b".into(), "c".into()], vec!["d".into()]], None, 2);
    assert_eq!(cut, vec!["a".to_string(), "b".to_string()]);
}

#[test]
fn a_graph_lists_nodes_then_edges() {
    let lines = graph(
        &vec!["a".to_string(), "b\x1b".to_string()],
        &vec![("a".to_string(), "b".to_string(), String::new()), ("a".to_string(), "b".to_string(), "uses".to_string())],
        40,
    );
    assert_eq!(lines, vec!["● a".to_string(), "● b ".to_string(), "a ─▶ b".to_string(), "a ─uses─▶ b".to_string()]);
}

#[test]
fn keys_line_up_and_values_fit() {
    let lines = key_value("Pod", &vec![("k".to_string(), "v".to_string()), ("long".to_string(), "a value too long".to_string())], 12);
    assert_eq!(lines, vec!["Pod".to_string(), "k     v".to_string(), "long  a val…".to_string()]);
    assert_eq!(key_value("", &vec![], 10), Vec::<String>::new());
}

#[test]
fn side_by_side_panes_share_the_width() {
    assert_eq!(column_width(40, 2), 19);
    assert_eq!(column_width(1, 3), 0);
    let rows = side_by_side(&vec![vec!["l".to_string()], vec!["r".to_string(), "r2".to_string()]], 3, 10);
    assert_eq!(rows, vec!["l  │r  ".to_string(), "   │r2 ".to_string()]);
    assert_eq!(side_by_side(&vec![vec!["x".to_string(); 5]], 2, 3).len(), 3);
}

fn node(label: &str, children: Vec<TreeNode>) -> TreeNode {
    TreeNode { label: label.to_string(), children }
}

#[test]
fn a_tree_hangs_each_child_from_its_parent() {
    let root = node("r", vec![node("c", vec![])]);
    assert_eq!(tree(Some(&root), &vec![], 40), vec!["r", "└─ c"]);
}

#[test]
fn a_tree_keeps_an_open_branch_open_below_it() {
    let root = node("r", vec![node("a", vec![node("a1", vec![]), node("a2", vec![])]), node("b", vec![])]);
    assert_eq!(tree(Some(&root), &vec![], 40), vec!["r", "├─ a", "│  ├─ a1", "│  └─ a2", "└─ b"]);
    assert_eq!(tree(Some(&root), &vec![], 4), vec!["r", "├─ a", "│  …", "│  …", "└─ b"]);
}

#[test]
fn a_tree_without_a_root_lists_its_top_nodes() {
    let top = vec![node("x", vec![node("x\u{7}1", vec![])]), node("y", vec![])];
    assert_eq!(tree(None, &top, 40), vec!["├─ x", "│  └─ x 1", "└─ y"]);
    assert!(tree(None, &vec![], 40).is_empty());
}

#[test]
fn a_palette_puts_the_query_above_its_items() {
    let lines = palette("q", &vec!["one".to_string()], Some(0), 40, 10);
    assert_eq!(lines.len(), 2);
    assert_eq!(lines[0], "> q");
    assert_eq!(lines[1], format!("▶ one{}", " ".repeat(35)));
    assert_eq!(palette("q", &vec!["one".to_string()], None, 40, 1), vec!["> q"]);
}

#[test]
fn a_picker_titles_its_items_when_it_has_a_title() {
    let items = vec!["x".to_string(), "y".to_string()];
    assert_eq!(picker("", &items, None, 10, 10), vec!["  x", "  y"]);
    assert_eq!(picker("Pick", &items, None, 10, 2), vec!["Pick", "  x"]);
}

#[test]
fn the_active_tab_is_never_past_the_last() {
    assert_eq!(active_tab(Some(5), 3), 2);
    assert_eq!(active_tab(Some(1), 3), 1);
    assert_eq!(active_tab(None, 3), 0);
    assert_eq!(active_tab(Some(4), 0), 0);
}

#[test]
fn the_tab_bar_spaces_each_title() {
    assert_eq!(tab_bar(&vec!["one".to_string(), "t\u{9}wo".to_string()]), " one  t wo ");
    assert_eq!(tab_bar(&vec![]), "");
}

fn strings(v: &[&str]) -> Vec<String> {
    v.iter().map(|s| s.to_string()).collect()
}

#[test]
fn a_view_is_laid_out_component_by_component() {
    let view = Component::Split {
        horizontal: false,
        panes: vec![
            Component::Text("hello world".into()),
            Component::LogStream(strings(&["one", "two", "three"])),
            Component::StatusLine("ready".into()),
        ],
    };
    assert_eq!(layout(&view, 8, 4), strings(&["hello", "world", "three", "ready   "]));
    // The status line stays on the last row, with blank rows above it.
    let sparse = Component::Split { horizontal: false, panes: vec![Component::Text("hi".into()), Component::StatusLine("ok".into())] };
    assert_eq!(layout(&sparse, 4, 3), strings(&["hi", "", "ok  "]));
    // Side by side, each pane in its share of the width.
    let columns = Component::Split {
        horizontal: true,
        panes: vec![Component::Text("ab".into()), Component::Drawn(strings(&["x", "y"]))],
    };
    assert_eq!(layout(&columns, 7, 5), strings(&["ab │x  ", "   │y  "]));
    // Tabs show the bar and the active tab's body.
    let tabs = Component::Tabs {
        tabs: vec![
            Tab { title: "A".into(), body: Component::Text("first".into()) },
            Tab { title: "B".into(), body: Component::Text("second".into()) },
        ],
        active: Some(7),
    };
    assert_eq!(layout(&tabs, 10, 3), strings(&[" A  B ", "second"]));
    assert!(layout(&Component::Unknown, 10, 3).is_empty());
}

#[test]
fn a_view_never_takes_more_rows_than_the_terminal_has() {
    let view = Component::Drawn(strings(&["1", "2", "3"]));
    assert_eq!(render(&view, 80, 2), strings(&["1", "2"]));
    assert_eq!(render(&view, 80, 0), strings(&["1"]));
    assert_eq!(render(&Component::StatusLine("s".into()), 0, 1), strings(&["s   "]));
}

fn text(t: &str) -> Component {
    Component::Text(t.to_string())
}

#[test]
fn should_strip_control_characters_from_everything_the_package_sends() {
    let lines = render(&text("safe\x1b[31m text\x07"), 40, 5);
    assert_eq!(lines, vec!["safe [31m text".to_string()]);
}

#[test]
fn should_pin_a_trailing_status_line_to_the_last_row() {
    let view = Component::Split {
        horizontal: false,
        panes: vec![text("body"), Component::StatusLine("status".to_string())],
    };
    let lines = render(&view, 20, 5);
    assert_eq!(lines.len(), 5);
    assert_eq!(lines[0], "body");
    assert!(lines[4].contains("status"));
}

#[test]
fn should_never_exceed_the_terminal() {
    let view = Component::LogStream((0..50).map(|at| format!("line {at} {}", "x".repeat(100))).collect());
    let lines = render(&view, 30, 10);
    assert_eq!(lines.len(), 10);
    assert!(lines.iter().all(|line| line.chars().count() <= 30));
    assert!(lines[9].starts_with("line 49"), "the newest lines are shown");
}

#[test]
fn should_lay_out_every_component() {
    // A table is laid out by the workspace's table renderer, and a sparkline and a gauge are
    // drawn from floating-point values before they reach the library: each arrives drawn.
    let views = vec![
        Component::Tree { root: Some(node("r", vec![node("c", vec![])])), top: vec![] },
        Component::Graph { nodes: vec!["a".into(), "b".into()], edges: vec![("a".into(), "b".into(), String::new())] },
        Component::KeyValue { title: String::new(), pairs: vec![("k".into(), "v".into())] },
        Component::Drawn(vec!["▁█▄".into()]),
        Component::Drawn(vec!["cpu ████░░░░  42%".into()]),
        Component::Tabs { tabs: vec![Tab { title: "one".into(), body: text("1") }], active: None },
        Component::Split { horizontal: true, panes: vec![text("l"), text("r")] },
        Component::Palette { query: "q".into(), items: vec!["one".into()], selected: Some(0) },
        Component::Picker { title: String::new(), items: vec!["x".into()], selected: Some(0) },
    ];
    for view in &views {
        let lines = render(view, 40, 10);
        assert!(!lines.is_empty(), "{view:?}");
    }
}
