use gtab::app::App;
use gtab::capture::build_restore_script;
use gtab::config::{keep_lowered_shortcut, normalize_ghostty_shortcut};
use gtab::error::Error;
use gtab::key::{shortcut_key_name, shortcut_key_name_for_char, KeyCode};
use gtab::layout::parse_workspace_layout;
use gtab::restore_script::{
    reconstruct, render_restore_script, CapturedPaneRect, CapturedTabSurface, CapturedWindow,
    CapturedWorkspace, Node, PaneRef, Tree,
};
use gtab::window::WindowFrame;
use gtab::workspace::{
    build_workspace_script, numbers_tabs_from_one, parse_workspace_rows, parse_workspace_tabs,
    plan_workspace_launch, TabRow, Workspace, WorkspaceLaunchMode,
};

fn rect(x: i32, y: i32, width: i32, height: i32) -> CapturedPaneRect {
    CapturedPaneRect {
        x,
        y,
        width,
        height,
    }
}

fn surface(
    window: usize,
    tab: usize,
    dir: &str,
    title: &str,
    rect: CapturedPaneRect,
) -> CapturedTabSurface {
    CapturedTabSurface {
        window_index: window,
        tab_index: tab,
        pane_index: 1,
        terminal_id: format!("t-{dir}"),
        working_dir: dir.to_string(),
        title: title.to_string(),
        rect,
    }
}

fn framed(index: usize, x: i32) -> CapturedWindow {
    CapturedWindow {
        window_index: index,
        frame: WindowFrame::new(x, 20, 800, 600),
    }
}

fn two_windows() -> CapturedWorkspace {
    CapturedWorkspace {
        windows: vec![framed(1, 10), framed(2, -10)],
        surfaces: vec![
            surface(1, 1, "/tmp/one", "", rect(0, 0, 100, 100)),
            surface(1, 1, "/tmp/set_frame:", "", rect(100, 0, 100, 100)),
            surface(2, 1, "/tmp/two", "", rect(0, 0, 1, 1)),
            surface(2, 2, "/tmp/three", "set_frame:9", rect(0, 0, 1, 1)),
        ],
    }
}

fn leaves(tree: &Tree, index: usize) -> Vec<String> {
    match tree.node(index) {
        Node::Leaf(pane) => vec![pane.working_dir.to_string()],
        Node::Vertical { left, right } => {
            let mut all = leaves(tree, *left);
            all.extend(leaves(tree, *right));
            all
        }
        Node::Horizontal { top, bottom } => {
            let mut all = leaves(tree, *top);
            all.extend(leaves(tree, *bottom));
            all
        }
    }
}

fn row(dir: &str, title: &str) -> TabRow {
    TabRow {
        working_dir: dir.to_string(),
        title: title.to_string(),
    }
}

#[test]
fn scripts_end_with_a_line_break() {
    let one = CapturedWorkspace::single_window(vec![surface(
        1,
        1,
        "/tmp/a",
        "api",
        rect(0, 0, 1, 1),
    )]);
    assert_eq!(
        render_restore_script(&one),
        "-- gtab: format=2 windows=1\ntell application \"Ghostty\"\n    activate\n\n    set cfg1 to new surface configuration\n    set initial working directory of cfg1 to \"/tmp/a\"\n    set win to new window with configuration cfg1\n    set p1 to focused terminal of selected tab of win\n    perform action \"set_tab_title:api\" on p1\nend tell\n"
    );
    assert_eq!(build_restore_script(&one), render_restore_script(&one));
    let none = CapturedWorkspace::single_window(Vec::new());
    let script = render_restore_script(&none);
    assert_eq!(
        script,
        "-- gtab: format=2 windows=0\ntell application \"Ghostty\"\n    activate\nend tell\n"
    );
    assert!(parse_workspace_layout(script.as_str(), "/home/me").is_empty());
}

#[test]
fn scripts_of_several_windows_are_launched_as_understood() {
    let mut untitled = two_windows();
    untitled.surfaces[3].title = String::new();
    let script = build_restore_script(&untitled);
    assert!(numbers_tabs_from_one(script.as_str()));
    let rows = parse_workspace_rows(script.as_str(), "/home/me");
    assert!(rows.is_empty());
    assert_eq!(
        plan_workspace_launch(script.as_str(), &rows),
        WorkspaceLaunchMode::DirectSplit
    );
    // Without the header nothing tells the windows.
    let body = script.split_once('\n').unwrap().1;
    assert_eq!(
        plan_workspace_launch(body, &rows),
        WorkspaceLaunchMode::DirectFallback
    );
    // Custom configuration still comes first.
    let custom = format!("{script}set command of cfg1_1 to \"make\"\n");
    assert_eq!(
        plan_workspace_launch(custom.as_str(), &rows),
        WorkspaceLaunchMode::DirectLegacy
    );
}

#[test]
fn frames_are_set_once_for_each_window() {
    let script = render_restore_script(&two_windows());
    let frames: Vec<&str> = script
        .lines()
        .map(str::trim)
        .filter(|line| line.starts_with("perform action \"set_frame:"))
        .collect();
    assert_eq!(
        frames,
        vec![
            "perform action \"set_frame:10,20,800,600\" on p1_1",
            "perform action \"set_frame:-10,20,800,600\" on p2_1",
        ]
    );
    let mut unknown = two_windows();
    unknown.windows[0].window_index = 7;
    let script = render_restore_script(&unknown);
    assert_eq!(script.matches("perform action \"set_frame:").count(), 1);
}

#[test]
fn the_order_of_capture_does_not_matter() {
    let sorted = two_windows();
    let mut mixed = sorted.clone();
    mixed.surfaces = vec![
        sorted.surfaces[3].clone(),
        sorted.surfaces[0].clone(),
        sorted.surfaces[2].clone(),
        sorted.surfaces[1].clone(),
    ];
    assert_eq!(render_restore_script(&mixed), render_restore_script(&sorted));
}

#[test]
fn variables_are_set_once_and_before_their_use() {
    let script = render_restore_script(&two_windows());
    let mut known: Vec<String> = Vec::new();
    let mut configurations = 0;
    for line in script.lines().map(str::trim) {
        let Some((variable, rest)) = line.strip_prefix("set ").and_then(|s| s.split_once(" to "))
        else {
            continue;
        };
        if let Some(config) = variable.strip_prefix("initial working directory of ") {
            assert!(known.iter().any(|name| name == config));
            continue;
        }
        for word in rest.split(' ') {
            let named = word.starts_with("cfg")
                || word.starts_with("newtab")
                || word.starts_with("win") && word != "window"
                || word.starts_with('p');
            assert!(
                !named || known.iter().any(|name| name == word),
                "{word} in {line}"
            );
        }
        assert!(!known.iter().any(|name| name == variable), "{variable}");
        if rest == "new surface configuration" {
            configurations += 1;
        }
        known.push(variable.to_string());
    }
    assert_eq!(configurations, 4);
    assert!(known.iter().any(|name| name == "newtab2_1"));
    assert!(known.iter().any(|name| name == "p1_2"));
}

#[test]
fn panes_that_lines_cut_apart_are_all_kept() {
    // The upper part is cut at 40, the lower one at 60, and its right half again.
    let rects = [
        rect(60, 75, 40, 25),
        rect(0, 0, 40, 50),
        rect(0, 50, 60, 50),
        rect(40, 0, 60, 50),
        rect(60, 50, 40, 25),
    ];
    let names = ["/e", "/a", "/c", "/b", "/d"];
    let panes: Vec<PaneRef> = rects
        .iter()
        .zip(names)
        .map(|(rect, working_dir)| PaneRef { working_dir, rect })
        .collect();
    let mut tree = Tree::new();
    let root = reconstruct(&mut tree, panes.as_slice());
    assert_eq!(leaves(&tree, root), vec!["/a", "/b", "/c", "/d", "/e"]);
    assert_eq!(tree.nodes.len(), 9);
    assert_eq!(root, 8);
}

#[test]
fn panes_around_a_middle_become_one() {
    let rects = [
        rect(0, 0, 20, 10),
        rect(20, 0, 10, 20),
        rect(10, 20, 20, 10),
        rect(0, 10, 10, 20),
        rect(10, 10, 10, 10),
    ];
    let names = ["/a", "/b", "/c", "/d", "/e"];
    let panes: Vec<PaneRef> = rects
        .iter()
        .zip(names)
        .map(|(rect, working_dir)| PaneRef { working_dir, rect })
        .collect();
    let mut tree = Tree::new();
    let root = reconstruct(&mut tree, panes.as_slice());
    assert_eq!(leaves(&tree, root), vec!["/a"]);
    assert_eq!((tree.nodes.len(), root), (1, 0));
    // A second tree goes behind the first.
    let root = reconstruct(&mut tree, &panes[1..2]);
    assert_eq!(leaves(&tree, root), vec!["/b"]);
    assert_eq!((tree.nodes.len(), root), (2, 1));
}

#[test]
fn rows_of_plain_tabs_are_read_back() {
    let rows = vec![
        row("/tmp/a \"b\"", "say \"hi\""),
        row("/tmp/c\\d", "zsh"),
        row("", ""),
        row("/tmp/e to focused terminal of tab1", "on term9"),
    ];
    let script = build_workspace_script(&rows);
    let read = parse_workspace_rows(script.as_str(), "/home/me");
    let pairs: Vec<(&str, &str)> = read
        .iter()
        .map(|row| (row.working_dir.as_str(), row.title.as_str()))
        .collect();
    assert_eq!(
        pairs,
        vec![
            ("/tmp/a \"b\"", "say \"hi\""),
            ("/tmp/c\\d", ""),
            ("/home/me", ""),
            ("/tmp/e to focused terminal of tab1", "on term9"),
        ]
    );
}

#[test]
fn rows_take_the_last_title_of_their_term() {
    let script = "set initial working directory of cfg1 to \"/tmp/project\"\nperform action \"set_tab_title:alpha\" on p1\nset initial working directory of cfg2 to \"/tmp/work\"\n  perform action \"set_tab_title:old\" on term2\nperform action \"set_tab_title:new\" on term2\nperform action \"set_tab_title:beta\" on p3\n";
    let rows = parse_workspace_rows(script, "/home/me");
    let pairs: Vec<(&str, &str)> = rows
        .iter()
        .map(|row| (row.working_dir.as_str(), row.title.as_str()))
        .collect();
    assert_eq!(
        pairs,
        vec![
            ("/tmp/project", ""),
            ("/tmp/work", "new"),
            ("/home/me", ""),
        ]
    );
    // The preview shows the titles of either form.
    let tabs = parse_workspace_tabs(script, "/home/me");
    let titles: Vec<&str> = tabs.iter().map(|tab| tab.title.as_str()).collect();
    assert_eq!(titles, vec!["alpha", "new", "beta"]);
}

#[test]
fn shortcuts_are_normalized_once() {
    for (typed, kept) in [
        (" Cmd+G ", "cmd+g"),
        ("DISABLED", "off"),
        ("None", "off"),
        ("Ctrl+Shift+X", "ctrl+shift+x"),
    ] {
        let once = normalize_ghostty_shortcut(typed).unwrap();
        assert_eq!(once, kept);
        assert_eq!(normalize_ghostty_shortcut(once.as_str()).unwrap(), kept);
    }
    assert_eq!(keep_lowered_shortcut("disabled").unwrap(), "off");
    assert_eq!(keep_lowered_shortcut("cmd+g").unwrap(), "cmd+g");
    assert!(matches!(
        keep_lowered_shortcut(""),
        Err(Error::EmptyShortcut)
    ));
    assert!(matches!(
        keep_lowered_shortcut("cmd+="),
        Err(Error::InvalidShortcut)
    ));
    assert!(matches!(
        normalize_ghostty_shortcut("a\nb"),
        Err(Error::InvalidShortcut)
    ));
    assert!(matches!(
        normalize_ghostty_shortcut(" \t"),
        Err(Error::EmptyShortcut)
    ));
}

#[test]
fn printable_keys_have_lower_case_names() {
    for c in (0..0x100_u32).filter_map(char::from_u32) {
        let name = shortcut_key_name(KeyCode::Char(c));
        let expected = (' '..='~').contains(&c) && !"!@#$%^&*()".contains(c);
        assert_eq!(name.is_some(), expected, "{c:?}");
        assert_eq!(name, shortcut_key_name_for_char(c));
        if let Some(name) = name {
            assert_eq!(name, name.to_lowercase());
        }
    }
    for (c, name) in [(' ', "space"), ('Q', "q"), ('?', "/"), ('+', "="), ('"', "'")] {
        assert_eq!(shortcut_key_name_for_char(c).as_deref(), Some(name));
    }
}

#[test]
fn a_filter_begun_with_a_character_is_dropped_by_escape() {
    let workspaces = vec![Workspace {
        name: "alpha".to_string(),
        path: "/tmp/alpha.applescript".to_string(),
        tabs: Vec::new(),
        layout: Vec::new(),
    }];
    let mut app = App::new(workspaces, Vec::new());
    app.begin_search(Some('z'));
    assert_eq!(app.filter, "z");
    assert!(app.visible_workspaces().is_empty());
    app.cancel_search();
    assert_eq!(app.filter, "");
    assert_eq!(app.visible_workspaces().len(), 1);
}
