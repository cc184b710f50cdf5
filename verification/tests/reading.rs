use gtab::applescript::{
    apple_escape, parse_apple_string, parse_apple_string_prefix, parse_indexed_assignment,
    parse_title_action, parse_title_assignment, read_literal_slice, shell_single_quote_escape,
    split_digits,
};
use gtab::capture::{
    build_restore_script, looks_like_shell_default_title, normalize_captured_tab_title,
    parse_captured_tab_surface, parse_captured_tab_surfaces, read_all_windows, read_front_window,
    serialize_captured_tab_surfaces,
};
use gtab::layout::{parse_workspace_layout, WorkspacePaneLayout};
use gtab::number::{decimal_string, i32_string, parse_digits_usize, parse_i32, parse_usize, usize_string};
use gtab::restore_script::{
    reconstruct, render_restore_script, CapturedPaneRect, CapturedTabSurface, CapturedWindow,
    CapturedWorkspace, Node, PaneRef, Tree,
};
use gtab::text::{
    chars_of, has, is_white_space, join_strings, lines_slice, precedes, split_once_slice,
    split_slice, string_of, trim_slice,
};
use gtab::window::{
    build_reposition_script, discover_new_window, find_new_window_id, parse_window_frame,
    parse_window_ids, Discovery, WindowFrame,
};
use gtab::workspace::{
    fallback_tab_name, file_name_slice, numbers_tabs_from_one, parse_workspace_rows,
    parse_workspace_tabs, plan_workspace_launch, script_has_multiple_windows,
    workspace_requires_true_legacy_launch, WorkspaceLaunchMode,
};

fn rect(x: i32, y: i32, width: i32, height: i32) -> CapturedPaneRect {
    CapturedPaneRect {
        x,
        y,
        width,
        height,
    }
}

fn pane(tab: usize, pane: usize, dir: &str, title: &str, rect: CapturedPaneRect) -> CapturedTabSurface {
    CapturedTabSurface {
        window_index: 1,
        tab_index: tab,
        pane_index: pane,
        terminal_id: format!("t{tab}{pane}"),
        working_dir: dir.to_string(),
        title: title.to_string(),
        rect,
    }
}

fn leaves(layout: &WorkspacePaneLayout) -> Vec<String> {
    match layout {
        WorkspacePaneLayout::Leaf { working_dir } => vec![working_dir.clone()],
        WorkspacePaneLayout::SplitRight { left, right } => {
            let mut all = leaves(left);
            all.extend(leaves(right));
            all
        }
        WorkspacePaneLayout::SplitDown { top, bottom } => {
            let mut all = leaves(top);
            all.extend(leaves(bottom));
            all
        }
    }
}

fn text_of(chars: &[char]) -> String {
    string_of(chars)
}

#[test]
fn saved_layouts_are_read_back() {
    let surfaces = vec![
        pane(1, 1, "/tmp/a \"b\"", "api", rect(0, 0, 100, 100)),
        pane(1, 2, "/tmp/c", "api", rect(100, 0, 100, 100)),
        pane(1, 3, "/tmp/d\\e", "api", rect(0, 100, 200, 100)),
        pane(2, 1, "/home/me", "zsh", rect(0, 0, 1, 1)),
        pane(3, 1, "/tmp/work", "", rect(0, 0, 1, 1)),
    ];
    let script = build_restore_script(&CapturedWorkspace::single_window(surfaces));
    let layout = parse_workspace_layout(script.as_str(), "/home/me");
    assert_eq!(layout.len(), 3);
    assert_eq!(layout[0].title, "api");
    match &layout[0].root {
        WorkspacePaneLayout::SplitDown { top, bottom } => {
            assert!(matches!(
                **top,
                WorkspacePaneLayout::SplitRight { .. }
            ));
            assert_eq!(leaves(top), vec!["/tmp/a \"b\"", "/tmp/c"]);
            assert_eq!(leaves(bottom), vec!["/tmp/d\\e"]);
        }
        other => panic!("expected a split, got {other:?}"),
    }
    assert_eq!(layout[1].title, "~");
    assert_eq!(layout[2].title, "work");
    assert!(!script_has_multiple_windows(script.as_str()));
    assert!(numbers_tabs_from_one(script.as_str()));
    let rows = parse_workspace_rows(script.as_str(), "/home/me");
    assert_eq!(
        plan_workspace_launch(script.as_str(), &rows),
        WorkspaceLaunchMode::DirectSplit
    );
    assert!(!workspace_requires_true_legacy_launch(script.as_str()));
}

#[test]
fn captured_rows_are_read_back() {
    let surfaces = vec![
        pane(1, 1, "/tmp/a", "api", rect(-5, 0, 100, 100)),
        pane(2, 1, "/tmp/b", "zsh", rect(0, 0, 1, 1)),
    ];
    let text = serialize_captured_tab_surfaces(&surfaces);
    assert_eq!(
        text,
        "1\t1\t1\tt11\t/tmp/a\tapi\t-5,0,100,100\n1\t2\t1\tt21\t/tmp/b\t\t0,0,1,1"
    );
    let lines: Vec<&str> = text.lines().collect();
    assert_eq!(
        parse_captured_tab_surface(&lines[0][2..], 1).unwrap(),
        surfaces[0]
    );
    assert!(parse_captured_tab_surface("1\t1\tid\t/tmp", 1).is_none());
    assert!(parse_captured_tab_surface("x\t1\tid\t/tmp\tt\t0,0,1,1", 1).is_none());
    assert!(parse_captured_tab_surface("1\t1\tid\t/tmp\tt\t0,0,1", 1).is_none());
    assert_eq!(
        parse_captured_tab_surfaces("1\t1\tid\t/tmp\tt\t 0 , 0,1,1\nnoise\n", 4)[0].window_index,
        4
    );
}

#[test]
fn captures_are_read() {
    let front = read_front_window("1\t1\tid\t/tmp\tt\t0,0,1,1\n").unwrap();
    assert_eq!(front.surfaces.len(), 1);
    assert!(!front.is_multi_window());
    let all = read_all_windows(
        "2\t0\t0\t5\t5\n1\t1\t1\t6\t6\n@@SURFACES@@\n1\t1\t1\ta\t/a\t\t0,0,1,1\r\n\nx\n2\t1\t1\tb\t/b\t\t0,0,1,1\n",
    )
    .unwrap();
    assert!(all.is_multi_window());
    assert_eq!(all.surfaces.len(), 2);
    assert_eq!(all.surfaces[1].window_index, 2);
    // Windows are restored by index, each in its own frame.
    let script = render_restore_script(&all);
    let first = script.find("set_frame:1,1,6,6").unwrap();
    let second = script.find("set_frame:0,0,5,5").unwrap();
    assert!(first < second);
    // A window without a frame is not moved.
    let mut unknown = all.clone();
    unknown.windows[1].window_index = 9;
    assert!(!render_restore_script(&unknown).contains("set_frame:1,1,6,6"));
    let single = CapturedWorkspace {
        windows: vec![CapturedWindow {
            window_index: 1,
            frame: WindowFrame::new(1, 2, 3, 4),
        }],
        surfaces: vec![pane(1, 1, "/a", "", rect(0, 0, 1, 1))],
    };
    assert!(!render_restore_script(&single).contains("set_frame"));
}

#[test]
fn panes_that_overlap_a_little_are_split() {
    let left = rect(0, 0, 102, 100);
    let right = rect(100, 0, 100, 100);
    let panes = [
        PaneRef {
            working_dir: "/l",
            rect: &left,
        },
        PaneRef {
            working_dir: "/r",
            rect: &right,
        },
    ];
    let mut tree = Tree::new();
    let root = reconstruct(&mut tree, &panes);
    assert!(matches!(tree.node(root), Node::Vertical { .. }));

    // Panes that no line separates become one.
    let over = rect(50, 50, 100, 100);
    let panes = [
        PaneRef {
            working_dir: "/l",
            rect: &left,
        },
        PaneRef {
            working_dir: "/o",
            rect: &over,
        },
    ];
    let mut tree = Tree::new();
    let root = reconstruct(&mut tree, &panes);
    assert!(matches!(tree.node(root), Node::Leaf(_)));
    assert_eq!(tree.anchor(root).working_dir, "/l");
}

#[test]
fn titles_are_settled() {
    for raw in ["⠐ 🔔 a", " ⠋⠋ b ", "🔔 🔔  c", "⠐x", "plain"] {
        let once = normalize_captured_tab_title(raw);
        assert_eq!(normalize_captured_tab_title(once.as_str()), once);
    }
    assert_eq!(normalize_captured_tab_title("⠐x"), "⠐x");
    assert!(looks_like_shell_default_title("-zsh"));
    assert!(looks_like_shell_default_title("/usr/bin"));
    assert!(!looks_like_shell_default_title("a:b@c"));
}

#[test]
fn literals_are_read_back() {
    for text in ["", "plain", "say \"hi\"", "back\\slash", "\\\"", "ä\tö"] {
        let quoted = format!("\"{}\" and more", apple_escape(text));
        let chars = chars_of(quoted.as_str());
        let (read, rest) = parse_apple_string_prefix(chars.as_slice()).unwrap();
        assert_eq!(read, text);
        assert_eq!(text_of(rest), " and more");
        assert_eq!(parse_apple_string(chars.as_slice()).as_deref(), Some(text));
    }
    assert!(parse_apple_string(chars_of("\"open").as_slice()).is_none());
    assert!(read_literal_slice(chars_of("open\\").as_slice()).is_none());
    assert_eq!(shell_single_quote_escape("it's"), "it'\"'\"'s");
}

#[test]
fn lines_of_scripts_are_understood() {
    let chars = chars_of("12abc");
    let (number, rest) = split_digits(chars.as_slice()).unwrap();
    assert_eq!((number, text_of(rest).as_str()), (12, "abc"));
    assert!(split_digits(chars_of("abc").as_slice()).is_none());
    let line = chars_of("set initial working directory of cfg3 to \"/tmp\"");
    assert_eq!(
        parse_indexed_assignment(
            line.as_slice(),
            "set initial working directory of cfg",
            " to "
        ),
        Some((3, "/tmp".to_string()))
    );
    let line = chars_of("perform action \"set_tab_title:a\" on term2");
    assert_eq!(
        parse_title_assignment(line.as_slice()),
        Some((2, "a".to_string()))
    );
    let line = chars_of("perform action \"set_tab_title:a\" on q7");
    assert!(parse_title_assignment(line.as_slice()).is_none());
    let line = chars_of("perform action \"set_tab_title:a\" on p7");
    assert_eq!(
        parse_title_assignment(line.as_slice()),
        Some((7, "a".to_string()))
    );
    let (title, target) = parse_title_action(line.as_slice()).unwrap();
    assert_eq!((title.as_str(), text_of(target).as_str()), ("a", "p7"));
}

#[test]
fn tabs_without_numbers_are_noticed() {
    assert!(numbers_tabs_from_one("set initial working directory of cfg1 to \"/a\""));
    assert!(!numbers_tabs_from_one("set initial working directory of cfg0 to \"/a\""));
    let tabs = parse_workspace_tabs(
        "set initial working directory of cfg2 to \"/home/me\"\n",
        "/home/me",
    );
    assert_eq!(tabs.len(), 2);
    assert_eq!(tabs[0].title, "Tab 1");
    assert_eq!(tabs[0].working_dir, None);
    assert_eq!(tabs[1].title, "~");
}

#[test]
fn tabs_have_names() {
    assert_eq!(fallback_tab_name(0, Some("/tmp/api"), "/home/me"), "api");
    assert_eq!(fallback_tab_name(0, Some("/home/me"), "/home/me"), "~");
    assert_eq!(fallback_tab_name(5, None, "/home/me"), "Tab 5");
    let chars = chars_of("/tmp/api/");
    assert_eq!(
        file_name_slice(chars.as_slice()).map(text_of).as_deref(),
        Some("api")
    );
    assert!(file_name_slice(chars_of("/").as_slice()).is_none());
    assert!(file_name_slice(chars_of("/tmp/..").as_slice()).is_none());
}

#[test]
fn numbers_are_read_back() {
    for n in [0_usize, 7, 10, 65_536, usize::MAX] {
        let text = usize_string(n);
        assert_eq!(text, n.to_string());
        assert_eq!(parse_usize(chars_of(text.as_str()).as_slice()), Some(n));
    }
    for i in [0_i32, -1, 42, i32::MIN, i32::MAX] {
        let text = i32_string(i);
        assert_eq!(text, i.to_string());
        assert_eq!(parse_i32(chars_of(text.as_str()).as_slice()), Some(i));
    }
    assert_eq!(decimal_string(u128::MAX), u128::MAX.to_string());
    assert_eq!(parse_usize(chars_of("+5").as_slice()), Some(5));
    assert_eq!(parse_digits_usize(chars_of("12").as_slice()), Some(12));
    assert_eq!(
        parse_usize(chars_of("99999999999999999999999").as_slice()),
        None
    );
    assert_eq!(parse_i32(chars_of("2147483648").as_slice()), None);
    assert_eq!(parse_i32(chars_of("-").as_slice()), None);
}

#[test]
fn texts_are_taken_apart() {
    let chars = chars_of("a\r\nb\n\nc\n");
    let lines: Vec<String> = lines_slice(chars.as_slice())
        .into_iter()
        .map(text_of)
        .collect();
    assert_eq!(lines, vec!["a", "b", "", "c"]);
    let chars = chars_of("a,b,");
    let parts: Vec<String> = split_slice(chars.as_slice(), ',')
        .into_iter()
        .map(text_of)
        .collect();
    assert_eq!(parts, vec!["a", "b", ""]);
    assert_eq!(join_strings(&parts, ","), "a,b,");
    let chars = chars_of("key = value = x");
    let (key, value) = split_once_slice(chars.as_slice(), "=").unwrap();
    assert_eq!((text_of(key).as_str(), text_of(value).as_str()), ("key ", " value = x"));
    assert_eq!(
        text_of(trim_slice(chars_of("\u{3000} a b \n").as_slice())),
        "a b"
    );
    assert!(has(chars_of("abc").as_slice(), chars_of("bc").as_slice()));
    assert!(!has(chars_of("abc").as_slice(), chars_of("cb").as_slice()));
    assert!(precedes(chars_of("ab").as_slice(), chars_of("b").as_slice()));
    assert!(!precedes(chars_of("b").as_slice(), chars_of("ab").as_slice()));
    for c in (0..0x3100_u32).filter_map(char::from_u32) {
        assert_eq!(is_white_space(c), c.is_whitespace(), "{c:?}");
    }
}

#[test]
fn frames_are_checked() {
    let message = |raw| parse_window_frame(raw).unwrap_err().message();
    assert_eq!(message("1\t2\t3"), "could not parse Ghostty window frame");
    assert_eq!(
        message("x\t2\t3\t4"),
        "could not parse Ghostty window frame x position"
    );
    assert_eq!(
        message("1\tx\t3\t4"),
        "could not parse Ghostty window frame y position"
    );
    assert_eq!(
        message("1\t2\tx\t4"),
        "could not parse Ghostty window frame width"
    );
    assert_eq!(
        message("1\t2\t3\tx"),
        "could not parse Ghostty window frame height"
    );
    assert_eq!(
        message("1\t2\t0\t4"),
        "Ghostty window frame size must be positive"
    );
    assert_eq!(
        parse_window_frame(" -1\t2 \t3\t4\n").unwrap(),
        WindowFrame::new(-1, 2, 3, 4)
    );
}

#[test]
fn new_windows_are_found() {
    let ids = |text| parse_window_ids(text);
    assert_eq!(ids(" b \n\na\nb\n"), vec!["a", "b"]);
    assert_eq!(
        find_new_window_id(&ids("a\nb"), &ids("b\nc\nd\na")).as_deref(),
        Some("c")
    );
    assert_eq!(find_new_window_id(&ids("a\nb"), &ids("a")), None);
    assert!(matches!(
        discover_new_window(0, &ids("a"), &ids("a")),
        Discovery::Wait
    ));
    assert!(matches!(
        discover_new_window(99, &ids("a"), &ids("a")),
        Discovery::TimedOut
    ));
    assert!(matches!(
        discover_new_window(99, &ids("a"), &ids("a\nb")),
        Discovery::Found(id) if id == "b"
    ));
    let script = build_reposition_script("w\"1", &WindowFrame::new(1, -2, 3, 4));
    assert!(script.contains("is \"w\\\"1\" then"));
    assert!(script.contains("set position of matchingWindow to {1, -2}"));
    assert!(script.contains("set size of matchingWindow to {3, 4}"));
}
