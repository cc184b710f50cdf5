use gtab::restore_script::{
    reconstruct, render_restore_script, CapturedPaneRect, CapturedTabSurface, CapturedWindow,
    CapturedWorkspace, Node, PaneRef, Tree,
};
use gtab::window::WindowFrame;

fn surface(window: usize, tab: usize, wd: &str) -> CapturedTabSurface {
    CapturedTabSurface {
        window_index: window,
        tab_index: tab,
        pane_index: 1,
        terminal_id: format!("term-{window}-{tab}"),
        working_dir: wd.to_string(),
        title: String::new(),
        rect: CapturedPaneRect {
            x: 0,
            y: 0,
            width: 1,
            height: 1,
        },
    }
}

#[test]
fn reconstruct_single_pane_is_leaf() {
    let panes = [PaneRef {
        working_dir: "/tmp/a",
        rect: &CapturedPaneRect {
            x: 0,
            y: 0,
            width: 100,
            height: 100,
        },
    }];
    let mut tree = Tree::new();
    let root = reconstruct(&mut tree, &panes);
    assert!(matches!(tree.node(root), Node::Leaf(_)));
}

#[test]
fn reconstruct_side_by_side_splits_vertically() {
    let left_rect = CapturedPaneRect {
        x: 0,
        y: 0,
        width: 100,
        height: 200,
    };
    let right_rect = CapturedPaneRect {
        x: 100,
        y: 0,
        width: 100,
        height: 200,
    };
    let panes = [
        PaneRef {
            working_dir: "/tmp/left",
            rect: &left_rect,
        },
        PaneRef {
            working_dir: "/tmp/right",
            rect: &right_rect,
        },
    ];
    let mut tree = Tree::new();
    let root = reconstruct(&mut tree, &panes);
    match tree.node(root) {
        Node::Vertical { left, right } => {
            assert_eq!(tree.anchor(*left).working_dir, "/tmp/left");
            assert_eq!(tree.anchor(*right).working_dir, "/tmp/right");
        }
        other => panic!("expected vertical split, got {other:?}"),
    }
}

#[test]
fn reconstruct_stacked_splits_horizontally() {
    let top_rect = CapturedPaneRect {
        x: 0,
        y: 0,
        width: 200,
        height: 100,
    };
    let bottom_rect = CapturedPaneRect {
        x: 0,
        y: 100,
        width: 200,
        height: 100,
    };
    let panes = [
        PaneRef {
            working_dir: "/tmp/top",
            rect: &top_rect,
        },
        PaneRef {
            working_dir: "/tmp/bottom",
            rect: &bottom_rect,
        },
    ];
    let mut tree = Tree::new();
    let root = reconstruct(&mut tree, &panes);
    match tree.node(root) {
        Node::Horizontal { top, bottom } => {
            assert_eq!(tree.anchor(*top).working_dir, "/tmp/top");
            assert_eq!(tree.anchor(*bottom).working_dir, "/tmp/bottom");
        }
        other => panic!("expected horizontal split, got {other:?}"),
    }
}

#[test]
fn reconstruct_three_pane_l_shape_nests() {
    // ┌──────┬──────┐
    // │  a   │  b   │
    // ├──────┴──────┤
    // │      c      │
    // └─────────────┘
    let a_rect = CapturedPaneRect {
        x: 0,
        y: 0,
        width: 100,
        height: 100,
    };
    let b_rect = CapturedPaneRect {
        x: 100,
        y: 0,
        width: 100,
        height: 100,
    };
    let c_rect = CapturedPaneRect {
        x: 0,
        y: 100,
        width: 200,
        height: 100,
    };
    let panes = [
        PaneRef {
            working_dir: "/a",
            rect: &a_rect,
        },
        PaneRef {
            working_dir: "/b",
            rect: &b_rect,
        },
        PaneRef {
            working_dir: "/c",
            rect: &c_rect,
        },
    ];
    let mut tree = Tree::new();
    let root = reconstruct(&mut tree, &panes);
    // Vertical edges are tried first; the cleanest full-width divider is
    // horizontal (c spans both columns), but a|b+c fails the
    // len(L)+len(R)==len(panes) check only if c straddles — it does at
    // sx=100, so vertical fails and we get horizontal on top.
    match tree.node(root) {
        Node::Horizontal { top, bottom } => {
            assert_eq!(tree.anchor(*bottom).working_dir, "/c");
            match tree.node(*top) {
                Node::Vertical { left, right } => {
                    assert_eq!(tree.anchor(*left).working_dir, "/a");
                    assert_eq!(tree.anchor(*right).working_dir, "/b");
                }
                other => panic!("expected vertical top split, got {other:?}"),
            }
        }
        other => panic!("expected horizontal root split, got {other:?}"),
    }
}

#[test]
fn single_window_script_keeps_legacy_variable_names() {
    let workspace = CapturedWorkspace::single_window(vec![
        surface(1, 1, "/tmp/one"),
        surface(1, 2, "/tmp/two"),
    ]);
    let script = render_restore_script(&workspace);

    assert!(script.starts_with("-- gtab: format=2 windows=1\n"));
    assert!(script.contains("set cfg1 to new surface configuration"));
    assert!(script.contains("set cfg2 to new surface configuration"));
    assert!(script.contains("set win to new window with configuration cfg1"));
    assert!(script.contains("set newtab1_1 to new tab in win with configuration cfg2"));
    assert!(!script.contains("set_frame:"));
}

#[test]
fn single_window_split_uses_anchor_and_direction() {
    let mut left = surface(1, 1, "/tmp/left");
    left.rect = CapturedPaneRect {
        x: 0,
        y: 0,
        width: 100,
        height: 200,
    };
    let mut right = surface(1, 1, "/tmp/right");
    right.pane_index = 2;
    right.rect = CapturedPaneRect {
        x: 100,
        y: 0,
        width: 100,
        height: 200,
    };
    let workspace = CapturedWorkspace::single_window(vec![left, right]);
    let script = render_restore_script(&workspace);

    assert!(script.contains("set initial working directory of cfg1 to \"/tmp/left\""));
    assert!(script.contains("set initial working directory of cfg2 to \"/tmp/right\""));
    assert!(script.contains("set p2 to split p1 direction right with configuration cfg2"));
}

#[test]
fn multi_window_script_uses_per_window_vars_frames_and_titles() {
    let mut titled = surface(2, 2, "/tmp/three");
    titled.title = "editor".to_string();
    let workspace = CapturedWorkspace {
        windows: vec![
            CapturedWindow {
                window_index: 1,
                frame: WindowFrame::new(10, 20, 800, 600),
            },
            CapturedWindow {
                window_index: 2,
                frame: WindowFrame::new(-500, 40, 1024, 768),
            },
        ],
        surfaces: vec![surface(1, 1, "/tmp/one"), surface(2, 1, "/tmp/two"), titled],
    };
    let script = render_restore_script(&workspace);

    assert!(script.starts_with("-- gtab: format=2 windows=2\n"));
    assert!(script.contains("set win1 to new window with configuration cfg1_1"));
    assert!(script.contains("set win2 to new window with configuration cfg2_1"));
    assert!(script.contains("set newtab2_1 to new tab in win2 with configuration cfg2_2"));
    assert!(script.contains("perform action \"set_tab_title:editor\" on p2_2"));
    assert!(script.contains("perform action \"set_frame:10,20,800,600\" on p1_1"));
    assert!(script.contains("perform action \"set_frame:-500,40,1024,768\" on p2_1"));
}

#[test]
fn escaping_handles_quotes_and_backslashes() {
    let mut tricky = surface(1, 1, "/tmp/a\"b\\c");
    tricky.title = "say \"hi\"".to_string();
    let workspace = CapturedWorkspace::single_window(vec![tricky]);
    let script = render_restore_script(&workspace);

    assert!(script.contains("set initial working directory of cfg1 to \"/tmp/a\\\"b\\\\c\""));
    assert!(script.contains("perform action \"set_tab_title:say \\\"hi\\\"\" on p1"));
}
