//! Layouts: the splits of each tab that a saved script restores, read back for the
//! preview.
//!
//! A script names its panes by variables. A line that splits the pane of one variable
//! gives the new pane to another. While a tab is read, each leaf of its tree carries the
//! variable that holds it.

use vstd::prelude::*;

use crate::applescript::{parse_indexed_assignment, parse_title_action};
use crate::number::{parse_digits_usize, parse_usize};
use crate::text::{
    chars_of, has_prefix, is_empty_str, is_text, lines_slice, same_str, split_once_slice,
    string_of, strip_prefix_slice, trim_slice,
};
use crate::workspace::{clone_option, fallback_tab_name};

verus! {

/// The panes of a tab.
#[derive(Debug)]
pub enum WorkspacePaneLayout {
    Leaf { working_dir: String },
    SplitRight { left: Box<WorkspacePaneLayout>, right: Box<WorkspacePaneLayout> },
    SplitDown { top: Box<WorkspacePaneLayout>, bottom: Box<WorkspacePaneLayout> },
}

/// A tab and its panes.
#[derive(Clone, Debug)]
pub struct WorkspaceTabLayout {
    pub title: String,
    pub root: WorkspacePaneLayout,
}

/// Panes by their working directories.
pub enum PaneTree {
    Leaf(Seq<char>),
    SplitRight(Box<PaneTree>, Box<PaneTree>),
    SplitDown(Box<PaneTree>, Box<PaneTree>),
}

/// The panes of a layout.
pub open spec fn pane_tree(layout: WorkspacePaneLayout) -> PaneTree
    decreases layout,
{
    match layout {
        WorkspacePaneLayout::Leaf { working_dir } => PaneTree::Leaf(working_dir@),
        WorkspacePaneLayout::SplitRight { left, right } => PaneTree::SplitRight(
            Box::new(pane_tree(*left)),
            Box::new(pane_tree(*right)),
        ),
        WorkspacePaneLayout::SplitDown { top, bottom } => PaneTree::SplitDown(
            Box::new(pane_tree(*top)),
            Box::new(pane_tree(*bottom)),
        ),
    }
}

impl Clone for WorkspacePaneLayout {
    fn clone(&self) -> (r: Self)
        ensures
            pane_tree(r) == pane_tree(*self),
        decreases self,
    {
        match self {
            WorkspacePaneLayout::Leaf { working_dir } => WorkspacePaneLayout::Leaf {
                working_dir: working_dir.clone(),
            },
            WorkspacePaneLayout::SplitRight { left, right } => WorkspacePaneLayout::SplitRight {
                left: Box::new((&**left).clone()),
                right: Box::new((&**right).clone()),
            },
            WorkspacePaneLayout::SplitDown { top, bottom } => WorkspacePaneLayout::SplitDown {
                top: Box::new((&**top).clone()),
                bottom: Box::new((&**bottom).clone()),
            },
        }
    }
}

/// A tab and its panes: the title and the tree.
pub struct TabLayout {
    pub title: Seq<char>,
    pub root: PaneTree,
}

/// What layouts hold.
pub open spec fn layout_views(layouts: Seq<WorkspaceTabLayout>) -> Seq<TabLayout> {
    layouts.map_values(
        |t: WorkspaceTabLayout| TabLayout { title: t.title@, root: pane_tree(t.root) },
    )
}

// Configurations.
/// The working directory that a line gives to a configuration.
pub open spec fn config_dir(line: Seq<char>) -> Option<(int, Seq<char>)> {
    crate::applescript::indexed_assignment(
        crate::text::trim(line),
        "set initial working directory of cfg"@,
        " to "@,
    )
}

/// The working directories that lines give to configurations, in order.
pub open spec fn config_dirs(lines: Seq<Seq<char>>) -> Seq<(int, Seq<char>)>
    decreases lines.len(),
{
    if lines.len() == 0 {
        seq![]
    } else {
        let rest = config_dirs(lines.drop_last());
        match config_dir(lines.last()) {
            Some(entry) => rest.push(entry),
            None => rest,
        }
    }
}

/// The last working directory that was given to a configuration.
pub open spec fn dir_of(dirs: Seq<(int, Seq<char>)>, index: int) -> Option<Seq<char>>
    decreases dirs.len(),
{
    if dirs.len() == 0 {
        None
    } else if dirs.last().0 == index {
        Some(dirs.last().1)
    } else {
        dir_of(dirs.drop_last(), index)
    }
}

/// The working directory of a pane with this configuration: empty where none was given.
pub open spec fn dir_or_empty(dirs: Seq<(int, Seq<char>)>, index: int) -> Seq<char> {
    match dir_of(dirs, index) {
        Some(dir) => dir,
        None => seq![],
    }
}

// Lines that make panes.
/// The variable that a line gives the first pane of a tab to.
pub open spec fn root_pane_var(line: Seq<char>) -> Option<Seq<char>> {
    match crate::text::strip_prefix(line, "set "@) {
        Some(rest) => match crate::text::split_once(rest, " to focused terminal of "@) {
            Some((var, after)) => if crate::text::starts_with(after, "selected tab of win"@)
                || crate::text::starts_with(after, "newtab"@) || crate::text::starts_with(
                after,
                "tab"@,
            ) {
                Some(crate::text::trim(var))
            } else {
                None
            },
            None => None,
        },
        None => None,
    }
}

/// How many characters stand in front of the first digit.
pub open spec fn before_digits(var: Seq<char>) -> int
    decreases var.len(),
{
    if var.len() == 0 || crate::number::is_digit(var[0]) {
        0
    } else {
        1 + before_digits(var.skip(1))
    }
}

/// The number that a variable ends with, from its first digit on; 0 where that is no
/// number.
pub open spec fn var_index(var: Seq<char>) -> int {
    match crate::number::parse_digits(var.skip(before_digits(var)), usize::MAX as int) {
        Some(index) => index,
        None => 0,
    }
}

/// A line that splits a pane.
pub struct Split {
    /// The variable that gets the new pane.
    pub new_var: Seq<char>,
    /// The variable that holds the pane to split.
    pub target: Seq<char>,
    /// To the right, or down.
    pub right: bool,
    /// The configuration of the new pane.
    pub config: int,
}

/// The split that a line makes.
pub open spec fn split_command(line: Seq<char>) -> Option<Split> {
    match crate::text::strip_prefix(line, "set "@) {
        Some(rest) => match crate::text::split_once(rest, " to split "@) {
            Some((new_var, rest)) => match crate::text::split_once(rest, " direction "@) {
                Some((target, rest)) => match crate::text::split_once(
                    rest,
                    " with configuration cfg"@,
                ) {
                    Some((direction, rest)) => split_of(new_var, target, direction, rest),
                    None => None,
                },
                None => None,
            },
            None => None,
        },
        None => None,
    }
}

/// The split that the parts of a line make.
pub open spec fn split_of(
    new_var: Seq<char>,
    target: Seq<char>,
    direction: Seq<char>,
    config: Seq<char>,
) -> Option<Split> {
    let direction = crate::text::trim(direction);
    match crate::number::parse_unsigned(crate::text::trim(config), usize::MAX as int) {
        Some(config) => if direction == "right"@ || direction == "down"@ {
            Some(
                Split {
                    new_var: crate::text::trim(new_var),
                    target: crate::text::trim(target),
                    right: direction == "right"@,
                    config,
                },
            )
        } else {
            None
        },
        None => None,
    }
}

// The tree of a tab while it is read.
/// Panes, with the variables that hold them.
pub enum HeldTree {
    Leaf(Option<Seq<char>>, Seq<char>),
    Right(Box<HeldTree>, Box<HeldTree>),
    Down(Box<HeldTree>, Box<HeldTree>),
}

/// `var` holds one of the panes.
pub open spec fn holds(tree: HeldTree, var: Seq<char>) -> bool
    decreases tree,
{
    match tree {
        HeldTree::Leaf(held, _) => held == Some(var),
        HeldTree::Right(a, b) => holds(*a, var) || holds(*b, var),
        HeldTree::Down(a, b) => holds(*a, var) || holds(*b, var),
    }
}

/// The working directory of the (first) pane that `var` holds.
pub open spec fn held_dir(tree: HeldTree, var: Seq<char>) -> Option<Seq<char>>
    decreases tree,
{
    match tree {
        HeldTree::Leaf(held, dir) => if held == Some(var) {
            Some(dir)
        } else {
            None
        },
        HeldTree::Right(a, b) => match held_dir(*a, var) {
            Some(dir) => Some(dir),
            None => held_dir(*b, var),
        },
        HeldTree::Down(a, b) => match held_dir(*a, var) {
            Some(dir) => Some(dir),
            None => held_dir(*b, var),
        },
    }
}

/// The tree after the pane of `target` was split and the new pane given to `new_var`,
/// which then holds no other.
pub open spec fn split_pane(
    tree: HeldTree,
    target: Seq<char>,
    new_var: Seq<char>,
    right: bool,
    dir: Seq<char>,
) -> HeldTree
    decreases tree,
{
    match tree {
        HeldTree::Leaf(held, old_dir) => if held == Some(target) {
            let kept = HeldTree::Leaf(
                if target == new_var {
                    None
                } else {
                    Some(target)
                },
                old_dir,
            );
            let added = HeldTree::Leaf(Some(new_var), dir);
            if right {
                HeldTree::Right(Box::new(kept), Box::new(added))
            } else {
                HeldTree::Down(Box::new(kept), Box::new(added))
            }
        } else if held == Some(new_var) {
            HeldTree::Leaf(None, old_dir)
        } else {
            tree
        },
        HeldTree::Right(a, b) => HeldTree::Right(
            Box::new(split_pane(*a, target, new_var, right, dir)),
            Box::new(split_pane(*b, target, new_var, right, dir)),
        ),
        HeldTree::Down(a, b) => HeldTree::Down(
            Box::new(split_pane(*a, target, new_var, right, dir)),
            Box::new(split_pane(*b, target, new_var, right, dir)),
        ),
    }
}

/// The panes of a tree.
pub open spec fn panes_only(tree: HeldTree) -> PaneTree
    decreases tree,
{
    match tree {
        HeldTree::Leaf(_, dir) => PaneTree::Leaf(dir),
        HeldTree::Right(a, b) => PaneTree::SplitRight(
            Box::new(panes_only(*a)),
            Box::new(panes_only(*b)),
        ),
        HeldTree::Down(a, b) => PaneTree::SplitDown(
            Box::new(panes_only(*a)),
            Box::new(panes_only(*b)),
        ),
    }
}

/// A tab while it is read.
pub struct OpenTab {
    pub root_var: Seq<char>,
    pub title: Option<Seq<char>>,
    pub tree: HeldTree,
}

/// The tabs after one more line. What follows the line that opens a tab is about that
/// tab.
pub open spec fn after_line(
    tabs: Seq<OpenTab>,
    line: Seq<char>,
    dirs: Seq<(int, Seq<char>)>,
) -> Seq<OpenTab> {
    let trimmed = crate::text::trim(line);
    match root_pane_var(trimmed) {
        Some(var) => tabs.push(
            OpenTab {
                root_var: var,
                title: None,
                tree: HeldTree::Leaf(Some(var), dir_or_empty(dirs, var_index(var))),
            },
        ),
        None => if tabs.len() == 0 {
            tabs
        } else {
            let tab = tabs.last();
            match crate::applescript::title_action(trimmed) {
                Some((title, target)) => if crate::text::trim(target) == tab.root_var {
                    tabs.drop_last().push(OpenTab { title: Some(title), ..tab })
                } else {
                    tabs
                },
                None => match split_command(trimmed) {
                    Some(split) => if holds(tab.tree, split.target) {
                        tabs.drop_last().push(
                            OpenTab {
                                tree: split_pane(
                                    tab.tree,
                                    split.target,
                                    split.new_var,
                                    split.right,
                                    dir_or_empty(dirs, split.config),
                                ),
                                ..tab
                            },
                        )
                    } else {
                        tabs
                    },
                    None => tabs,
                },
            }
        },
    }
}

/// The tabs after some lines.
pub open spec fn after_lines(
    tabs: Seq<OpenTab>,
    lines: Seq<Seq<char>>,
    dirs: Seq<(int, Seq<char>)>,
) -> Seq<OpenTab>
    decreases lines.len(),
{
    if lines.len() == 0 {
        tabs
    } else {
        after_line(after_lines(tabs, lines.drop_last(), dirs), lines.last(), dirs)
    }
}

/// The `i`th tab (from 0) as it is shown.
pub open spec fn closed_tab(tab: OpenTab, i: int, home: Seq<char>) -> TabLayout {
    TabLayout {
        title: match crate::workspace::non_empty(tab.title) {
            Some(title) => title,
            None => crate::workspace::fallback_name(
                (i + 1) as nat,
                held_dir(tab.tree, tab.root_var),
                home,
            ),
        },
        root: panes_only(tab.tree),
    }
}

/// The tabs and panes that a script restores.
pub open spec fn script_layout(script: Seq<char>, home: Seq<char>) -> Seq<TabLayout> {
    let lines = crate::text::lines(script);
    after_lines(seq![], lines, config_dirs(lines)).map(
        |i: int, tab: OpenTab| closed_tab(tab, i, home),
    )
}

/// No two panes are held by one variable.
pub open spec fn held_once(tree: HeldTree) -> bool
    decreases tree,
{
    match tree {
        HeldTree::Leaf(_, _) => true,
        HeldTree::Right(a, b) => held_once(*a) && held_once(*b) && forall|var: Seq<char>|
            !(#[trigger] holds(*a, var) && holds(*b, var)),
        HeldTree::Down(a, b) => held_once(*a) && held_once(*b) && forall|var: Seq<char>|
            !(#[trigger] holds(*a, var) && holds(*b, var)),
    }
}

/// What a split does to the variables: `target` keeps a pane unless it got the new one,
/// `new_var` holds the new pane alone, and the others hold what they held.
proof fn lemma_split_pane_holds(
    tree: HeldTree,
    target: Seq<char>,
    new_var: Seq<char>,
    right: bool,
    dir: Seq<char>,
    var: Seq<char>,
)
    ensures
        holds(split_pane(tree, target, new_var, right, dir), var) == if var == new_var {
            holds(tree, target)
        } else {
            holds(tree, var)
        },
    decreases tree,
{
    match tree {
        HeldTree::Leaf(_, _) => {
            let kept = HeldTree::Leaf(
                if target == new_var {
                    None
                } else {
                    Some(target)
                },
                tree->Leaf_1,
            );
            let added = HeldTree::Leaf(Some(new_var), dir);
            assert(holds(added, var) == (var == new_var));
            assert(holds(kept, var) == (var == target && target != new_var));
        },
        HeldTree::Right(a, b) => {
            lemma_split_pane_holds(*a, target, new_var, right, dir, var);
            lemma_split_pane_holds(*b, target, new_var, right, dir, var);
        },
        HeldTree::Down(a, b) => {
            lemma_split_pane_holds(*a, target, new_var, right, dir, var);
            lemma_split_pane_holds(*b, target, new_var, right, dir, var);
        },
    }
}

/// Reading splits keeps each variable on one pane: a split leaves no two panes held by
/// one variable.
pub proof fn splits_keep_variables_apart(
    tree: HeldTree,
    target: Seq<char>,
    new_var: Seq<char>,
    right: bool,
    dir: Seq<char>,
)
    requires
        held_once(tree),
    ensures
        held_once(split_pane(tree, target, new_var, right, dir)),
    decreases tree,
{
    match tree {
        HeldTree::Leaf(_, _) => {
            if tree->Leaf_0 == Some(target) {
                let kept = HeldTree::Leaf(
                    if target == new_var {
                        None
                    } else {
                        Some(target)
                    },
                    tree->Leaf_1,
                );
                let added = HeldTree::Leaf(Some(new_var), dir);
                assert forall|var: Seq<char>| !(#[trigger] holds(kept, var) && holds(
                    added,
                    var,
                )) by {}
                assert(held_once(kept) && held_once(added));
            }
        },
        HeldTree::Right(a, b) => {
            splits_keep_variables_apart(*a, target, new_var, right, dir);
            splits_keep_variables_apart(*b, target, new_var, right, dir);
            lemma_halves_stay_apart(*a, *b, target, new_var, right, dir);
        },
        HeldTree::Down(a, b) => {
            splits_keep_variables_apart(*a, target, new_var, right, dir);
            splits_keep_variables_apart(*b, target, new_var, right, dir);
            lemma_halves_stay_apart(*a, *b, target, new_var, right, dir);
        },
    }
}

/// Two halves of a tree stay apart.
proof fn lemma_halves_stay_apart(
    a: HeldTree,
    b: HeldTree,
    target: Seq<char>,
    new_var: Seq<char>,
    right: bool,
    dir: Seq<char>,
)
    requires
        forall|var: Seq<char>| !(#[trigger] holds(a, var) && holds(b, var)),
    ensures
        forall|var: Seq<char>| !(#[trigger] holds(
            split_pane(a, target, new_var, right, dir),
            var,
        ) && holds(split_pane(b, target, new_var, right, dir), var)),
{
    assert forall|var: Seq<char>| !(#[trigger] holds(
        split_pane(a, target, new_var, right, dir),
        var,
    ) && holds(split_pane(b, target, new_var, right, dir), var)) by {
        lemma_split_pane_holds(a, target, new_var, right, dir, var);
        lemma_split_pane_holds(b, target, new_var, right, dir, var);
        assert(!(holds(a, target) && holds(b, target)));
        assert(!(holds(a, var) && holds(b, var)));
    }
}

// Reading a script.
/// Panes, with the variables that hold them.
enum PaneNode {
    Leaf { var: Option<String>, dir: String },
    Right(Box<PaneNode>, Box<PaneNode>),
    Down(Box<PaneNode>, Box<PaneNode>),
}

/// The tree that a node stands for.
spec fn held_tree(node: PaneNode) -> HeldTree
    decreases node,
{
    match node {
        PaneNode::Leaf { var, dir } => HeldTree::Leaf(crate::text::opt_view(var), dir@),
        PaneNode::Right(a, b) => HeldTree::Right(
            Box::new(held_tree(*a)),
            Box::new(held_tree(*b)),
        ),
        PaneNode::Down(a, b) => HeldTree::Down(Box::new(held_tree(*a)), Box::new(held_tree(*b))),
    }
}

/// A tab while it is read.
struct TabBuilder {
    root_var: String,
    title: Option<String>,
    root: PaneNode,
}

impl View for TabBuilder {
    type V = OpenTab;

    closed spec fn view(&self) -> OpenTab {
        OpenTab {
            root_var: self.root_var@,
            title: crate::text::opt_view(self.title),
            tree: held_tree(self.root),
        }
    }
}

/// The tabs that builders stand for.
spec fn open_tabs(tabs: Seq<TabBuilder>) -> Seq<OpenTab> {
    tabs.map_values(|t: TabBuilder| t@)
}

/// Whether a pane is held by this variable.
fn is_held_by(held: &Option<String>, var: &str) -> (r: bool)
    ensures
        r == (crate::text::opt_view(*held) == Some(var@)),
{
    match held {
        Some(name) => same_str(name.as_str(), var),
        None => false,
    }
}

/// Whether a variable holds one of the panes.
fn node_holds(node: &PaneNode, var: &str) -> (r: bool)
    ensures
        r == holds(held_tree(*node), var@),
    decreases node,
{
    match node {
        PaneNode::Leaf { var: held, .. } => is_held_by(held, var),
        PaneNode::Right(a, b) => node_holds(a, var) || node_holds(b, var),
        PaneNode::Down(a, b) => node_holds(a, var) || node_holds(b, var),
    }
}

/// The working directory of the pane that a variable holds.
fn node_dir(node: &PaneNode, var: &str) -> (r: Option<String>)
    ensures
        crate::text::opt_view(r) == held_dir(held_tree(*node), var@),
    decreases node,
{
    match node {
        PaneNode::Leaf { var: held, dir } => if is_held_by(held, var) {
            Some(dir.clone())
        } else {
            None
        },
        PaneNode::Right(a, b) => match node_dir(a, var) {
            Some(dir) => Some(dir),
            None => node_dir(b, var),
        },
        PaneNode::Down(a, b) => match node_dir(a, var) {
            Some(dir) => Some(dir),
            None => node_dir(b, var),
        },
    }
}

/// Splits the pane that a variable holds.
fn split_node(node: PaneNode, target: &str, new_var: &str, right: bool, dir: &str) -> (r: PaneNode)
    ensures
        held_tree(r) == split_pane(held_tree(node), target@, new_var@, right, dir@),
    decreases node,
{
    match node {
        PaneNode::Leaf { var, dir: old_dir } => {
            if is_held_by(&var, target) {
                let kept_var = if same_str(target, new_var) {
                    None
                } else {
                    Some(target.to_string())
                };
                let kept = PaneNode::Leaf { var: kept_var, dir: old_dir };
                let added = PaneNode::Leaf { var: Some(new_var.to_string()), dir: dir.to_string() };
                assert(held_tree(kept) == HeldTree::Leaf(
                    crate::text::opt_view(kept_var),
                    old_dir@,
                ));
                assert(held_tree(added) == HeldTree::Leaf(Some(new_var@), dir@));
                if right {
                    PaneNode::Right(Box::new(kept), Box::new(added))
                } else {
                    PaneNode::Down(Box::new(kept), Box::new(added))
                }
            } else if is_held_by(&var, new_var) {
                PaneNode::Leaf { var: None, dir: old_dir }
            } else {
                PaneNode::Leaf { var, dir: old_dir }
            }
        },
        PaneNode::Right(a, b) => PaneNode::Right(
            Box::new(split_node(*a, target, new_var, right, dir)),
            Box::new(split_node(*b, target, new_var, right, dir)),
        ),
        PaneNode::Down(a, b) => PaneNode::Down(
            Box::new(split_node(*a, target, new_var, right, dir)),
            Box::new(split_node(*b, target, new_var, right, dir)),
        ),
    }
}

/// The panes of a node.
fn build_layout(node: &PaneNode) -> (r: WorkspacePaneLayout)
    ensures
        pane_tree(r) == panes_only(held_tree(*node)),
    decreases node,
{
    match node {
        PaneNode::Leaf { dir, .. } => WorkspacePaneLayout::Leaf { working_dir: dir.clone() },
        PaneNode::Right(a, b) => WorkspacePaneLayout::SplitRight {
            left: Box::new(build_layout(a)),
            right: Box::new(build_layout(b)),
        },
        PaneNode::Down(a, b) => WorkspacePaneLayout::SplitDown {
            top: Box::new(build_layout(a)),
            bottom: Box::new(build_layout(b)),
        },
    }
}

/// What a list of configurations holds.
spec fn dir_views(dirs: Seq<(usize, String)>) -> Seq<(int, Seq<char>)> {
    dirs.map_values(|entry: (usize, String)| (entry.0 as int, entry.1@))
}

/// Reads the working directories that lines give to configurations.
fn read_config_dirs(lines: &Vec<&[char]>) -> (r: Vec<(usize, String)>)
    ensures
        dir_views(r@) == config_dirs(crate::text::views(lines@)),
{
    let ghost all = crate::text::views(lines@);
    let mut out: Vec<(usize, String)> = Vec::new();
    for i in 0..lines.len()
        invariant
            all == crate::text::views(lines@),
            dir_views(out@) == config_dirs(all.take(i as int)),
    {
        let ghost before = out@;
        assert(all.take(i as int + 1).drop_last() == all.take(i as int));
        assert(all.take(i as int + 1).last() == lines@[i as int]@);
        if let Some((index, dir)) = parse_indexed_assignment(
            trim_slice(lines[i]),
            "set initial working directory of cfg",
            " to ",
        ) {
            let ghost entry = (index as int, dir@);
            out.push((index, dir));
            assert(dir_views(out@) == dir_views(before).push(entry));
        }
    }
    assert(all.take(all.len() as int) == all);
    out
}

/// The working directory of a pane with this configuration.
fn find_dir(dirs: &Vec<(usize, String)>, index: usize) -> (r: String)
    ensures
        r@ == dir_or_empty(dir_views(dirs@), index as int),
{
    let ghost all = dir_views(dirs@);
    let mut n: usize = dirs.len();
    assert(all.take(n as int) == all);
    while n > 0
        invariant
            all == dir_views(dirs@),
            n <= dirs.len(),
            dir_of(all, index as int) == dir_of(all.take(n as int), index as int),
        decreases n,
    {
        assert(all.take(n as int).last() == all[n as int - 1]);
        assert(all.take(n as int).drop_last() == all.take(n as int - 1));
        if dirs[n - 1].0 == index {
            return dirs[n - 1].1.clone();
        }
        n = n - 1;
    }
    String::new()
}

/// Reads the variable that a line gives the first pane of a tab to.
fn parse_root_pane_var(line: &[char]) -> (r: Option<String>)
    ensures
        crate::text::opt_view(r) == root_pane_var(line@),
{
    let rest = strip_prefix_slice(line, "set ")?;
    let (var, after) = split_once_slice(rest, " to focused terminal of ")?;
    if !has_prefix(after, "selected tab of win") && !has_prefix(after, "newtab") && !has_prefix(
        after,
        "tab",
    ) {
        return None;
    }
    Some(string_of(trim_slice(var)))
}

/// The number that a variable ends with, or 0.
fn parse_var_index(var: &str) -> (r: usize)
    ensures
        r == var_index(var@),
{
    let chars = chars_of(var);
    let mut n: usize = 0;
    assert(chars@.skip(0) == chars@);
    while n < chars.len() && !crate::number::is_digit_char(chars[n])
        invariant
            n <= chars.len(),
            chars@ == var@,
            before_digits(var@) == n + before_digits(chars@.skip(n as int)),
        decreases chars.len() - n,
    {
        assert(chars@.skip(n as int).skip(1) == chars@.skip(n as int + 1));
        n = n + 1;
    }
    let all = chars.as_slice();
    let digits = &all[n..all.len()];
    assert(digits@ == var@.skip(before_digits(var@)));
    match parse_digits_usize(digits) {
        Some(index) => index,
        None => 0,
    }
}

/// A line that splits a pane.
struct SplitLine {
    new_var: String,
    target: String,
    right: bool,
    config: usize,
}

/// Reads a line that splits a pane.
fn parse_split(line: &[char]) -> (r: Option<SplitLine>)
    ensures
        match r {
            Some(split) => split_command(line@) == Some(
                Split {
                    new_var: split.new_var@,
                    target: split.target@,
                    right: split.right,
                    config: split.config as int,
                },
            ),
            None => split_command(line@) is None,
        },
{
    let rest = strip_prefix_slice(line, "set ")?;
    let (new_var, rest) = split_once_slice(rest, " to split ")?;
    let (target, rest) = split_once_slice(rest, " direction ")?;
    let (direction, rest) = split_once_slice(rest, " with configuration cfg")?;
    let config = parse_usize(trim_slice(rest))?;
    let direction = trim_slice(direction);
    let right = is_text(direction, "right");
    if !right && !is_text(direction, "down") {
        return None;
    }
    Some(
        SplitLine {
            new_var: string_of(trim_slice(new_var)),
            target: string_of(trim_slice(target)),
            right,
            config,
        },
    )
}

/// Reads one more line of a script.
fn read_line(tabs: &mut Vec<TabBuilder>, line: &[char], dirs: &Vec<(usize, String)>)
    ensures
        open_tabs(final(tabs)@) == after_line(open_tabs(old(tabs)@), line@, dir_views(dirs@)),
{
    let ghost start = open_tabs(tabs@);
    let trimmed = trim_slice(line);
    if let Some(root_var) = parse_root_pane_var(trimmed) {
        let dir = find_dir(dirs, parse_var_index(root_var.as_str()));
        let root = PaneNode::Leaf { var: Some(root_var.clone()), dir };
        let tab = TabBuilder { root_var, title: None, root };
        let ghost opened = tab@;
        tabs.push(tab);
        assert(open_tabs(tabs@) == start.push(opened));
        return;
    }
    let ghost before = tabs@;
    if let Some(tab) = tabs.pop() {
        let ghost last = tab@;
        assert(start.last() == last);
        assert(open_tabs(tabs@) == start.drop_last());
        let ghost front = tabs@;
        match parse_title_action(trimmed) {
            Some((title, target)) => {
                if is_text(trim_slice(target), tab.root_var.as_str()) {
                    let next = TabBuilder {
                        root_var: tab.root_var,
                        title: Some(title),
                        root: tab.root,
                    };
                    let ghost titled = next@;
                    tabs.push(next);
                    assert(open_tabs(tabs@) == open_tabs(front).push(titled));
                } else {
                    tabs.push(tab);
                    assert(open_tabs(tabs@) == open_tabs(front).push(last));
                    assert(start.drop_last().push(last) == start);
                }
            },
            None => {
                match parse_split(trimmed) {
                    Some(split) => {
                        if node_holds(&tab.root, split.target.as_str()) {
                            let dir = find_dir(dirs, split.config);
                            let root = split_node(
                                tab.root,
                                split.target.as_str(),
                                split.new_var.as_str(),
                                split.right,
                                dir.as_str(),
                            );
                            let next = TabBuilder { root_var: tab.root_var, title: tab.title, root };
                            let ghost divided = next@;
                            tabs.push(next);
                            assert(open_tabs(tabs@) == open_tabs(front).push(divided));
                        } else {
                            tabs.push(tab);
                            assert(open_tabs(tabs@) == open_tabs(front).push(last));
                            assert(start.drop_last().push(last) == start);
                        }
                    },
                    None => {
                        tabs.push(tab);
                        assert(open_tabs(tabs@) == open_tabs(front).push(last));
                        assert(start.drop_last().push(last) == start);
                    },
                }
            },
        }
    } else {
        assert(open_tabs(tabs@) == start);
    }
}

/// Reads the tabs and panes that a saved script restores.
pub fn parse_workspace_layout(script: &str, home: &str) -> (r: Vec<WorkspaceTabLayout>)
    ensures
        layout_views(r@) == script_layout(script@, home@),
{
    let script_chars = chars_of(script);
    let lines = lines_slice(script_chars.as_slice());
    let ghost all = crate::text::views(lines@);
    let dirs = read_config_dirs(&lines);
    let ghost all_dirs = dir_views(dirs@);
    let mut tabs: Vec<TabBuilder> = Vec::new();
    assert(open_tabs(tabs@) == Seq::<OpenTab>::empty());
    for i in 0..lines.len()
        invariant
            all == crate::text::views(lines@),
            all_dirs == dir_views(dirs@),
            open_tabs(tabs@) == after_lines(seq![], all.take(i as int), all_dirs),
    {
        assert(all.take(i as int + 1).drop_last() == all.take(i as int));
        assert(all.take(i as int + 1).last() == lines@[i as int]@);
        read_line(&mut tabs, lines[i], &dirs);
    }
    assert(all.take(all.len() as int) == all);
    let ghost opened = open_tabs(tabs@);
    let ghost closed = opened.map(|i: int, tab: OpenTab| closed_tab(tab, i, home@));
    let mut out: Vec<WorkspaceTabLayout> = Vec::new();
    for i in 0..tabs.len()
        invariant
            opened == open_tabs(tabs@),
            closed == opened.map(|i: int, tab: OpenTab| closed_tab(tab, i, home@)),
            layout_views(out@) == closed.take(i as int),
    {
        let ghost before = out@;
        let tab = &tabs[i];
        assert(opened[i as int] == tab@);
        let dir = node_dir(&tab.root, tab.root_var.as_str());
        let given = match &tab.title {
            Some(title) => !is_empty_str(title.as_str()),
            None => false,
        };
        let title = match clone_option(&tab.title) {
            Some(title) if given => title,
            _ => {
                let dir_text = match &dir {
                    Some(dir) => Some(dir.as_str()),
                    None => None,
                };
                fallback_tab_name(i + 1, dir_text, home)
            },
        };
        let next = WorkspaceTabLayout { title, root: build_layout(&tab.root) };
        out.push(next);
        assert(layout_views(out@) == layout_views(before).push(
            TabLayout { title: next.title@, root: pane_tree(next.root) },
        ));
    }
    assert(closed.take(closed.len() as int) == closed);
    out
}

// What splits do.
/// How many panes a tree has.
pub open spec fn pane_count(tree: HeldTree) -> nat
    decreases tree,
{
    match tree {
        HeldTree::Leaf(_, _) => 1,
        HeldTree::Right(a, b) => pane_count(*a) + pane_count(*b),
        HeldTree::Down(a, b) => pane_count(*a) + pane_count(*b),
    }
}

/// A split adds one pane, which has the directory that it was made with; the pane that was
/// split, and every other, keeps its own.
pub proof fn splits_add_one_pane(
    tree: HeldTree,
    target: Seq<char>,
    new_var: Seq<char>,
    right: bool,
    dir: Seq<char>,
    other: Seq<char>,
)
    requires
        held_once(tree),
        target != new_var,
        !holds(tree, new_var),
    ensures
        ({
            let after = split_pane(tree, target, new_var, right, dir);
            &&& holds(tree, target) ==> pane_count(after) == pane_count(tree) + 1 && held_dir(
                after,
                new_var,
            ) == Some(dir)
            &&& !holds(tree, target) ==> after == tree
            &&& other != new_var ==> held_dir(after, other) == held_dir(tree, other)
        }),
    decreases tree,
{
    lemma_held_dir(tree, target);
    lemma_held_dir(tree, new_var);
    match tree {
        HeldTree::Leaf(_, _) => {
            reveal_with_fuel(held_dir, 2);
            reveal_with_fuel(pane_count, 2);
        },
        HeldTree::Right(a, b) => {
            splits_add_one_pane(*a, target, new_var, right, dir, other);
            splits_add_one_pane(*b, target, new_var, right, dir, other);
            lemma_split_pane_holds(*a, target, new_var, right, dir, new_var);
            lemma_held_dir(split_pane(*a, target, new_var, right, dir), new_var);
            assert(!(holds(*a, target) && holds(*b, target)));
        },
        HeldTree::Down(a, b) => {
            splits_add_one_pane(*a, target, new_var, right, dir, other);
            splits_add_one_pane(*b, target, new_var, right, dir, other);
            lemma_split_pane_holds(*a, target, new_var, right, dir, new_var);
            lemma_held_dir(split_pane(*a, target, new_var, right, dir), new_var);
            assert(!(holds(*a, target) && holds(*b, target)));
        },
    }
}

/// A variable has a directory if it holds a pane.
proof fn lemma_held_dir(tree: HeldTree, var: Seq<char>)
    ensures
        held_dir(tree, var) is Some == holds(tree, var),
    decreases tree,
{
    match tree {
        HeldTree::Leaf(_, _) => {},
        HeldTree::Right(a, b) => {
            lemma_held_dir(*a, var);
            lemma_held_dir(*b, var);
        },
        HeldTree::Down(a, b) => {
            lemma_held_dir(*a, var);
            lemma_held_dir(*b, var);
        },
    }
}

/// A configuration has the directory that was given to it last.
pub proof fn last_directory_counts(dirs: Seq<(int, Seq<char>)>, index: int, i: int)
    requires
        0 <= i < dirs.len(),
        dirs[i].0 == index,
        forall|j: int| i < j < dirs.len() ==> (#[trigger] dirs[j]).0 != index,
    ensures
        dir_of(dirs, index) == Some(dirs[i].1),
        dir_or_empty(dirs, index) == dirs[i].1,
    decreases dirs.len(),
{
    if i < dirs.len() - 1 {
        let front = dirs.drop_last();
        assert(dirs[dirs.len() - 1].0 != index);
        assert forall|j: int| i < j < front.len() implies (#[trigger] front[j]).0 != index by {
            assert(front[j] == dirs[j]);
        }
        assert(front[i] == dirs[i]);
        last_directory_counts(front, index, i);
    }
}

/// A line that names the first pane of a window's selected tab, or of a tab, opens a tab
/// whose first pane is held by the variable that it names.
pub proof fn first_panes_are_read(var: Seq<char>, rest: Seq<char>)
    requires
        !crate::text::has_char(var, ' '),
    ensures
        ({
            let line = "set "@ + var + " to focused terminal of "@;
            &&& root_pane_var(line + "selected tab of win"@ + rest) == Some(crate::text::trim(var))
            &&& root_pane_var(line + "newtab"@ + rest) == Some(crate::text::trim(var))
            &&& root_pane_var(line + "tab"@ + rest) == Some(crate::text::trim(var))
        }),
{
    lemma_first_pane(var, "selected tab of win"@, rest);
    lemma_first_pane(var, "newtab"@, rest);
    lemma_first_pane(var, "tab"@, rest);
}

/// A line that names the first pane of a tab.
proof fn lemma_first_pane(var: Seq<char>, what: Seq<char>, rest: Seq<char>)
    requires
        !crate::text::has_char(var, ' '),
        what == "selected tab of win"@ || what == "newtab"@ || what == "tab"@,
    ensures
        root_pane_var("set "@ + var + " to focused terminal of "@ + what + rest) == Some(
            crate::text::trim(var),
        ),
{
    reveal_strlit("set ");
    reveal_strlit(" to focused terminal of ");
    let m = " to focused terminal of "@;
    let line = "set "@ + var + m + what + rest;
    let after = what + rest;
    let s = var + m + after;
    assert(line.take(4) =~= "set "@);
    assert(line.skip(4) =~= s);
    let at = var.len() as int;
    assert(s.subrange(at, at + m.len()) =~= m);
    assert(crate::text::occurs_at(s, m, at));
    assert(m[0] == ' ');
    assert forall|j: int| 0 <= j < at implies !crate::text::occurs_at(s, m, j) by {
        if crate::text::occurs_at(s, m, j) {
            assert(s.subrange(j, j + m.len())[0] == s[j]);
            assert(var[j] == ' ');
        }
    }
    crate::text::lemma_find_from_is(s, m, 0, at);
    assert(s.take(at) =~= var);
    assert(s.skip(at + m.len()) =~= after);
    assert(after.take(what.len() as int) =~= what);
}

/// The last title that is set on the first pane of a tab counts; a title that is set on
/// anything else does not.
pub proof fn last_tab_title_counts(
    tabs: Seq<OpenTab>,
    line: Seq<char>,
    dirs: Seq<(int, Seq<char>)>,
    title: Seq<char>,
    target: Seq<char>,
)
    requires
        tabs.len() > 0,
        root_pane_var(crate::text::trim(line)) is None,
        crate::applescript::title_action(crate::text::trim(line)) == Some((title, target)),
    ensures
        ({
            let after = after_line(tabs, line, dirs);
            &&& after.len() == tabs.len()
            &&& after.drop_last() == tabs.drop_last()
            &&& after.last().tree == tabs.last().tree && after.last().root_var
                == tabs.last().root_var
            &&& crate::text::trim(target) == tabs.last().root_var ==> after.last().title == Some(
                title,
            )
            &&& crate::text::trim(target) != tabs.last().root_var ==> after == tabs
        }),
{
    let after = after_line(tabs, line, dirs);
    if crate::text::trim(target) == tabs.last().root_var {
        let new = OpenTab { title: Some(title), ..tabs.last() };
        assert(after =~= tabs.drop_last().push(new));
        assert(after.drop_last() =~= tabs.drop_last());
    }
}

/// A tab with a title has it; one without a title and a directory is called by its number,
/// counted from one.
pub proof fn tabs_are_called_by_title_or_number(tab: OpenTab, i: int, home: Seq<char>)
    requires
        i >= 0,
    ensures
        tab.title is Some && tab.title->0.len() > 0 ==> closed_tab(tab, i, home).title
            == tab.title->0,
        (tab.title is None || tab.title->0.len() == 0) && held_dir(tab.tree, tab.root_var) is None
            ==> closed_tab(tab, i, home).title == "Tab "@ + crate::number::decimal((i + 1) as nat),
{
}

} // verus!
