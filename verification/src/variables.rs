//! The variables of restore scripts: a script sets each of them once, and uses none
//! before that.
//!
//! A restore script is a list of commands. Each command sets a variable or none, and
//! uses others.

use vstd::prelude::*;

use crate::restore_script::{CapturedWindow, SplitTree, Surface, TabPlan};
use crate::window::WindowFrame;

verus! {

// Variables and commands.
/// What a variable holds. The first number is the window's index.
pub enum Variable {
    /// The configuration of the window's pane with this number.
    Config(usize, nat),
    /// The window's pane with this number.
    Pane(usize, nat),
    /// The window.
    Window(usize),
    /// A later tab of the window.
    Tab(usize, nat),
}

/// The window that a variable belongs to.
pub open spec fn window_of(v: Variable) -> usize {
    match v {
        Variable::Config(window, _) => window,
        Variable::Pane(window, _) => window,
        Variable::Window(window) => window,
        Variable::Tab(window, _) => window,
    }
}

/// The name of a variable in a script.
pub open spec fn variable_name(multi: bool, v: Variable) -> Seq<char> {
    match v {
        Variable::Config(window, n) => "cfg"@ + crate::restore_script::pane_name(
            crate::restore_script::var_prefix(multi, window),
            n,
        ),
        Variable::Pane(window, n) => "p"@ + crate::restore_script::pane_name(
            crate::restore_script::var_prefix(multi, window),
            n,
        ),
        Variable::Window(window) => crate::restore_script::window_var(multi, window),
        Variable::Tab(window, i) => crate::restore_script::tab_var(
            crate::restore_script::tab_group(multi, window),
            i,
        ),
    }
}

/// A command of a restore script.
pub enum Command {
    /// A blank line.
    Blank,
    /// Makes a configuration.
    NewConfig(Variable),
    /// Gives a configuration its working directory.
    SetDir(Variable, Seq<char>),
    /// Opens a window with a configuration.
    NewWindow(Variable, Variable),
    /// Names the first pane of a window.
    WindowRoot(Variable, Variable),
    /// Opens a tab in a window with a configuration.
    NewTab(Variable, Variable, Variable),
    /// Names the first pane of a tab.
    TabRoot(Variable, Variable),
    /// Splits a pane, to the right or down, into itself and a new one with a
    /// configuration: the new pane, the pane, the direction, the configuration.
    Split(Variable, Variable, bool, Variable),
    /// Sets the title of a pane's tab.
    Title(Variable, Seq<char>),
    /// Moves a pane's window.
    Frame(Variable, WindowFrame),
}

/// A command as it is written.
pub open spec fn command_line(multi: bool, command: Command) -> Seq<char> {
    match command {
        Command::Blank => ""@,
        Command::NewConfig(config) => "    set "@ + variable_name(multi, config)
            + " to new surface configuration"@,
        Command::SetDir(config, dir) => "    set initial working directory of "@ + variable_name(
            multi,
            config,
        ) + " to \""@ + crate::applescript::escaped(dir) + "\""@,
        Command::NewWindow(window, config) => "    set "@ + variable_name(multi, window)
            + " to new window with configuration "@ + variable_name(multi, config),
        Command::WindowRoot(pane, window) => "    set "@ + variable_name(multi, pane)
            + " to focused terminal of selected tab of "@ + variable_name(multi, window),
        Command::NewTab(tab, window, config) => "    set "@ + variable_name(multi, tab)
            + " to new tab in "@ + variable_name(multi, window) + " with configuration "@
            + variable_name(multi, config),
        Command::TabRoot(pane, tab) => "    set "@ + variable_name(multi, pane)
            + " to focused terminal of "@ + variable_name(multi, tab),
        Command::Split(pane, target, right, config) => "    set "@ + variable_name(multi, pane)
            + " to split "@ + variable_name(multi, target) + " direction "@ + (if right {
            "right"@
        } else {
            "down"@
        }) + " with configuration "@ + variable_name(multi, config),
        Command::Title(pane, title) => "    perform action \"set_tab_title:"@
            + crate::applescript::escaped(title) + "\" on "@ + variable_name(multi, pane),
        Command::Frame(pane, frame) => "    perform action \"set_frame:"@
            + crate::number::signed_decimal(frame.x as int) + ","@ + crate::number::signed_decimal(
            frame.y as int,
        ) + ","@ + crate::number::signed_decimal(frame.width as int) + ","@
            + crate::number::signed_decimal(frame.height as int) + "\" on "@ + variable_name(
            multi,
            pane,
        ),
    }
}

/// Commands as they are written.
pub open spec fn command_lines(multi: bool, commands: Seq<Command>) -> Seq<Seq<char>> {
    commands.map_values(|command: Command| command_line(multi, command))
}

/// The variable that a command sets.
pub open spec fn sets(command: Command) -> Option<Variable> {
    match command {
        Command::NewConfig(config) => Some(config),
        Command::NewWindow(window, _) => Some(window),
        Command::WindowRoot(pane, _) => Some(pane),
        Command::NewTab(tab, _, _) => Some(tab),
        Command::TabRoot(pane, _) => Some(pane),
        Command::Split(pane, _, _, _) => Some(pane),
        _ => None,
    }
}

/// A command uses a variable.
pub open spec fn uses(command: Command, v: Variable) -> bool {
    match command {
        Command::Blank => false,
        Command::NewConfig(_) => false,
        Command::SetDir(config, _) => v == config,
        Command::NewWindow(_, config) => v == config,
        Command::WindowRoot(_, window) => v == window,
        Command::NewTab(_, window, config) => v == window || v == config,
        Command::TabRoot(_, tab) => v == tab,
        Command::Split(_, target, _, config) => v == target || v == config,
        Command::Title(pane, _) => v == pane,
        Command::Frame(pane, _) => v == pane,
    }
}

// The commands of a script.
/// The commands that make the configuration of a pane.
pub open spec fn config_commands(window: usize, n: nat, dir: Seq<char>) -> Seq<Command> {
    seq![
        Command::Blank,
        Command::NewConfig(Variable::Config(window, n)),
        Command::SetDir(Variable::Config(window, n), dir),
    ]
}

/// The commands that replay the splits of a (sub)tree whose pane is `target`; its first
/// new pane is the `n`th.
pub open spec fn split_commands(tree: SplitTree, target: Variable, window: usize, n: nat) -> Seq<
    Command,
>
    decreases tree,
{
    let pane = Variable::Pane(window, n);
    let config = Variable::Config(window, n);
    match tree {
        SplitTree::Leaf(_) => seq![],
        SplitTree::Vertical(left, right) => config_commands(
            window,
            n,
            crate::restore_script::anchor(*right).dir,
        ).push(Command::Split(pane, target, true, config)) + split_commands(
            *left,
            target,
            window,
            n + 1,
        ) + split_commands(
            *right,
            pane,
            window,
            n + 1 + crate::restore_script::split_count(*left),
        ),
        SplitTree::Horizontal(top, bottom) => config_commands(
            window,
            n,
            crate::restore_script::anchor(*bottom).dir,
        ).push(Command::Split(pane, target, false, config)) + split_commands(
            *top,
            target,
            window,
            n + 1,
        ) + split_commands(
            *bottom,
            pane,
            window,
            n + 1 + crate::restore_script::split_count(*top),
        ),
    }
}

/// The commands that open the `i`th tab of a window, whose first pane is the `n`th.
pub open spec fn root_commands(window: usize, i: nat, n: nat) -> Seq<Command> {
    let pane = Variable::Pane(window, n);
    let config = Variable::Config(window, n);
    let win = Variable::Window(window);
    if i == 0 {
        seq![Command::NewWindow(win, config), Command::WindowRoot(pane, win)]
    } else {
        let tab = Variable::Tab(window, i);
        seq![Command::NewTab(tab, win, config), Command::TabRoot(pane, tab)]
    }
}

/// The command that sets a tab's title, if it has one.
pub open spec fn title_commands(title: Seq<char>, window: usize, n: nat) -> Seq<Command> {
    if title.len() > 0 {
        seq![Command::Title(Variable::Pane(window, n), title)]
    } else {
        seq![]
    }
}

/// The commands that restore the `i`th tab of a window, whose first pane is the `n`th.
pub open spec fn tab_commands(tab: TabPlan, window: usize, i: nat, n: nat) -> Seq<Command> {
    config_commands(window, n, crate::restore_script::anchor(tab.tree).dir) + root_commands(
        window,
        i,
        n,
    ) + title_commands(tab.title, window, n) + split_commands(
        tab.tree,
        Variable::Pane(window, n),
        window,
        n + 1,
    )
}

/// The commands that restore the first `k` tabs of a window.
pub open spec fn tabs_commands(tabs: Seq<TabPlan>, window: usize, k: int) -> Seq<Command>
    decreases k,
{
    if k <= 0 {
        seq![]
    } else {
        tabs_commands(tabs, window, k - 1) + tab_commands(
            tabs[k - 1],
            window,
            (k - 1) as nat,
            crate::restore_script::first_pane(tabs, k - 1),
        )
    }
}

/// The commands that restore a window's frame.
pub open spec fn frame_commands(windows: Seq<CapturedWindow>, window: usize) -> Seq<Command> {
    match crate::restore_script::frame_of(windows, window) {
        Some(frame) => if windows.len() > 1 {
            seq![Command::Blank, Command::Frame(Variable::Pane(window, 1), frame)]
        } else {
            seq![]
        },
        None => seq![],
    }
}

/// The commands that restore the first `k` windows.
pub open spec fn windows_commands(
    windows: Seq<CapturedWindow>,
    surfaces: Seq<Surface>,
    k: int,
) -> Seq<Command>
    decreases k,
{
    if k <= 0 {
        seq![]
    } else {
        let window = crate::restore_script::windows_of(surfaces)[k - 1];
        let tabs = crate::restore_script::tab_plans(surfaces, window);
        windows_commands(windows, surfaces, k - 1) + (tabs_commands(tabs, window, tabs.len() as int)
            + frame_commands(windows, window))
    }
}

/// The commands of the restore script of a capture.
pub open spec fn restore_commands(windows: Seq<CapturedWindow>, surfaces: Seq<Surface>) -> Seq<
    Command,
> {
    windows_commands(
        windows,
        surfaces,
        crate::restore_script::windows_of(surfaces).len() as int,
    )
}

// Commands as lines.
/// The lines of two runs of commands.
proof fn lemma_lines_append(multi: bool, a: Seq<Command>, b: Seq<Command>)
    ensures
        command_lines(multi, a + b) == command_lines(multi, a) + command_lines(multi, b),
{
    assert(command_lines(multi, a + b) =~= command_lines(multi, a) + command_lines(multi, b));
}

/// The lines that make a configuration.
proof fn lemma_config_commands(multi: bool, window: usize, n: nat, dir: Seq<char>)
    ensures
        command_lines(multi, config_commands(window, n, dir)) == crate::restore_script::config_lines(
            crate::restore_script::pane_name(crate::restore_script::var_prefix(multi, window), n),
            dir,
        ),
{
    reveal_strlit("    set ");
    reveal_strlit("    set cfg");
    reveal_strlit("cfg");
    reveal_strlit("    set initial working directory of ");
    reveal_strlit("    set initial working directory of cfg");
    let name = crate::restore_script::pane_name(
        crate::restore_script::var_prefix(multi, window),
        n,
    );
    let esc = crate::applescript::escaped(dir);
    let c = " to new surface configuration"@;
    assert("    set cfg"@ =~= "    set "@ + "cfg"@);
    assert("    set "@ + "cfg"@ + name + c =~= "    set "@ + ("cfg"@ + name) + c);
    let d = "    set initial working directory of "@;
    assert("    set initial working directory of cfg"@ =~= d + "cfg"@);
    assert(d + "cfg"@ + name + " to \""@ + esc + "\""@ =~= d + ("cfg"@ + name) + " to \""@ + esc
        + "\""@);
    assert(command_lines(multi, config_commands(window, n, dir))
        =~= crate::restore_script::config_lines(name, dir));
}

/// The line that splits a pane.
proof fn lemma_split_command(multi: bool, window: usize, n: nat, target: Variable, right: bool)
    ensures
        command_line(
            multi,
            Command::Split(
                Variable::Pane(window, n),
                target,
                right,
                Variable::Config(window, n),
            ),
        ) == crate::restore_script::split_line(
            crate::restore_script::pane_name(crate::restore_script::var_prefix(multi, window), n),
            variable_name(multi, target),
            right,
        ),
{
    reveal_strlit("    set ");
    reveal_strlit("    set p");
    reveal_strlit("p");
    reveal_strlit("cfg");
    reveal_strlit(" with configuration ");
    reveal_strlit(" with configuration cfg");
    let name = crate::restore_script::pane_name(
        crate::restore_script::var_prefix(multi, window),
        n,
    );
    let var = variable_name(multi, target);
    let way = if right {
        "right"@
    } else {
        "down"@
    };
    let s = " to split "@;
    let d = " direction "@;
    let w = " with configuration "@;
    assert("    set p"@ =~= "    set "@ + "p"@);
    assert(" with configuration cfg"@ =~= w + "cfg"@);
    assert("    set "@ + "p"@ + name + s + var + d + way + (w + "cfg"@) + name =~= "    set "@ + (
    "p"@ + name) + s + var + d + way + w + ("cfg"@ + name));
}

/// The lines that replay splits.
proof fn lemma_split_commands(
    multi: bool,
    tree: SplitTree,
    target: Variable,
    window: usize,
    n: nat,
)
    ensures
        command_lines(multi, split_commands(tree, target, window, n))
            == crate::restore_script::split_lines(
            tree,
            variable_name(multi, target),
            crate::restore_script::var_prefix(multi, window),
            n,
        ),
    decreases tree,
{
    let pane = Variable::Pane(window, n);
    match tree {
        SplitTree::Leaf(_) => {
            assert(command_lines(multi, seq![]) =~= seq![]);
        },
        SplitTree::Vertical(a, b) => {
            lemma_two_halves(multi, *a, *b, target, window, n, true);
            lemma_split_commands(multi, *a, target, window, n + 1);
            lemma_split_commands(
                multi,
                *b,
                pane,
                window,
                n + 1 + crate::restore_script::split_count(*a),
            );
        },
        SplitTree::Horizontal(a, b) => {
            lemma_two_halves(multi, *a, *b, target, window, n, false);
            lemma_split_commands(multi, *a, target, window, n + 1);
            lemma_split_commands(
                multi,
                *b,
                pane,
                window,
                n + 1 + crate::restore_script::split_count(*a),
            );
        },
    }
}

/// The lines of a split and of its two halves.
proof fn lemma_two_halves(
    multi: bool,
    a: SplitTree,
    b: SplitTree,
    target: Variable,
    window: usize,
    n: nat,
    right: bool,
)
    ensures
        ({
            let name = crate::restore_script::pane_name(
                crate::restore_script::var_prefix(multi, window),
                n,
            );
            let dir = crate::restore_script::anchor(b).dir;
            let split = Command::Split(
                Variable::Pane(window, n),
                target,
                right,
                Variable::Config(window, n),
            );
            let first = split_commands(a, target, window, n + 1);
            let second = split_commands(
                b,
                Variable::Pane(window, n),
                window,
                n + 1 + crate::restore_script::split_count(a),
            );
            command_lines(multi, config_commands(window, n, dir).push(split) + first + second)
                == crate::restore_script::config_lines(name, dir).push(
                crate::restore_script::split_line(name, variable_name(multi, target), right),
            ) + command_lines(multi, first) + command_lines(multi, second)
        }),
{
    let dir = crate::restore_script::anchor(b).dir;
    let split = Command::Split(
        Variable::Pane(window, n),
        target,
        right,
        Variable::Config(window, n),
    );
    let head = config_commands(window, n, dir);
    let first = split_commands(a, target, window, n + 1);
    let second = split_commands(
        b,
        Variable::Pane(window, n),
        window,
        n + 1 + crate::restore_script::split_count(a),
    );
    lemma_config_commands(multi, window, n, dir);
    lemma_split_command(multi, window, n, target, right);
    assert(command_lines(multi, head.push(split)) =~= command_lines(multi, head).push(
        command_line(multi, split),
    ));
    lemma_lines_append(multi, head.push(split), first);
    lemma_lines_append(multi, head.push(split) + first, second);
}

/// The lines that open a tab.
proof fn lemma_root_commands(multi: bool, window: usize, i: nat, n: nat)
    ensures
        command_lines(multi, root_commands(window, i, n)) == crate::restore_script::root_lines(
            multi,
            window,
            i,
            n,
        ),
{
    reveal_strlit("    set ");
    reveal_strlit("    set p");
    reveal_strlit("p");
    reveal_strlit("cfg");
    reveal_strlit(" with configuration ");
    reveal_strlit(" with configuration cfg");
    reveal_strlit(" to new window with configuration ");
    reveal_strlit(" to new window with configuration cfg");
    let name = crate::restore_script::pane_name(
        crate::restore_script::var_prefix(multi, window),
        n,
    );
    let win = crate::restore_script::window_var(multi, window);
    let s = "    set "@;
    assert("    set p"@ =~= s + "p"@);
    if i == 0 {
        let o = " to new window with configuration "@;
        let f = " to focused terminal of selected tab of "@;
        assert(" to new window with configuration cfg"@ =~= o + "cfg"@);
        assert(s + win + (o + "cfg"@) + name =~= s + win + o + ("cfg"@ + name));
        assert(s + "p"@ + name + f + win =~= s + ("p"@ + name) + f + win);
    } else {
        let tab = crate::restore_script::tab_var(
            crate::restore_script::tab_group(multi, window),
            i,
        );
        let o = " to new tab in "@;
        let w = " with configuration "@;
        let f = " to focused terminal of "@;
        assert(" with configuration cfg"@ =~= w + "cfg"@);
        assert(s + tab + o + win + (w + "cfg"@) + name =~= s + tab + o + win + w + ("cfg"@ + name));
        assert(s + "p"@ + name + f + tab =~= s + ("p"@ + name) + f + tab);
    }
    assert(command_lines(multi, root_commands(window, i, n)) =~= crate::restore_script::root_lines(
        multi,
        window,
        i,
        n,
    ));
}

/// The line that sets a title.
proof fn lemma_title_command(multi: bool, window: usize, n: nat, title: Seq<char>)
    ensures
        command_lines(multi, title_commands(title, window, n)) == if title.len() > 0 {
            seq![
                crate::restore_script::title_line(
                    crate::restore_script::pane_name(
                        crate::restore_script::var_prefix(multi, window),
                        n,
                    ),
                    title,
                ),
            ]
        } else {
            seq![]
        },
{
    reveal_strlit("\" on ");
    reveal_strlit("\" on p");
    reveal_strlit("p");
    let name = crate::restore_script::pane_name(
        crate::restore_script::var_prefix(multi, window),
        n,
    );
    let t = "    perform action \"set_tab_title:"@;
    let esc = crate::applescript::escaped(title);
    let o = "\" on "@;
    assert("\" on p"@ =~= o + "p"@);
    assert(t + esc + (o + "p"@) + name =~= t + esc + o + ("p"@ + name));
    let lines = command_lines(multi, title_commands(title, window, n));
    if title.len() > 0 {
        assert(lines =~= seq![crate::restore_script::title_line(name, title)]);
    } else {
        assert(lines =~= seq![]);
    }
}

/// The lines that restore a frame.
proof fn lemma_frame_commands(windows: Seq<CapturedWindow>, window: usize)
    ensures
        command_lines(windows.len() > 1, frame_commands(windows, window))
            == crate::restore_script::frame_lines(windows, windows.len() > 1, window),
{
    let lines = command_lines(windows.len() > 1, frame_commands(windows, window));
    let wanted = crate::restore_script::frame_lines(windows, windows.len() > 1, window);
    match crate::restore_script::frame_of(windows, window) {
        Some(frame) if windows.len() > 1 => {
            reveal_strlit("\" on ");
            reveal_strlit("\" on p");
            reveal_strlit("p");
            reveal_strlit("1");
            let prefix = crate::restore_script::var_prefix(true, window);
            let x = "    perform action \"set_frame:"@ + crate::number::signed_decimal(
                frame.x as int,
            ) + ","@ + crate::number::signed_decimal(frame.y as int) + ","@
                + crate::number::signed_decimal(frame.width as int) + ","@
                + crate::number::signed_decimal(frame.height as int);
            let o = "\" on "@;
            let d = crate::number::decimal(1);
            assert(d =~= "1"@);
            assert("\" on p"@ =~= o + "p"@);
            assert(x + (o + "p"@) + prefix + d =~= x + o + ("p"@ + (prefix + d)));
            assert(lines =~= wanted);
        },
        _ => {
            assert(lines =~= wanted);
        },
    }
}

/// The lines that restore tabs.
proof fn lemma_tabs_commands(multi: bool, tabs: Seq<TabPlan>, window: usize, k: int)
    ensures
        command_lines(multi, tabs_commands(tabs, window, k)) == crate::restore_script::tabs_lines(
            tabs,
            multi,
            window,
            k,
        ),
    decreases k,
{
    if k <= 0 {
        assert(command_lines(multi, seq![]) =~= seq![]);
    } else {
        let tab = tabs[k - 1];
        let i = (k - 1) as nat;
        let n = crate::restore_script::first_pane(tabs, k - 1);
        let dir = crate::restore_script::anchor(tab.tree).dir;
        let pane = Variable::Pane(window, n);
        lemma_tabs_commands(multi, tabs, window, k - 1);
        lemma_config_commands(multi, window, n, dir);
        lemma_root_commands(multi, window, i, n);
        lemma_title_command(multi, window, n, tab.title);
        lemma_split_commands(multi, tab.tree, pane, window, n + 1);
        let a = config_commands(window, n, dir);
        let b = root_commands(window, i, n);
        let c = title_commands(tab.title, window, n);
        let d = split_commands(tab.tree, pane, window, n + 1);
        lemma_lines_append(multi, a, b);
        lemma_lines_append(multi, a + b, c);
        lemma_lines_append(multi, a + b + c, d);
        lemma_lines_append(
            multi,
            tabs_commands(tabs, window, k - 1),
            tab_commands(tab, window, i, n),
        );
    }
}

/// The lines that restore windows.
proof fn lemma_windows_commands(windows: Seq<CapturedWindow>, surfaces: Seq<Surface>, k: int)
    ensures
        command_lines(windows.len() > 1, windows_commands(windows, surfaces, k))
            == crate::restore_script::windows_lines(windows, surfaces, k),
    decreases k,
{
    let multi = windows.len() > 1;
    if k <= 0 {
        assert(command_lines(multi, seq![]) =~= seq![]);
    } else {
        let window = crate::restore_script::windows_of(surfaces)[k - 1];
        let tabs = crate::restore_script::tab_plans(surfaces, window);
        lemma_windows_commands(windows, surfaces, k - 1);
        lemma_tabs_commands(multi, tabs, window, tabs.len() as int);
        lemma_frame_commands(windows, window);
        let a = tabs_commands(tabs, window, tabs.len() as int);
        let b = frame_commands(windows, window);
        lemma_lines_append(multi, a, b);
        lemma_lines_append(multi, windows_commands(windows, surfaces, k - 1), a + b);
    }
}

// What is set, and when.
/// A command that uses only known variables, and sets none of them.
spec fn fits(known: Set<Variable>, command: Command) -> bool {
    &&& forall|v: Variable| #[trigger] uses(command, v) ==> known.contains(v)
    &&& match sets(command) {
        Some(v) => !known.contains(v),
        None => true,
    }
}

/// The variables that are known after a command.
spec fn learned(known: Set<Variable>, command: Command) -> Set<Variable> {
    match sets(command) {
        Some(v) => known.insert(v),
        None => known,
    }
}

/// The variables that are known after commands.
spec fn known_after(known: Set<Variable>, commands: Seq<Command>) -> Set<Variable>
    decreases commands.len(),
{
    if commands.len() == 0 {
        known
    } else {
        learned(known_after(known, commands.drop_last()), commands.last())
    }
}

/// Commands of which each fits behind those in front of it.
spec fn tidy(known: Set<Variable>, commands: Seq<Command>) -> bool
    decreases commands.len(),
{
    commands.len() > 0 ==> tidy(known, commands.drop_last()) && fits(
        known_after(known, commands.drop_last()),
        commands.last(),
    )
}

/// One more command.
proof fn lemma_tidy_push(known: Set<Variable>, commands: Seq<Command>, command: Command)
    requires
        tidy(known, commands),
        fits(known_after(known, commands), command),
    ensures
        tidy(known, commands.push(command)),
        known_after(known, commands.push(command)) == learned(
            known_after(known, commands),
            command,
        ),
{
    assert(commands.push(command).drop_last() =~= commands);
}

/// Two runs of commands.
proof fn lemma_tidy_append(known: Set<Variable>, a: Seq<Command>, b: Seq<Command>)
    requires
        tidy(known, a),
        tidy(known_after(known, a), b),
    ensures
        tidy(known, a + b),
        known_after(known, a + b) == known_after(known_after(known, a), b),
    decreases b.len(),
{
    if b.len() == 0 {
        assert(a + b =~= a);
    } else {
        lemma_tidy_append(known, a, b.drop_last());
        assert((a + b).drop_last() =~= a + b.drop_last());
        assert((a + b).last() == b.last());
    }
}

/// A configuration or a pane of a window, with a number from `low` up to `high`.
spec fn numbered(v: Variable, window: usize, low: nat, high: nat) -> bool {
    match v {
        Variable::Config(w, n) => w == window && low <= n < high,
        Variable::Pane(w, n) => w == window && low <= n < high,
        _ => false,
    }
}

/// No configuration or pane of a window has a number from `low` on.
spec fn unused_from(known: Set<Variable>, window: usize, low: nat) -> bool {
    forall|v: Variable| #[trigger]
        known.contains(v) ==> match v {
            Variable::Config(w, n) => w != window || n < low,
            Variable::Pane(w, n) => w != window || n < low,
            _ => true,
        }
}

/// The commands that make a configuration fit.
proof fn lemma_config_tidy(known: Set<Variable>, window: usize, n: nat, dir: Seq<char>)
    requires
        !known.contains(Variable::Config(window, n)),
    ensures
        tidy(known, config_commands(window, n, dir)),
        known_after(known, config_commands(window, n, dir)) == known.insert(
            Variable::Config(window, n),
        ),
{
    let none = Seq::<Command>::empty();
    let c = Variable::Config(window, n);
    let a = none.push(Command::Blank);
    let b = a.push(Command::NewConfig(c));
    assert(tidy(known, none));
    lemma_tidy_push(known, none, Command::Blank);
    lemma_tidy_push(known, a, Command::NewConfig(c));
    lemma_tidy_push(known, b, Command::SetDir(c, dir));
    assert(config_commands(window, n, dir) =~= b.push(Command::SetDir(c, dir)));
}

/// The commands that replay splits fit, and set the panes that they number.
proof fn lemma_splits_tidy(
    known: Set<Variable>,
    tree: SplitTree,
    target: Variable,
    window: usize,
    n: nat,
)
    requires
        known.contains(target),
        unused_from(known, window, n),
    ensures
        ({
            let commands = split_commands(tree, target, window, n);
            let after = known_after(known, commands);
            let end = n + crate::restore_script::split_count(tree);
            &&& tidy(known, commands)
            &&& forall|v: Variable| #[trigger]
                after.contains(v) <==> known.contains(v) || numbered(v, window, n, end)
        }),
    decreases crate::restore_script::split_count(tree), 1nat,
{
    match tree {
        SplitTree::Leaf(_) => {},
        SplitTree::Vertical(a, b) => {
            lemma_halves_tidy(known, *a, *b, target, window, n, true);
        },
        SplitTree::Horizontal(a, b) => {
            lemma_halves_tidy(known, *a, *b, target, window, n, false);
        },
    }
}

/// The commands of a split and of its two halves fit.
proof fn lemma_halves_tidy(
    known: Set<Variable>,
    a: SplitTree,
    b: SplitTree,
    target: Variable,
    window: usize,
    n: nat,
    right: bool,
)
    requires
        known.contains(target),
        unused_from(known, window, n),
    ensures
        ({
            let pane = Variable::Pane(window, n);
            let split = Command::Split(pane, target, right, Variable::Config(window, n));
            let dir = crate::restore_script::anchor(b).dir;
            let m = n + 1 + crate::restore_script::split_count(a);
            let commands = config_commands(window, n, dir).push(split) + split_commands(
                a,
                target,
                window,
                n + 1,
            ) + split_commands(b, pane, window, m);
            let after = known_after(known, commands);
            let end = m + crate::restore_script::split_count(b);
            &&& tidy(known, commands)
            &&& forall|v: Variable| #[trigger]
                after.contains(v) <==> known.contains(v) || numbered(v, window, n, end)
        }),
    decreases
            crate::restore_script::split_count(a) + crate::restore_script::split_count(b) + 1,
            0nat,
{
    let pane = Variable::Pane(window, n);
    let config = Variable::Config(window, n);
    let split = Command::Split(pane, target, right, config);
    let dir = crate::restore_script::anchor(b).dir;
    let m = n + 1 + crate::restore_script::split_count(a);
    let head = config_commands(window, n, dir);
    let first = split_commands(a, target, window, n + 1);
    let second = split_commands(b, pane, window, m);
    lemma_config_tidy(known, window, n, dir);
    let one = known.insert(config);
    assert(!one.contains(pane));
    lemma_tidy_push(known, head, split);
    let two = one.insert(pane);
    assert(known_after(known, head.push(split)) == two);
    assert(unused_from(two, window, n + 1));
    lemma_splits_tidy(two, a, target, window, n + 1);
    let three = known_after(two, first);
    assert(unused_from(three, window, m));
    assert(three.contains(pane));
    lemma_splits_tidy(three, b, pane, window, m);
    lemma_tidy_append(known, head.push(split), first);
    lemma_tidy_append(known, head.push(split) + first, second);
}

/// The variables that a tab adds: its numbered ones, and the window or the tab itself.
spec fn of_tab(v: Variable, window: usize, i: nat, low: nat, high: nat) -> bool {
    ||| numbered(v, window, low, high)
    ||| i == 0 && v == Variable::Window(window)
    ||| i > 0 && v == Variable::Tab(window, i)
}

/// The commands that open a tab fit.
proof fn lemma_root_tidy(known: Set<Variable>, window: usize, i: nat, n: nat)
    requires
        known.contains(Variable::Config(window, n)),
        !known.contains(Variable::Pane(window, n)),
        i == 0 ==> !known.contains(Variable::Window(window)),
        i > 0 ==> known.contains(Variable::Window(window)) && !known.contains(
            Variable::Tab(window, i),
        ),
    ensures
        tidy(known, root_commands(window, i, n)),
        known_after(known, root_commands(window, i, n)) == known.insert(
            if i == 0 {
                Variable::Window(window)
            } else {
                Variable::Tab(window, i)
            },
        ).insert(Variable::Pane(window, n)),
{
    let none = Seq::<Command>::empty();
    let pane = Variable::Pane(window, n);
    let config = Variable::Config(window, n);
    let win = Variable::Window(window);
    let tab = Variable::Tab(window, i);
    let (a, b) = if i == 0 {
        (Command::NewWindow(win, config), Command::WindowRoot(pane, win))
    } else {
        (Command::NewTab(tab, win, config), Command::TabRoot(pane, tab))
    };
    assert(tidy(known, none));
    lemma_tidy_push(known, none, a);
    lemma_tidy_push(known, none.push(a), b);
    assert(root_commands(window, i, n) =~= none.push(a).push(b));
}

/// The commands that restore a tab fit.
proof fn lemma_tab_tidy(known: Set<Variable>, tab: TabPlan, window: usize, i: nat, n: nat)
    requires
        unused_from(known, window, n),
        i == 0 ==> !known.contains(Variable::Window(window)),
        i > 0 ==> known.contains(Variable::Window(window)) && !known.contains(
            Variable::Tab(window, i),
        ),
    ensures
        ({
            let commands = tab_commands(tab, window, i, n);
            let after = known_after(known, commands);
            let end = n + 1 + crate::restore_script::split_count(tab.tree);
            &&& tidy(known, commands)
            &&& forall|v: Variable| #[trigger]
                after.contains(v) <==> known.contains(v) || of_tab(v, window, i, n, end)
        }),
{
    let dir = crate::restore_script::anchor(tab.tree).dir;
    let pane = Variable::Pane(window, n);
    let config = Variable::Config(window, n);
    let a = config_commands(window, n, dir);
    let b = root_commands(window, i, n);
    let c = title_commands(tab.title, window, n);
    let d = split_commands(tab.tree, pane, window, n + 1);
    assert(!known.contains(config));
    assert(!known.contains(pane));
    lemma_config_tidy(known, window, n, dir);
    let one = known.insert(config);
    lemma_root_tidy(one, window, i, n);
    let two = known_after(one, b);
    lemma_tidy_append(known, a, b);
    assert(two.contains(pane));
    assert(tidy(two, c) && known_after(two, c) == two) by {
        if tab.title.len() > 0 {
            let none = Seq::<Command>::empty();
            assert(tidy(two, none));
            lemma_tidy_push(two, none, Command::Title(pane, tab.title));
            assert(c =~= none.push(Command::Title(pane, tab.title)));
        }
    }
    lemma_tidy_append(known, a + b, c);
    assert(unused_from(two, window, n + 1));
    lemma_splits_tidy(two, tab.tree, pane, window, n + 1);
    lemma_tidy_append(known, a + b + c, d);
}

/// The variables that the first `k` tabs of a window add.
spec fn of_tabs(v: Variable, window: usize, k: int, high: nat) -> bool {
    ||| numbered(v, window, 1, high)
    ||| k > 0 && v == Variable::Window(window)
    ||| match v {
        Variable::Tab(w, i) => w == window && 1 <= i < k,
        _ => false,
    }
}

/// The commands that restore tabs fit, where nothing is known of their window.
proof fn lemma_tabs_tidy(known: Set<Variable>, tabs: Seq<TabPlan>, window: usize, k: int)
    requires
        forall|v: Variable| #[trigger] known.contains(v) ==> window_of(v) != window,
        0 <= k <= tabs.len(),
    ensures
        ({
            let commands = tabs_commands(tabs, window, k);
            let after = known_after(known, commands);
            let end = crate::restore_script::first_pane(tabs, k);
            &&& tidy(known, commands)
            &&& end >= 1 + k
            &&& forall|v: Variable| #[trigger]
                after.contains(v) <==> known.contains(v) || of_tabs(v, window, k, end)
        }),
    decreases k,
{
    if k > 0 {
        lemma_tabs_tidy(known, tabs, window, k - 1);
        let before = tabs_commands(tabs, window, k - 1);
        let had = known_after(known, before);
        let n = crate::restore_script::first_pane(tabs, k - 1);
        let i = (k - 1) as nat;
        assert(unused_from(had, window, n));
        assert(i == 0 ==> !had.contains(Variable::Window(window)));
        assert(i > 0 ==> had.contains(Variable::Window(window)));
        assert(!had.contains(Variable::Tab(window, i)));
        lemma_tab_tidy(had, tabs[k - 1], window, i, n);
        lemma_tidy_append(known, before, tab_commands(tabs[k - 1], window, i, n));
    }
}

/// The commands that restore the first `k` windows fit, and set variables of these alone.
proof fn lemma_windows_tidy(windows: Seq<CapturedWindow>, surfaces: Seq<Surface>, k: int)
    requires
        0 <= k <= crate::restore_script::windows_of(surfaces).len(),
    ensures
        ({
            let commands = windows_commands(windows, surfaces, k);
            let after = known_after(Set::empty(), commands);
            &&& tidy(Set::empty(), commands)
            &&& forall|v: Variable| #[trigger]
                after.contains(v) ==> crate::restore_script::windows_of(surfaces).take(k).contains(
                    window_of(v),
                )
        }),
    decreases k,
{
    let start = Set::<Variable>::empty();
    let indexes = crate::restore_script::windows_of(surfaces);
    if k > 0 {
        let window = indexes[k - 1];
        let tabs = crate::restore_script::tab_plans(surfaces, window);
        let before = windows_commands(windows, surfaces, k - 1);
        let had = known_after(start, before);
        let a = tabs_commands(tabs, window, tabs.len() as int);
        let b = frame_commands(windows, window);
        lemma_windows_tidy(windows, surfaces, k - 1);
        crate::restore_script::windows_in_order(surfaces);
        assert forall|v: Variable| #[trigger] had.contains(v) implies window_of(v) != window by {
            let front = indexes.take(k - 1);
            assert(front.contains(window_of(v)));
            let i = choose|i: int| 0 <= i < front.len() && front[i] == window_of(v);
            assert(indexes[i] < indexes[k - 1]);
        }
        lemma_tabs_tidy(had, tabs, window, tabs.len() as int);
        let now = known_after(had, a);
        lemma_window_has_tab(surfaces, k - 1);
        assert(now.contains(Variable::Pane(window, 1)));
        assert(tidy(now, b) && known_after(now, b) == now) by {
            lemma_frame_tidy(now, windows, window);
        }
        lemma_tidy_append(had, a, b);
        lemma_tidy_append(start, before, a + b);
        let all = indexes.take(k);
        assert forall|v: Variable| #[trigger] now.contains(v) implies all.contains(
            window_of(v),
        ) by {
            if had.contains(v) {
                let front = indexes.take(k - 1);
                assert(front.contains(window_of(v)));
                let i = choose|i: int| 0 <= i < front.len() && front[i] == window_of(v);
                assert(all[i] == window_of(v));
            } else {
                assert(all[k - 1] == window_of(v));
            }
        }
    }
}

/// A window of a capture has a tab.
proof fn lemma_window_has_tab(surfaces: Seq<Surface>, k: int)
    requires
        0 <= k < crate::restore_script::windows_of(surfaces).len(),
    ensures
        crate::restore_script::tab_plans(
            surfaces,
            crate::restore_script::windows_of(surfaces)[k],
        ).len() > 0,
{
    let window = crate::restore_script::windows_of(surfaces)[k];
    crate::restore_script::windows_in_order(surfaces);
    assert(crate::restore_script::windows_of(surfaces).contains(window));
    let i = choose|i: int|
        0 <= i < surfaces.len() && (#[trigger] surfaces[i]).window_index == window;
    lemma_pane_of_surface(surfaces, i);
    crate::restore_script::tabs_in_order(surfaces, window);
    assert(crate::restore_script::tabs_of(surfaces, window).contains(surfaces[i].tab_index));
}

/// A surface is a pane of its tab.
proof fn lemma_pane_of_surface(surfaces: Seq<Surface>, i: int)
    requires
        0 <= i < surfaces.len(),
    ensures
        crate::restore_script::panes_of(
            surfaces,
            surfaces[i].window_index,
            surfaces[i].tab_index,
        ).len() > 0,
    decreases surfaces.len(),
{
    let rest = surfaces.drop_last();
    if i < rest.len() {
        assert(rest[i] == surfaces[i]);
        lemma_pane_of_surface(rest, i);
    }
}

/// The commands that restore a frame fit.
proof fn lemma_frame_tidy(known: Set<Variable>, windows: Seq<CapturedWindow>, window: usize)
    requires
        known.contains(Variable::Pane(window, 1)),
    ensures
        tidy(known, frame_commands(windows, window)),
        known_after(known, frame_commands(windows, window)) == known,
{
    let none = Seq::<Command>::empty();
    assert(tidy(known, none));
    match crate::restore_script::frame_of(windows, window) {
        Some(frame) if windows.len() > 1 => {
            let move_it = Command::Frame(Variable::Pane(window, 1), frame);
            lemma_tidy_push(known, none, Command::Blank);
            lemma_tidy_push(known, none.push(Command::Blank), move_it);
            assert(frame_commands(windows, window) =~= none.push(Command::Blank).push(move_it));
        },
        _ => {
            assert(frame_commands(windows, window) =~= none);
        },
    }
}

/// Commands that fit set each variable once, and before its use.
proof fn lemma_tidy_facts(commands: Seq<Command>)
    requires
        tidy(Set::empty(), commands),
    ensures
        forall|v: Variable|
            (#[trigger] known_after(Set::empty(), commands).contains(v)) ==> exists|i: int|
                0 <= i < commands.len() && sets(#[trigger] commands[i]) == Some(v),
        forall|i: int|
            0 <= i < commands.len() ==> match sets(#[trigger] commands[i]) {
                Some(v) => known_after(Set::empty(), commands).contains(v),
                None => true,
            },
        forall|i: int, j: int|
            0 <= i < j < commands.len() && sets(#[trigger] commands[i]) is Some ==> sets(
                #[trigger] commands[j],
            ) != sets(commands[i]),
        forall|j: int, v: Variable|
            0 <= j < commands.len() && #[trigger] uses(commands[j], v) ==> exists|i: int|
                0 <= i < j && sets(#[trigger] commands[i]) == Some(v),
    decreases commands.len(),
{
    let start = Set::<Variable>::empty();
    if commands.len() > 0 {
        let rest = commands.drop_last();
        let last = commands.last();
        let n = rest.len() as int;
        lemma_tidy_facts(rest);
        let had = known_after(start, rest);
        let now = known_after(start, commands);
        assert forall|v: Variable| #[trigger] had.contains(v) implies exists|i: int|
            0 <= i < n && sets(#[trigger] commands[i]) == Some(v) by {
            let i = choose|i: int| 0 <= i < rest.len() && sets(#[trigger] rest[i]) == Some(v);
            assert(commands[i] == rest[i]);
        }
        assert forall|v: Variable| #[trigger] now.contains(v) implies exists|i: int|
            0 <= i < commands.len() && sets(#[trigger] commands[i]) == Some(v) by {
            if !had.contains(v) {
                assert(sets(commands[n]) == Some(v));
            }
        }
        assert forall|i: int| 0 <= i < commands.len() implies match sets(#[trigger] commands[i]) {
            Some(v) => now.contains(v),
            None => true,
        } by {
            if i < n {
                assert(commands[i] == rest[i]);
            }
        }
        assert forall|i: int, j: int|
            0 <= i < j < commands.len() && sets(#[trigger] commands[i]) is Some implies sets(
            #[trigger] commands[j],
        ) != sets(commands[i]) by {
            assert(commands[i] == rest[i]);
            if j < n {
                assert(commands[j] == rest[j]);
            }
        }
        assert forall|j: int, v: Variable|
            0 <= j < commands.len() && #[trigger] uses(commands[j], v) implies exists|i: int|
            0 <= i < j && sets(#[trigger] commands[i]) == Some(v) by {
            if j < n {
                assert(commands[j] == rest[j]);
                assert(uses(rest[j], v));
                let i = choose|i: int| 0 <= i < j && sets(#[trigger] rest[i]) == Some(v);
                assert(commands[i] == rest[i]);
            } else {
                assert(had.contains(v));
            }
        }
    }
}

// Names.
/// Numbers with one decimal text are one.
proof fn lemma_decimals_differ(a: nat, b: nat)
    requires
        crate::number::decimal(a) == crate::number::decimal(b),
    ensures
        a == b,
{
    crate::number::decimal_reads_back(a);
    crate::number::decimal_reads_back(b);
}

/// Pairs of numbers with one text are one.
proof fn lemma_pairs_differ(a: nat, b: nat, c: nat, d: nat)
    requires
        crate::number::decimal(a) + "_"@ + crate::number::decimal(b) == crate::number::decimal(c)
            + "_"@ + crate::number::decimal(d),
    ensures
        a == c && b == d,
{
    reveal_strlit("_");
    let x = crate::number::decimal(a);
    let y = crate::number::decimal(c);
    let s = x + "_"@ + crate::number::decimal(b);
    let t = y + "_"@ + crate::number::decimal(d);
    crate::number::decimal_reads_back(a);
    crate::number::decimal_reads_back(c);
    if x.len() < y.len() {
        assert(s[x.len() as int] == '_');
        assert(crate::number::is_digit(y[x.len() as int]));
        assert(t[x.len() as int] == y[x.len() as int]);
    }
    if y.len() < x.len() {
        assert(t[y.len() as int] == '_');
        assert(crate::number::is_digit(x[y.len() as int]));
        assert(s[y.len() as int] == x[y.len() as int]);
    }
    assert(s.take(x.len() as int) =~= x);
    assert(t.take(y.len() as int) =~= y);
    lemma_decimals_differ(a, c);
    assert(s.skip(x.len() as int + 1) =~= crate::number::decimal(b));
    assert(t.skip(y.len() as int + 1) =~= crate::number::decimal(d));
    lemma_decimals_differ(b, d);
}

/// Names of panes that are the same name the same pane.
proof fn lemma_pane_names_differ(multi: bool, w: usize, m: nat, x: usize, n: nat)
    requires
        multi || w == x,
        crate::restore_script::pane_name(crate::restore_script::var_prefix(multi, w), m)
            == crate::restore_script::pane_name(crate::restore_script::var_prefix(multi, x), n),
    ensures
        w == x && m == n,
{
    if multi {
        lemma_pairs_differ(w as nat, m, x as nat, n);
    } else {
        reveal_strlit("");
        assert(""@ + crate::number::decimal(m) =~= crate::number::decimal(m));
        assert(""@ + crate::number::decimal(n) =~= crate::number::decimal(n));
        lemma_decimals_differ(m, n);
    }
}

/// What follows a common start is common.
proof fn lemma_same_rest(p: Seq<char>, a: Seq<char>, b: Seq<char>)
    requires
        p + a == p + b,
    ensures
        a == b,
{
    assert((p + a).skip(p.len() as int) =~= a);
    assert((p + b).skip(p.len() as int) =~= b);
}

/// Different variables of a script of several windows, or of one window, have different
/// names.
pub proof fn names_differ(multi: bool, a: Variable, b: Variable)
    requires
        a != b,
        multi || window_of(a) == window_of(b),
    ensures
        variable_name(multi, a) != variable_name(multi, b),
{
    reveal_strlit("cfg");
    reveal_strlit("p");
    reveal_strlit("win");
    reveal_strlit("newtab");
    let s = variable_name(multi, a);
    let t = variable_name(multi, b);
    if s == t {
        assert(s[0] == match a {
            Variable::Config(_, _) => 'c',
            Variable::Pane(_, _) => 'p',
            Variable::Window(_) => 'w',
            Variable::Tab(_, _) => 'n',
        });
        assert(t[0] == match b {
            Variable::Config(_, _) => 'c',
            Variable::Pane(_, _) => 'p',
            Variable::Window(_) => 'w',
            Variable::Tab(_, _) => 'n',
        });
        match (a, b) {
            (Variable::Config(w, m), Variable::Config(x, n)) => {
                lemma_same_rest(
                    "cfg"@,
                    crate::restore_script::pane_name(
                        crate::restore_script::var_prefix(multi, w),
                        m,
                    ),
                    crate::restore_script::pane_name(
                        crate::restore_script::var_prefix(multi, x),
                        n,
                    ),
                );
                lemma_pane_names_differ(multi, w, m, x, n);
            },
            (Variable::Pane(w, m), Variable::Pane(x, n)) => {
                lemma_same_rest(
                    "p"@,
                    crate::restore_script::pane_name(
                        crate::restore_script::var_prefix(multi, w),
                        m,
                    ),
                    crate::restore_script::pane_name(
                        crate::restore_script::var_prefix(multi, x),
                        n,
                    ),
                );
                lemma_pane_names_differ(multi, w, m, x, n);
            },
            (Variable::Window(w), Variable::Window(x)) => {
                if multi {
                    lemma_same_rest(
                        "win"@,
                        crate::number::decimal(w as nat),
                        crate::number::decimal(x as nat),
                    );
                    lemma_decimals_differ(w as nat, x as nat);
                }
            },
            (Variable::Tab(w, i), Variable::Tab(x, j)) => {
                let g = crate::restore_script::tab_group(multi, w);
                let h = crate::restore_script::tab_group(multi, x);
                let dg = crate::number::decimal(g);
                let dh = crate::number::decimal(h);
                let di = crate::number::decimal(i);
                let dj = crate::number::decimal(j);
                assert("newtab"@ + dg + "_"@ + di =~= "newtab"@ + (dg + "_"@ + di));
                assert("newtab"@ + dh + "_"@ + dj =~= "newtab"@ + (dh + "_"@ + dj));
                lemma_same_rest("newtab"@, dg + "_"@ + di, dh + "_"@ + dj);
                lemma_pairs_differ(g, i, h, j);
            },
            _ => {},
        }
    }
}

// Configurations.
/// How many configurations commands make.
pub open spec fn config_count(commands: Seq<Command>) -> nat
    decreases commands.len(),
{
    if commands.len() == 0 {
        0
    } else {
        config_count(commands.drop_last()) + if commands.last() is NewConfig {
            1nat
        } else {
            0
        }
    }
}

/// How many leaves the first `k` of these tabs have.
pub open spec fn leaf_count(tabs: Seq<TabPlan>, k: int) -> nat
    decreases k,
{
    if k <= 0 {
        0
    } else {
        leaf_count(tabs, k - 1) + crate::restore_script::leaves(tabs[k - 1].tree).len()
    }
}

/// How many leaves the tabs of the first `k` windows have.
pub open spec fn leaves_of_windows(surfaces: Seq<Surface>, k: int) -> nat
    decreases k,
{
    if k <= 0 {
        0
    } else {
        let tabs = crate::restore_script::tab_plans(
            surfaces,
            crate::restore_script::windows_of(surfaces)[k - 1],
        );
        leaves_of_windows(surfaces, k - 1) + leaf_count(tabs, tabs.len() as int)
    }
}

/// The configurations of two runs of commands.
proof fn lemma_count_append(a: Seq<Command>, b: Seq<Command>)
    ensures
        config_count(a + b) == config_count(a) + config_count(b),
    decreases b.len(),
{
    if b.len() == 0 {
        assert(a + b =~= a);
    } else {
        lemma_count_append(a, b.drop_last());
        assert((a + b).drop_last() =~= a + b.drop_last());
        assert((a + b).last() == b.last());
    }
}

/// The configurations of one more command.
proof fn lemma_count_push(a: Seq<Command>, command: Command)
    ensures
        config_count(a.push(command)) == config_count(a) + if command is NewConfig {
            1nat
        } else {
            0
        },
{
    assert(a.push(command).drop_last() =~= a);
}

/// The commands for a configuration make one.
proof fn lemma_config_counts(window: usize, n: nat, dir: Seq<char>)
    ensures
        config_count(config_commands(window, n, dir)) == 1,
{
    let none = Seq::<Command>::empty();
    let c = Variable::Config(window, n);
    let a = none.push(Command::Blank);
    let b = a.push(Command::NewConfig(c));
    lemma_count_push(none, Command::Blank);
    lemma_count_push(a, Command::NewConfig(c));
    lemma_count_push(b, Command::SetDir(c, dir));
    assert(config_commands(window, n, dir) =~= b.push(Command::SetDir(c, dir)));
}

/// Each split makes one configuration.
proof fn lemma_split_counts(tree: SplitTree, target: Variable, window: usize, n: nat)
    ensures
        config_count(split_commands(tree, target, window, n))
            == crate::restore_script::split_count(tree),
        crate::restore_script::leaves(tree).len() == crate::restore_script::split_count(tree) + 1,
    decreases tree,
{
    let pane = Variable::Pane(window, n);
    let config = Variable::Config(window, n);
    match tree {
        SplitTree::Leaf(_) => {},
        SplitTree::Vertical(a, b) => {
            let m = n + 1 + crate::restore_script::split_count(*a);
            let head = config_commands(window, n, crate::restore_script::anchor(*b).dir);
            let split = Command::Split(pane, target, true, config);
            lemma_config_counts(window, n, crate::restore_script::anchor(*b).dir);
            lemma_count_push(head, split);
            lemma_split_counts(*a, target, window, n + 1);
            lemma_split_counts(*b, pane, window, m);
            lemma_count_append(head.push(split), split_commands(*a, target, window, n + 1));
            lemma_count_append(
                head.push(split) + split_commands(*a, target, window, n + 1),
                split_commands(*b, pane, window, m),
            );
        },
        SplitTree::Horizontal(a, b) => {
            let m = n + 1 + crate::restore_script::split_count(*a);
            let head = config_commands(window, n, crate::restore_script::anchor(*b).dir);
            let split = Command::Split(pane, target, false, config);
            lemma_config_counts(window, n, crate::restore_script::anchor(*b).dir);
            lemma_count_push(head, split);
            lemma_split_counts(*a, target, window, n + 1);
            lemma_split_counts(*b, pane, window, m);
            lemma_count_append(head.push(split), split_commands(*a, target, window, n + 1));
            lemma_count_append(
                head.push(split) + split_commands(*a, target, window, n + 1),
                split_commands(*b, pane, window, m),
            );
        },
    }
}

/// Each leaf of a tab has one configuration.
proof fn lemma_tabs_count(tabs: Seq<TabPlan>, window: usize, k: int)
    ensures
        config_count(tabs_commands(tabs, window, k)) == leaf_count(tabs, k),
    decreases k,
{
    if k > 0 {
        let tab = tabs[k - 1];
        let i = (k - 1) as nat;
        let n = crate::restore_script::first_pane(tabs, k - 1);
        let dir = crate::restore_script::anchor(tab.tree).dir;
        let pane = Variable::Pane(window, n);
        let a = config_commands(window, n, dir);
        let b = root_commands(window, i, n);
        let c = title_commands(tab.title, window, n);
        let d = split_commands(tab.tree, pane, window, n + 1);
        lemma_tabs_count(tabs, window, k - 1);
        lemma_config_counts(window, n, dir);
        lemma_split_counts(tab.tree, pane, window, n + 1);
        lemma_quiet_count(b);
        lemma_quiet_count(c);
        lemma_count_append(a, b);
        lemma_count_append(a + b, c);
        lemma_count_append(a + b + c, d);
        lemma_count_append(
            tabs_commands(tabs, window, k - 1),
            tab_commands(tab, window, i, n),
        );
    }
}

/// Commands that make no configuration count none.
proof fn lemma_quiet_count(commands: Seq<Command>)
    requires
        forall|i: int| 0 <= i < commands.len() ==> !((#[trigger] commands[i]) is NewConfig),
    ensures
        config_count(commands) == 0,
    decreases commands.len(),
{
    if commands.len() > 0 {
        assert(!(commands[commands.len() - 1] is NewConfig));
        lemma_quiet_count(commands.drop_last());
    }
}

/// Each leaf of a capture has one configuration.
proof fn lemma_windows_count(windows: Seq<CapturedWindow>, surfaces: Seq<Surface>, k: int)
    ensures
        config_count(windows_commands(windows, surfaces, k)) == leaves_of_windows(surfaces, k),
    decreases k,
{
    if k > 0 {
        let window = crate::restore_script::windows_of(surfaces)[k - 1];
        let tabs = crate::restore_script::tab_plans(surfaces, window);
        let a = tabs_commands(tabs, window, tabs.len() as int);
        let b = frame_commands(windows, window);
        lemma_windows_count(windows, surfaces, k - 1);
        lemma_tabs_count(tabs, window, tabs.len() as int);
        lemma_quiet_count(b);
        lemma_count_append(a, b);
        lemma_count_append(windows_commands(windows, surfaces, k - 1), a + b);
    }
}

/// The lines of a restore script are commands. No two of them set variables of one name;
/// each uses only variables that commands in front of it set; and there is one
/// configuration for each leaf of the tabs' splits. It holds of the scripts of several
/// windows, and of those of one.
pub proof fn variables_are_set_once(windows: Seq<CapturedWindow>, surfaces: Seq<Surface>)
    requires
        windows.len() > 1 || crate::restore_script::windows_of(surfaces).len() <= 1,
    ensures
        ({
            let multi = windows.len() > 1;
            let commands = restore_commands(windows, surfaces);
            &&& crate::restore_script::body_lines(windows, surfaces) == (seq![
                "tell application \"Ghostty\""@,
                "    activate"@,
            ] + command_lines(multi, commands)).push("end tell"@)
            &&& forall|i: int, j: int|
                0 <= i < j < commands.len() ==> match (
                    sets(#[trigger] commands[i]),
                    sets(#[trigger] commands[j]),
                ) {
                    (Some(a), Some(b)) => variable_name(multi, a) != variable_name(multi, b),
                    _ => true,
                }
            &&& forall|j: int, v: Variable|
                0 <= j < commands.len() && #[trigger] uses(commands[j], v) ==> exists|i: int|
                    0 <= i < j && sets(#[trigger] commands[i]) == Some(v)
            &&& config_count(commands) == leaves_of_windows(
                surfaces,
                crate::restore_script::windows_of(surfaces).len() as int,
            )
        }),
{
    let multi = windows.len() > 1;
    let indexes = crate::restore_script::windows_of(surfaces);
    let n = indexes.len() as int;
    let commands = restore_commands(windows, surfaces);
    lemma_windows_commands(windows, surfaces, n);
    lemma_windows_tidy(windows, surfaces, n);
    lemma_tidy_facts(commands);
    lemma_windows_count(windows, surfaces, n);
    let after = known_after(Set::empty(), commands);
    assert forall|i: int, j: int| 0 <= i < j < commands.len() implies match (
        sets(#[trigger] commands[i]),
        sets(#[trigger] commands[j]),
    ) {
        (Some(a), Some(b)) => variable_name(multi, a) != variable_name(multi, b),
        _ => true,
    } by {
        match (sets(commands[i]), sets(commands[j])) {
            (Some(a), Some(b)) => {
                assert(a != b);
                assert(after.contains(a) && after.contains(b));
                if !multi {
                    let one = indexes.take(n);
                    assert(one.contains(window_of(a)) && one.contains(window_of(b)));
                }
                names_differ(multi, a, b);
            },
            _ => {},
        }
    }
}

} // verus!
