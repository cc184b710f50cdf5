//! What can go wrong, and how it is said.

use vstd::prelude::*;

verus! {

/// A request that was refused, or an answer that could not be read.
#[derive(Clone, Debug, PartialEq, Eq)]
pub enum Error {
    /// A workspace or directory name is blank.
    MissingName,
    /// A name cannot be used as a file name.
    InvalidName(String),
    /// A shortcut is blank.
    EmptyShortcut,
    /// A shortcut holds a character that a setting cannot.
    InvalidShortcut,
    /// No workspace is saved under this name.
    WorkspaceNotFound(String),
    /// A workspace is saved under this name.
    WorkspaceExists(String),
    /// No directory is saved under this name, or there is none at this path.
    DirectoryNotFound(String),
    /// A directory is saved under this name.
    DirectoryExists(String),
    /// A directory path is empty.
    DirectoryPathEmpty,
    /// There is something else than a directory at this path.
    NotADirectory(String),
    /// A window frame does not have four parts.
    FrameUnreadable,
    /// A window frame's x position is no number.
    FrameX,
    /// A window frame's y position is no number.
    FrameY,
    /// A window frame's width is no number.
    FrameWidth,
    /// A window frame's height is no number.
    FrameHeight,
    /// A window frame has no extent.
    FrameNotPositive,
    /// The front window was captured as nothing.
    FrontWindowUnreadable,
    /// No tab of the front window could be read.
    FrontWindowUnparsed,
    /// The capture of all windows does not have two sections.
    WindowsUnexpected,
    /// No window frame was captured.
    WindowFramesUnreadable,
    /// No tab of any window could be read.
    WindowsUnparsed,
    /// The new window did not appear in time.
    NewWindowTimeout,
    /// The launch script failed, and said nothing.
    LaunchFailed,
    /// The launch script failed with this message.
    LaunchFailedWith(String),
    /// The home directory is not known.
    NoHomeDirectory,
    /// The current user's id is not known.
    NoUserId,
    /// The parent process is not known.
    NoParentProcess,
    /// The current directory is not known.
    NoCurrentDirectory,
    /// `close_tab` was given something else than a switch.
    CloseTabValue,
    /// `launch_mode` is no longer a setting.
    LaunchModeRemoved,
    /// `global_shortcut` is no longer a setting.
    GlobalShortcutRemoved,
    /// There is no setting of that name.
    UnknownSetting,
    /// `set` was given a value without a key.
    SetUsage,
    /// A subcommand was given together with a workspace name.
    UnexpectedArguments,
}

impl Error {
    /// What is said of the error.
    pub open spec fn text(self) -> Seq<char> {
        match self {
            Error::MissingName => "missing workspace name"@,
            Error::InvalidName(name) => "invalid workspace name '"@ + name@ + "'"@,
            Error::EmptyShortcut => "ghostty_shortcut cannot be empty"@,
            Error::InvalidShortcut => "ghostty_shortcut contains invalid characters"@,
            Error::WorkspaceNotFound(name) => "workspace '"@ + name@ + "' not found"@,
            Error::WorkspaceExists(name) => "workspace '"@ + name@ + "' already exists"@,
            Error::DirectoryNotFound(name) => "directory '"@ + name@ + "' not found"@,
            Error::DirectoryExists(name) => "directory '"@ + name@ + "' already exists"@,
            Error::DirectoryPathEmpty => "directory path is empty"@,
            Error::NotADirectory(path) => "'"@ + path@ + "' is not a directory"@,
            Error::FrameUnreadable => "could not parse Ghostty window frame"@,
            Error::FrameX => "could not parse Ghostty window frame x position"@,
            Error::FrameY => "could not parse Ghostty window frame y position"@,
            Error::FrameWidth => "could not parse Ghostty window frame width"@,
            Error::FrameHeight => "could not parse Ghostty window frame height"@,
            Error::FrameNotPositive => "Ghostty window frame size must be positive"@,
            Error::FrontWindowUnreadable =>
                "could not read Ghostty tabs (make sure Ghostty is the frontmost app)"@,
            Error::FrontWindowUnparsed =>
                "could not parse Ghostty tabs (make sure Ghostty is the frontmost app)"@,
            Error::WindowsUnexpected =>
                "could not parse Ghostty windows (unexpected capture output)"@,
            Error::WindowFramesUnreadable =>
                "could not read Ghostty window frames (check Accessibility permissions)"@,
            Error::WindowsUnparsed =>
                "could not parse Ghostty tabs (make sure Ghostty is running)"@,
            Error::NewWindowTimeout => "timed out waiting for the new Ghostty window"@,
            Error::LaunchFailed => "workspace launch failed"@,
            Error::LaunchFailedWith(message) => "workspace launch failed: "@ + message@,
            Error::NoHomeDirectory => "failed to resolve home directory"@,
            Error::NoUserId => "failed to resolve current user id"@,
            Error::NoParentProcess => "failed to resolve parent process"@,
            Error::NoCurrentDirectory => "failed to resolve current directory"@,
            Error::CloseTabValue => "close_tab value must be 'on' or 'off'"@,
            Error::LaunchModeRemoved =>
                "launch_mode has been removed; gtab only uses the Ghostty-local shortcut now"@,
            Error::GlobalShortcutRemoved =>
                "global_shortcut has been removed; gtab only uses the Ghostty-local shortcut now"@,
            Error::UnknownSetting => "unknown setting"@,
            Error::SetUsage => "usage: gtab set <key> <value>"@,
            Error::UnexpectedArguments => "unexpected CLI arguments"@,
        }
    }

    /// What is said of the error.
    pub fn message(&self) -> (r: String)
        ensures
            r@ == self.text(),
    {
        match self {
            Error::MissingName => "missing workspace name".to_string(),
            Error::InvalidName(name) => around("invalid workspace name '", name, "'"),
            Error::EmptyShortcut => "ghostty_shortcut cannot be empty".to_string(),
            Error::InvalidShortcut => "ghostty_shortcut contains invalid characters".to_string(),
            Error::WorkspaceNotFound(name) => around("workspace '", name, "' not found"),
            Error::WorkspaceExists(name) => around("workspace '", name, "' already exists"),
            Error::DirectoryNotFound(name) => around("directory '", name, "' not found"),
            Error::DirectoryExists(name) => around("directory '", name, "' already exists"),
            Error::DirectoryPathEmpty => "directory path is empty".to_string(),
            Error::NotADirectory(path) => around("'", path, "' is not a directory"),
            Error::FrameUnreadable => "could not parse Ghostty window frame".to_string(),
            Error::FrameX => "could not parse Ghostty window frame x position".to_string(),
            Error::FrameY => "could not parse Ghostty window frame y position".to_string(),
            Error::FrameWidth => "could not parse Ghostty window frame width".to_string(),
            Error::FrameHeight => "could not parse Ghostty window frame height".to_string(),
            Error::FrameNotPositive => "Ghostty window frame size must be positive".to_string(),
            Error::FrontWindowUnreadable =>
                "could not read Ghostty tabs (make sure Ghostty is the frontmost app)".to_string(),
            Error::FrontWindowUnparsed =>
                "could not parse Ghostty tabs (make sure Ghostty is the frontmost app)".to_string(),
            Error::WindowsUnexpected =>
                "could not parse Ghostty windows (unexpected capture output)".to_string(),
            Error::WindowFramesUnreadable =>
                "could not read Ghostty window frames (check Accessibility permissions)".to_string(),
            Error::WindowsUnparsed =>
                "could not parse Ghostty tabs (make sure Ghostty is running)".to_string(),
            Error::NewWindowTimeout => "timed out waiting for the new Ghostty window".to_string(),
            Error::LaunchFailed => "workspace launch failed".to_string(),
            Error::LaunchFailedWith(message) => {
                let mut out = "workspace launch failed: ".to_string();
                out.append(message.as_str());
                out
            },
            Error::NoHomeDirectory => "failed to resolve home directory".to_string(),
            Error::NoUserId => "failed to resolve current user id".to_string(),
            Error::NoParentProcess => "failed to resolve parent process".to_string(),
            Error::NoCurrentDirectory => "failed to resolve current directory".to_string(),
            Error::CloseTabValue => "close_tab value must be 'on' or 'off'".to_string(),
            Error::LaunchModeRemoved =>
                "launch_mode has been removed; gtab only uses the Ghostty-local shortcut now".to_string(),
            Error::GlobalShortcutRemoved =>
                "global_shortcut has been removed; gtab only uses the Ghostty-local shortcut now".to_string(),
            Error::UnknownSetting => "unknown setting".to_string(),
            Error::SetUsage => "usage: gtab set <key> <value>".to_string(),
            Error::UnexpectedArguments => "unexpected CLI arguments".to_string(),
        }
    }
}

/// `name` between two pieces of text.
pub fn around(before: &str, name: &str, after: &str) -> (r: String)
    ensures
        r@ == before@ + name@ + after@,
{
    let mut out = before.to_string();
    out.append(name);
    out.append(after);
    out
}

/// An error about something with a name says the name, between quotes.
pub proof fn errors_say_the_name(name: String)
    ensures
        Error::InvalidName(name).text() == "invalid workspace name '"@ + name@ + "'"@,
        Error::WorkspaceNotFound(name).text() == "workspace '"@ + name@ + "' not found"@,
        Error::WorkspaceExists(name).text() == "workspace '"@ + name@ + "' already exists"@,
        Error::DirectoryNotFound(name).text() == "directory '"@ + name@ + "' not found"@,
        Error::DirectoryExists(name).text() == "directory '"@ + name@ + "' already exists"@,
        Error::NotADirectory(name).text() == "'"@ + name@ + "' is not a directory"@,
        Error::LaunchFailedWith(name).text() == "workspace launch failed: "@ + name@,
{
}

} // verus!
