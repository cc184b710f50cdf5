//! The AppleScript that Ghostty is asked with.

use vstd::prelude::*;

verus! {

/// Reads the tabs and panes of the front window, one line for each terminal. For tabs
/// with several panes it also reads their positions on screen.
pub const CAPTURE_FRONT_WINDOW: &'static str = r#"set D to (ASCII character 9)
tell application "Ghostty"
  set win to front window
end tell
tell application "System Events"
  tell process "Ghostty"
    -- grab the AX element of the caller's surface; restoring AXFocused on it
    -- at the end moves keyboard focus back without injecting any characters
    set callerEl to value of attribute "AXFocusedUIElement"
  end tell
end tell
tell application "Ghostty"
  set tabList to tabs of win
  set allLines to {}
  repeat with ti from 1 to count of tabList
    set t to item ti of tabList
    set termList to every terminal of t
    set ttl to name of t
    if (count of termList) = 1 then
      set term to item 1 of termList
      set wd to working directory of term
      if wd = "" then set wd to POSIX path of (path to home folder)
      set end of allLines to (ti as text) & D & "1" & D & (id of term as text) & D & wd & D & ttl & D & "0,0,1,1"
    else
      repeat with pi from 1 to count of termList
        set term to item pi of termList
        set wd to working directory of term
        if wd = "" then set wd to POSIX path of (path to home folder)
        focus term
        delay 0.12
        set posStr to "0,0,1,1"
        tell application "System Events"
          try
            set gProc to application process "Ghostty"
            set fe to value of attribute "AXFocusedUIElement" of gProc
            repeat 8 times
              if role of fe = "AXScrollArea" then exit repeat
              set fe to value of attribute "AXParent" of fe
            end repeat
            set pos to position of fe
            set sz to size of fe
            set posStr to ((item 1 of pos) as text) & "," & ((item 2 of pos) as text) & "," & ((item 1 of sz) as text) & "," & ((item 2 of sz) as text)
          end try
        end tell
        set end of allLines to (ti as text) & D & (pi as text) & D & (id of term as text) & D & wd & D & ttl & D & posStr
      end repeat
    end if
  end repeat
end tell
tell application "System Events"
  tell process "Ghostty"
    -- restore keyboard focus to the caller's surface directly via the
    -- Accessibility API; this moves focus without injecting characters
    -- (Ghostty's "focus" verb alone doesn't switch split-pane surfaces)
    try
      if callerEl is not missing value then
        set value of attribute "AXFocused" of callerEl to true
      end if
    end try
  end tell
end tell
tell application "Ghostty"
  set AppleScript's text item delimiters to linefeed
  return allLines as text
end tell"#;

/// Reads the tabs, panes and frames of all windows: the frames, the line
/// `@@SURFACES@@`, and one line for each terminal. Windows are briefly brought to the
/// front one at a time so that the positions of their panes can be read.
pub const CAPTURE_ALL_WINDOWS: &'static str = r#"set D to (ASCII character 9)
set frameLines to {}
set allLines to {}
tell application "Ghostty"
  set winCount to count of windows
  if winCount is 0 then error "Ghostty has no open window"
  -- remember the terminal that invoked the capture so focus can be restored
  set callerId to id of focused terminal of selected tab of front window
end tell
tell application "System Events"
  tell process "Ghostty"
    set prevWin to value of attribute "AXMainWindow"
    -- grab the AX element of the caller's surface; restoring AXFocused on it
    -- at the end moves keyboard focus back without injecting any characters
    set callerEl to value of attribute "AXFocusedUIElement"
  end tell
end tell
-- Snapshot stable window identities up front. Fronting a window reorders
-- Ghostty's `windows` list (frontmost becomes window 1), so resolving
-- `window wi` mid-loop after raises can read back the same window twice;
-- `window id <tab-group-...>` references are immune to the reordering.
tell application "Ghostty"
  set winIds to id of every window
end tell
repeat with wi from 1 to winCount
  tell application "Ghostty"
    activate
    set win to window id (item wi of winIds)
    set selName to name of selected tab of win
  end tell
  tell application "System Events"
    tell process "Ghostty"
      set targetWin to missing value
      set axKids to value of attribute "AXChildren"
      repeat with k in axKids
        try
          if role of k is "AXWindow" then
            if (value of attribute "AXMain" of k) is false then
              if name of k is selName then
                set targetWin to k
                exit repeat
              end if
            end if
          end if
        end try
      end repeat
      if targetWin is not missing value then
        perform action "AXRaise" of targetWin
        delay 0.3
      end if
      set axMain to value of attribute "AXMainWindow"
      if axMain is not missing value then
        if name of axMain is selName then
          set {xPos, yPos} to value of attribute "AXPosition" of axMain
          set {winWidth, winHeight} to value of attribute "AXSize" of axMain
          set end of frameLines to (wi as text) & D & (xPos as text) & D & (yPos as text) & D & (winWidth as text) & D & (winHeight as text)
        end if
      end if
    end tell
  end tell
  tell application "Ghostty"
    set win to window id (item wi of winIds)
    set tabList to tabs of win
    repeat with ti from 1 to count of tabList
      set t to item ti of tabList
      set termList to every terminal of t
      set ttl to name of t
      if (count of termList) = 1 then
        set term to item 1 of termList
        set wd to working directory of term
        if wd = "" then set wd to POSIX path of (path to home folder)
        set end of allLines to (wi as text) & D & (ti as text) & D & "1" & D & (id of term as text) & D & wd & D & ttl & D & "0,0,1,1"
      else
        repeat with pi from 1 to count of termList
          set term to item pi of termList
          set wd to working directory of term
          if wd = "" then set wd to POSIX path of (path to home folder)
          focus term
          delay 0.12
          set posStr to "0,0,1,1"
          tell application "System Events"
            try
              set gProc to application process "Ghostty"
              set fe to value of attribute "AXFocusedUIElement" of gProc
              repeat 8 times
                if role of fe = "AXScrollArea" then exit repeat
                set fe to value of attribute "AXParent" of fe
              end repeat
              set pos to position of fe
              set sz to size of fe
              set posStr to ((item 1 of pos) as text) & "," & ((item 2 of pos) as text) & "," & ((item 1 of sz) as text) & "," & ((item 2 of sz) as text)
            end try
          end tell
          set end of allLines to (wi as text) & D & (ti as text) & D & (pi as text) & D & (id of term as text) & D & wd & D & ttl & D & posStr
        end repeat
      end if
    end repeat
  end tell
end repeat
tell application "System Events"
  tell process "Ghostty"
    try
      if prevWin is not missing value then
        perform action "AXRaise" of prevWin
      end if
    end try
  end tell
end tell
tell application "System Events"
  tell process "Ghostty"
    -- restore keyboard focus to the caller's surface directly via the
    -- Accessibility API; this moves focus without injecting characters
    -- (Ghostty's "focus" verb alone doesn't switch split-pane surfaces)
    try
      if callerEl is not missing value then
        set value of attribute "AXFocused" of callerEl to true
      end if
    end try
  end tell
end tell
tell application "Ghostty"
  -- belt-and-suspenders: also ask Ghostty to focus the caller's terminal so
  -- its window comes to the front (handles cross-window cases)
  try
    set focusDone to false
    repeat with w in windows
      repeat with tb in tabs of w
        repeat with tm in (every terminal of tb)
          if (id of tm) is callerId then
            focus tm
            set focusDone to true
            exit repeat
          end if
        end repeat
        if focusDone then exit repeat
      end repeat
      if focusDone then exit repeat
    end repeat
  end try
end tell
set AppleScript's text item delimiters to linefeed
set frameText to frameLines as text
set rowText to allLines as text
set AppleScript's text item delimiters to ""
return frameText & linefeed & "@@SURFACES@@" & linefeed & rowText"#;

/// Reads the ids of all windows.
pub const WINDOW_IDS: &'static str = r#"set rows to {}
tell application "Ghostty"
  repeat with win in windows
    set end of rows to id of win
  end repeat
end tell
set AppleScript's text item delimiters to linefeed
return rows as text"#;

/// Reads the frame of the main window.
pub const MAIN_WINDOW_FRAME: &'static str = r#"tell application "System Events"
  tell process "Ghostty"
    set targetWindow to missing value
    repeat with candidate in windows
      try
        if value of attribute "AXMain" of candidate is true then
          set targetWindow to candidate
          exit repeat
        end if
      end try
    end repeat
    if targetWindow is missing value then
      if (count of windows) is 0 then error "Ghostty has no visible window"
      set targetWindow to window 1
    end if
    set {xPos, yPos} to position of targetWindow
    set {winWidth, winHeight} to size of targetWindow
    return (xPos as text) & tab & (yPos as text) & tab & (winWidth as text) & tab & (winHeight as text)
  end tell
end tell"#;

} // verus!
