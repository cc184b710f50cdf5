# gtab

A workspace manager for the Ghostty terminal: it saves the windows, tabs and splits that are
open as a plain AppleScript file, and opens them again.

`src/` is a library in Verus. It holds everything that the program decides, with contracts
that say what each function returns and proofs that it does:

- captures and scripts: `capture`, `restore_script`, `scripts`, `applescript`, `window`
- what is read back from a saved script: `workspace`, `layout`, `readback`
- what holds of the variables of a script: `variables`
- settings and files: `config`, `shortcut`, `env`, `path`, `sorting`, `error`
- the browser: `app` (its state), `input` (keys and clicks), `session` (events, actions and
  their outcomes), `key`
- the screen: `geometry`, `lines`, `preview`, `view`, `dialogs`, `screen`
- the command line: `cli`
- texts and numbers: `text`, `number`

The library reads no file, runs no command and draws nothing. What it needs to know is handed
in, and what is to be done is handed back. `app/` is the program around it: it reads and
writes the files, talks to Ghostty through `osascript`, and draws on the terminal. `tests/`
runs the library.

What is not proved is what the library takes from elsewhere: that `String::push` and
`String::pop` do what their documentation says, what `str::to_lowercase` makes of a text, and
how `ratatui` divides an area (`geometry`).
