# snippet

The logic of a terminal screen for a coding agent, written and proved in Verus:
a vault whose values are scrubbed from what a conversation shows, watches on growing
files, self-update, and the screen itself with its prompt, transcript, pickers and
forms.

## Layout

`src/` is the library. Every function states in its contract what it returns, and
Verus proves it.

- `vault`, `redaction`, `secrecy`: named secrets, which of them a command uses, and
  how they are scrubbed from text. Proved of a scrubbed text: no run of characters
  that are still the text's own is a value or holds a fragment of one, where no
  redacted stretch cuts a character in two. Where moreover no marker holds a value or
  a fragment, and no value holds a bracket, no value stands in the text, whole or in
  part, and scrubbing it again changes nothing. Values in ASCII cut no character.
- `watches`: the watched files, and the tail of one file as a state machine.
- `update`: versions, release addresses, which archives can be read, and what of one
  may be installed.
- `style`, `theme`, `wrap`, `markdown`, `table`, `prose`, `blocks`, `figures`,
  `tools`, `results`, `messages`, `questions`, `transcript`, `mascot`: from texts and
  events to styled lines.
- `prompt`, `form`, `login`, `models`, `sessions`, `suggestions`, `asking`: what the
  user edits and picks.
- `app`, `keys`, `keyboard`, `commands`, `profiles`, `connecting`, `pickers`,
  `options`, `ticking`: the screen as a state machine. A key or an answer from
  outside goes in; the next state and a list of effects come out.
- `bars`, `lists`, `panels`, `inputs`: what stands around the transcript.
- `promises`: what holds of the screen across calls.
- `text`, `paths`, `json`, `events`, `effects`: what the others are made of.

`app/` performs the effects: files, network, tasks and the terminal. It asks the
program around it (`host`) for the configuration, the agent's loop, the account and
the models of `anthropic` to suggest.

`tests/` runs the library on concrete values.

## What is believed

Calls into other crates stand in small wrappers marked `external_body`. Their
contracts say what those crates document: JSON quotation (`json`), the text of the
vault's file and lossy UTF-8 (`vault`), regular expressions (`watches`),
decompression and archives (`update`), display width (`style`), capital letters
(`tools`), base64 (`bars`) and points in time (`panels`).
