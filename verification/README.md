# zellij-agent-activity

The core of a Zellij plugin that puts a symbol in front of each tab's name
for what the AI coding agent in that tab is doing: `⚡` running a command,
`✎` editing, `⚠` waiting for you, `✓` done. The core is a state machine,
verified with Verus: host events and pipe messages go in, effects come out.

The `mode` configuration key says who owns the tab names. Under `pipe` the
prefix is sent to `zellij-tab-namer`; under `rename` the plugin renames the
tab itself, stripping a leading symbol off the name it finds and putting
the current one back. A configuration without the key keeps the `pipe`
mode, so that configurations written before the key existed go on
working. Any other value leaves the plugin inert, with one log line that
says so.

Layout:

- `src/model.rs` — the state machine as mathematics: the state's view and,
  for each input, the next state and the effects.
- `src/state.rs` — the executable state machine; each method is proved to
  do exactly what `model` says.
- `src/laws.rs` — what holds across inputs: a tab shows its most urgent
  pane, every step keeps the state consistent, closed tabs are never
  addressed, stale or uninformative reports change nothing, a repeated
  message changes nothing, no diagnostics without `debug`, every dropped
  report explains itself under `debug`, each mode asks only for the
  permissions it uses, an unknown mode does nothing, the two modes make
  the same decisions, and what each tab or pane update leaves behind.
- `src/activity.rs` — activities, their urgency and their symbols.
- `src/protocol.rs` — inputs and effects as plain values.
- `src/table.rs` — the association tables that hold the state: vectors of
  pairs in insertion order with unique keys, so that which of two equally
  urgent panes wins, the order in which tabs are recomputed and the order
  of every effect and debug line are all determined, and the contracts can
  state them exactly.
- `src/text.rs`, `src/trace.rs` — numbers, text, and the diagnostic lines.
- `src/installer.rs` — the shell command that installs the hook.
- `app/main.rs` — the plugin around the core: it converts the host's
  values and performs the effects.
