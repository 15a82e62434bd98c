//! The state machine as mathematics: the state's view, and what each input
//! does to it and which effects it emits.
use vstd::prelude::*;

use crate::activity::{activity_for, compose_name, prefix_of, priority_of, ActivityView};
use crate::protocol::{
    EffectView, EventKind, EventView, PaneInfo, Permission, PipeMessageView, PipeSourceView, Sink,
    TabInfoView, PIPE_NAME,
};
use crate::table::{keep_keys, lookup, with_entry, without_key};
use crate::text::parse_unsigned;
use crate::trace::{
    log_bad_mode, log_idle, log_init, log_kept, log_mapped, log_no_pane, log_panes, log_pipe,
    log_prefix, log_rename, log_session_end, log_stale, log_tabs, log_unmapped_pane, log_waiting,
};

verus! {

/// The state of the plugin. Each table is a sequence of (key, value) pairs
/// with unique keys.
pub struct StateView {
    /// tab position -> tab id, from the last tab update.
    pub tabs: Seq<(usize, usize)>,
    /// tab position -> ids of its terminal panes, from the last pane update.
    pub panes: Seq<(usize, Seq<u32>)>,
    /// pane id -> id of the tab that holds it.
    pub pane_to_tab: Seq<(u32, usize)>,
    /// pane id -> what its agent is doing.
    pub activity: Seq<(u32, ActivityView)>,
    /// tab id -> the prefix last shown on it.
    pub shown: Seq<(usize, Seq<char>)>,
    /// pane id -> send time (ms) of the last activity accepted for it.
    pub last_ts: Seq<(u32, u64)>,
    /// tab id -> the name the tab is believed to carry, from the last tab
    /// update and the renames since.
    pub tab_name: Seq<(usize, Seq<char>)>,
    /// Who owns the tab names.
    pub sink: Sink,
    /// Whether diagnostic lines are emitted.
    pub debug: bool,
}

/// The state before anything happened.
pub open spec fn initial_state() -> StateView {
    StateView {
        tabs: Seq::empty(),
        panes: Seq::empty(),
        pane_to_tab: Seq::empty(),
        activity: Seq::empty(),
        shown: Seq::empty(),
        last_ts: Seq::empty(),
        tab_name: Seq::empty(),
        sink: Sink::Pipe,
        debug: false,
    }
}

/// A diagnostic line, emitted only when debugging is on.
pub open spec fn trace_line(debug: bool, line: Seq<char>) -> Seq<EffectView> {
    if debug {
        seq![EffectView::Log(line)]
    } else {
        Seq::empty()
    }
}

/// The most urgent activity among the panes of `tab`; of two equally
/// urgent ones, the later in the activity table.
pub open spec fn winner(
    activity: Seq<(u32, ActivityView)>,
    pane_to_tab: Seq<(u32, usize)>,
    tab: usize,
) -> Option<ActivityView>
    decreases activity.len(),
{
    if activity.len() == 0 {
        None
    } else {
        let best = winner(activity.drop_last(), pane_to_tab, tab);
        let (pane, a) = activity.last();
        if lookup(pane_to_tab, pane) == Some(tab) && (best is None || priority_of(a)
            >= priority_of(best->Some_0)) {
            Some(a)
        } else {
            best
        }
    }
}

/// The prefix that `tab` should show: that of its most urgent activity, if any.
pub open spec fn desired_prefix(m: StateView, tab: usize) -> Option<Seq<char>> {
    match winner(m.activity, m.pane_to_tab, tab) {
        Some(a) => Some(prefix_of(a)),
        None => None,
    }
}

/// Recomputes what a tab shows, in the way the sink realises it.
pub open spec fn recompute_tab(m: StateView, tab: usize) -> (StateView, Seq<EffectView>) {
    match m.sink {
        Sink::Pipe => show_prefix(m, tab),
        Sink::Rename => rename_tab(m, tab),
        Sink::Unconfigured => (m, Seq::empty()),
    }
}

/// Under the `rename` mode: the tab is renamed to its composed name when
/// that differs from the name it is believed to carry, and the belief is
/// updated; a tab of unknown name is left alone.
pub open spec fn rename_tab(m: StateView, tab: usize) -> (StateView, Seq<EffectView>) {
    match lookup(m.tab_name, tab) {
        None => (m, Seq::empty()),
        Some(n) => {
            let c = compose_name(desired_prefix(m, tab), n);
            if c == n {
                (m, Seq::empty())
            } else {
                (
                    StateView { tab_name: with_entry(m.tab_name, tab, c), ..m },
                    trace_line(m.debug, log_rename(tab, c)) + seq![
                        EffectView::RenameTab { tab_id: tab, name: c },
                    ],
                )
            }
        },
    }
}

/// Under the `pipe` mode: the tab's prefix is shown only if it differs
/// from the one last shown.
pub open spec fn show_prefix(m: StateView, tab: usize) -> (StateView, Seq<EffectView>) {
    let d = desired_prefix(m, tab);
    if lookup(m.shown, tab) == d {
        (m, Seq::empty())
    } else {
        let shown = match d {
            Some(p) => with_entry(m.shown, tab, p),
            None => without_key(m.shown, tab),
        };
        (
            StateView { shown, ..m },
            trace_line(m.debug, log_prefix(tab, d)) + seq![
                EffectView::ShowActivity { tab_id: tab, prefix: d },
            ],
        )
    }
}

/// Recomputes the given tabs, in order.
pub open spec fn recompute_tabs(m: StateView, ids: Seq<usize>) -> (StateView, Seq<EffectView>)
    decreases ids.len(),
{
    if ids.len() == 0 {
        (m, Seq::empty())
    } else {
        let (m1, e1) = recompute_tabs(m, ids.drop_last());
        let (m2, e2) = recompute_tab(m1, ids.last());
        (m2, e1 + e2)
    }
}

/// The tab ids of the position table, in order.
pub open spec fn tab_ids(tabs: Seq<(usize, usize)>) -> Seq<usize> {
    tabs.map_values(|e: (usize, usize)| e.1)
}

/// Binds each of `ids` to `tab`.
pub open spec fn bind_all(s: Seq<(u32, usize)>, ids: Seq<u32>, tab: usize) -> Seq<(u32, usize)>
    decreases ids.len(),
{
    if ids.len() == 0 {
        s
    } else {
        with_entry(bind_all(s, ids.drop_last(), tab), ids.last(), tab)
    }
}

/// Maps each pane to the tab at its position, for the positions that have a tab.
pub open spec fn pane_tabs(panes: Seq<(usize, Seq<u32>)>, tabs: Seq<(usize, usize)>) -> Seq<
    (u32, usize),
>
    decreases panes.len(),
{
    if panes.len() == 0 {
        Seq::empty()
    } else {
        let prev = pane_tabs(panes.drop_last(), tabs);
        let (pos, ids) = panes.last();
        match lookup(tabs, pos) {
            Some(tab) => bind_all(prev, ids, tab),
            None => prev,
        }
    }
}

/// The position table of a tab update: a later tab at the same position wins.
pub open spec fn tab_table(tabs: Seq<TabInfoView>) -> Seq<(usize, usize)>
    decreases tabs.len(),
{
    if tabs.len() == 0 {
        Seq::empty()
    } else {
        with_entry(tab_table(tabs.drop_last()), tabs.last().position, tabs.last().tab_id)
    }
}

pub open spec fn tab_id_list(tabs: Seq<TabInfoView>) -> Seq<usize> {
    tabs.map_values(|t: TabInfoView| t.tab_id)
}

/// The names of a tab update, by tab id: a later tab with the same id wins.
pub open spec fn name_table(tabs: Seq<TabInfoView>) -> Seq<(usize, Seq<char>)>
    decreases tabs.len(),
{
    if tabs.len() == 0 {
        Seq::empty()
    } else {
        with_entry(name_table(tabs.drop_last()), tabs.last().tab_id, tabs.last().name)
    }
}

/// The ids of the panes that are not plugins, in order.
pub open spec fn terminal_ids(ps: Seq<PaneInfo>) -> Seq<u32>
    decreases ps.len(),
{
    if ps.len() == 0 {
        Seq::empty()
    } else {
        let rest = terminal_ids(ps.drop_last());
        if ps.last().is_plugin {
            rest
        } else {
            rest.push(ps.last().id)
        }
    }
}

/// The pane table of a pane update: a later entry for the same position wins.
pub open spec fn pane_table(entries: Seq<(usize, Seq<PaneInfo>)>) -> Seq<(usize, Seq<u32>)>
    decreases entries.len(),
{
    if entries.len() == 0 {
        Seq::empty()
    } else {
        with_entry(
            pane_table(entries.drop_last()),
            entries.last().0,
            terminal_ids(entries.last().1),
        )
    }
}

/// Every pane id of the pane table.
pub open spec fn all_pane_ids(panes: Seq<(usize, Seq<u32>)>) -> Seq<u32>
    decreases panes.len(),
{
    if panes.len() == 0 {
        Seq::empty()
    } else {
        all_pane_ids(panes.drop_last()) + panes.last().1
    }
}

/// A tab update: the new positions, the names as the host reports them,
/// the prefixes of closed tabs forgotten, panes mapped anew, every tab
/// recomputed.
pub open spec fn on_tab_update(m: StateView, tabs: Seq<TabInfoView>) -> (
    StateView,
    Seq<EffectView>,
) {
    let m1 = StateView {
        tabs: tab_table(tabs),
        tab_name: name_table(tabs),
        shown: keep_keys(m.shown, tab_id_list(tabs)),
        ..m
    };
    let m2 = StateView { pane_to_tab: pane_tabs(m1.panes, m1.tabs), ..m1 };
    let (m3, e) = recompute_tabs(m2, tab_ids(m2.tabs));
    (m3, trace_line(m.debug, log_tabs(m2.tabs)) + e)
}

/// A pane update: the new panes, the state of vanished panes forgotten,
/// panes mapped anew, every tab recomputed.
pub open spec fn on_pane_update(m: StateView, entries: Seq<(usize, Seq<PaneInfo>)>) -> (
    StateView,
    Seq<EffectView>,
) {
    let panes = pane_table(entries);
    let alive = all_pane_ids(panes);
    let m1 = StateView {
        panes,
        activity: keep_keys(m.activity, alive),
        last_ts: keep_keys(m.last_ts, alive),
        ..m
    };
    let m2 = StateView { pane_to_tab: pane_tabs(m1.panes, m1.tabs), ..m1 };
    let (m3, e) = recompute_tabs(m2, tab_ids(m2.tabs));
    (m3, trace_line(m.debug, log_panes(m2.pane_to_tab)) + e)
}

pub open spec fn parsed_pane(args: Seq<(Seq<char>, Seq<char>)>) -> Option<u32> {
    match lookup(args, "pane_id"@) {
        Some(s) => match parse_unsigned(s, u32::MAX as nat) {
            Some(n) => Some(n as u32),
            None => None,
        },
        None => None,
    }
}

pub open spec fn parsed_ts(args: Seq<(Seq<char>, Seq<char>)>) -> Option<u64> {
    match lookup(args, "ts_ms"@) {
        Some(s) => match parse_unsigned(s, u64::MAX as nat) {
            Some(n) => Some(n as u64),
            None => None,
        },
        None => None,
    }
}

pub open spec fn arg_or_empty(args: Seq<(Seq<char>, Seq<char>)>, key: Seq<char>) -> Seq<char> {
    match lookup(args, key) {
        Some(v) => v,
        None => Seq::empty(),
    }
}

/// An event sent before the last one accepted for its pane.
pub open spec fn is_stale(m: StateView, pane: u32, ts: Option<u64>) -> bool {
    match ts {
        Some(t) => match lookup(m.last_ts, pane) {
            Some(last) => t < last,
            None => false,
        },
        None => false,
    }
}

/// Sets (`Some`) or clears (`None`) a pane's activity, then recomputes its tab.
pub open spec fn apply_activity(m: StateView, pane: u32, tab: usize, a: Option<ActivityView>) -> (
    StateView,
    Seq<EffectView>,
) {
    let activity = match a {
        Some(x) => with_entry(m.activity, pane, x),
        None => without_key(m.activity, pane),
    };
    recompute_tab(StateView { activity, ..m }, tab)
}

/// An activity report for a pane already mapped to `tab`.
pub open spec fn on_mapped_activity(
    m: StateView,
    args: Seq<(Seq<char>, Seq<char>)>,
    pane: u32,
    tab: usize,
) -> (StateView, Seq<EffectView>) {
    let event = arg_or_empty(args, "hook_event"@);
    if event == "SessionEnd"@ {
        let (m2, e) = apply_activity(m, pane, tab, None);
        (m2, trace_line(m.debug, log_session_end(pane, tab)) + e)
    } else if event == "Notification"@ {
        if lookup(args, "notification"@) == Some("idle"@) {
            (m, trace_line(m.debug, log_idle(pane, tab)))
        } else {
            let (m2, e) = apply_activity(m, pane, tab, Some(ActivityView::Waiting));
            (m2, trace_line(m.debug, log_waiting(pane, tab)) + e)
        }
    } else {
        let tool = arg_or_empty(args, "tool_name"@);
        match activity_for(event, tool) {
            Some(a) => {
                let (m2, e) = apply_activity(m, pane, tab, Some(a));
                (m2, trace_line(m.debug, log_mapped(pane, tab, event, tool, a)) + e)
            },
            None => (m, trace_line(m.debug, log_kept(pane, tab, event, tool))),
        }
    }
}

/// An activity report on the activity pipe.
pub open spec fn on_activity(m: StateView, args: Seq<(Seq<char>, Seq<char>)>) -> (
    StateView,
    Seq<EffectView>,
) {
    match parsed_pane(args) {
        None => (m, trace_line(m.debug, log_no_pane(args))),
        Some(pane) => {
            let ts = parsed_ts(args);
            if is_stale(m, pane, ts) {
                (
                    m,
                    trace_line(
                        m.debug,
                        log_stale(pane, ts->Some_0, lookup(m.last_ts, pane)->Some_0),
                    ),
                )
            } else {
                let m1 = match ts {
                    Some(t) => StateView { last_ts: with_entry(m.last_ts, pane, t), ..m },
                    None => m,
                };
                match lookup(m1.pane_to_tab, pane) {
                    None => (m1, trace_line(m.debug, log_unmapped_pane(pane))),
                    Some(tab) => on_mapped_activity(m1, args, pane, tab),
                }
            }
        },
    }
}

/// A pipe message: a command-line pipe is unblocked, and a message on the
/// activity pipe is handled. Under a `mode` value that names no known
/// mode, the plugin does nothing.
pub open spec fn handle_pipe(m: StateView, msg: PipeMessageView) -> (StateView, Seq<EffectView>) {
    if m.sink == Sink::Unconfigured {
        (m, Seq::empty())
    } else {
        handle_pipe_configured(m, msg)
    }
}

pub open spec fn handle_pipe_configured(m: StateView, msg: PipeMessageView) -> (
    StateView,
    Seq<EffectView>,
) {
    let e0 = trace_line(m.debug, log_pipe(msg.name, msg.args));
    let e1 = match msg.source {
        PipeSourceView::Cli(id) => seq![EffectView::UnblockCliPipe(id)],
        _ => Seq::empty(),
    };
    if msg.name == PIPE_NAME@ {
        let (m2, e2) = on_activity(m, msg.args);
        (m2, e0 + e1 + e2)
    } else {
        (m, e0 + e1)
    }
}

/// A host event. Under a `mode` value that names no known mode, the plugin
/// does nothing.
pub open spec fn handle(m: StateView, ev: EventView) -> (StateView, Seq<EffectView>) {
    if m.sink == Sink::Unconfigured {
        (m, Seq::empty())
    } else {
        handle_configured(m, ev)
    }
}

pub open spec fn handle_configured(m: StateView, ev: EventView) -> (StateView, Seq<EffectView>) {
    match ev {
        EventView::TabUpdate(tabs) => on_tab_update(m, tabs),
        EventView::PaneUpdate(entries) => on_pane_update(m, entries),
        EventView::Other => (m, Seq::empty()),
    }
}

/// Debugging is on when the configuration sets `debug` to `true` or `1`.
pub open spec fn debug_enabled(config: Seq<(Seq<char>, Seq<char>)>) -> bool {
    lookup(config, "debug"@) == Some("true"@) || lookup(config, "debug"@) == Some("1"@)
}

/// The sink that the `mode` key names: `pipe` or `rename`; a configuration
/// without the key keeps the `pipe` mode, and any other value leaves the
/// plugin unconfigured.
pub open spec fn configured_sink(config: Seq<(Seq<char>, Seq<char>)>) -> Sink {
    match lookup(config, "mode"@) {
        None => Sink::Pipe,
        Some(v) => if v == "pipe"@ {
            Sink::Pipe
        } else if v == "rename"@ {
            Sink::Rename
        } else {
            Sink::Unconfigured
        },
    }
}

/// The permissions each mode asks for: only what it uses.
pub open spec fn permissions_requested(sink: Sink) -> Seq<Permission> {
    match sink {
        Sink::Pipe => seq![
            Permission::ReadApplicationState,
            Permission::MessageAndLaunchOtherPlugins,
            Permission::ReadCliPipes,
        ],
        Sink::Rename => seq![
            Permission::ReadApplicationState,
            Permission::ReadCliPipes,
            Permission::ChangeApplicationState,
        ],
        Sink::Unconfigured => Seq::empty(),
    }
}

pub open spec fn events_subscribed() -> Seq<EventKind> {
    seq![EventKind::TabUpdate, EventKind::PaneUpdate]
}

/// Loading the plugin: debugging and the mode set from the configuration;
/// in a known mode, its permissions requested and events subscribed to; in
/// an unknown one, nothing but one line that says so, whatever `debug` says.
pub open spec fn init(m: StateView, config: Seq<(Seq<char>, Seq<char>)>) -> (
    StateView,
    Seq<EffectView>,
) {
    let debug = debug_enabled(config);
    let sink = configured_sink(config);
    let m2 = StateView { debug, sink, ..m };
    if sink == Sink::Unconfigured {
        (m2, seq![EffectView::Log(log_bad_mode(lookup(config, "mode"@)->Some_0))])
    } else {
        (
            m2,
            trace_line(debug, log_init(config)) + seq![
                EffectView::RequestPermissions(permissions_requested(sink)),
                EffectView::Subscribe(events_subscribed()),
            ],
        )
    }
}

} // verus!
