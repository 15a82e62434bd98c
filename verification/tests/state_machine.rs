use zellij_agent_activity::activity::tool_symbol;
use zellij_agent_activity::protocol::{
    Args, Effect, Event, EventKind, PaneInfo, PaneManifest, Permission, PipeMessage, PipeSource,
    TabInfo, PIPE_NAME,
};
use zellij_agent_activity::state::State;

fn tab(id: usize, position: usize, _active: bool) -> TabInfo {
    TabInfo { tab_id: id, position, name: String::new() }
}

fn manifest(entries: &[(usize, &[u32])]) -> PaneManifest {
    let panes = entries
        .iter()
        .map(|(position, pane_ids)| {
            let panes = pane_ids
                .iter()
                .map(|&id| PaneInfo {
                    id,
                    ..Default::default()
                })
                .collect();
            (*position, panes)
        })
        .collect();
    PaneManifest { panes }
}

fn args_of(pairs: &[(&str, &str)]) -> Args {
    let mut args = Args::new();
    for (k, v) in pairs {
        args.insert(k.to_string(), v.to_string());
    }
    args
}

fn activity_pipe(args: &[(&str, &str)]) -> PipeMessage {
    PipeMessage {
        source: PipeSource::Plugin(0),
        name: PIPE_NAME.to_string(),
        args: args_of(args),
    }
}

/// One active tab (id 1, position 0) holding pane 10.
fn ready_state() -> State {
    let mut state = State::default();
    state.handle(Event::TabUpdate(vec![tab(1, 0, true)]));
    state.handle(Event::PaneUpdate(manifest(&[(0, &[10])])));
    state
}

fn show_effects(effects: &[Effect]) -> Vec<(usize, Option<String>)> {
    effects
        .iter()
        .filter_map(|e| match e {
            Effect::ShowActivity { tab_id, prefix } => Some((*tab_id, prefix.clone())),
            _ => None,
        })
        .collect()
}

fn log_lines(effects: &[Effect]) -> Vec<String> {
    effects
        .iter()
        .filter_map(|e| match e {
            Effect::Log(line) => Some(line.clone()),
            _ => None,
        })
        .collect()
}

#[test]
fn init_requests_permissions_and_subscribes() {
    let mut state = State::default();
    let effects = state.init(&Args::new());
    assert_eq!(
        effects,
        vec![
            Effect::RequestPermissions(vec![
                Permission::ReadApplicationState,
                Permission::MessageAndLaunchOtherPlugins,
                Permission::ReadCliPipes,
            ]),
            Effect::Subscribe(vec![EventKind::TabUpdate, EventKind::PaneUpdate]),
        ]
    );
}

#[test]
fn unblocking_a_cli_pipe_is_covered_by_a_requested_permission() {
    let mut state = State::default();
    let requested = match state.init(&Args::new()).first() {
        Some(Effect::RequestPermissions(perms)) => perms.clone(),
        other => panic!("init must request permissions first, got {other:?}"),
    };
    let effects = state.handle_pipe(PipeMessage {
        source: PipeSource::Cli("pipe-1".to_string()),
        name: PIPE_NAME.to_string(),
        args: Args::new(),
    });
    assert!(
        effects
            .iter()
            .any(|e| matches!(e, Effect::UnblockCliPipe(_))),
        "a CLI pipe must be unblocked, got {effects:?}"
    );
    assert!(
        requested.contains(&Permission::ReadCliPipes),
        "…so ReadCliPipes must be requested, got {requested:?}"
    );
}

#[test]
fn activity_before_mapping_is_dropped() {
    let mut state = State::default();
    let effects = state.handle_pipe(activity_pipe(&[
        ("pane_id", "10"),
        ("hook_event", "PreToolUse"),
        ("tool_name", "Bash"),
    ]));
    assert_eq!(show_effects(&effects), vec![]);
}

#[test]
fn pretooluse_bash_shows_bolt_prefix_on_the_pane_s_tab() {
    let mut state = ready_state();
    let effects = state.handle_pipe(activity_pipe(&[
        ("pane_id", "10"),
        ("hook_event", "PreToolUse"),
        ("tool_name", "Bash"),
    ]));
    assert_eq!(show_effects(&effects), vec![(1, Some("⚡ ".to_string()))]);
}

#[test]
fn waiting_wins_over_thinking_in_the_same_tab() {
    // Two agent panes (10, 11) in tab 1.
    let mut state = State::default();
    state.handle(Event::TabUpdate(vec![tab(1, 0, true)]));
    state.handle(Event::PaneUpdate(manifest(&[(0, &[10, 11])])));

    // pane 11 is thinking, pane 10 is waiting on the user (Notification).
    state.handle_pipe(activity_pipe(&[("pane_id", "11"), ("hook_event", "PostToolUse")]));
    let effects =
        state.handle_pipe(activity_pipe(&[("pane_id", "10"), ("hook_event", "Notification")]));
    // The tab must show the Waiting symbol, never the Thinking one.
    assert_eq!(show_effects(&effects), vec![(1, Some("⚠ ".to_string()))]);
}

#[test]
fn clearing_the_winner_falls_back_to_the_next_pane() {
    let mut state = State::default();
    state.handle(Event::TabUpdate(vec![tab(1, 0, true)]));
    state.handle(Event::PaneUpdate(manifest(&[(0, &[10, 11])])));
    state.handle_pipe(activity_pipe(&[("pane_id", "11"), ("hook_event", "PostToolUse")]));
    state.handle_pipe(activity_pipe(&[("pane_id", "10"), ("hook_event", "Notification")]));

    // pane 10 finishes its session → Waiting gone, Thinking (pane 11) wins.
    let effects =
        state.handle_pipe(activity_pipe(&[("pane_id", "10"), ("hook_event", "SessionEnd")]));
    assert_eq!(show_effects(&effects), vec![(1, Some("● ".to_string()))]);
}

#[test]
fn session_end_on_last_pane_clears_the_prefix() {
    let mut state = ready_state();
    state.handle_pipe(activity_pipe(&[
        ("pane_id", "10"),
        ("hook_event", "PreToolUse"),
        ("tool_name", "Bash"),
    ]));
    let effects =
        state.handle_pipe(activity_pipe(&[("pane_id", "10"), ("hook_event", "SessionEnd")]));
    assert_eq!(show_effects(&effects), vec![(1, None)]);
}

#[test]
fn stale_ts_is_dropped() {
    let mut state = ready_state();
    state.handle_pipe(activity_pipe(&[
        ("pane_id", "10"),
        ("hook_event", "Notification"),
        ("ts_ms", "1000"),
    ]));
    // An older event (ts 500) must not overwrite the Waiting state.
    let effects = state.handle_pipe(activity_pipe(&[
        ("pane_id", "10"),
        ("hook_event", "PreToolUse"),
        ("tool_name", "Bash"),
        ("ts_ms", "500"),
    ]));
    assert_eq!(show_effects(&effects), vec![]);
}

#[test]
fn redundant_activity_emits_no_effect() {
    let mut state = ready_state();
    state.handle_pipe(activity_pipe(&[
        ("pane_id", "10"),
        ("hook_event", "PreToolUse"),
        ("tool_name", "Bash"),
    ]));
    let effects = state.handle_pipe(activity_pipe(&[
        ("pane_id", "10"),
        ("hook_event", "PreToolUse"),
        ("tool_name", "Bash"),
    ]));
    assert_eq!(show_effects(&effects), vec![]);
}

#[test]
fn pane_moved_between_tabs_clears_old_and_sets_new() {
    let mut state = State::default();
    state.handle(Event::TabUpdate(vec![tab(1, 0, true), tab(2, 1, false)]));
    state.handle(Event::PaneUpdate(manifest(&[(0, &[10]), (1, &[20])])));
    state.handle_pipe(activity_pipe(&[("pane_id", "10"), ("hook_event", "Notification")]));

    // pane 10 moves from tab 1 (pos 0) to tab 2 (pos 1).
    let effects = state.handle(Event::PaneUpdate(manifest(&[(0, &[]), (1, &[20, 10])])));
    let shows = show_effects(&effects);
    assert!(shows.contains(&(1, None)), "old tab must clear, got {shows:?}");
    assert!(
        shows.contains(&(2, Some("⚠ ".to_string()))),
        "new tab must show the symbol, got {shows:?}"
    );
}

#[test]
fn tab_closed_while_active_is_gc_d_without_emitting_to_it() {
    let mut state = ready_state();
    state.handle_pipe(activity_pipe(&[
        ("pane_id", "10"),
        ("hook_event", "PreToolUse"),
        ("tool_name", "Bash"),
    ]));
    // tab 1 closes: another tab takes its slot, its pane disappears.
    let e1 = state.handle(Event::TabUpdate(vec![tab(2, 0, true)]));
    let e2 = state.handle(Event::PaneUpdate(manifest(&[(0, &[20])])));
    for (tab_id, _) in show_effects(&e1).into_iter().chain(show_effects(&e2)) {
        assert_ne!(tab_id, 1, "must never emit to the dead tab");
    }
    assert!(state.shown(1).is_none());
    assert!(!state.has_activity(10));
}

#[test]
fn pane_update_before_tab_update_resolves_without_deferral() {
    let mut state = State::default();
    // PaneUpdate first: positions not yet mapped to tab_ids.
    state.handle(Event::PaneUpdate(manifest(&[(0, &[10])])));
    // Activity arriving in the gap is dropped (unmapped).
    let gap = state.handle_pipe(activity_pipe(&[
        ("pane_id", "10"),
        ("hook_event", "PreToolUse"),
        ("tool_name", "Bash"),
    ]));
    assert_eq!(show_effects(&gap), vec![]);
    // TabUpdate lands → mapping resolves, next activity maps correctly.
    state.handle(Event::TabUpdate(vec![tab(1, 0, true)]));
    let effects = state.handle_pipe(activity_pipe(&[
        ("pane_id", "10"),
        ("hook_event", "PreToolUse"),
        ("tool_name", "Bash"),
    ]));
    assert_eq!(show_effects(&effects), vec![(1, Some("⚡ ".to_string()))]);
}

#[test]
fn plugin_panes_are_ignored() {
    let mut state = State::default();
    state.handle(Event::TabUpdate(vec![tab(1, 0, true)]));
    let panes = PaneManifest {
        panes: [(
            0,
            vec![
                PaneInfo {
                    id: 10,
                    is_plugin: false,
                },
                PaneInfo {
                    id: 99,
                    is_plugin: true,
                },
            ],
        )]
        .into_iter()
        .collect(),
    };
    state.handle(Event::PaneUpdate(panes));
    // The plugin pane 99 is never mapped → its activity is dropped.
    let dropped = state.handle_pipe(activity_pipe(&[
        ("pane_id", "99"),
        ("hook_event", "PreToolUse"),
        ("tool_name", "Bash"),
    ]));
    assert_eq!(show_effects(&dropped), vec![]);
    // The terminal pane 10 works.
    let effects = state.handle_pipe(activity_pipe(&[
        ("pane_id", "10"),
        ("hook_event", "PreToolUse"),
        ("tool_name", "Bash"),
    ]));
    assert_eq!(show_effects(&effects), vec![(1, Some("⚡ ".to_string()))]);
}

#[test]
fn done_persists_as_check_prefix() {
    let mut state = ready_state();
    let effects = state.handle_pipe(activity_pipe(&[("pane_id", "10"), ("hook_event", "Stop")]));
    assert_eq!(show_effects(&effects), vec![(1, Some("✓ ".to_string()))]);
    assert_eq!(state.shown(1), Some(&"✓ ".to_string()));
}

#[test]
fn equal_ts_is_processed_and_absent_ts_never_drops() {
    let mut state = ready_state();
    state.handle_pipe(activity_pipe(&[
        ("pane_id", "10"),
        ("hook_event", "Notification"),
        ("ts_ms", "1000"),
    ]));
    // Equal ts (1000, not strictly older) is processed, not dropped.
    let e = state.handle_pipe(activity_pipe(&[
        ("pane_id", "10"),
        ("hook_event", "PreToolUse"),
        ("tool_name", "Bash"),
        ("ts_ms", "1000"),
    ]));
    assert_eq!(show_effects(&e), vec![(1, Some("⚡ ".to_string()))]);
    // Absent ts is never dropped (and leaves the ordering guard untouched).
    let e = state.handle_pipe(activity_pipe(&[("pane_id", "10"), ("hook_event", "Stop")]));
    assert_eq!(show_effects(&e), vec![(1, Some("✓ ".to_string()))]);
}

#[test]
fn session_end_on_unmapped_pane_is_a_noop() {
    let mut state = ready_state();
    let effects =
        state.handle_pipe(activity_pipe(&[("pane_id", "777"), ("hook_event", "SessionEnd")]));
    assert_eq!(show_effects(&effects), vec![]);
}

#[test]
fn idle_nudge_after_a_finished_turn_is_ignored() {
    let mut state = ready_state();
    state.handle_pipe(activity_pipe(&[("pane_id", "10"), ("hook_event", "Stop")]));
    let effects = state.handle_pipe(activity_pipe(&[
        ("pane_id", "10"),
        ("hook_event", "Notification"),
        ("notification", "idle"),
    ]));
    assert_eq!(show_effects(&effects), vec![]);
    assert_eq!(state.shown(1), Some(&"✓ ".to_string()));
}

#[test]
fn idle_nudge_during_a_long_tool_keeps_the_tool_symbol() {
    let mut state = ready_state();
    state.handle_pipe(activity_pipe(&[
        ("pane_id", "10"),
        ("hook_event", "PreToolUse"),
        ("tool_name", "Bash"),
    ]));
    let effects = state.handle_pipe(activity_pipe(&[
        ("pane_id", "10"),
        ("hook_event", "Notification"),
        ("notification", "idle"),
    ]));
    assert_eq!(show_effects(&effects), vec![]);
    assert_eq!(state.shown(1), Some(&"⚡ ".to_string()));
}

#[test]
fn a_new_prompt_does_not_rearm_the_idle_nudge() {
    let mut state = ready_state();
    state.handle_pipe(activity_pipe(&[("pane_id", "10"), ("hook_event", "Stop")]));
    state.handle_pipe(activity_pipe(&[("pane_id", "10"), ("hook_event", "UserPromptSubmit")]));
    let effects = state.handle_pipe(activity_pipe(&[
        ("pane_id", "10"),
        ("hook_event", "Notification"),
        ("notification", "idle"),
    ]));
    assert_eq!(show_effects(&effects), vec![]);
    assert_eq!(state.shown(1), Some(&"● ".to_string()));
}

#[test]
fn a_permission_notification_always_warns() {
    let mut state = ready_state();
    state.handle_pipe(activity_pipe(&[("pane_id", "10"), ("hook_event", "Stop")]));
    let effects = state.handle_pipe(activity_pipe(&[
        ("pane_id", "10"),
        ("hook_event", "Notification"),
        ("notification", "permission"),
    ]));
    assert_eq!(show_effects(&effects), vec![(1, Some("⚠ ".to_string()))]);
}

#[test]
fn an_absent_or_unknown_notification_kind_warns() {
    for kind in [None, Some("something-new")] {
        let mut state = ready_state();
        state.handle_pipe(activity_pipe(&[("pane_id", "10"), ("hook_event", "Stop")]));
        let mut args = vec![("pane_id", "10"), ("hook_event", "Notification")];
        if let Some(kind) = kind {
            args.push(("notification", kind));
        }
        let effects = state.handle_pipe(activity_pipe(&args));
        assert_eq!(
            show_effects(&effects),
            vec![(1, Some("⚠ ".to_string()))],
            "notification kind {kind:?} must still warn"
        );
    }
}

#[test]
fn subagent_stop_never_flips_a_waiting_pane_to_done() {
    let mut state = ready_state();
    state.handle_pipe(activity_pipe(&[
        ("pane_id", "10"),
        ("hook_event", "PreToolUse"),
        ("tool_name", "Bash"),
        ("ts_ms", "1000"),
    ]));
    state.handle_pipe(activity_pipe(&[
        ("pane_id", "10"),
        ("hook_event", "Notification"),
        ("ts_ms", "2000"),
    ]));
    let effects = state.handle_pipe(activity_pipe(&[
        ("pane_id", "10"),
        ("hook_event", "SubagentStop"),
        ("ts_ms", "3000"),
    ]));
    assert_eq!(show_effects(&effects), vec![]);
    assert_eq!(state.shown(1), Some(&"⚠ ".to_string()));
}

#[test]
fn stop_alone_marks_the_pane_done() {
    let mut state = ready_state();
    state.handle_pipe(activity_pipe(&[("pane_id", "10"), ("hook_event", "Notification")]));
    let effects = state.handle_pipe(activity_pipe(&[("pane_id", "10"), ("hook_event", "Stop")]));
    assert_eq!(show_effects(&effects), vec![(1, Some("✓ ".to_string()))]);
}

#[test]
fn debug_off_emits_no_log_effects() {
    let mut state = State::default();
    let mut effects = state.init(&Args::new());
    effects.extend(state.handle(Event::TabUpdate(vec![tab(1, 0, true)])));
    effects.extend(state.handle(Event::PaneUpdate(manifest(&[(0, &[10])]))));
    effects.extend(state.handle_pipe(activity_pipe(&[
        ("pane_id", "10"),
        ("hook_event", "PreToolUse"),
        ("tool_name", "Bash"),
    ])));
    assert_eq!(log_lines(&effects), Vec::<String>::new());
}

#[test]
fn debug_on_traces_the_whole_decision_path() {
    let mut state = State::default();
    state.init(&args_of(&[("debug", "true")]));
    state.handle(Event::TabUpdate(vec![tab(1, 0, true)]));
    state.handle(Event::PaneUpdate(manifest(&[(0, &[10])])));

    let acted = log_lines(&state.handle_pipe(activity_pipe(&[
        ("pane_id", "10"),
        ("hook_event", "PreToolUse"),
        ("tool_name", "Bash"),
    ])));
    assert!(
        acted.iter().any(|l| l.contains("PreToolUse/Bash -> Tool"))
            && acted.iter().any(|l| l.contains("tab 1: prefix -> Some")),
        "must trace the mapping and the emission, got {acted:?}"
    );

    let ignored = log_lines(&state.handle_pipe(activity_pipe(&[
        ("pane_id", "10"),
        ("hook_event", "SubagentStop"),
    ])));
    assert!(
        ignored.iter().any(|l| l.contains("unmapped, state kept")),
        "must trace the ignored event, got {ignored:?}"
    );

    let dropped =
        log_lines(&state.handle_pipe(activity_pipe(&[("pane_id", "777"), ("hook_event", "Stop")])));
    assert!(
        dropped.iter().any(|l| l.contains("not mapped to a tab yet")),
        "must trace the drop reason, got {dropped:?}"
    );
}

#[test]
fn tool_symbol_table() {
    assert_eq!(tool_symbol("Bash"), "⚡");
    assert_eq!(tool_symbol("Read"), "◉");
    assert_eq!(tool_symbol("Glob"), "◉");
    assert_eq!(tool_symbol("Grep"), "◉");
    assert_eq!(tool_symbol("Edit"), "✎");
    assert_eq!(tool_symbol("Write"), "✎");
    assert_eq!(tool_symbol("MultiEdit"), "✎");
    assert_eq!(tool_symbol("Agent"), "⊜");
    assert_eq!(tool_symbol("Task"), "⊜");
    assert_eq!(tool_symbol("WebSearch"), "◈");
    assert_eq!(tool_symbol("WebFetch"), "◈");
    assert_eq!(tool_symbol("SomethingUnknown"), "⚙");
}
