use zellij_agent_activity::activity::{activity_from_event, Activity};
use zellij_agent_activity::installer::{hook_script_content, install_command, HOOK_VERSION_TAG};
use zellij_agent_activity::protocol::{
    namer_message, Args, Effect, Event, EventKind, PaneInfo, PaneManifest, Permission, PipeMessage,
    PipeSource, TabInfo, PIPE_NAME,
};
use zellij_agent_activity::state::State;
use zellij_agent_activity::table::Table;
use zellij_agent_activity::text::{parse_u32, parse_u64, push_decimal, text_eq};

fn manifest(entries: &[(usize, &[u32])]) -> PaneManifest {
    PaneManifest {
        panes: entries
            .iter()
            .map(|(pos, ids)| {
                (*pos, ids.iter().map(|&id| PaneInfo { id, is_plugin: false }).collect())
            })
            .collect(),
    }
}

fn args_of(pairs: &[(&str, &str)]) -> Args {
    let mut args = Args::new();
    for (k, v) in pairs {
        args.insert(k.to_string(), v.to_string());
    }
    args
}

fn pipe(pairs: &[(&str, &str)]) -> PipeMessage {
    PipeMessage { source: PipeSource::Plugin(3), name: PIPE_NAME.to_string(), args: args_of(pairs) }
}

fn shows(effects: &[Effect]) -> Vec<(usize, Option<String>)> {
    effects
        .iter()
        .filter_map(|e| match e {
            Effect::ShowActivity { tab_id, prefix } => Some((*tab_id, prefix.clone())),
            _ => None,
        })
        .collect()
}

fn two_tabs() -> State {
    let mut state = State::new();
    state.handle(Event::TabUpdate(vec![
        TabInfo { tab_id: 7, position: 0, name: String::new() },
        TabInfo { tab_id: 8, position: 1, name: String::new() },
    ]));
    state.handle(Event::PaneUpdate(manifest(&[(0, &[1, 2]), (1, &[3])])));
    state
}

#[test]
fn parse_reads_digits_with_an_optional_plus() {
    assert_eq!(parse_u32("10"), Some(10));
    assert_eq!(parse_u32("+7"), Some(7));
    assert_eq!(parse_u32("007"), Some(7));
    assert_eq!(parse_u32("4294967295"), Some(u32::MAX));
    assert_eq!(parse_u64("18446744073709551615"), Some(u64::MAX));
}

#[test]
fn parse_refuses_what_str_parse_refuses() {
    for bad in ["", "+", "-1", "-", "1a", " 1", "4294967296", "++1"] {
        assert_eq!(parse_u32(bad), None, "{bad:?}");
        assert_eq!(bad.parse::<u32>().ok(), None);
    }
    assert_eq!(parse_u64("18446744073709551616"), None);
}

#[test]
fn decimal_forms_and_text_equality() {
    let mut s = String::new();
    push_decimal(&mut s, 0);
    push_decimal(&mut s, 1234567890);
    assert_eq!(s, "01234567890");
    assert!(text_eq("⚡", "⚡"));
    assert!(!text_eq("Bash", "bash"));
}

#[test]
fn table_insert_replaces_in_place_and_remove_keeps_order() {
    let mut t: Table<u32, u64> = Table::new();
    t.insert(5, 50);
    t.insert(6, 60);
    t.insert(5, 55);
    assert_eq!(t.len(), 2);
    assert_eq!(*t.key_at(0), 5);
    assert_eq!(t.get(&5), Some(&55));
    t.insert(7, 70);
    t.remove(&6);
    assert_eq!((*t.key_at(0), *t.key_at(1)), (5, 7));
    t.retain_in(&vec![7]);
    assert_eq!(t.len(), 1);
    assert!(t.contains_key(&7) && !t.contains_key(&5));
}

#[test]
fn activity_mapping_and_priorities() {
    assert_eq!(activity_from_event("SessionStart", "").unwrap().prefix(), "◆ ");
    assert_eq!(activity_from_event("UserPromptSubmit", "").unwrap().prefix(), "● ");
    assert_eq!(activity_from_event("PreToolUse", "Grep").unwrap().prefix(), "◉ ");
    assert_eq!(activity_from_event("Stop", "").unwrap().prefix(), "✓ ");
    assert!(activity_from_event("SubagentStop", "").is_none());
    assert!(activity_from_event("SessionEnd", "").is_none());
    assert!(Activity::Waiting.priority() > Activity::Tool("Bash".to_string()).priority());
    assert!(Activity::Tool("x".to_string()).priority() > Activity::Thinking.priority());
    assert!(Activity::Thinking.priority() > Activity::Init.priority());
    assert!(Activity::Init.priority() > Activity::Done.priority());
}

#[test]
fn equally_urgent_tools_show_the_later_entry() {
    let mut state = two_tabs();
    state.handle_pipe(pipe(&[("pane_id", "1"), ("hook_event", "PreToolUse"), ("tool_name", "Bash")]));
    let e = state.handle_pipe(pipe(&[("pane_id", "2"), ("hook_event", "PreToolUse"), ("tool_name", "Edit")]));
    assert_eq!(shows(&e), vec![(7, Some("✎ ".to_string()))]);
}

#[test]
fn waiting_pane_wins_whatever_the_other_panes_do() {
    let mut state = two_tabs();
    state.handle_pipe(pipe(&[("pane_id", "1"), ("hook_event", "Notification")]));
    for (event, tool) in [("PreToolUse", "Bash"), ("PostToolUse", ""), ("SessionStart", ""), ("Stop", "")] {
        let e = state.handle_pipe(pipe(&[("pane_id", "2"), ("hook_event", event), ("tool_name", tool)]));
        assert_eq!(shows(&e), vec![]);
        assert_eq!(state.shown(7), Some(&"⚠ ".to_string()));
    }
}

#[test]
fn repeating_a_message_changes_nothing() {
    let mut state = two_tabs();
    let msg = || pipe(&[("pane_id", "3"), ("hook_event", "PreToolUse"), ("tool_name", "WebFetch"), ("ts_ms", "9")]);
    let first = state.handle_pipe(msg());
    assert_eq!(shows(&first), vec![(8, Some("◈ ".to_string()))]);
    let second = state.handle_pipe(msg());
    assert_eq!(second, vec![]);
}

#[test]
fn messages_on_other_pipes_are_ignored_but_cli_pipes_unblocked() {
    let mut state = two_tabs();
    let e = state.handle_pipe(PipeMessage {
        source: PipeSource::Cli("p7".to_string()),
        name: "something_else".to_string(),
        args: args_of(&[("pane_id", "1"), ("hook_event", "Stop")]),
    });
    assert_eq!(e, vec![Effect::UnblockCliPipe("p7".to_string())]);
    assert!(!state.has_activity(1));
}

#[test]
fn unusable_pane_ids_are_dropped() {
    let mut state = two_tabs();
    for id in ["", "x", "-1", "4294967296"] {
        let e = state.handle_pipe(pipe(&[("pane_id", id), ("hook_event", "Stop")]));
        assert_eq!(e, vec![]);
    }
    let e = state.handle_pipe(pipe(&[("hook_event", "Stop")]));
    assert_eq!(e, vec![]);
}

#[test]
fn closing_a_tab_recomputes_the_others_in_order() {
    let mut state = two_tabs();
    state.handle_pipe(pipe(&[("pane_id", "1"), ("hook_event", "Stop")]));
    state.handle_pipe(pipe(&[("pane_id", "3"), ("hook_event", "PreToolUse"), ("tool_name", "Bash")]));
    assert_eq!(state.shown(8), Some(&"⚡ ".to_string()));
    // tab 7 closes; tab 8 takes position 0, whose panes (1, 2) are done
    let e = state.handle(Event::TabUpdate(vec![TabInfo { tab_id: 8, position: 0, name: String::new() }]));
    assert_eq!(shows(&e), vec![(8, Some("✓ ".to_string()))]);
    assert!(state.shown(7).is_none());
}

#[test]
fn debug_lines_have_their_exact_text() {
    let mut state = State::new();
    let e = state.init(&args_of(&[("debug", "1")]));
    assert_eq!(e[0], Effect::Log("debug tracing on (config: {\"debug\": \"1\"})".to_string()));
    let e = state.handle(Event::TabUpdate(vec![TabInfo { tab_id: 4, position: 2, name: String::new() }]));
    assert_eq!(e, vec![Effect::Log("tabs: position->tab_id {2: 4}".to_string())]);
    let e = state.handle(Event::PaneUpdate(manifest(&[(2, &[12])])));
    assert_eq!(e, vec![Effect::Log("panes: pane_id->tab_id {12: 4}".to_string())]);
    let e = state.handle_pipe(pipe(&[("pane_id", "12"), ("hook_event", "Stop"), ("ts_ms", "5")]));
    assert_eq!(
        e,
        vec![
            Effect::Log("pipe 'agent_activity.v1' args={\"hook_event\": \"Stop\", \"pane_id\": \"12\", \"ts_ms\": \"5\"}".to_string()),
            Effect::Log("pane 12 (tab 4): Stop/ -> Done".to_string()),
            Effect::Log("tab 4: prefix -> Some(\"✓ \")".to_string()),
            Effect::ShowActivity { tab_id: 4, prefix: Some("✓ ".to_string()) },
        ]
    );
    let e = state.handle_pipe(pipe(&[("pane_id", "12"), ("hook_event", "Stop"), ("ts_ms", "4")]));
    assert_eq!(e[1], Effect::Log("pane 12: drop, stale ts 4 < 5".to_string()));
    assert!(state.debug());
}

#[test]
fn hook_script_gets_the_version_tag_as_second_line() {
    let tagged = hook_script_content("#!/bin/bash\necho hi\n");
    assert_eq!(tagged, format!("#!/bin/bash\n{HOOK_VERSION_TAG}\necho hi\n"));
    assert_eq!(hook_script_content("no newline"), "no newline");
    assert_eq!(HOOK_VERSION_TAG, "# zellij-agent-activity v0.1.0");
}

#[test]
fn install_command_fills_the_template() {
    let (argv, ctx) = install_command("#!/bin/bash\nexit 0\n", ".agent");
    assert_eq!(argv.len(), 3);
    assert_eq!(argv[0], "sh");
    assert_eq!(argv[1], "-c");
    let script = &argv[2];
    assert!(script.starts_with("set -e\n"));
    assert!(!script.contains("__VERSION_TAG__") && !script.contains("__HOOK_SCRIPT__"));
    assert!(script.contains("grep -qF '# zellij-agent-activity v0.1.0' \"$HOOK_PATH\""));
    assert!(script.contains("<< 'CTI_HOOK_EOF'\n#!/bin/bash\n# zellij-agent-activity v0.1.0\nexit 0\n\nCTI_HOOK_EOF"));
    assert!(script.ends_with("echo \"installed\"\n"));
    assert!(script.contains("SETTINGS=\"$HOME/.agent/settings.json\""));
    assert!(script.contains("mkdir -p \"$HOME/.agent\""));
    assert!(!script.contains("__SETTINGS_DIR__"));
    assert_eq!(ctx.len(), 1);
    assert_eq!(ctx.key_at(0), "type");
    assert_eq!(ctx.value_at(0), "install_hooks");
}

#[test]
fn tool_names_are_quoted_in_debug_lines() {
    let mut state = State::new();
    state.init(&args_of(&[("debug", "true")]));
    state.handle(Event::TabUpdate(vec![TabInfo { tab_id: 1, position: 0, name: String::new() }]));
    state.handle(Event::PaneUpdate(manifest(&[(0, &[5])])));
    let e = state.handle_pipe(pipe(&[("pane_id", "5"), ("hook_event", "PreToolUse"), ("tool_name", "My\"Tool")]));
    assert_eq!(e[1], Effect::Log("pane 5 (tab 1): PreToolUse/My\"Tool -> Tool(\"My\\\"Tool\")".to_string()));
    assert_eq!(e[2], Effect::Log("tab 1: prefix -> Some(\"⚙ \")".to_string()));
}

#[test]
fn unknown_arguments_change_nothing() {
    let mut a = two_tabs();
    let mut b = two_tabs();
    let ea = a.handle_pipe(pipe(&[("pane_id", "1"), ("hook_event", "Stop")]));
    let eb = b.handle_pipe(pipe(&[("pane_id", "1"), ("hook_event", "Stop"), ("session", "xyz"), ("cwd", "/tmp")]));
    assert_eq!(shows(&ea), shows(&eb));
    assert_eq!(a.shown(7), b.shown(7));
}

#[test]
fn ordering_guard_only_moves_forward() {
    let mut state = two_tabs();
    state.handle_pipe(pipe(&[("pane_id", "1"), ("hook_event", "Stop"), ("ts_ms", "100")]));
    // an older report is dropped, a report without a time is accepted
    let e = state.handle_pipe(pipe(&[("pane_id", "1"), ("hook_event", "Notification"), ("ts_ms", "99")]));
    assert_eq!(shows(&e), vec![]);
    let e = state.handle_pipe(pipe(&[("pane_id", "1"), ("hook_event", "PostToolUse")]));
    assert_eq!(shows(&e), vec![(7, Some("● ".to_string()))]);
    // the guard still holds 100
    let e = state.handle_pipe(pipe(&[("pane_id", "1"), ("hook_event", "Stop"), ("ts_ms", "50")]));
    assert_eq!(shows(&e), vec![]);
}

#[test]
fn a_fresh_state_shows_nothing() {
    let state = State::default();
    assert!(state.shown(0).is_none());
    assert!(!state.debug());
    assert!(!state.has_activity(0));
}

fn named(tab_id: usize, position: usize, name: &str) -> TabInfo {
    TabInfo { tab_id, position, name: name.to_string() }
}

fn renames(effects: &[Effect]) -> Vec<(usize, String)> {
    effects
        .iter()
        .filter_map(|e| match e {
            Effect::RenameTab { tab_id, name } => Some((*tab_id, name.clone())),
            _ => None,
        })
        .collect()
}

fn rename_mode(tabs: Vec<TabInfo>) -> (State, Vec<Effect>) {
    let mut state = State::new();
    state.init(&args_of(&[("mode", "rename")]));
    state.handle(Event::PaneUpdate(manifest(&[(0, &[1]), (1, &[2])])));
    let e = state.handle(Event::TabUpdate(tabs));
    (state, e)
}

#[test]
fn rename_mode_asks_to_change_tab_names_instead_of_messaging_plugins() {
    let mut state = State::new();
    let e = state.init(&args_of(&[("mode", "rename")]));
    assert_eq!(
        e,
        vec![
            Effect::RequestPermissions(vec![
                Permission::ReadApplicationState,
                Permission::ReadCliPipes,
                Permission::ChangeApplicationState,
            ]),
            Effect::Subscribe(vec![EventKind::TabUpdate, EventKind::PaneUpdate]),
        ]
    );
}

#[test]
fn pipe_mode_asks_to_message_plugins() {
    let mut state = State::new();
    let e = state.init(&args_of(&[("mode", "pipe")]));
    assert_eq!(
        e[0],
        Effect::RequestPermissions(vec![
            Permission::ReadApplicationState,
            Permission::MessageAndLaunchOtherPlugins,
            Permission::ReadCliPipes,
        ])
    );
}

#[test]
fn a_misspelled_mode_logs_once_and_does_nothing() {
    let mut state = State::new();
    let e = state.init(&args_of(&[("mode", "renmae")]));
    assert_eq!(
        e,
        vec![Effect::Log(
            "config: mode \"renmae\" is neither \"pipe\" nor \"rename\"; doing nothing".to_string()
        )]
    );
    assert_eq!(state.handle(Event::TabUpdate(vec![named(1, 0, "a")])), vec![]);
    assert_eq!(state.handle(Event::PaneUpdate(manifest(&[(0, &[1])]))), vec![]);
    let mut message = pipe(&[("pane_id", "1"), ("hook_event", "Stop")]);
    message.source = PipeSource::Cli("p".to_string());
    assert_eq!(state.handle_pipe(message), vec![]);
    assert!(!state.has_activity(1));
}

#[test]
fn rename_mode_decorates_the_name_it_finds() {
    let (mut state, e) = rename_mode(vec![named(1, 0, "myrepo"), named(2, 1, "Tab #2")]);
    // nothing to do at load: every name is already what it should be
    assert_eq!(renames(&e), vec![]);
    let e = state.handle_pipe(pipe(&[("pane_id", "1"), ("hook_event", "PreToolUse"), ("tool_name", "Bash")]));
    assert_eq!(renames(&e), vec![(1, "⚡ myrepo".to_string())]);
    assert_eq!(shows(&e), vec![]);
    // the host echoes the new name back: the loop closes
    let e = state.handle(Event::TabUpdate(vec![named(1, 0, "⚡ myrepo"), named(2, 1, "Tab #2")]));
    assert_eq!(renames(&e), vec![]);
    // the user renames the tab: the symbol comes back on top
    let e = state.handle(Event::TabUpdate(vec![named(1, 0, "deploy"), named(2, 1, "Tab #2")]));
    assert_eq!(renames(&e), vec![(1, "⚡ deploy".to_string())]);
    // the session ends: the decoration is cleaned
    let e = state.handle_pipe(pipe(&[("pane_id", "1"), ("hook_event", "SessionEnd")]));
    assert_eq!(renames(&e), vec![(1, "deploy".to_string())]);
    // an unnamed tab is decorated as the host names it
    let e = state.handle_pipe(pipe(&[("pane_id", "2"), ("hook_event", "Notification")]));
    assert_eq!(renames(&e), vec![(2, "⚠ Tab #2".to_string())]);
}

#[test]
fn rename_mode_replaces_a_symbol_instead_of_stacking_it() {
    let (mut state, _) = rename_mode(vec![named(1, 0, "myrepo")]);
    state.handle_pipe(pipe(&[("pane_id", "1"), ("hook_event", "PreToolUse"), ("tool_name", "Bash")]));
    let e = state.handle_pipe(pipe(&[("pane_id", "1"), ("hook_event", "PostToolUse")]));
    assert_eq!(renames(&e), vec![(1, "● myrepo".to_string())]);
}

#[test]
fn rename_mode_repairs_a_leftover_symbol_at_load() {
    let (_, e) = rename_mode(vec![named(1, 0, "⚡ myrepo"), named(2, 1, "✓ notes")]);
    assert_eq!(renames(&e), vec![(1, "myrepo".to_string()), (2, "notes".to_string())]);
}

#[test]
fn rename_mode_logs_each_rename_when_debugging() {
    let mut state = State::new();
    state.init(&args_of(&[("mode", "rename"), ("debug", "true")]));
    state.handle(Event::PaneUpdate(manifest(&[(0, &[1])])));
    let e = state.handle(Event::TabUpdate(vec![named(1, 0, "⚙ x")]));
    assert_eq!(
        e,
        vec![
            Effect::Log("tabs: position->tab_id {0: 1}".to_string()),
            Effect::Log("tab 1: name -> \"x\"".to_string()),
            Effect::RenameTab { tab_id: 1, name: "x".to_string() },
        ]
    );
}

#[test]
fn namer_messages_set_or_clear_the_prefix() {
    let (name, args) = namer_message(42, &Some("⚡ ".to_string()));
    assert_eq!(name, "set_prefix");
    assert_eq!(args.len(), 2);
    assert_eq!(args.get(&"tab_id".to_string()), Some(&"42".to_string()));
    assert_eq!(args.get(&"value".to_string()), Some(&"⚡ ".to_string()));
    let (name, args) = namer_message(7, &None);
    assert_eq!(name, "clear_prefix");
    assert_eq!(args.len(), 1);
    assert_eq!(args.key_at(0), "tab_id");
    assert_eq!(args.value_at(0), "7");
}

#[test]
fn a_vanished_pane_loses_its_activity() {
    let mut state = two_tabs();
    state.handle_pipe(pipe(&[("pane_id", "3"), ("hook_event", "Stop")]));
    assert!(state.has_activity(3));
    state.handle(Event::PaneUpdate(manifest(&[(0, &[1, 2])])));
    assert!(!state.has_activity(3));
    assert!(state.shown(8).is_none());
}

#[test]
fn debug_gives_the_reason_a_report_is_dropped() {
    let mut state = two_tabs();
    state.init(&args_of(&[("debug", "true")]));
    let e = state.handle_pipe(pipe(&[("pane_id", "99"), ("hook_event", "Stop")]));
    assert_eq!(e[1], Effect::Log("pane 99: drop, not mapped to a tab yet".to_string()));
    let e = state.handle_pipe(pipe(&[("pane_id", "x"), ("hook_event", "Stop")]));
    assert_eq!(e.len(), 2);
    let e = state.handle_pipe(pipe(&[("pane_id", "1"), ("hook_event", "Notification"), ("notification", "idle")]));
    assert_eq!(e.len(), 2);
    assert_eq!(shows(&e), vec![]);
}

#[test]
fn debug_lines_print_arguments_in_key_order() {
    let mut state = State::new();
    state.init(&args_of(&[("debug", "true")]));
    let e = state.handle_pipe(pipe(&[("zeta", "1"), ("ab", "3"), ("a", "2"), ("é", "4")]));
    let map = "{\"a\": \"2\", \"ab\": \"3\", \"zeta\": \"1\", \"é\": \"4\"}";
    assert_eq!(e[0], Effect::Log(format!("pipe 'agent_activity.v1' args={map}")));
    assert_eq!(e[1], Effect::Log(format!("drop: no usable pane_id in {map}")));
}

#[test]
fn both_modes_make_the_same_decisions() {
    let mut pipe_mode = State::new();
    pipe_mode.init(&args_of(&[("mode", "pipe")]));
    let (mut rename, _) = rename_mode(vec![named(1, 0, "a"), named(2, 1, "b")]);
    pipe_mode.handle(Event::PaneUpdate(manifest(&[(0, &[1]), (1, &[2])])));
    pipe_mode.handle(Event::TabUpdate(vec![named(1, 0, "a"), named(2, 1, "b")]));
    let reports: [&[(&str, &str)]; 4] = [
        &[("pane_id", "1"), ("hook_event", "PreToolUse"), ("tool_name", "Edit")],
        &[("pane_id", "2"), ("hook_event", "Notification")],
        &[("pane_id", "1"), ("hook_event", "Stop")],
        &[("pane_id", "2"), ("hook_event", "SessionEnd")],
    ];
    for report in reports {
        let shown = shows(&pipe_mode.handle_pipe(pipe(report)));
        let renamed = renames(&rename.handle_pipe(pipe(report)));
        assert_eq!(shown.len(), renamed.len());
        for ((t1, prefix), (t2, name)) in shown.iter().zip(renamed.iter()) {
            assert_eq!(t1, t2);
            let base = if *t1 == 1 { "a" } else { "b" };
            assert_eq!(*name, format!("{}{base}", prefix.clone().unwrap_or_default()));
        }
        assert_eq!(pipe_mode.has_activity(1), rename.has_activity(1));
        assert_eq!(pipe_mode.has_activity(2), rename.has_activity(2));
    }
}

#[test]
fn the_version_tag_line_comes_back_out() {
    for script in ["#!/bin/bash\necho hi\n", "a\n\nb", "\n", "one line"] {
        let tagged = hook_script_content(script);
        assert_eq!(tagged.replacen(&format!("\n{HOOK_VERSION_TAG}"), "", 1), script);
    }
}

#[test]
fn plugin_panes_are_not_mapped() {
    let mut state = State::new();
    state.handle(Event::TabUpdate(vec![named(1, 0, "a")]));
    state.handle(Event::PaneUpdate(PaneManifest {
        panes: vec![(0, vec![PaneInfo { id: 4, is_plugin: true }, PaneInfo { id: 5, is_plugin: false }])],
    }));
    let e = state.handle_pipe(pipe(&[("pane_id", "4"), ("hook_event", "Stop")]));
    assert_eq!(shows(&e), vec![]);
    assert!(!state.has_activity(4));
    let e = state.handle_pipe(pipe(&[("pane_id", "5"), ("hook_event", "Stop")]));
    assert_eq!(shows(&e), vec![(1, Some("✓ ".to_string()))]);
}

#[test]
fn a_tab_update_shows_each_changed_tab_once_in_order() {
    let mut state = two_tabs();
    state.handle_pipe(pipe(&[("pane_id", "1"), ("hook_event", "Stop")]));
    state.handle_pipe(pipe(&[("pane_id", "3"), ("hook_event", "Notification")]));
    // the tabs swap positions: both now hold the other's panes
    let e = state.handle(Event::TabUpdate(vec![named(8, 0, ""), named(7, 1, "")]));
    assert_eq!(shows(&e), vec![(8, Some("✓ ".to_string())), (7, Some("⚠ ".to_string()))]);
}
