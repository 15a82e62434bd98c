//! The plugin's state machine: host events and pipe messages in, effects
//! out. Every method does to the state's view exactly what the function of
//! the same name in `model` says, and returns the effects it lists.
use vstd::prelude::*;

use crate::activity::{activity_from_event, compose_name_of, priority_of, Activity, ActivityView};
use crate::laws::{
    consistent, law_handle_keeps_consistent, law_handle_pipe_keeps_consistent,
    law_init_keeps_consistent, law_initial_state_consistent, wf,
};
use crate::model::{
    all_pane_ids, arg_or_empty, bind_all, configured_sink, desired_prefix, events_subscribed,
    handle, handle_pipe, init, initial_state, name_table, on_activity, on_mapped_activity,
    on_pane_update, on_tab_update, pane_table, pane_tabs, parsed_pane, parsed_ts,
    permissions_requested, recompute_tab, recompute_tabs, rename_tab, show_prefix, tab_id_list,
    tab_ids, tab_table, terminal_ids, winner, StateView,
};
use crate::protocol::{
    effect_views, manifest_view, Args, Effect, EffectView, Event, EventKind, PaneInfo,
    PaneManifest, Permission, PipeMessage, PipeSource, Sink, TabInfo, TabInfoView, PIPE_NAME,
};
use crate::table::{key_views, lookup, Table};
use crate::text::{parse_u32, parse_u64, text_eq};
use crate::trace::{
    line_bad_mode, line_idle, line_init, line_kept, line_mapped, line_no_pane, line_panes,
    line_pipe, line_prefix, line_rename, line_session_end, line_stale, line_tabs,
    line_unmapped_pane, line_waiting,
};

verus! {

/// Appends an effect.
fn emit(effects: &mut Vec<Effect>, e: Effect)
    ensures
        effect_views(final(effects)@) == effect_views(old(effects)@).push(e@),
{
    let ghost before = effects@;
    effects.push(e);
    assert(effect_views(effects@) =~= effect_views(before).push(e@));
}

/// The value of argument `key`.
fn arg<'a>(args: &'a Args, key: &str) -> (r: Option<&'a String>)
    ensures
        match r {
            Some(v) => lookup(args@, key@) == Some(v@),
            None => lookup(args@, key@) is None,
        },
{
    let k = key.to_owned();
    args.get(&k)
}

/// The value of argument `key`, or the empty string.
fn arg_text<'a>(args: &'a Args, key: &str) -> (r: &'a str)
    ensures
        r@ == arg_or_empty(args@, key@),
{
    match arg(args, key) {
        Some(v) => v.as_str(),
        None => {
            proof {
                reveal_strlit("");
            }
            ""
        },
    }
}

/// The plugin's state.
pub struct State {
    tab_id_by_pos: Table<usize, usize>,
    panes: Table<usize, Vec<u32>>,
    pane_to_tab: Table<u32, usize>,
    pane_activity: Table<u32, Activity>,
    shown: Table<usize, String>,
    last_ts: Table<u32, u64>,
    tab_name: Table<usize, String>,
    sink: Sink,
    debug: bool,
}

impl View for State {
    type V = StateView;

    closed spec fn view(&self) -> StateView {
        StateView {
            tabs: self.tab_id_by_pos@,
            panes: self.panes@,
            pane_to_tab: self.pane_to_tab@,
            activity: self.pane_activity@,
            shown: self.shown@,
            last_ts: self.last_ts@,
            tab_name: self.tab_name@,
            sink: self.sink,
            debug: self.debug,
        }
    }
}

impl Default for State {
    fn default() -> (s: Self)
        ensures
            s@ == initial_state(),
    {
        State::new()
    }
}

impl State {
    /// Every table of the state has unique keys.
    fn note_wf(&self)
        ensures
            wf(self@),
    {
        proof {
            use_type_invariant(&self.tab_id_by_pos);
            use_type_invariant(&self.panes);
            use_type_invariant(&self.pane_to_tab);
            use_type_invariant(&self.pane_activity);
            use_type_invariant(&self.shown);
            use_type_invariant(&self.last_ts);
            use_type_invariant(&self.tab_name);
        }
    }

    /// The state before anything happened.
    pub fn new() -> (s: Self)
        ensures
            s@ == initial_state(),
            consistent(s@),
    {
        proof {
            law_initial_state_consistent();
        }
        State {
            tab_id_by_pos: Table::new(),
            panes: Table::new(),
            pane_to_tab: Table::new(),
            pane_activity: Table::new(),
            shown: Table::new(),
            last_ts: Table::new(),
            tab_name: Table::new(),
            sink: Sink::Pipe,
            debug: false,
        }
    }

    /// The prefix last shown on a tab.
    pub fn shown(&self, tab_id: usize) -> (r: Option<&String>)
        ensures
            match r {
                Some(p) => lookup(self@.shown, tab_id) == Some(p@),
                None => lookup(self@.shown, tab_id) is None,
            },
    {
        self.shown.get(&tab_id)
    }

    /// Whether an activity is recorded for a pane.
    pub fn has_activity(&self, pane_id: u32) -> (b: bool)
        ensures
            b == (lookup(self@.activity, pane_id) is Some),
    {
        self.pane_activity.get(&pane_id).is_some()
    }

    /// Whether diagnostic lines are emitted.
    pub fn debug(&self) -> (b: bool)
        ensures
            b == self@.debug,
    {
        self.debug
    }

    /// Loading: reads `debug` and `mode` from the configuration. In a known
    /// mode, asks for the permissions that mode uses and subscribes to tab
    /// and pane updates; in an unknown one, only logs that it does nothing.
    pub fn init(&mut self, config: &Args) -> (effects: Vec<Effect>)
        ensures
            (final(self)@, effect_views(effects@)) == init(old(self)@, config@),
            wf(final(self)@),
            (consistent(old(self)@) && (old(self)@.tabs.len() == 0 || configured_sink(config@)
                == old(self)@.sink)) ==> consistent(final(self)@),
    {
        proof {
            if consistent(self@) && (self@.tabs.len() == 0 || configured_sink(config@)
                == self@.sink) {
                law_init_keeps_consistent(self@, config@);
            }
        }
        let mut effects: Vec<Effect> = Vec::new();
        let debug = match arg(config, "debug") {
            Some(v) => text_eq(v.as_str(), "true") || text_eq(v.as_str(), "1"),
            None => false,
        };
        let sink = match arg(config, "mode") {
            None => Sink::Pipe,
            Some(v) => if text_eq(v.as_str(), "pipe") {
                Sink::Pipe
            } else if text_eq(v.as_str(), "rename") {
                Sink::Rename
            } else {
                Sink::Unconfigured
            },
        };
        assert(sink == configured_sink(config@));
        self.debug = debug;
        self.sink = sink;
        match sink {
            Sink::Unconfigured => {
                // a configuration error is logged whether or not debugging is on
                let mode = match arg(config, "mode") {
                    Some(v) => v.as_str(),
                    None => {
                        proof {
                            reveal_strlit("");
                        }
                        ""
                    },
                };
                emit(&mut effects, Effect::Log(line_bad_mode(mode)));
            },
            _ => {
                if self.debug {
                    emit(&mut effects, Effect::Log(line_init(config)));
                }
                let mut permissions: Vec<Permission> = Vec::new();
                permissions.push(Permission::ReadApplicationState);
                match sink {
                    Sink::Rename => {
                        permissions.push(Permission::ReadCliPipes);
                        permissions.push(Permission::ChangeApplicationState);
                    },
                    _ => {
                        permissions.push(Permission::MessageAndLaunchOtherPlugins);
                        permissions.push(Permission::ReadCliPipes);
                    },
                }
                assert(permissions@ =~= permissions_requested(sink));
                emit(&mut effects, Effect::RequestPermissions(permissions));
                let mut kinds: Vec<EventKind> = Vec::new();
                kinds.push(EventKind::TabUpdate);
                kinds.push(EventKind::PaneUpdate);
                assert(kinds@ =~= events_subscribed());
                emit(&mut effects, Effect::Subscribe(kinds));
            },
        }
        let ghost e = init(old(self)@, config@).1;
        assert(effect_views(effects@) =~= e);
        self.note_wf();
        effects
    }

    /// A host event. Without a known mode, nothing happens.
    pub fn handle(&mut self, event: Event) -> (effects: Vec<Effect>)
        ensures
            (final(self)@, effect_views(effects@)) == handle(old(self)@, event@),
            wf(final(self)@),
            consistent(old(self)@) ==> consistent(final(self)@),
    {
        proof {
            if consistent(self@) {
                law_handle_keeps_consistent(self@, event@);
            }
        }
        let mut effects: Vec<Effect> = Vec::new();
        assert(effect_views(effects@) =~= Seq::<EffectView>::empty());
        if let Sink::Unconfigured = self.sink {
            self.note_wf();
            return effects;
        }
        match event {
            Event::TabUpdate(tabs) => self.on_tab_update(tabs, &mut effects),
            Event::PaneUpdate(manifest) => self.on_pane_update(manifest, &mut effects),
            Event::Other => {},
        }
        self.note_wf();
        effects
    }

    /// A pipe message. Without a known mode, nothing happens.
    pub fn handle_pipe(&mut self, message: PipeMessage) -> (effects: Vec<Effect>)
        ensures
            (final(self)@, effect_views(effects@)) == handle_pipe(old(self)@, message@),
            wf(final(self)@),
            consistent(old(self)@) ==> consistent(final(self)@),
    {
        proof {
            if consistent(self@) {
                law_handle_pipe_keeps_consistent(self@, message@);
            }
        }
        let mut effects: Vec<Effect> = Vec::new();
        assert(effect_views(effects@) =~= Seq::<EffectView>::empty());
        if let Sink::Unconfigured = self.sink {
            self.note_wf();
            return effects;
        }
        if self.debug {
            emit(&mut effects, Effect::Log(line_pipe(message.name.as_str(), &message.args)));
        }
        match &message.source {
            PipeSource::Cli(pipe_id) => {
                // the producer's `zellij pipe` blocks until it is unblocked
                emit(&mut effects, Effect::UnblockCliPipe(pipe_id.clone()));
            },
            _ => {},
        }
        let ghost e01 = effect_views(effects@);
        if text_eq(message.name.as_str(), PIPE_NAME) {
            self.on_activity(&message.args, &mut effects);
        }
        proof {
            if message.name@ == PIPE_NAME@ {
                assert(effect_views(effects@) =~= e01 + on_activity(old(self)@, message.args@).1);
            }
        }
        self.note_wf();
        effects
    }

    /// An activity report: stale, unmapped and unusable reports are
    /// dropped; otherwise the pane's activity is updated and its tab recomputed.
    pub fn on_activity(&mut self, args: &Args, effects: &mut Vec<Effect>)
        ensures
            final(self)@ == on_activity(old(self)@, args@).0,
            effect_views(final(effects)@) == effect_views(old(effects)@) + on_activity(
                old(self)@,
                args@,
            ).1,
    {
        let ghost m = self@;
        let ghost e0 = effect_views(effects@);
        let pane = match arg(args, "pane_id") {
            Some(s) => parse_u32(s.as_str()),
            None => None,
        };
        let pane_id = match pane {
            Some(p) => p,
            None => {
                if self.debug {
                    emit(effects, Effect::Log(line_no_pane(args)));
                }
                assert(effect_views(effects@) =~= e0 + on_activity(m, args@).1);
                return ;
            },
        };
        assert(parsed_pane(args@) == Some(pane_id));
        let ts = match arg(args, "ts_ms") {
            Some(s) => parse_u64(s.as_str()),
            None => None,
        };
        assert(parsed_ts(args@) == ts);
        match ts {
            Some(t) => {
                match self.last_ts.get(&pane_id) {
                    Some(last) => {
                        if t < *last {
                            if self.debug {
                                emit(effects, Effect::Log(line_stale(pane_id, t, *last)));
                            }
                            assert(effect_views(effects@) =~= e0 + on_activity(m, args@).1);
                            return ;
                        }
                    },
                    None => {},
                }
                self.last_ts.insert(pane_id, t);
            },
            None => {},
        }
        let tab_id = match self.pane_to_tab.get(&pane_id) {
            Some(t) => *t,
            None => {
                if self.debug {
                    emit(effects, Effect::Log(line_unmapped_pane(pane_id)));
                }
                assert(effect_views(effects@) =~= e0 + on_activity(m, args@).1);
                return ;
            },
        };
        self.on_mapped_activity(args, pane_id, tab_id, effects);
    }

    /// An activity report for a pane mapped to `tab_id`.
    pub fn on_mapped_activity(
        &mut self,
        args: &Args,
        pane_id: u32,
        tab_id: usize,
        effects: &mut Vec<Effect>,
    )
        ensures
            final(self)@ == on_mapped_activity(old(self)@, args@, pane_id, tab_id).0,
            effect_views(final(effects)@) == effect_views(old(effects)@) + on_mapped_activity(
                old(self)@,
                args@,
                pane_id,
                tab_id,
            ).1,
    {
        let ghost m = self@;
        let ghost e0 = effect_views(effects@);
        let event = arg_text(args, "hook_event");
        if text_eq(event, "SessionEnd") {
            if self.debug {
                emit(effects, Effect::Log(line_session_end(pane_id, tab_id)));
            }
            self.pane_activity.remove(&pane_id);
            self.recompute_tab(tab_id, effects);
            assert(effect_views(effects@) =~= e0 + on_mapped_activity(m, args@, pane_id, tab_id).1);
            return ;
        }
        if text_eq(event, "Notification") {
            // An idle nudge asks for nothing; any other kind, known or not,
            // counts as needing the user.
            let idle = match arg(args, "notification") {
                Some(kind) => text_eq(kind.as_str(), "idle"),
                None => false,
            };
            if idle {
                if self.debug {
                    emit(effects, Effect::Log(line_idle(pane_id, tab_id)));
                }
                assert(effect_views(effects@) =~= e0 + on_mapped_activity(
                    m,
                    args@,
                    pane_id,
                    tab_id,
                ).1);
                return ;
            }
            if self.debug {
                emit(effects, Effect::Log(line_waiting(pane_id, tab_id)));
            }
            self.pane_activity.insert(pane_id, Activity::Waiting);
            self.recompute_tab(tab_id, effects);
            assert(effect_views(effects@) =~= e0 + on_mapped_activity(m, args@, pane_id, tab_id).1);
            return ;
        }
        let tool = arg_text(args, "tool_name");
        match activity_from_event(event, tool) {
            Some(activity) => {
                if self.debug {
                    emit(effects, Effect::Log(line_mapped(pane_id, tab_id, event, tool, &activity)));
                }
                self.pane_activity.insert(pane_id, activity);
                self.recompute_tab(tab_id, effects);
                assert(effect_views(effects@) =~= e0 + on_mapped_activity(
                    m,
                    args@,
                    pane_id,
                    tab_id,
                ).1);
            },
            None => {
                if self.debug {
                    emit(effects, Effect::Log(line_kept(pane_id, tab_id, event, tool)));
                }
                assert(effect_views(effects@) =~= e0 + on_mapped_activity(
                    m,
                    args@,
                    pane_id,
                    tab_id,
                ).1);
            },
        }
    }

    /// A tab update.
    fn on_tab_update(&mut self, tabs: Vec<TabInfo>, effects: &mut Vec<Effect>)
        ensures
            final(self)@ == on_tab_update(old(self)@, tabs@.map_values(|t: TabInfo| t@)).0,
            effect_views(final(effects)@) == effect_views(old(effects)@) + on_tab_update(
                old(self)@,
                tabs@.map_values(|t: TabInfo| t@),
            ).1,
    {
        let ghost m = self@;
        let ghost e0 = effect_views(effects@);
        let ghost tv = tabs@.map_values(|t: TabInfo| t@);
        let mut table: Table<usize, usize> = Table::new();
        let mut names: Table<usize, String> = Table::new();
        let mut alive: Vec<usize> = Vec::new();
        let n = tabs.len();
        let mut i: usize = 0;
        assert(tv.take(0) =~= Seq::<TabInfoView>::empty());
        assert(alive@ =~= tab_id_list(tv.take(0)));
        while i < n
            invariant
                n == tabs@.len(),
                tv == tabs@.map_values(|t: TabInfo| t@),
                i <= n,
                table@ == tab_table(tv.take(i as int)),
                names@ == name_table(tv.take(i as int)),
                alive@ == tab_id_list(tv.take(i as int)),
            decreases n - i,
        {
            let t = &tabs[i];
            assert(tv[i as int] == t@);
            table.insert(t.position, t.tab_id);
            names.insert(t.tab_id, t.name.clone());
            alive.push(t.tab_id);
            assert(tv.take(i + 1).drop_last() =~= tv.take(i as int));
            assert(tv.take(i + 1).last() == t@);
            i = i + 1;
            assert(alive@ =~= tab_id_list(tv.take(i as int)));
        }
        assert(tv.take(n as int) =~= tv);
        assert(key_views(alive@) =~= tab_id_list(tv));
        self.tab_id_by_pos = table;
        self.tab_name = names;
        self.shown.retain_in(&alive);
        self.rebuild_pane_to_tab();
        if self.debug {
            emit(effects, Effect::Log(line_tabs(&self.tab_id_by_pos)));
        }
        self.recompute_all(effects);
        assert(effect_views(effects@) =~= e0 + on_tab_update(m, tv).1);
    }

    /// A pane update.
    fn on_pane_update(&mut self, manifest: PaneManifest, effects: &mut Vec<Effect>)
        ensures
            final(self)@ == on_pane_update(old(self)@, manifest_view(manifest)).0,
            effect_views(final(effects)@) == effect_views(old(effects)@) + on_pane_update(
                old(self)@,
                manifest_view(manifest),
            ).1,
    {
        let ghost m = self@;
        let ghost e0 = effect_views(effects@);
        let ghost entries = manifest_view(manifest);
        let mut panes: Table<usize, Vec<u32>> = Table::new();
        let n = manifest.panes.len();
        let mut i: usize = 0;
        assert(entries.take(0) =~= Seq::<(usize, Seq<PaneInfo>)>::empty());
        while i < n
            invariant
                n == entries.len(),
                entries == manifest_view(manifest),
                i <= n,
                panes@ == pane_table(entries.take(i as int)),
            decreases n - i,
        {
            let pos = manifest.panes[i].0;
            let infos = &manifest.panes[i].1;
            assert(entries[i as int] == (pos, infos@));
            let mut ids: Vec<u32> = Vec::new();
            let k = infos.len();
            let mut j: usize = 0;
            assert(infos@.take(0) =~= Seq::<PaneInfo>::empty());
            assert(ids@ =~= terminal_ids(infos@.take(0)));
            while j < k
                invariant
                    k == infos@.len(),
                    j <= k,
                    ids@ == terminal_ids(infos@.take(j as int)),
                decreases k - j,
            {
                let p = infos[j];
                if !p.is_plugin {
                    ids.push(p.id);
                }
                assert(infos@.take(j + 1).drop_last() =~= infos@.take(j as int));
                assert(infos@.take(j + 1).last() == p);
                j = j + 1;
                assert(ids@ =~= terminal_ids(infos@.take(j as int)));
            }
            assert(infos@.take(k as int) =~= infos@);
            panes.insert(pos, ids);
            assert(entries.take(i + 1).drop_last() =~= entries.take(i as int));
            assert(entries.take(i + 1).last() == entries[i as int]);
            i = i + 1;
        }
        assert(entries.take(n as int) =~= entries);
        let alive = Self::all_ids(&panes);
        assert(key_views(alive@) =~= alive@);
        self.panes = panes;
        self.pane_activity.retain_in(&alive);
        self.last_ts.retain_in(&alive);
        self.rebuild_pane_to_tab();
        if self.debug {
            emit(effects, Effect::Log(line_panes(&self.pane_to_tab)));
        }
        self.recompute_all(effects);
        assert(effect_views(effects@) =~= e0 + on_pane_update(m, entries).1);
    }

    /// Every pane id of a pane table, in order.
    fn all_ids(panes: &Table<usize, Vec<u32>>) -> (ids: Vec<u32>)
        ensures
            ids@ == all_pane_ids(panes@),
    {
        let mut ids: Vec<u32> = Vec::new();
        let n = panes.len();
        let mut i: usize = 0;
        assert(panes@.take(0) =~= Seq::<(usize, Seq<u32>)>::empty());
        assert(ids@ =~= all_pane_ids(panes@.take(0)));
        while i < n
            invariant
                n == panes@.len(),
                i <= n,
                ids@ == all_pane_ids(panes@.take(i as int)),
            decreases n - i,
        {
            let v = panes.value_at(i);
            let ghost before = ids@;
            let k = v.len();
            let mut j: usize = 0;
            while j < k
                invariant
                    k == v@.len(),
                    j <= k,
                    ids@ == before + v@.take(j as int),
                decreases k - j,
            {
                ids.push(v[j]);
                j = j + 1;
                assert(ids@ =~= before + v@.take(j as int));
            }
            assert(v@.take(k as int) =~= v@);
            assert(panes@.take(i + 1).drop_last() =~= panes@.take(i as int));
            assert(panes@.take(i + 1).last() == panes@[i as int]);
            i = i + 1;
        }
        assert(panes@.take(n as int) =~= panes@);
        ids
    }

    /// Maps every pane of a known position to the tab at that position.
    fn rebuild_pane_to_tab(&mut self)
        ensures
            final(self)@ == (StateView {
                pane_to_tab: pane_tabs(old(self)@.panes, old(self)@.tabs),
                ..old(self)@
            }),
    {
        let ghost panes = self.panes@;
        let ghost tabs = self.tab_id_by_pos@;
        let mut map: Table<u32, usize> = Table::new();
        let n = self.panes.len();
        let mut i: usize = 0;
        assert(panes.take(0) =~= Seq::<(usize, Seq<u32>)>::empty());
        while i < n
            invariant
                n == panes.len(),
                panes == self.panes@,
                tabs == self.tab_id_by_pos@,
                i <= n,
                map@ == pane_tabs(panes.take(i as int), tabs),
            decreases n - i,
        {
            let pos = *self.panes.key_at(i);
            assert(panes.take(i + 1).drop_last() =~= panes.take(i as int));
            assert(panes.take(i + 1).last() == panes[i as int]);
            match self.tab_id_by_pos.get(&pos) {
                Some(t) => {
                    let tab = *t;
                    let ids = self.panes.value_at(i);
                    let ghost prev = map@;
                    let k = ids.len();
                    let mut j: usize = 0;
                    assert(ids@.take(0) =~= Seq::<u32>::empty());
                    while j < k
                        invariant
                            k == ids@.len(),
                            j <= k,
                            map@ == bind_all(prev, ids@.take(j as int), tab),
                        decreases k - j,
                    {
                        map.insert(ids[j], tab);
                        assert(ids@.take(j + 1).drop_last() =~= ids@.take(j as int));
                        assert(ids@.take(j + 1).last() == ids@[j as int]);
                        j = j + 1;
                    }
                    assert(ids@.take(k as int) =~= ids@);
                },
                None => {},
            }
            i = i + 1;
        }
        assert(panes.take(n as int) =~= panes);
        self.pane_to_tab = map;
    }

    /// Recomputes every tab of the position table, in order.
    fn recompute_all(&mut self, effects: &mut Vec<Effect>)
        ensures
            final(self)@ == recompute_tabs(old(self)@, tab_ids(old(self)@.tabs)).0,
            effect_views(final(effects)@) == effect_views(old(effects)@) + recompute_tabs(
                old(self)@,
                tab_ids(old(self)@.tabs),
            ).1,
    {
        let ghost m = self@;
        let ghost e0 = effect_views(effects@);
        let mut ids: Vec<usize> = Vec::new();
        let n = self.tab_id_by_pos.len();
        let mut i: usize = 0;
        while i < n
            invariant
                n == self.tab_id_by_pos@.len(),
                m == self@,
                i <= n,
                ids@ =~= tab_ids(m.tabs).take(i as int),
            decreases n - i,
        {
            ids.push(*self.tab_id_by_pos.value_at(i));
            i = i + 1;
        }
        assert(ids@ =~= tab_ids(m.tabs));
        let mut j: usize = 0;
        assert(ids@.take(0) =~= Seq::<usize>::empty());
        while j < n
            invariant
                n == ids@.len(),
                ids@ == tab_ids(m.tabs),
                j <= n,
                self@ == recompute_tabs(m, ids@.take(j as int)).0,
                effect_views(effects@) == e0 + recompute_tabs(m, ids@.take(j as int)).1,
            decreases n - j,
        {
            assert(ids@.take(j + 1).drop_last() =~= ids@.take(j as int));
            assert(ids@.take(j + 1).last() == ids@[j as int]);
            self.recompute_tab(ids[j], effects);
            j = j + 1;
            assert(effect_views(effects@) =~= e0 + recompute_tabs(m, ids@.take(j as int)).1);
        }
        assert(ids@.take(n as int) =~= ids@);
    }

    /// The prefix that a tab should show: that of the most urgent activity
    /// among its panes.
    fn desired_prefix(&self, tab_id: usize) -> (r: Option<String>)
        ensures
            match r {
                Some(p) => desired_prefix(self@, tab_id) == Some(p@),
                None => desired_prefix(self@, tab_id) is None,
            },
    {
        let ghost act = self.pane_activity@;
        let ghost p2t = self.pane_to_tab@;
        let n = self.pane_activity.len();
        let mut best: Option<usize> = None;
        let mut best_priority: u8 = 0;
        let mut i: usize = 0;
        assert(act.take(0) =~= Seq::<(u32, ActivityView)>::empty());
        while i < n
            invariant
                n == act.len(),
                act == self.pane_activity@,
                p2t == self.pane_to_tab@,
                i <= n,
                match best {
                    None => winner(act.take(i as int), p2t, tab_id) is None,
                    Some(j) => j < i && winner(act.take(i as int), p2t, tab_id) == Some(
                        act[j as int].1,
                    ) && best_priority == priority_of(act[j as int].1),
                },
            decreases n - i,
        {
            let pane = self.pane_activity.key_at(i);
            let in_tab = match self.pane_to_tab.get(pane) {
                Some(t) => *t == tab_id,
                None => false,
            };
            assert(act.take(i + 1).drop_last() =~= act.take(i as int));
            assert(act.take(i + 1).last() == act[i as int]);
            if in_tab {
                let priority = self.pane_activity.value_at(i).priority();
                if best.is_none() || priority >= best_priority {
                    best = Some(i);
                    best_priority = priority;
                }
            }
            i = i + 1;
        }
        assert(act.take(n as int) =~= act);
        match best {
            Some(j) => Some(self.pane_activity.value_at(j).prefix()),
            None => None,
        }
    }

    /// Recomputes what a tab shows, in the way the sink realises it.
    pub fn recompute_tab(&mut self, tab_id: usize, effects: &mut Vec<Effect>)
        ensures
            final(self)@ == recompute_tab(old(self)@, tab_id).0,
            effect_views(final(effects)@) == effect_views(old(effects)@) + recompute_tab(
                old(self)@,
                tab_id,
            ).1,
    {
        match self.sink {
            Sink::Pipe => self.show_prefix(tab_id, effects),
            Sink::Rename => self.rename_tab(tab_id, effects),
            Sink::Unconfigured => {
                assert(effect_views(effects@) =~= effect_views(effects@) + Seq::<
                    EffectView,
                >::empty());
            },
        }
    }

    /// Shows a tab's prefix through the namer, if it changed.
    fn show_prefix(&mut self, tab_id: usize, effects: &mut Vec<Effect>)
        ensures
            final(self)@ == show_prefix(old(self)@, tab_id).0,
            effect_views(final(effects)@) == effect_views(old(effects)@) + show_prefix(
                old(self)@,
                tab_id,
            ).1,
    {
        let ghost m = self@;
        let ghost e0 = effect_views(effects@);
        let desired = self.desired_prefix(tab_id);
        let unchanged = match (self.shown.get(&tab_id), &desired) {
            (Some(shown), Some(p)) => *shown == *p,
            (None, None) => true,
            _ => false,
        };
        if unchanged {
            assert(effect_views(effects@) =~= e0 + show_prefix(m, tab_id).1);
            return ;
        }
        match &desired {
            Some(p) => self.shown.insert(tab_id, p.clone()),
            None => self.shown.remove(&tab_id),
        }
        if self.debug {
            emit(effects, Effect::Log(line_prefix(tab_id, &desired)));
        }
        emit(effects, Effect::ShowActivity { tab_id, prefix: desired });
        assert(effect_views(effects@) =~= e0 + show_prefix(m, tab_id).1);
    }

    /// Renames a tab to its composed name, if that differs from the name it
    /// is believed to carry.
    fn rename_tab(&mut self, tab_id: usize, effects: &mut Vec<Effect>)
        ensures
            final(self)@ == rename_tab(old(self)@, tab_id).0,
            effect_views(final(effects)@) == effect_views(old(effects)@) + rename_tab(
                old(self)@,
                tab_id,
            ).1,
    {
        let ghost m = self@;
        let ghost e0 = effect_views(effects@);
        let composed = match self.tab_name.get(&tab_id) {
            None => {
                assert(effect_views(effects@) =~= e0 + rename_tab(m, tab_id).1);
                return ;
            },
            Some(name) => {
                let desired = self.desired_prefix(tab_id);
                let c = compose_name_of(&desired, name.as_str());
                if c == *name {
                    assert(effect_views(effects@) =~= e0 + rename_tab(m, tab_id).1);
                    return ;
                }
                c
            },
        };
        self.tab_name.insert(tab_id, composed.clone());
        if self.debug {
            emit(effects, Effect::Log(line_rename(tab_id, composed.as_str())));
        }
        emit(effects, Effect::RenameTab { tab_id, name: composed });
        assert(effect_views(effects@) =~= e0 + rename_tab(m, tab_id).1);
    }
}

} // verus!
