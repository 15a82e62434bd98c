//! What holds of the state machine across inputs: how a tab's prefix is
//! chosen, the invariant that every step keeps, what the two modes share,
//! what debugging explains, and what some inputs never do.
use vstd::prelude::*;

use crate::activity::{
    activity_for, compose_name, lemma_compose_idempotent, prefix_of, priority_of,
    strip_decoration, ActivityView,
};
use crate::installer::{first_newline, with_version_tag, HOOK_VERSION_TAG};
use crate::model::{
    all_pane_ids, apply_activity, arg_or_empty, bind_all, configured_sink, debug_enabled,
    desired_prefix, events_subscribed, handle, handle_pipe, init, initial_state, is_stale,
    name_table, on_activity, on_mapped_activity, pane_table, pane_tabs, parsed_pane, parsed_ts,
    permissions_requested, recompute_tab, recompute_tabs, tab_id_list, tab_ids, tab_table,
    terminal_ids, trace_line, winner, StateView,
};
use crate::protocol::{
    addressed_tab, EffectView, EventView, PaneInfo, Permission, PipeMessageView, PipeSourceView,
    Sink, TabInfoView, PIPE_NAME,
};
use crate::table::{
    has_key, keep_keys, key_index, lemma_keep_keys, lemma_key_index, lemma_with_entry_unique,
    lemma_without_key_unique, lookup, unique_keys, with_entry, without_key,
};
use crate::text::{decimal, lemma_decimal_reads_back};
use crate::trace::{
    log_bad_mode, log_idle, log_init, log_kept, log_mapped, log_no_pane, log_panes, log_pipe,
    log_prefix, log_rename, log_session_end, log_stale, log_tabs, log_unmapped_pane, log_waiting,
};

verus! {

/// Pane `s[i].0` belongs to `tab`.
pub open spec fn in_tab(
    s: Seq<(u32, ActivityView)>,
    pane_to_tab: Seq<(u32, usize)>,
    tab: usize,
    i: int,
) -> bool {
    0 <= i < s.len() && lookup(pane_to_tab, s[i].0) == Some(tab)
}

/// A tab's winning activity is the activity of one of its panes, at least
/// as urgent as that of every other pane of the tab; there is none exactly
/// when no pane of the tab has an activity.
pub proof fn law_winner_is_most_urgent(
    s: Seq<(u32, ActivityView)>,
    pane_to_tab: Seq<(u32, usize)>,
    tab: usize,
)
    ensures
        winner(s, pane_to_tab, tab) is None <==> (forall|i: int|
            !#[trigger] in_tab(s, pane_to_tab, tab, i)),
        winner(s, pane_to_tab, tab) is Some ==> (exists|i: int|
            #[trigger] in_tab(s, pane_to_tab, tab, i) && s[i].1 == winner(
                s,
                pane_to_tab,
                tab,
            )->Some_0),
        winner(s, pane_to_tab, tab) is Some ==> (forall|i: int|
            #[trigger] in_tab(s, pane_to_tab, tab, i) ==> priority_of(s[i].1) <= priority_of(
                winner(s, pane_to_tab, tab)->Some_0,
            )),
    decreases s.len(),
{
    if s.len() > 0 {
        let init = s.drop_last();
        law_winner_is_most_urgent(init, pane_to_tab, tab);
        let n = s.len() - 1;
        assert forall|i: int| 0 <= i < n implies #[trigger] in_tab(s, pane_to_tab, tab, i)
            == in_tab(init, pane_to_tab, tab, i) by {
            assert(init[i] == s[i]);
        }
        let w = winner(s, pane_to_tab, tab);
        let wi = winner(init, pane_to_tab, tab);
        if w is Some {
            if in_tab(s, pane_to_tab, tab, n) && w == Some(s[n].1) {
            } else {
                assert(w == wi);
                let i = choose|i: int| #[trigger] in_tab(init, pane_to_tab, tab, i) && init[i].1 == wi->Some_0;
                assert(in_tab(s, pane_to_tab, tab, i));
            }
            assert forall|i: int| #[trigger] in_tab(s, pane_to_tab, tab, i) implies priority_of(
                s[i].1,
            ) <= priority_of(w->Some_0) by {
                if i < n {
                    assert(in_tab(init, pane_to_tab, tab, i));
                }
            }
        } else {
            assert forall|i: int| !#[trigger] in_tab(s, pane_to_tab, tab, i) by {
                if 0 <= i < n {
                    assert(!in_tab(init, pane_to_tab, tab, i));
                }
            }
        }
        if forall|i: int| !#[trigger] in_tab(s, pane_to_tab, tab, i) {
            assert(!in_tab(s, pane_to_tab, tab, n));
            assert forall|i: int| !#[trigger] in_tab(init, pane_to_tab, tab, i) by {
                if 0 <= i < n {
                    assert(!in_tab(s, pane_to_tab, tab, i));
                }
            }
        }
    }
}

/// An entry of a pane outside `tab` does not count for `tab`'s winner.
pub proof fn lemma_winner_remove_other(
    s: Seq<(u32, ActivityView)>,
    pane_to_tab: Seq<(u32, usize)>,
    tab: usize,
    i: int,
)
    requires
        0 <= i < s.len(),
        lookup(pane_to_tab, s[i].0) != Some(tab),
    ensures
        winner(s.remove(i), pane_to_tab, tab) == winner(s, pane_to_tab, tab),
    decreases s.len(),
{
    let n = s.len() - 1;
    if i == n {
        assert(s.remove(i) =~= s.drop_last());
    } else {
        let r = s.remove(i);
        assert(r.drop_last() =~= s.drop_last().remove(i));
        assert(r.last() == s.last());
        lemma_winner_remove_other(s.drop_last(), pane_to_tab, tab, i);
    }
}

/// Setting or clearing the activity of a pane outside `tab` leaves
/// `tab`'s winner as it was.
pub proof fn lemma_winner_other_pane(
    s: Seq<(u32, ActivityView)>,
    pane_to_tab: Seq<(u32, usize)>,
    tab: usize,
    pane: u32,
    a: Option<ActivityView>,
)
    requires
        lookup(pane_to_tab, pane) != Some(tab),
    ensures
        winner(
            match a {
                Some(x) => with_entry(s, pane, x),
                None => without_key(s, pane),
            },
            pane_to_tab,
            tab,
        ) == winner(s, pane_to_tab, tab),
{
    match a {
        Some(x) => {
            let t = with_entry(s, pane, x);
            if has_key(s, pane) {
                let i = key_index(s, pane);
                assert(s[i].0 == pane);
                lemma_winner_remove_other(s, pane_to_tab, tab, i);
                lemma_winner_remove_other(t, pane_to_tab, tab, i);
                assert(t.remove(i) =~= s.remove(i));
            } else {
                lemma_winner_remove_other(t, pane_to_tab, tab, s.len() as int);
                assert(t.remove(s.len() as int) =~= s);
            }
        },
        None => {
            if has_key(s, pane) {
                let i = key_index(s, pane);
                assert(s[i].0 == pane);
                lemma_winner_remove_other(s, pane_to_tab, tab, i);
            }
        },
    }
}

/// What a tab shows is up to date, in the way the sink realises it: under
/// `pipe`, the prefix recorded as shown is the one the tab should show;
/// under `rename`, a tab that should show a prefix carries a name that
/// already starts with it.
pub open spec fn current_at(m: StateView, t: usize) -> bool {
    match m.sink {
        Sink::Pipe => lookup(m.shown, t) == desired_prefix(m, t),
        Sink::Rename => desired_prefix(m, t) matches Some(p) ==> (lookup(m.tab_name, t) matches Some(
            n,
        ) ==> compose_name(Some(p), n) == n),
        Sink::Unconfigured => true,
    }
}

/// After a tab is recomputed it is up to date, the other tabs' prefixes
/// and names are as they were, and nothing else in the state changed.
pub proof fn lemma_recompute_tab(m: StateView, tab: usize)
    requires
        unique_keys(m.shown),
        unique_keys(m.tab_name),
    ensures
        ({
            let (m2, e) = recompute_tab(m, tab);
            &&& m2 == StateView { shown: m2.shown, tab_name: m2.tab_name, ..m }
            &&& unique_keys(m2.shown)
            &&& unique_keys(m2.tab_name)
            &&& current_at(m2, tab)
            &&& forall|t: usize|
                t != tab ==> lookup(m2.shown, t) == lookup(m.shown, t) && lookup(m2.tab_name, t)
                    == lookup(m.tab_name, t)
        }),
{
    let d = desired_prefix(m, tab);
    match m.sink {
        Sink::Pipe => {
            if lookup(m.shown, tab) != d {
                match d {
                    Some(p) => lemma_with_entry_unique(m.shown, tab, p),
                    None => lemma_without_key_unique(m.shown, tab),
                }
            }
        },
        Sink::Rename => {
            match lookup(m.tab_name, tab) {
                None => {},
                Some(n) => {
                    let c = compose_name(d, n);
                    if c != n {
                        lemma_with_entry_unique(m.tab_name, tab, c);
                        match winner(m.activity, m.pane_to_tab, tab) {
                            Some(a) => lemma_compose_idempotent(a, n),
                            None => {},
                        }
                    }
                },
            }
        },
        Sink::Unconfigured => {},
    }
}

/// Recomputing a list of tabs brings each of them up to date and changes
/// nothing else.
pub proof fn lemma_recompute_tabs(m: StateView, ids: Seq<usize>)
    requires
        unique_keys(m.shown),
        unique_keys(m.tab_name),
    ensures
        ({
            let (m2, e) = recompute_tabs(m, ids);
            &&& m2 == StateView { shown: m2.shown, tab_name: m2.tab_name, ..m }
            &&& unique_keys(m2.shown)
            &&& unique_keys(m2.tab_name)
            &&& forall|t: usize| #[trigger] ids.contains(t) ==> current_at(m2, t)
            &&& forall|t: usize|
                !ids.contains(t) ==> #[trigger] lookup(m2.shown, t) == lookup(m.shown, t)
                    && lookup(m2.tab_name, t) == lookup(m.tab_name, t)
        }),
    decreases ids.len(),
{
    if ids.len() > 0 {
        let init = ids.drop_last();
        lemma_recompute_tabs(m, init);
        let (m1, e1) = recompute_tabs(m, init);
        lemma_recompute_tab(m1, ids.last());
        let m2 = recompute_tabs(m, ids).0;
        assert forall|t: usize| #[trigger] ids.contains(t) implies current_at(m2, t) by {
            if t != ids.last() {
                let j = choose|j: int| 0 <= j < ids.len() && ids[j] == t;
                assert(init[j] == t);
                assert(init.contains(t));
                assert(current_at(m1, t));
                assert(desired_prefix(m2, t) == desired_prefix(m1, t));
            }
        }
        assert forall|t: usize| !ids.contains(t) implies #[trigger] lookup(m2.shown, t) == lookup(
            m.shown,
            t,
        ) && lookup(m2.tab_name, t) == lookup(m.tab_name, t) by {
            assert(ids[ids.len() - 1] == ids.last());
            if init.contains(t) {
                let j = choose|j: int| 0 <= j < init.len() && init[j] == t;
                assert(ids[j] == t);
            }
        }
    }
}

/// Every table of the state has unique keys.
pub open spec fn wf(m: StateView) -> bool {
    &&& unique_keys(m.tabs)
    &&& unique_keys(m.panes)
    &&& unique_keys(m.pane_to_tab)
    &&& unique_keys(m.activity)
    &&& unique_keys(m.shown)
    &&& unique_keys(m.last_ts)
    &&& unique_keys(m.tab_name)
}

/// Every value bound in `s` occurs in `vals`.
pub open spec fn values_in<A>(s: Seq<(A, usize)>, vals: Seq<usize>) -> bool {
    forall|k: A| #[trigger] lookup(s, k) is Some ==> vals.contains(lookup(s, k)->Some_0)
}

/// Panes are only mapped to tabs of the position table.
pub open spec fn maps_to_live_tabs(m: StateView) -> bool {
    values_in(m.pane_to_tab, tab_ids(m.tabs))
}

/// Every tab of the position table is up to date.
pub open spec fn shows_current(m: StateView) -> bool {
    forall|t: usize| #[trigger] tab_ids(m.tabs).contains(t) ==> current_at(m, t)
}

/// An activity is recorded only for a pane of the last pane update.
pub open spec fn activity_alive(m: StateView) -> bool {
    forall|p: u32| #[trigger] lookup(m.activity, p) is Some ==> all_pane_ids(m.panes).contains(p)
}

/// The invariant of the state machine.
pub open spec fn consistent(m: StateView) -> bool {
    &&& wf(m)
    &&& m.pane_to_tab == pane_tabs(m.panes, m.tabs)
    &&& maps_to_live_tabs(m)
    &&& activity_alive(m)
    &&& shows_current(m)
}

proof fn lemma_tab_table(tabs: Seq<TabInfoView>)
    ensures
        unique_keys(tab_table(tabs)),
    decreases tabs.len(),
{
    if tabs.len() > 0 {
        lemma_tab_table(tabs.drop_last());
        lemma_with_entry_unique(
            tab_table(tabs.drop_last()),
            tabs.last().position,
            tabs.last().tab_id,
        );
    }
}

proof fn lemma_name_table(tabs: Seq<TabInfoView>)
    ensures
        unique_keys(name_table(tabs)),
    decreases tabs.len(),
{
    if tabs.len() > 0 {
        lemma_name_table(tabs.drop_last());
        lemma_with_entry_unique(name_table(tabs.drop_last()), tabs.last().tab_id, tabs.last().name);
    }
}

proof fn lemma_pane_table(entries: Seq<(usize, Seq<PaneInfo>)>)
    ensures
        unique_keys(pane_table(entries)),
    decreases entries.len(),
{
    if entries.len() > 0 {
        lemma_pane_table(entries.drop_last());
        lemma_with_entry_unique(
            pane_table(entries.drop_last()),
            entries.last().0,
            terminal_ids(entries.last().1),
        );
    }
}

proof fn lemma_bind_all(s: Seq<(u32, usize)>, ids: Seq<u32>, tab: usize, vals: Seq<usize>)
    requires
        unique_keys(s),
        values_in(s, vals),
        vals.contains(tab),
    ensures
        unique_keys(bind_all(s, ids, tab)),
        values_in(bind_all(s, ids, tab), vals),
        forall|k: u32| #[trigger]
            lookup(bind_all(s, ids, tab), k) is Some ==> lookup(s, k) is Some || ids.contains(k),
    decreases ids.len(),
{
    if ids.len() > 0 {
        let prev = bind_all(s, ids.drop_last(), tab);
        lemma_bind_all(s, ids.drop_last(), tab, vals);
        lemma_with_entry_unique(prev, ids.last(), tab);
        let r = bind_all(s, ids, tab);
        assert forall|k: u32| #[trigger] lookup(r, k) is Some implies vals.contains(
            lookup(r, k)->Some_0,
        ) by {
            if k != ids.last() {
                assert(lookup(r, k) == lookup(prev, k));
            }
        }
        assert forall|k: u32| #[trigger] lookup(r, k) is Some implies lookup(s, k) is Some
            || ids.contains(k) by {
            assert(ids[ids.len() - 1] == ids.last());
            if k != ids.last() {
                assert(lookup(r, k) == lookup(prev, k));
                if ids.drop_last().contains(k) {
                    let j = choose|j: int| 0 <= j < ids.len() - 1 && ids.drop_last()[j] == k;
                    assert(ids[j] == k);
                }
            }
        }
    }
}

proof fn lemma_tab_ids_contains(tabs: Seq<(usize, usize)>, pos: usize)
    requires
        unique_keys(tabs),
        lookup(tabs, pos) is Some,
    ensures
        tab_ids(tabs).contains(lookup(tabs, pos)->Some_0),
{
    let i = key_index(tabs, pos);
    assert(tabs[i].0 == pos);
    lemma_key_index(tabs, i);
    assert(tab_ids(tabs)[i] == tabs[i].1);
}

proof fn lemma_pane_tabs(panes: Seq<(usize, Seq<u32>)>, tabs: Seq<(usize, usize)>)
    requires
        unique_keys(tabs),
    ensures
        unique_keys(pane_tabs(panes, tabs)),
        values_in(pane_tabs(panes, tabs), tab_ids(tabs)),
        forall|k: u32| #[trigger]
            lookup(pane_tabs(panes, tabs), k) is Some ==> all_pane_ids(panes).contains(k),
    decreases panes.len(),
{
    if panes.len() > 0 {
        lemma_pane_tabs(panes.drop_last(), tabs);
        let prev = pane_tabs(panes.drop_last(), tabs);
        let (pos, ids) = panes.last();
        let before = all_pane_ids(panes.drop_last());
        let all = all_pane_ids(panes);
        assert(all == before + ids);
        match lookup(tabs, pos) {
            Some(tab) => {
                lemma_tab_ids_contains(tabs, pos);
                lemma_bind_all(prev, ids, tab, tab_ids(tabs));
            },
            None => {},
        }
        assert forall|k: u32| #[trigger] lookup(pane_tabs(panes, tabs), k) is Some implies all.contains(
            k,
        ) by {
            if lookup(prev, k) is Some {
                let j = choose|j: int| 0 <= j < before.len() && before[j] == k;
                assert(all[j] == k);
            } else {
                let j = choose|j: int| 0 <= j < ids.len() && ids[j] == k;
                assert(all[before.len() + j] == k);
            }
        }
    }
}

/// The state before anything happened is consistent.
pub proof fn law_initial_state_consistent()
    ensures
        consistent(initial_state()),
{
    let m = initial_state();
    assert(tab_ids(m.tabs) =~= Seq::<usize>::empty());
    assert(pane_tabs(m.panes, m.tabs) == m.pane_to_tab);
}

/// Updating the tables and then recomputing every tab of the position table
/// gives a consistent state.
proof fn lemma_rebuilt_consistent(m2: StateView)
    requires
        wf(m2),
        m2.pane_to_tab == pane_tabs(m2.panes, m2.tabs),
        activity_alive(m2),
    ensures
        consistent(recompute_tabs(m2, tab_ids(m2.tabs)).0),
{
    lemma_pane_tabs(m2.panes, m2.tabs);
    lemma_recompute_tabs(m2, tab_ids(m2.tabs));
}

/// Setting or clearing the activity of a mapped pane, then recomputing its
/// tab, keeps the state consistent.
pub proof fn lemma_apply_activity_consistent(
    m: StateView,
    pane: u32,
    tab: usize,
    a: Option<ActivityView>,
)
    requires
        consistent(m),
        lookup(m.pane_to_tab, pane) == Some(tab),
    ensures
        consistent(apply_activity(m, pane, tab, a).0),
{
    let activity = match a {
        Some(x) => with_entry(m.activity, pane, x),
        None => without_key(m.activity, pane),
    };
    match a {
        Some(x) => lemma_with_entry_unique(m.activity, pane, x),
        None => lemma_without_key_unique(m.activity, pane),
    }
    lemma_pane_tabs(m.panes, m.tabs);
    assert(all_pane_ids(m.panes).contains(pane));
    let ma = StateView { activity, ..m };
    lemma_recompute_tab(ma, tab);
    let m3 = apply_activity(m, pane, tab, a).0;
    assert forall|t: usize| #[trigger] tab_ids(m3.tabs).contains(t) implies current_at(m3, t) by {
        if t != tab {
            lemma_winner_other_pane(m.activity, m.pane_to_tab, t, pane, a);
            assert(desired_prefix(ma, t) == desired_prefix(m, t));
            assert(desired_prefix(m3, t) == desired_prefix(m, t));
            assert(current_at(m, t));
        }
    }
    assert forall|p: u32| #[trigger] lookup(m3.activity, p) is Some implies all_pane_ids(
        m3.panes,
    ).contains(p) by {
        if p != pane {
            assert(lookup(m.activity, p) is Some);
        }
    }
}

/// Every host event keeps the state consistent.
pub proof fn law_handle_keeps_consistent(m: StateView, ev: EventView)
    requires
        consistent(m),
    ensures
        consistent(handle(m, ev).0),
{
    if m.sink != Sink::Unconfigured {
        match ev {
            EventView::TabUpdate(tabs) => {
                lemma_tab_table(tabs);
                lemma_name_table(tabs);
                lemma_keep_keys(m.shown, tab_id_list(tabs));
                let m1 = StateView {
                    tabs: tab_table(tabs),
                    tab_name: name_table(tabs),
                    shown: keep_keys(m.shown, tab_id_list(tabs)),
                    ..m
                };
                let m2 = StateView { pane_to_tab: pane_tabs(m1.panes, m1.tabs), ..m1 };
                lemma_pane_tabs(m1.panes, m1.tabs);
                lemma_rebuilt_consistent(m2);
            },
            EventView::PaneUpdate(entries) => {
                let panes = pane_table(entries);
                let alive = all_pane_ids(panes);
                lemma_pane_table(entries);
                lemma_keep_keys(m.activity, alive);
                lemma_keep_keys(m.last_ts, alive);
                let m1 = StateView {
                    panes,
                    activity: keep_keys(m.activity, alive),
                    last_ts: keep_keys(m.last_ts, alive),
                    ..m
                };
                let m2 = StateView { pane_to_tab: pane_tabs(m1.panes, m1.tabs), ..m1 };
                lemma_pane_tabs(m1.panes, m1.tabs);
                lemma_rebuilt_consistent(m2);
            },
            EventView::Other => {},
        }
    }
}

/// Every pipe message keeps the state consistent.
pub proof fn law_handle_pipe_keeps_consistent(m: StateView, msg: PipeMessageView)
    requires
        consistent(m),
    ensures
        consistent(handle_pipe(m, msg).0),
{
    let args = msg.args;
    if m.sink != Sink::Unconfigured {
        match parsed_pane(args) {
            None => {},
            Some(pane) => {
                let ts = parsed_ts(args);
                if !is_stale(m, pane, ts) {
                    let m1 = match ts {
                        Some(t) => StateView { last_ts: with_entry(m.last_ts, pane, t), ..m },
                        None => m,
                    };
                    match ts {
                        Some(t) => lemma_with_entry_unique(m.last_ts, pane, t),
                        None => {},
                    }
                    assert(consistent(m1)) by {
                        assert forall|t: usize| #[trigger] tab_ids(m1.tabs).contains(t) implies current_at(
                            m1,
                            t,
                        ) by {
                            assert(desired_prefix(m1, t) == desired_prefix(m, t));
                            assert(current_at(m, t));
                        }
                    }
                    match lookup(m1.pane_to_tab, pane) {
                        None => {},
                        Some(tab) => {
                            lemma_apply_activity_consistent(m1, pane, tab, None);
                            lemma_apply_activity_consistent(
                                m1,
                                pane,
                                tab,
                                Some(ActivityView::Waiting),
                            );
                            let event = arg_or_empty(args, "hook_event"@);
                            let tool = arg_or_empty(args, "tool_name"@);
                            match activity_for(event, tool) {
                                Some(a) => lemma_apply_activity_consistent(m1, pane, tab, Some(a)),
                                None => {},
                            }
                        },
                    }
                }
            },
        }
    }
}

/// Loading keeps the state consistent, unless it switches the mode of a
/// state that already knows tabs.
pub proof fn law_init_keeps_consistent(m: StateView, config: Seq<(Seq<char>, Seq<char>)>)
    requires
        consistent(m),
        m.tabs.len() == 0 || configured_sink(config) == m.sink,
    ensures
        consistent(init(m, config).0),
{
    let m2 = init(m, config).0;
    assert forall|t: usize| #[trigger] tab_ids(m2.tabs).contains(t) implies current_at(m2, t) by {
        assert(desired_prefix(m2, t) == desired_prefix(m, t));
        assert(tab_ids(m.tabs).contains(t));
        assert(current_at(m, t));
    }
}

/// The effects hold no `Log` line.
pub open spec fn no_logs(e: Seq<EffectView>) -> bool {
    forall|i: int| 0 <= i < e.len() ==> !(#[trigger] e[i] is Log)
}

/// The effects show prefixes on, or rename, only the tabs of `ids`.
pub open spec fn shows_only(e: Seq<EffectView>, ids: Seq<usize>) -> bool {
    forall|i: int|
        0 <= i < e.len() && #[trigger] addressed_tab(e[i]) is Some ==> ids.contains(
            addressed_tab(e[i])->Some_0,
        )
}

/// The effects show no prefix and rename no tab.
pub open spec fn shows_nothing(e: Seq<EffectView>) -> bool {
    forall|i: int| 0 <= i < e.len() ==> #[trigger] addressed_tab(e[i]) is None
}

proof fn lemma_concat_effects(a: Seq<EffectView>, b: Seq<EffectView>, ids: Seq<usize>)
    ensures
        no_logs(a) && no_logs(b) ==> no_logs(a + b),
        shows_only(a, ids) && shows_only(b, ids) ==> shows_only(a + b, ids),
        shows_nothing(a) && shows_nothing(b) ==> shows_nothing(a + b),
{
    assert forall|i: int| 0 <= i < (a + b).len() implies (a + b)[i] == (if i < a.len() {
        a[i]
    } else {
        b[i - a.len()]
    }) by {}
}

proof fn lemma_trace_line(debug: bool, line: Seq<char>)
    ensures
        shows_nothing(trace_line(debug, line)),
        !debug ==> no_logs(trace_line(debug, line)),
        forall|ids: Seq<usize>| shows_only(trace_line(debug, line), ids),
{
}

/// Recomputing a tab addresses that tab alone, emits no diagnostic line
/// with debugging off, and leaves the tabs and the debug switch as they were.
pub proof fn lemma_recompute_tab_effects(m: StateView, tab: usize)
    ensures
        !m.debug ==> no_logs(recompute_tab(m, tab).1),
        shows_only(recompute_tab(m, tab).1, seq![tab]),
        recompute_tab(m, tab).0.debug == m.debug,
        recompute_tab(m, tab).0.tabs == m.tabs,
{
    let d = desired_prefix(m, tab);
    assert(seq![tab][0] == tab);
    match m.sink {
        Sink::Pipe => {
            if lookup(m.shown, tab) != d {
                let show = seq![EffectView::ShowActivity { tab_id: tab, prefix: d }];
                lemma_trace_line(m.debug, log_prefix(tab, d));
                lemma_concat_effects(trace_line(m.debug, log_prefix(tab, d)), show, seq![tab]);
            }
        },
        Sink::Rename => {
            match lookup(m.tab_name, tab) {
                None => {},
                Some(n) => {
                    let c = compose_name(d, n);
                    let rename = seq![EffectView::RenameTab { tab_id: tab, name: c }];
                    lemma_trace_line(m.debug, log_rename(tab, c));
                    lemma_concat_effects(trace_line(m.debug, log_rename(tab, c)), rename, seq![tab]);
                },
            }
        },
        Sink::Unconfigured => {},
    }
}

proof fn lemma_recompute_tabs_effects(m: StateView, ids: Seq<usize>)
    ensures
        !m.debug ==> no_logs(recompute_tabs(m, ids).1),
        shows_only(recompute_tabs(m, ids).1, ids),
        recompute_tabs(m, ids).0.debug == m.debug,
        recompute_tabs(m, ids).0.tabs == m.tabs,
    decreases ids.len(),
{
    if ids.len() > 0 {
        let init = ids.drop_last();
        lemma_recompute_tabs_effects(m, init);
        let (m1, e1) = recompute_tabs(m, init);
        lemma_recompute_tab_effects(m1, ids.last());
        let e2 = recompute_tab(m1, ids.last()).1;
        assert forall|i: int| 0 <= i < e1.len() && #[trigger] addressed_tab(e1[i]) is Some implies ids.contains(
            addressed_tab(e1[i])->Some_0,
        ) by {
            let j = choose|j: int| 0 <= j < init.len() && init[j] == addressed_tab(e1[i])->Some_0;
            assert(ids[j] == init[j]);
        }
        assert forall|i: int| 0 <= i < e2.len() && #[trigger] addressed_tab(e2[i]) is Some implies ids.contains(
            addressed_tab(e2[i])->Some_0,
        ) by {
            assert(seq![ids.last()].contains(addressed_tab(e2[i])->Some_0));
            assert(ids[ids.len() - 1] == ids.last());
        }
        lemma_concat_effects(e1, e2, ids);
    }
}

/// With debugging off, a host event emits no diagnostic line, and it
/// shows prefixes on, or renames, only tabs of the new position table:
/// never a tab that was closed.
pub proof fn law_handle_effects(m: StateView, ev: EventView)
    ensures
        !m.debug ==> no_logs(handle(m, ev).1),
        shows_only(handle(m, ev).1, tab_ids(handle(m, ev).0.tabs)),
        handle(m, ev).0.debug == m.debug,
{
    if m.sink != Sink::Unconfigured {
        match ev {
            EventView::TabUpdate(tabs) => {
                let m1 = StateView {
                    tabs: tab_table(tabs),
                    tab_name: name_table(tabs),
                    shown: keep_keys(m.shown, tab_id_list(tabs)),
                    ..m
                };
                let m2 = StateView { pane_to_tab: pane_tabs(m1.panes, m1.tabs), ..m1 };
                lemma_recompute_tabs_effects(m2, tab_ids(m2.tabs));
                let line = log_tabs(m2.tabs);
                lemma_trace_line(m.debug, line);
                lemma_concat_effects(
                    trace_line(m.debug, line),
                    recompute_tabs(m2, tab_ids(m2.tabs)).1,
                    tab_ids(m2.tabs),
                );
            },
            EventView::PaneUpdate(entries) => {
                let panes = pane_table(entries);
                let alive = all_pane_ids(panes);
                let m1 = StateView {
                    panes,
                    activity: keep_keys(m.activity, alive),
                    last_ts: keep_keys(m.last_ts, alive),
                    ..m
                };
                let m2 = StateView { pane_to_tab: pane_tabs(m1.panes, m1.tabs), ..m1 };
                lemma_recompute_tabs_effects(m2, tab_ids(m2.tabs));
                let line = log_panes(m2.pane_to_tab);
                lemma_trace_line(m.debug, line);
                lemma_concat_effects(
                    trace_line(m.debug, line),
                    recompute_tabs(m2, tab_ids(m2.tabs)).1,
                    tab_ids(m2.tabs),
                );
            },
            EventView::Other => {},
        }
    }
}

proof fn lemma_apply_activity_effects(m: StateView, pane: u32, tab: usize, a: Option<ActivityView>)
    ensures
        !m.debug ==> no_logs(apply_activity(m, pane, tab, a).1),
        shows_only(apply_activity(m, pane, tab, a).1, seq![tab]),
        apply_activity(m, pane, tab, a).0.debug == m.debug,
        apply_activity(m, pane, tab, a).0.tabs == m.tabs,
        apply_activity(m, pane, tab, a).0.pane_to_tab == m.pane_to_tab,
{
    let activity = match a {
        Some(x) => with_entry(m.activity, pane, x),
        None => without_key(m.activity, pane),
    };
    lemma_recompute_tab_effects(StateView { activity, ..m }, tab);
}

/// With debugging off, a pipe message emits no diagnostic line; in a
/// state whose panes map only to live tabs it shows prefixes on, or
/// renames, only tabs of the position table, and it leaves the tabs, the
/// mapping of panes and the debug switch as they were.
pub proof fn law_handle_pipe_effects(m: StateView, msg: PipeMessageView)
    ensures
        !m.debug ==> no_logs(handle_pipe(m, msg).1),
        maps_to_live_tabs(m) ==> shows_only(handle_pipe(m, msg).1, tab_ids(m.tabs)),
        handle_pipe(m, msg).0.debug == m.debug,
        handle_pipe(m, msg).0.tabs == m.tabs,
        handle_pipe(m, msg).0.pane_to_tab == m.pane_to_tab,
{
    if m.sink != Sink::Unconfigured {
        let args = msg.args;
        let ids = tab_ids(m.tabs);
        let e0 = trace_line(m.debug, log_pipe(msg.name, args));
        let e1: Seq<EffectView> = match msg.source {
            PipeSourceView::Cli(id) => seq![EffectView::UnblockCliPipe(id)],
            _ => Seq::empty(),
        };
        lemma_trace_line(m.debug, log_pipe(msg.name, args));
        assert(no_logs(e1) && shows_nothing(e1) && shows_only(e1, ids));
        lemma_concat_effects(e0, e1, ids);
        let (m2, e2) = on_activity(m, args);
        // the effects of the activity report
        assert(m2.debug == m.debug && m2.tabs == m.tabs && m2.pane_to_tab == m.pane_to_tab && (
        !m.debug ==> no_logs(e2)) && (maps_to_live_tabs(m) ==> shows_only(e2, ids))) by {
            match parsed_pane(args) {
                None => lemma_trace_line(m.debug, log_no_pane(args)),
                Some(pane) => {
                    let ts = parsed_ts(args);
                    if is_stale(m, pane, ts) {
                        lemma_trace_line(
                            m.debug,
                            log_stale(pane, ts->Some_0, lookup(m.last_ts, pane)->Some_0),
                        );
                    } else {
                        let m1 = match ts {
                            Some(t) => StateView { last_ts: with_entry(m.last_ts, pane, t), ..m },
                            None => m,
                        };
                        match lookup(m1.pane_to_tab, pane) {
                            None => lemma_trace_line(m.debug, log_unmapped_pane(pane)),
                            Some(tab) => {
                                lemma_mapped_activity_effects(m1, args, pane, tab);
                                if maps_to_live_tabs(m) {
                                    assert(ids.contains(tab));
                                    let e = on_mapped_activity(m1, args, pane, tab).1;
                                    assert forall|i: int|
                                        0 <= i < e.len() && #[trigger] addressed_tab(e[i]) is Some implies ids.contains(
                                        addressed_tab(e[i])->Some_0,
                                    ) by {
                                        assert(seq![tab].contains(addressed_tab(e[i])->Some_0));
                                        assert(seq![tab][0] == tab);
                                    }
                                }
                            },
                        }
                    }
                },
            }
        }
        lemma_concat_effects(e0 + e1, e2, ids);
    }
}

proof fn lemma_mapped_activity_effects(
    m: StateView,
    args: Seq<(Seq<char>, Seq<char>)>,
    pane: u32,
    tab: usize,
)
    ensures
        ({
            let (m2, e) = on_mapped_activity(m, args, pane, tab);
            &&& !m.debug ==> no_logs(e)
            &&& shows_only(e, seq![tab])
            &&& m2.debug == m.debug
            &&& m2.tabs == m.tabs
            &&& m2.pane_to_tab == m.pane_to_tab
        }),
{
    let event = arg_or_empty(args, "hook_event"@);
    let tool = arg_or_empty(args, "tool_name"@);
    let t = seq![tab];
    if event == "SessionEnd"@ {
        lemma_apply_activity_effects(m, pane, tab, None);
        lemma_trace_line(m.debug, log_session_end(pane, tab));
        lemma_concat_effects(
            trace_line(m.debug, log_session_end(pane, tab)),
            apply_activity(m, pane, tab, None).1,
            t,
        );
    } else if event == "Notification"@ {
        lemma_trace_line(m.debug, log_idle(pane, tab));
        lemma_apply_activity_effects(m, pane, tab, Some(ActivityView::Waiting));
        lemma_trace_line(m.debug, log_waiting(pane, tab));
        lemma_concat_effects(
            trace_line(m.debug, log_waiting(pane, tab)),
            apply_activity(m, pane, tab, Some(ActivityView::Waiting)).1,
            t,
        );
    } else {
        match activity_for(event, tool) {
            Some(a) => {
                lemma_apply_activity_effects(m, pane, tab, Some(a));
                let line = log_mapped(pane, tab, event, tool, a);
                lemma_trace_line(m.debug, line);
                lemma_concat_effects(
                    trace_line(m.debug, line),
                    apply_activity(m, pane, tab, Some(a)).1,
                    t,
                );
            },
            None => lemma_trace_line(m.debug, log_kept(pane, tab, event, tool)),
        }
    }
}

/// Loading in a known mode emits no diagnostic line unless the
/// configuration turns debugging on, asks for that mode's permissions
/// (among them the one to read command-line pipes, which unblocking them
/// needs) and subscribes to tab and pane updates.
pub proof fn law_init_effects(m: StateView, config: Seq<(Seq<char>, Seq<char>)>)
    requires
        configured_sink(config) != Sink::Unconfigured,
    ensures
        !debug_enabled(config) ==> no_logs(init(m, config).1),
        init(m, config).1.contains(
            EffectView::RequestPermissions(permissions_requested(configured_sink(config))),
        ),
        init(m, config).1.contains(EffectView::Subscribe(events_subscribed())),
        permissions_requested(configured_sink(config)).contains(Permission::ReadCliPipes),
        init(m, config).0.sink == configured_sink(config),
{
    let sink = configured_sink(config);
    let e = init(m, config).1;
    let d = debug_enabled(config);
    lemma_trace_line(d, log_init(config));
    let tail = seq![
        EffectView::RequestPermissions(permissions_requested(sink)),
        EffectView::Subscribe(events_subscribed()),
    ];
    lemma_concat_effects(trace_line(d, log_init(config)), tail, seq![]);
    let k = trace_line(d, log_init(config)).len();
    assert(e[k as int] == EffectView::RequestPermissions(permissions_requested(sink)));
    assert(e[(k + 1) as int] == EffectView::Subscribe(events_subscribed()));
    if sink == Sink::Pipe {
        assert(permissions_requested(sink)[2] == Permission::ReadCliPipes);
    } else {
        assert(permissions_requested(sink)[1] == Permission::ReadCliPipes);
    }
}

/// Each mode asks only for what it uses: `pipe` never holds the ability to
/// rename a tab, and `rename` never messages other plugins.
pub proof fn law_each_mode_asks_only_what_it_uses()
    ensures
        !permissions_requested(Sink::Pipe).contains(Permission::ChangeApplicationState),
        !permissions_requested(Sink::Rename).contains(Permission::MessageAndLaunchOtherPlugins),
        permissions_requested(Sink::Unconfigured).len() == 0,
{
    let p = permissions_requested(Sink::Pipe);
    let r = permissions_requested(Sink::Rename);
    assert forall|i: int| 0 <= i < p.len() implies p[i] != Permission::ChangeApplicationState by {
        if i == 0 {
        } else if i == 1 {
        } else {
        }
    }
    assert forall|i: int| 0 <= i < r.len() implies r[i]
        != Permission::MessageAndLaunchOtherPlugins by {
        if i == 0 {
        } else if i == 1 {
        } else {
        }
    }
}

/// A configuration whose `mode` names no known mode leaves the plugin
/// inert: loading emits exactly one line that says so, whether or not
/// debugging is on, asks for no permission and subscribes to nothing; no
/// event and no pipe message then changes the state or emits anything.
pub proof fn law_unknown_mode_is_inert(
    m: StateView,
    config: Seq<(Seq<char>, Seq<char>)>,
    ev: EventView,
    msg: PipeMessageView,
)
    requires
        configured_sink(config) == Sink::Unconfigured,
    ensures
        lookup(config, "mode"@) is Some,
        init(m, config).1 == seq![
            EffectView::Log(log_bad_mode(lookup(config, "mode"@)->Some_0)),
        ],
        ({
            let m1 = init(m, config).0;
            &&& handle(m1, ev) == (m1, Seq::<EffectView>::empty())
            &&& handle_pipe(m1, msg) == (m1, Seq::<EffectView>::empty())
        }),
{
}

/// A message from a command-line pipe is always unblocked, whatever it
/// says, once a mode is configured.
pub proof fn law_cli_pipe_is_unblocked(m: StateView, msg: PipeMessageView, id: Seq<char>)
    requires
        msg.source == PipeSourceView::Cli(id),
        m.sink != Sink::Unconfigured,
    ensures
        handle_pipe(m, msg).1.contains(EffectView::UnblockCliPipe(id)),
{
    let e0 = trace_line(m.debug, log_pipe(msg.name, msg.args));
    let e = handle_pipe(m, msg).1;
    assert(e[e0.len() as int] == EffectView::UnblockCliPipe(id));
}

/// A pane waiting for the user is never hidden by another pane of its tab:
/// the tab should show the waiting symbol, and in a consistent state a
/// tab of the position table does show it: recorded as shown under
/// `pipe`, at the front of the tab's name under `rename`.
pub proof fn law_waiting_wins(m: StateView, tab: usize, i: int)
    requires
        in_tab(m.activity, m.pane_to_tab, tab, i),
        m.activity[i].1 == ActivityView::Waiting,
    ensures
        desired_prefix(m, tab) == Some(prefix_of(ActivityView::Waiting)),
        prefix_of(ActivityView::Waiting) == "⚠"@ + " "@,
        consistent(m) && tab_ids(m.tabs).contains(tab) && m.sink == Sink::Pipe ==> lookup(
            m.shown,
            tab,
        ) == Some(prefix_of(ActivityView::Waiting)),
        consistent(m) && tab_ids(m.tabs).contains(tab) && m.sink == Sink::Rename ==> (lookup(
            m.tab_name,
            tab,
        ) matches Some(n) ==> n == prefix_of(ActivityView::Waiting) + strip_decoration(n)),
{
    law_winner_is_most_urgent(m.activity, m.pane_to_tab, tab);
    if consistent(m) && tab_ids(m.tabs).contains(tab) {
        assert(current_at(m, tab));
    }
}

/// An activity report sent before the last one accepted for its pane
/// changes nothing and shows nothing.
pub proof fn law_stale_report_is_dropped(m: StateView, msg: PipeMessageView, pane: u32, ts: u64)
    requires
        parsed_pane(msg.args) == Some(pane),
        parsed_ts(msg.args) == Some(ts),
        lookup(m.last_ts, pane) matches Some(last) && ts < last,
    ensures
        handle_pipe(m, msg).0 == m,
        shows_nothing(handle_pipe(m, msg).1),
{
    if m.sink != Sink::Unconfigured {
        lemma_trace_line(m.debug, log_pipe(msg.name, msg.args));
        let e0 = trace_line(m.debug, log_pipe(msg.name, msg.args));
        let e1: Seq<EffectView> = match msg.source {
            PipeSourceView::Cli(id) => seq![EffectView::UnblockCliPipe(id)],
            _ => Seq::empty(),
        };
        assert(shows_nothing(e1));
        lemma_concat_effects(e0, e1, seq![]);
        let line = log_stale(pane, ts, lookup(m.last_ts, pane)->Some_0);
        lemma_trace_line(m.debug, line);
        lemma_concat_effects(e0 + e1, trace_line(m.debug, line), seq![]);
    }
}

/// The ordering guard never goes back: a pipe message keeps the recorded
/// send time of every pane or raises it, and a report without a send time
/// leaves every recorded time as it was.
pub proof fn law_ordering_guard_never_goes_back(m: StateView, msg: PipeMessageView, pane: u32)
    requires
        unique_keys(m.last_ts),
    ensures
        lookup(m.last_ts, pane) matches Some(last) ==> (lookup(
            handle_pipe(m, msg).0.last_ts,
            pane,
        ) matches Some(now) && last <= now),
        parsed_ts(msg.args) is None ==> handle_pipe(m, msg).0.last_ts == m.last_ts,
{
    let args = msg.args;
    if m.sink != Sink::Unconfigured {
        match parsed_pane(args) {
            None => {},
            Some(p) => {
                let ts = parsed_ts(args);
                if !is_stale(m, p, ts) {
                    match ts {
                        Some(t) => {
                            lemma_with_entry_unique(m.last_ts, p, t);
                        },
                        None => {},
                    }
                    let m1 = match ts {
                        Some(t) => StateView { last_ts: with_entry(m.last_ts, p, t), ..m },
                        None => m,
                    };
                    match lookup(m1.pane_to_tab, p) {
                        None => {},
                        Some(tab) => {
                            lemma_mapped_activity_keeps_last_ts(m1, args, p, tab);
                        },
                    }
                }
            },
        }
    }
}

proof fn lemma_mapped_activity_keeps_last_ts(
    m: StateView,
    args: Seq<(Seq<char>, Seq<char>)>,
    pane: u32,
    tab: usize,
)
    ensures
        on_mapped_activity(m, args, pane, tab).0.last_ts == m.last_ts,
        on_mapped_activity(m, args, pane, tab).0.pane_to_tab == m.pane_to_tab,
{
}

/// A report that says nothing about the agent of its pane (an idle nudge,
/// or an event that maps to no activity, such as `SubagentStop`) leaves
/// every activity and every shown prefix as it was, and shows nothing.
pub proof fn law_uninformative_report_keeps_activity(
    m: StateView,
    args: Seq<(Seq<char>, Seq<char>)>,
    pane: u32,
    tab: usize,
)
    requires
        ({
            let event = arg_or_empty(args, "hook_event"@);
            let tool = arg_or_empty(args, "tool_name"@);
            ||| event == "Notification"@ && lookup(args, "notification"@) == Some("idle"@)
            ||| event != "SessionEnd"@ && event != "Notification"@ && activity_for(
                event,
                tool,
            ) is None
        }),
    ensures
        on_mapped_activity(m, args, pane, tab).0 == m,
        shows_nothing(on_mapped_activity(m, args, pane, tab).1),
{
    let event = arg_or_empty(args, "hook_event"@);
    let tool = arg_or_empty(args, "tool_name"@);
    reveal_strlit("SessionEnd");
    reveal_strlit("Notification");
    assert("SessionEnd"@ != "Notification"@) by {
        assert("SessionEnd"@[0] != "Notification"@[0]);
    }
    lemma_trace_line(m.debug, log_idle(pane, tab));
    lemma_trace_line(m.debug, log_kept(pane, tab, event, tool));
}

/// A report for a pane that no tab holds yet changes no activity and shows
/// nothing.
pub proof fn law_unmapped_pane_is_dropped(m: StateView, msg: PipeMessageView, pane: u32)
    requires
        parsed_pane(msg.args) == Some(pane),
        lookup(m.pane_to_tab, pane) is None,
    ensures
        handle_pipe(m, msg).0.activity == m.activity,
        handle_pipe(m, msg).0.shown == m.shown,
        shows_nothing(handle_pipe(m, msg).1),
{
    if m.sink != Sink::Unconfigured {
        lemma_trace_line(m.debug, log_pipe(msg.name, msg.args));
        let e0 = trace_line(m.debug, log_pipe(msg.name, msg.args));
        let e1: Seq<EffectView> = match msg.source {
            PipeSourceView::Cli(id) => seq![EffectView::UnblockCliPipe(id)],
            _ => Seq::empty(),
        };
        assert(shows_nothing(e1));
        lemma_concat_effects(e0, e1, seq![]);
        let e2 = on_activity(m, msg.args).1;
        let ts = parsed_ts(msg.args);
        if is_stale(m, pane, ts) {
            lemma_trace_line(m.debug, log_stale(pane, ts->Some_0, lookup(m.last_ts, pane)->Some_0));
        } else {
            lemma_trace_line(m.debug, log_unmapped_pane(pane));
        }
        lemma_concat_effects(e0 + e1, e2, seq![]);
    }
}

proof fn lemma_with_entry_twice<A, B>(s: Seq<(A, B)>, k: A, v: B)
    requires
        unique_keys(s),
    ensures
        with_entry(with_entry(s, k, v), k, v) == with_entry(s, k, v),
{
    lemma_with_entry_unique(s, k, v);
    let t = with_entry(s, k, v);
    let i = key_index(t, k);
    lemma_key_index(t, i);
    assert(t.update(i, (k, v)) =~= t);
}

proof fn lemma_without_key_twice<A, B>(s: Seq<(A, B)>, k: A)
    requires
        unique_keys(s),
    ensures
        without_key(without_key(s, k), k) == without_key(s, k),
{
    lemma_without_key_unique(s, k);
}

/// A tab is only shown again when what it should show changed: recomputing
/// a tab a second time changes nothing and emits nothing. (Under `rename`,
/// a tab whose name carries two decorations loses one each time its
/// symbol clears, so that case is left out.)
pub proof fn law_recompute_tab_twice(m: StateView, tab: usize)
    requires
        unique_keys(m.shown),
        unique_keys(m.tab_name),
        m.sink == Sink::Rename ==> (lookup(m.tab_name, tab) matches Some(n) ==> strip_decoration(
            strip_decoration(n),
        ) == strip_decoration(n)),
    ensures
        ({
            let m1 = recompute_tab(m, tab).0;
            recompute_tab(m1, tab) == (m1, Seq::<EffectView>::empty())
        }),
{
    lemma_recompute_tab(m, tab);
    let m1 = recompute_tab(m, tab).0;
    let d = desired_prefix(m, tab);
    assert(desired_prefix(m1, tab) == d);
    if m.sink == Sink::Rename && d is None {
        match lookup(m.tab_name, tab) {
            None => {},
            Some(n) => {
                let c = compose_name(d, n);
                if c != n {
                    lemma_with_entry_unique(m.tab_name, tab, c);
                    assert(lookup(m1.tab_name, tab) == Some(c));
                    assert(compose_name(d, c) == c);
                }
            },
        }
    }
}

/// Setting a pane's activity again to what it was set to shows nothing.
proof fn lemma_apply_activity_twice(m: StateView, pane: u32, tab: usize, a: Option<ActivityView>)
    requires
        unique_keys(m.activity),
        unique_keys(m.shown),
        unique_keys(m.tab_name),
        m.sink == Sink::Rename ==> (lookup(m.tab_name, tab) matches Some(n) ==> strip_decoration(
            strip_decoration(n),
        ) == strip_decoration(n)),
    ensures
        ({
            let m1 = apply_activity(m, pane, tab, a).0;
            &&& apply_activity(m1, pane, tab, a).0 == m1
            &&& apply_activity(m1, pane, tab, a).1 == Seq::<EffectView>::empty()
        }),
{
    let activity = match a {
        Some(x) => with_entry(m.activity, pane, x),
        None => without_key(m.activity, pane),
    };
    match a {
        Some(x) => lemma_with_entry_twice(m.activity, pane, x),
        None => lemma_without_key_twice(m.activity, pane),
    }
    let ma = StateView { activity, ..m };
    law_recompute_tab_twice(ma, tab);
    lemma_recompute_tab(ma, tab);
    let m1 = recompute_tab(ma, tab).0;
    let activity2 = match a {
        Some(x) => with_entry(m1.activity, pane, x),
        None => without_key(m1.activity, pane),
    };
    assert(activity2 == m1.activity);
    assert(StateView { activity: activity2, ..m1 } == m1);
}

/// Under `rename`, the name of the tab that a report's pane is mapped to
/// loses at most one decoration to stripping.
pub open spec fn strips_once(m: StateView, args: Seq<(Seq<char>, Seq<char>)>) -> bool {
    m.sink == Sink::Rename ==> (parsed_pane(args) matches Some(p) ==> (lookup(m.pane_to_tab, p) matches Some(
        t,
    ) ==> (lookup(m.tab_name, t) matches Some(n) ==> strip_decoration(strip_decoration(n))
        == strip_decoration(n))))
}

/// Handling the same pipe message twice is handling it once: the second
/// time changes nothing and shows nothing. (Under `rename`, a tab whose
/// name carries two decorations loses one each time its symbol clears,
/// so that case is left out.)
pub proof fn law_handle_pipe_idempotent(m: StateView, msg: PipeMessageView)
    requires
        wf(m),
        strips_once(m, msg.args),
    ensures
        ({
            let m1 = handle_pipe(m, msg).0;
            &&& handle_pipe(m1, msg).0 == m1
            &&& shows_nothing(handle_pipe(m1, msg).1)
        }),
{
    if m.sink != Sink::Unconfigured {
        let args = msg.args;
        let m1 = handle_pipe(m, msg).0;
        let e0 = trace_line(m1.debug, log_pipe(msg.name, args));
        let e1: Seq<EffectView> = match msg.source {
            PipeSourceView::Cli(id) => seq![EffectView::UnblockCliPipe(id)],
            _ => Seq::empty(),
        };
        lemma_trace_line(m1.debug, log_pipe(msg.name, args));
        assert(shows_nothing(e1));
        lemma_concat_effects(e0, e1, seq![]);
        if msg.name == PIPE_NAME@ {
            // the second report takes the path that the first one took
            let e2 = on_activity(m1, args).1;
            assert(on_activity(m1, args).0 == m1 && shows_nothing(e2)) by {
                lemma_on_activity_twice(m, args);
            }
            lemma_concat_effects(e0 + e1, e2, seq![]);
        }
    }
}

proof fn lemma_on_activity_twice(m: StateView, args: Seq<(Seq<char>, Seq<char>)>)
    requires
        wf(m),
        strips_once(m, args),
    ensures
        ({
            let m1 = on_activity(m, args).0;
            &&& on_activity(m1, args).0 == m1
            &&& shows_nothing(on_activity(m1, args).1)
        }),
{
    let m1 = on_activity(m, args).0;
    match parsed_pane(args) {
        None => lemma_trace_line(m.debug, log_no_pane(args)),
        Some(pane) => {
            let ts = parsed_ts(args);
            if is_stale(m, pane, ts) {
                lemma_trace_line(
                    m.debug,
                    log_stale(pane, ts->Some_0, lookup(m.last_ts, pane)->Some_0),
                );
            } else {
                let ma = match ts {
                    Some(t) => StateView { last_ts: with_entry(m.last_ts, pane, t), ..m },
                    None => m,
                };
                match ts {
                    Some(t) => {
                        lemma_with_entry_unique(m.last_ts, pane, t);
                        lemma_with_entry_twice(m.last_ts, pane, t);
                    },
                    None => {},
                }
                match lookup(ma.pane_to_tab, pane) {
                    None => lemma_trace_line(m.debug, log_unmapped_pane(pane)),
                    Some(tab) => {
                        let event = arg_or_empty(args, "hook_event"@);
                        let tool = arg_or_empty(args, "tool_name"@);
                        lemma_trace_line(m.debug, log_session_end(pane, tab));
                        lemma_trace_line(m.debug, log_idle(pane, tab));
                        lemma_trace_line(m.debug, log_waiting(pane, tab));
                        lemma_trace_line(m.debug, log_kept(pane, tab, event, tool));
                        let a: Option<ActivityView> = if event == "SessionEnd"@ {
                            None
                        } else if event == "Notification"@ {
                            Some(ActivityView::Waiting)
                        } else {
                            activity_for(event, tool)
                        };
                        lemma_apply_activity_twice(ma, pane, tab, a);
                        lemma_mapped_activity_keeps_last_ts(ma, args, pane, tab);
                        match a {
                            Some(x) => lemma_trace_line(
                                m.debug,
                                log_mapped(pane, tab, event, tool, x),
                            ),
                            None => {},
                        }
                        let m2 = on_mapped_activity(ma, args, pane, tab).0;
                        assert(m2.last_ts == ma.last_ts);
                        assert(lookup(m2.last_ts, pane) == ts || ts is None);
                        if event == "SessionEnd"@ {
                            lemma_concat_effects(
                                trace_line(m.debug, log_session_end(pane, tab)),
                                Seq::<EffectView>::empty(),
                                seq![],
                            );
                        } else if event == "Notification"@ {
                            lemma_concat_effects(
                                trace_line(m.debug, log_waiting(pane, tab)),
                                Seq::<EffectView>::empty(),
                                seq![],
                            );
                        } else if a is Some {
                            lemma_concat_effects(
                                trace_line(m.debug, log_mapped(pane, tab, event, tool, a->Some_0)),
                                Seq::<EffectView>::empty(),
                                seq![],
                            );
                        }
                    },
                }
            }
        },
    }
}

/// The version tag goes in as a line of its own right after the script's
/// first line; the rest of the script follows unchanged.
pub proof fn law_version_tag_is_an_inserted_line(s: Seq<char>, p: int)
    requires
        0 <= p < s.len(),
        s[p] == '\n',
        forall|j: int| 0 <= j < p ==> s[j] != '\n',
    ensures
        with_version_tag(s) == s.take(p + 1) + HOOK_VERSION_TAG@ + "\n"@ + s.skip(p + 1),
{
    reveal_strlit("\n");
    assert(first_newline(s) == Some(p)) by {
        let q = choose|q: int|
            0 <= q < s.len() && s[q] == '\n' && forall|j: int| 0 <= j < q ==> s[j] != '\n';
        if p < q {
            assert(s[p] != '\n');
        }
    }
    assert(s.take(p) + "\n"@ + HOOK_VERSION_TAG@ + s.skip(p) =~= s.take(p + 1) + HOOK_VERSION_TAG@
        + "\n"@ + s.skip(p + 1));
}


/// `s` with the first occurrence of `pat` taken out, as `replacen(pat, "", 1)`
/// does; `s` itself where `pat` does not occur.
pub open spec fn remove_first(s: Seq<char>, pat: Seq<char>) -> Seq<char>
    decreases s.len(),
{
    if s.len() == 0 || s.len() < pat.len() {
        s
    } else if s.take(pat.len() as int) == pat {
        s.skip(pat.len() as int)
    } else {
        seq![s[0]] + remove_first(s.skip(1), pat)
    }
}

proof fn lemma_remove_first_after_line(a: Seq<char>, b: Seq<char>, pat: Seq<char>)
    requires
        pat.len() > 0,
        pat[0] == '\n',
        forall|j: int| 0 <= j < a.len() ==> a[j] != '\n',
    ensures
        remove_first(a + b, pat) == a + remove_first(b, pat),
    decreases a.len(),
{
    let t = a + b;
    if a.len() == 0 {
        assert(t =~= b);
        assert(a + remove_first(b, pat) =~= remove_first(b, pat));
    } else {
        if t.len() < pat.len() {
            assert(b.len() < pat.len());
        } else {
            assert(t.take(pat.len() as int)[0] == a[0]);
            assert(t.take(pat.len() as int) != pat);
            let a1 = a.skip(1);
            assert forall|j: int| 0 <= j < a1.len() implies a1[j] != '\n' by {
                assert(a1[j] == a[j + 1]);
            }
            lemma_remove_first_after_line(a1, b, pat);
            assert(t.skip(1) =~= a1 + b);
            assert(seq![a[0]] + (a1 + remove_first(b, pat)) =~= a + remove_first(b, pat));
        }
    }
}

/// A text with a line break at `i` has a first one, at or before `i`.
proof fn lemma_first_line_break(s: Seq<char>, i: int) -> (p: int)
    requires
        0 <= i < s.len(),
        s[i] == '\n',
    ensures
        0 <= p <= i,
        s[p] == '\n',
        forall|j: int| 0 <= j < p ==> s[j] != '\n',
    decreases i,
{
    if exists|j: int| 0 <= j < i && s[j] == '\n' {
        let j = choose|j: int| 0 <= j < i && s[j] == '\n';
        lemma_first_line_break(s, j)
    } else {
        i
    }
}

/// Taking the first tag line back out of the tagged hook script gives back
/// the script: the tag is the only thing inserted. A script without a line
/// break is left as it is.
pub proof fn law_version_tag_comes_back_out(s: Seq<char>)
    ensures
        remove_first(with_version_tag(s), "\n"@ + HOOK_VERSION_TAG@) == s,
        (forall|j: int| 0 <= j < s.len() ==> s[j] != '\n') ==> with_version_tag(s) == s,
{
    reveal_strlit("\n");
    let pat = "\n"@ + HOOK_VERSION_TAG@;
    assert(pat[0] == '\n');
    if exists|i: int| 0 <= i < s.len() && s[i] == '\n' {
        let i = choose|i: int| 0 <= i < s.len() && s[i] == '\n';
        let p = lemma_first_line_break(s, i);
        assert(first_newline(s) == Some(p)) by {
            let q = choose|q: int|
                0 <= q < s.len() && s[q] == '\n' && forall|j: int| 0 <= j < q ==> s[j] != '\n';
            if p < q {
                assert(s[p] != '\n');
            }
            if q < p {
                assert(s[q] != '\n');
            }
        }
        let a = s.take(p);
        let b = pat + s.skip(p);
        assert forall|j: int| 0 <= j < a.len() implies a[j] != '\n' by {
            assert(a[j] == s[j]);
        }
        assert(with_version_tag(s) == s.take(p) + "\n"@ + HOOK_VERSION_TAG@ + s.skip(p));
        assert(with_version_tag(s) =~= a + b);
        lemma_remove_first_after_line(a, b, pat);
        assert(b.take(pat.len() as int) =~= pat);
        assert(b.skip(pat.len() as int) =~= s.skip(p));
        assert(a + s.skip(p) =~= s);
    } else {
        assert(with_version_tag(s) == s);
        lemma_remove_first_after_line(s, Seq::empty(), pat);
        assert(s + Seq::<char>::empty() =~= s);
    }
}

/// A message on any other pipe than the activity pipe changes nothing.
pub proof fn law_other_pipes_change_nothing(m: StateView, msg: PipeMessageView)
    requires
        msg.name != PIPE_NAME@,
    ensures
        handle_pipe(m, msg).0 == m,
{
}

/// Arguments that the activity pipe does not know are ignored: two
/// reports that agree on `pane_id`, `ts_ms`, `hook_event`, `notification`
/// and `tool_name` do the same to the state.
pub proof fn law_unknown_arguments_are_ignored(
    m: StateView,
    a1: Seq<(Seq<char>, Seq<char>)>,
    a2: Seq<(Seq<char>, Seq<char>)>,
)
    requires
        lookup(a1, "pane_id"@) == lookup(a2, "pane_id"@),
        lookup(a1, "ts_ms"@) == lookup(a2, "ts_ms"@),
        lookup(a1, "hook_event"@) == lookup(a2, "hook_event"@),
        lookup(a1, "notification"@) == lookup(a2, "notification"@),
        lookup(a1, "tool_name"@) == lookup(a2, "tool_name"@),
    ensures
        on_activity(m, a1).0 == on_activity(m, a2).0,
{
}

proof fn lemma_tab_table_ids(tabs: Seq<TabInfoView>)
    ensures
        forall|i: int|
            0 <= i < tab_table(tabs).len() ==> tab_id_list(tabs).contains(
                #[trigger] tab_table(tabs)[i].1,
            ),
    decreases tabs.len(),
{
    if tabs.len() > 0 {
        let init = tabs.drop_last();
        lemma_tab_table_ids(init);
        let p = tab_table(init);
        let t = tab_table(tabs);
        let last = tabs.last();
        assert(tab_id_list(tabs)[tabs.len() - 1] == last.tab_id);
        assert forall|i: int| 0 <= i < t.len() implies tab_id_list(tabs).contains(
            #[trigger] t[i].1,
        ) by {
            if t[i].1 != last.tab_id {
                assert(t[i] == p[i]);
                let j = choose|j: int|
                    0 <= j < tab_id_list(init).len() && tab_id_list(init)[j] == p[i].1;
                assert(tab_id_list(tabs)[j] == tab_id_list(init)[j]);
            }
        }
    }
}

/// Cleanup follows the events: after a tab update only the tabs it lists
/// have a prefix recorded, and after a pane update only the panes it lists
/// have an activity or a send time recorded.
pub proof fn law_updates_forget_what_is_gone(m: StateView, ev: EventView)
    requires
        wf(m),
        m.sink != Sink::Unconfigured,
    ensures
        ev matches EventView::TabUpdate(tabs) ==> forall|t: usize|
            #[trigger] lookup(handle(m, ev).0.shown, t) is Some ==> tab_id_list(tabs).contains(t),
        ev matches EventView::PaneUpdate(entries) ==> forall|p: u32|
            #[trigger] lookup(handle(m, ev).0.activity, p) is Some ==> all_pane_ids(
                pane_table(entries),
            ).contains(p),
        ev matches EventView::PaneUpdate(entries) ==> forall|p: u32|
            #[trigger] lookup(handle(m, ev).0.last_ts, p) is Some ==> all_pane_ids(
                pane_table(entries),
            ).contains(p),
{
    match ev {
        EventView::TabUpdate(tabs) => {
            let alive = tab_id_list(tabs);
            lemma_keep_keys(m.shown, alive);
            lemma_name_table(tabs);
            let m1 = StateView {
                tabs: tab_table(tabs),
                tab_name: name_table(tabs),
                shown: keep_keys(m.shown, alive),
                ..m
            };
            let m2 = StateView { pane_to_tab: pane_tabs(m1.panes, m1.tabs), ..m1 };
            let ids = tab_ids(m2.tabs);
            lemma_recompute_tabs(m2, ids);
            lemma_tab_table_ids(tabs);
            let m3 = handle(m, ev).0;
            assert forall|t: usize| #[trigger] lookup(m3.shown, t) is Some implies alive.contains(
                t,
            ) by {
                if ids.contains(t) {
                    let i = choose|i: int| 0 <= i < ids.len() && ids[i] == t;
                    assert(ids[i] == m2.tabs[i].1);
                } else {
                    assert(lookup(m3.shown, t) == lookup(m2.shown, t));
                }
            }
        },
        EventView::PaneUpdate(entries) => {
            let panes = pane_table(entries);
            let alive = all_pane_ids(panes);
            lemma_keep_keys(m.activity, alive);
            lemma_keep_keys(m.last_ts, alive);
            let m1 = StateView {
                panes,
                activity: keep_keys(m.activity, alive),
                last_ts: keep_keys(m.last_ts, alive),
                ..m
            };
            let m2 = StateView { pane_to_tab: pane_tabs(m1.panes, m1.tabs), ..m1 };
            lemma_recompute_tabs(m2, tab_ids(m2.tabs));
        },
        EventView::Other => {},
    }
}

/// A prefix is recorded only for a tab of the position table.
pub open spec fn shown_on_live_tabs(m: StateView) -> bool {
    forall|t: usize| #[trigger] lookup(m.shown, t) is Some ==> tab_ids(m.tabs).contains(t)
}

/// No two tabs of an update stand at the same position.
pub open spec fn distinct_positions(tabs: Seq<TabInfoView>) -> bool {
    forall|i: int, j: int|
        0 <= i < tabs.len() && 0 <= j < tabs.len() && i != j ==> #[trigger] tabs[i].position
            != #[trigger] tabs[j].position
}

/// With distinct positions, the position table lists every tab of the
/// update, in order.
proof fn lemma_tab_table_distinct(tabs: Seq<TabInfoView>)
    requires
        distinct_positions(tabs),
    ensures
        tab_table(tabs).len() == tabs.len(),
        forall|i: int|
            0 <= i < tabs.len() ==> #[trigger] tab_table(tabs)[i] == (
                tabs[i].position,
                tabs[i].tab_id,
            ),
    decreases tabs.len(),
{
    if tabs.len() > 0 {
        let init = tabs.drop_last();
        assert(distinct_positions(init)) by {
            assert forall|i: int, j: int|
                0 <= i < init.len() && 0 <= j < init.len() && i != j implies #[trigger] init[i].position
                != #[trigger] init[j].position by {
                assert(init[i] == tabs[i]);
                assert(init[j] == tabs[j]);
            }
        }
        lemma_tab_table_distinct(init);
        let prev = tab_table(init);
        let last = tabs.last();
        assert(!has_key(prev, last.position)) by {
            if has_key(prev, last.position) {
                let i = choose|i: int| 0 <= i < prev.len() && #[trigger] prev[i].0 == last.position;
                assert(prev[i] == (init[i].position, init[i].tab_id));
                assert(init[i] == tabs[i]);
                assert(tabs[tabs.len() - 1] == last);
            }
        }
        assert(tab_table(tabs) == prev.push((last.position, last.tab_id)));
        assert forall|i: int| 0 <= i < tabs.len() implies #[trigger] tab_table(tabs)[i] == (
            tabs[i].position,
            tabs[i].tab_id,
        ) by {
            if i < init.len() {
                assert(init[i] == tabs[i]);
            }
        }
    }
}

proof fn lemma_recompute_tab_shown_live(m: StateView, tab: usize)
    requires
        unique_keys(m.shown),
        unique_keys(m.tab_name),
        shown_on_live_tabs(m),
        tab_ids(m.tabs).contains(tab),
    ensures
        shown_on_live_tabs(recompute_tab(m, tab).0),
{
    lemma_recompute_tab(m, tab);
    let m2 = recompute_tab(m, tab).0;
    assert forall|t: usize| #[trigger] lookup(m2.shown, t) is Some implies tab_ids(
        m2.tabs,
    ).contains(t) by {
        if t != tab {
            assert(lookup(m.shown, t) is Some);
        }
    }
}

/// Prefixes are recorded only for live tabs: a tab update whose tabs stand
/// at distinct positions leaves prefixes only on the tabs it lists, and
/// every pipe message, pane update or reload keeps that so.
pub proof fn law_prefixes_only_on_live_tabs(
    m: StateView,
    ev: EventView,
    msg: PipeMessageView,
    config: Seq<(Seq<char>, Seq<char>)>,
)
    requires
        consistent(m),
    ensures
        ev matches EventView::TabUpdate(tabs) ==> (distinct_positions(tabs) && (m.sink
            != Sink::Unconfigured || shown_on_live_tabs(m)) ==> shown_on_live_tabs(
            handle(m, ev).0,
        )),
        shown_on_live_tabs(m) && !(ev is TabUpdate) ==> shown_on_live_tabs(handle(m, ev).0),
        shown_on_live_tabs(m) ==> shown_on_live_tabs(handle_pipe(m, msg).0),
        shown_on_live_tabs(m) ==> shown_on_live_tabs(init(m, config).0),
{
    if m.sink != Sink::Unconfigured {
        match ev {
            EventView::TabUpdate(tabs) => {
                if distinct_positions(tabs) {
                    let alive = tab_id_list(tabs);
                    lemma_keep_keys(m.shown, alive);
                    lemma_name_table(tabs);
                    let m1 = StateView {
                        tabs: tab_table(tabs),
                        tab_name: name_table(tabs),
                        shown: keep_keys(m.shown, alive),
                        ..m
                    };
                    let m2 = StateView { pane_to_tab: pane_tabs(m1.panes, m1.tabs), ..m1 };
                    let ids = tab_ids(m2.tabs);
                    lemma_recompute_tabs(m2, ids);
                    lemma_tab_table_distinct(tabs);
                    let m3 = handle(m, ev).0;
                    assert forall|t: usize| #[trigger] lookup(m3.shown, t) is Some implies tab_ids(
                        m3.tabs,
                    ).contains(t) by {
                        if !ids.contains(t) {
                            assert(lookup(m3.shown, t) == lookup(m2.shown, t));
                            assert(alive.contains(t));
                            let j = choose|j: int| 0 <= j < alive.len() && alive[j] == t;
                            assert(ids[j] == tab_table(tabs)[j].1);
                        }
                    }
                }
            },
            EventView::PaneUpdate(entries) => {
                if shown_on_live_tabs(m) {
                    let panes = pane_table(entries);
                    let alive = all_pane_ids(panes);
                    let m1 = StateView {
                        panes,
                        activity: keep_keys(m.activity, alive),
                        last_ts: keep_keys(m.last_ts, alive),
                        ..m
                    };
                    let m2 = StateView { pane_to_tab: pane_tabs(m1.panes, m1.tabs), ..m1 };
                    lemma_recompute_tabs(m2, tab_ids(m2.tabs));
                    let m3 = handle(m, ev).0;
                    assert forall|t: usize| #[trigger] lookup(m3.shown, t) is Some implies tab_ids(
                        m3.tabs,
                    ).contains(t) by {
                        if !tab_ids(m2.tabs).contains(t) {
                            assert(lookup(m3.shown, t) == lookup(m2.shown, t));
                        }
                    }
                }
            },
            EventView::Other => {},
        }
        if shown_on_live_tabs(m) {
            let args = msg.args;
            match parsed_pane(args) {
                None => {},
                Some(pane) => {
                    let ts = parsed_ts(args);
                    if !is_stale(m, pane, ts) {
                        let m1 = match ts {
                            Some(t) => StateView { last_ts: with_entry(m.last_ts, pane, t), ..m },
                            None => m,
                        };
                        match lookup(m1.pane_to_tab, pane) {
                            None => {},
                            Some(tab) => {
                                assert(tab_ids(m1.tabs).contains(tab));
                                let event = arg_or_empty(args, "hook_event"@);
                                let tool = arg_or_empty(args, "tool_name"@);
                                let acts: Seq<Option<ActivityView>> = seq![
                                    None,
                                    Some(ActivityView::Waiting),
                                    activity_for(event, tool),
                                ];
                                assert forall|k: int| 0 <= k < 3 implies #[trigger] shown_on_live_tabs(
                                    apply_activity(m1, pane, tab, acts[k]).0,
                                ) by {
                                    let a = acts[k];
                                    let activity = match a {
                                        Some(x) => with_entry(m1.activity, pane, x),
                                        None => without_key(m1.activity, pane),
                                    };
                                    lemma_recompute_tab_shown_live(
                                        StateView { activity, ..m1 },
                                        tab,
                                    );
                                }
                                assert(shown_on_live_tabs(apply_activity(m1, pane, tab, acts[0]).0));
                                assert(shown_on_live_tabs(apply_activity(m1, pane, tab, acts[1]).0));
                                assert(shown_on_live_tabs(apply_activity(m1, pane, tab, acts[2]).0));
                            },
                        }
                    }
                },
            }
        }
    }
}

/// The line that says what became of an activity report: why it was
/// dropped or ignored, or what its pane's activity became.
pub open spec fn decision_line(m: StateView, args: Seq<(Seq<char>, Seq<char>)>) -> Seq<char> {
    match parsed_pane(args) {
        None => log_no_pane(args),
        Some(pane) => {
            let ts = parsed_ts(args);
            if is_stale(m, pane, ts) {
                log_stale(pane, ts->Some_0, lookup(m.last_ts, pane)->Some_0)
            } else {
                match lookup(m.pane_to_tab, pane) {
                    None => log_unmapped_pane(pane),
                    Some(tab) => {
                        let event = arg_or_empty(args, "hook_event"@);
                        let tool = arg_or_empty(args, "tool_name"@);
                        if event == "SessionEnd"@ {
                            log_session_end(pane, tab)
                        } else if event == "Notification"@ {
                            if lookup(args, "notification"@) == Some("idle"@) {
                                log_idle(pane, tab)
                            } else {
                                log_waiting(pane, tab)
                            }
                        } else {
                            match activity_for(event, tool) {
                                Some(a) => log_mapped(pane, tab, event, tool, a),
                                None => log_kept(pane, tab, event, tool),
                            }
                        }
                    },
                }
            }
        },
    }
}

/// A report that is dropped or ignored: it has no usable pane id, is
/// stale, comes from a pane no tab holds yet, is an idle nudge, or names
/// an event that maps to no activity.
pub open spec fn is_dropped(m: StateView, args: Seq<(Seq<char>, Seq<char>)>) -> bool {
    match parsed_pane(args) {
        None => true,
        Some(pane) => is_stale(m, pane, parsed_ts(args)) || match lookup(m.pane_to_tab, pane) {
            None => true,
            Some(tab) => {
                let event = arg_or_empty(args, "hook_event"@);
                let tool = arg_or_empty(args, "tool_name"@);
                ||| event == "Notification"@ && lookup(args, "notification"@) == Some("idle"@)
                ||| event != "SessionEnd"@ && event != "Notification"@ && activity_for(
                    event,
                    tool,
                ) is None
            },
        },
    }
}

/// With debugging on, every message on the activity pipe is traced: the
/// first line gives the pipe's name and arguments, and a later one says
/// what became of the report; for one that is dropped or ignored, that
/// line gives the reason, and such a report changes no activity and shows
/// nothing.
pub proof fn law_debug_explains_every_report(m: StateView, msg: PipeMessageView)
    requires
        m.debug,
        m.sink != Sink::Unconfigured,
        msg.name == PIPE_NAME@,
    ensures
        handle_pipe(m, msg).1.len() > 0,
        handle_pipe(m, msg).1[0] == EffectView::Log(log_pipe(msg.name, msg.args)),
        handle_pipe(m, msg).1.contains(EffectView::Log(decision_line(m, msg.args))),
        is_dropped(m, msg.args) ==> handle_pipe(m, msg).0.activity == m.activity && shows_nothing(
            handle_pipe(m, msg).1,
        ),
{
    let args = msg.args;
    let e0 = trace_line(m.debug, log_pipe(msg.name, args));
    let e1: Seq<EffectView> = match msg.source {
        PipeSourceView::Cli(id) => seq![EffectView::UnblockCliPipe(id)],
        _ => Seq::empty(),
    };
    let e2 = on_activity(m, args).1;
    let e = handle_pipe(m, msg).1;
    assert(e == e0 + e1 + e2);
    assert(e2.len() > 0 && e2[0] == EffectView::Log(decision_line(m, args))) by {
        match parsed_pane(args) {
            None => {},
            Some(pane) => {
                let ts = parsed_ts(args);
                if !is_stale(m, pane, ts) {
                    let m1 = match ts {
                        Some(t) => StateView { last_ts: with_entry(m.last_ts, pane, t), ..m },
                        None => m,
                    };
                    match lookup(m1.pane_to_tab, pane) {
                        None => {},
                        Some(tab) => {
                            let event = arg_or_empty(args, "hook_event"@);
                            let tool = arg_or_empty(args, "tool_name"@);
                            let (m2, em) = on_mapped_activity(m1, args, pane, tab);
                            assert(em.len() > 0 && em[0] == EffectView::Log(
                                decision_line(m, args),
                            ));
                        },
                    }
                }
            },
        }
    }
    assert(e[(e0.len() + e1.len()) as int] == e2[0]);
    lemma_trace_line(m.debug, log_pipe(msg.name, args));
    assert(shows_nothing(e1));
    lemma_concat_effects(e0, e1, seq![]);
    if is_dropped(m, args) {
        match parsed_pane(args) {
            None => {
                lemma_trace_line(m.debug, log_no_pane(args));
            },
            Some(pane) => {
                let ts = parsed_ts(args);
                if is_stale(m, pane, ts) {
                    law_stale_report_is_dropped(m, msg, pane, ts->Some_0);
                } else if lookup(m.pane_to_tab, pane) is None {
                    law_unmapped_pane_is_dropped(m, msg, pane);
                } else {
                    let tab = lookup(m.pane_to_tab, pane)->Some_0;
                    let m1 = match ts {
                        Some(t) => StateView { last_ts: with_entry(m.last_ts, pane, t), ..m },
                        None => m,
                    };
                    law_uninformative_report_keeps_activity(m1, args, pane, tab);
                }
            },
        }
        lemma_concat_effects(e0 + e1, e2, seq![]);
    }
}

/// With debugging on, every tab and pane update is traced first: with the
/// new position table, or with the new mapping of panes to tabs.
pub proof fn law_debug_traces_updates(m: StateView, ev: EventView)
    requires
        m.debug,
        m.sink != Sink::Unconfigured,
    ensures
        ev matches EventView::TabUpdate(tabs) ==> handle(m, ev).1[0] == EffectView::Log(
            log_tabs(tab_table(tabs)),
        ),
        ev matches EventView::PaneUpdate(entries) ==> handle(m, ev).1[0] == EffectView::Log(
            log_panes(pane_tabs(pane_table(entries), m.tabs)),
        ),
{
}

/// What the two modes share: everything but what has been shown or named.
pub open spec fn same_decisions(a: StateView, b: StateView) -> bool {
    &&& a.tabs == b.tabs
    &&& a.panes == b.panes
    &&& a.pane_to_tab == b.pane_to_tab
    &&& a.activity == b.activity
    &&& a.last_ts == b.last_ts
    &&& a.debug == b.debug
}

proof fn lemma_recompute_tabs_decisions(m: StateView, ids: Seq<usize>)
    ensures
        same_decisions(recompute_tabs(m, ids).0, m),
    decreases ids.len(),
{
    if ids.len() > 0 {
        lemma_recompute_tabs_decisions(m, ids.drop_last());
    }
}

proof fn lemma_mapped_decisions(
    a: StateView,
    b: StateView,
    args: Seq<(Seq<char>, Seq<char>)>,
    pane: u32,
    tab: usize,
)
    requires
        same_decisions(a, b),
    ensures
        same_decisions(
            on_mapped_activity(a, args, pane, tab).0,
            on_mapped_activity(b, args, pane, tab).0,
        ),
{
    let event = arg_or_empty(args, "hook_event"@);
    let tool = arg_or_empty(args, "tool_name"@);
    let acts: Seq<Option<ActivityView>> = seq![
        None,
        Some(ActivityView::Waiting),
        activity_for(event, tool),
    ];
    assert(same_decisions(apply_activity(a, pane, tab, acts[0]).0, apply_activity(b, pane, tab, acts[0]).0));
    assert(same_decisions(apply_activity(a, pane, tab, acts[1]).0, apply_activity(b, pane, tab, acts[1]).0));
    assert(same_decisions(apply_activity(a, pane, tab, acts[2]).0, apply_activity(b, pane, tab, acts[2]).0));
}

/// The two modes share every decision; only what happens to the name
/// differs. From two states that differ only in their mode and in what
/// they have shown or named, every tab should show the same prefix, and an
/// event or a pipe message leads to two states that again differ only
/// there: the same activities, send times, tabs, panes and mapping.
pub proof fn law_modes_share_every_decision(
    a: StateView,
    b: StateView,
    ev: EventView,
    msg: PipeMessageView,
)
    requires
        same_decisions(a, b),
        a.sink != Sink::Unconfigured,
        b.sink != Sink::Unconfigured,
    ensures
        forall|t: usize| #[trigger] desired_prefix(a, t) == desired_prefix(b, t),
        same_decisions(handle(a, ev).0, handle(b, ev).0),
        same_decisions(handle_pipe(a, msg).0, handle_pipe(b, msg).0),
{
    match ev {
        EventView::TabUpdate(tabs) => {
            let a1 = StateView {
                tabs: tab_table(tabs),
                tab_name: name_table(tabs),
                shown: keep_keys(a.shown, tab_id_list(tabs)),
                ..a
            };
            let a2 = StateView { pane_to_tab: pane_tabs(a1.panes, a1.tabs), ..a1 };
            let b1 = StateView {
                tabs: tab_table(tabs),
                tab_name: name_table(tabs),
                shown: keep_keys(b.shown, tab_id_list(tabs)),
                ..b
            };
            let b2 = StateView { pane_to_tab: pane_tabs(b1.panes, b1.tabs), ..b1 };
            lemma_recompute_tabs_decisions(a2, tab_ids(a2.tabs));
            lemma_recompute_tabs_decisions(b2, tab_ids(b2.tabs));
        },
        EventView::PaneUpdate(entries) => {
            let panes = pane_table(entries);
            let alive = all_pane_ids(panes);
            let a1 = StateView {
                panes,
                activity: keep_keys(a.activity, alive),
                last_ts: keep_keys(a.last_ts, alive),
                ..a
            };
            let a2 = StateView { pane_to_tab: pane_tabs(a1.panes, a1.tabs), ..a1 };
            let b1 = StateView {
                panes,
                activity: keep_keys(b.activity, alive),
                last_ts: keep_keys(b.last_ts, alive),
                ..b
            };
            let b2 = StateView { pane_to_tab: pane_tabs(b1.panes, b1.tabs), ..b1 };
            lemma_recompute_tabs_decisions(a2, tab_ids(a2.tabs));
            lemma_recompute_tabs_decisions(b2, tab_ids(b2.tabs));
        },
        EventView::Other => {},
    }
    let args = msg.args;
    match parsed_pane(args) {
        None => {},
        Some(pane) => {
            let ts = parsed_ts(args);
            if !is_stale(a, pane, ts) {
                let a1 = match ts {
                    Some(t) => StateView { last_ts: with_entry(a.last_ts, pane, t), ..a },
                    None => a,
                };
                let b1 = match ts {
                    Some(t) => StateView { last_ts: with_entry(b.last_ts, pane, t), ..b },
                    None => b,
                };
                match lookup(a1.pane_to_tab, pane) {
                    None => {},
                    Some(tab) => lemma_mapped_decisions(a1, b1, args, pane, tab),
                }
            }
        },
    }
}

proof fn lemma_bind_all_lookup(s: Seq<(u32, usize)>, ids: Seq<u32>, tab: usize)
    requires
        unique_keys(s),
    ensures
        unique_keys(bind_all(s, ids, tab)),
        forall|k: u32| #[trigger]
            lookup(bind_all(s, ids, tab), k) == (if ids.contains(k) {
                Some(tab)
            } else {
                lookup(s, k)
            }),
    decreases ids.len(),
{
    if ids.len() > 0 {
        let init = ids.drop_last();
        lemma_bind_all_lookup(s, init, tab);
        let prev = bind_all(s, init, tab);
        lemma_with_entry_unique(prev, ids.last(), tab);
        assert(bind_all(s, ids, tab) == with_entry(prev, ids.last(), tab));
        assert forall|k: u32| #[trigger]
            lookup(bind_all(s, ids, tab), k) == (if ids.contains(k) {
                Some(tab)
            } else {
                lookup(s, k)
            }) by {
            if k == ids.last() {
                assert(ids[ids.len() - 1] == k);
            } else {
                assert(lookup(bind_all(s, ids, tab), k) == lookup(prev, k));
                assert(lookup(prev, k) == (if init.contains(k) {
                    Some(tab)
                } else {
                    lookup(s, k)
                }));
                if init.contains(k) {
                    let j = choose|j: int| 0 <= j < init.len() && init[j] == k;
                    assert(ids[j] == k);
                }
                if ids.contains(k) {
                    let j = choose|j: int| 0 <= j < ids.len() && ids[j] == k;
                    assert(init[j] == k);
                }
            }
        }
    }
}

/// Pane `p` is listed at a position of the pane table whose tab is `t`.
pub open spec fn listed_under(
    panes: Seq<(usize, Seq<u32>)>,
    tabs: Seq<(usize, usize)>,
    p: u32,
    t: usize,
) -> bool {
    exists|i: int|
        0 <= i < panes.len() && #[trigger] panes[i].1.contains(p) && lookup(tabs, panes[i].0)
            == Some(t)
}

/// Rebuilding the mapping of panes to tabs maps exactly the panes listed
/// at a position that has a tab, each to the tab at a position that lists
/// it; a pane at a position without a tab stays unmapped.
pub proof fn law_panes_map_to_the_tab_at_their_position(
    panes: Seq<(usize, Seq<u32>)>,
    tabs: Seq<(usize, usize)>,
)
    ensures
        unique_keys(pane_tabs(panes, tabs)),
        forall|p: u32|
            #[trigger] lookup(pane_tabs(panes, tabs), p) is Some ==> listed_under(
                panes,
                tabs,
                p,
                lookup(pane_tabs(panes, tabs), p)->Some_0,
            ),
        forall|p: u32, t: usize| #[trigger]
            listed_under(panes, tabs, p, t) ==> lookup(pane_tabs(panes, tabs), p) is Some,
    decreases panes.len(),
{
    if panes.len() > 0 {
        let init = panes.drop_last();
        let n = panes.len() - 1;
        law_panes_map_to_the_tab_at_their_position(init, tabs);
        let prev = pane_tabs(init, tabs);
        let (pos, ids) = panes.last();
        assert(panes[n] == (pos, ids));
        let r = pane_tabs(panes, tabs);
        match lookup(tabs, pos) {
            Some(tab) => lemma_bind_all_lookup(prev, ids, tab),
            None => {},
        }
        assert forall|p: u32| #[trigger] lookup(r, p) is Some implies listed_under(
            panes,
            tabs,
            p,
            lookup(r, p)->Some_0,
        ) by {
            let t = lookup(r, p)->Some_0;
            if lookup(tabs, pos) is Some && ids.contains(p) {
                assert(panes[n].1.contains(p));
            } else {
                assert(lookup(prev, p) == Some(t));
                assert(listed_under(init, tabs, p, t));
                let i = choose|i: int|
                    0 <= i < init.len() && #[trigger] init[i].1.contains(p) && lookup(tabs, init[i].0)
                        == Some(t);
                assert(panes[i] == init[i]);
            }
        }
        assert forall|p: u32, t: usize| #[trigger]
            listed_under(panes, tabs, p, t) implies lookup(r, p) is Some by {
            let i = choose|i: int|
                0 <= i < panes.len() && #[trigger] panes[i].1.contains(p) && lookup(tabs, panes[i].0)
                    == Some(t);
            if i < n {
                assert(init[i] == panes[i]);
                assert(listed_under(init, tabs, p, t));
            }
        }
    }
}

/// The ids that a position's panes contribute: those of its panes that are
/// not plugins, in order.
pub proof fn law_terminal_ids(ps: Seq<PaneInfo>)
    ensures
        terminal_ids(ps) == ps.filter(|p: PaneInfo| !p.is_plugin).map_values(|p: PaneInfo| p.id),
    decreases ps.len(),
{
    reveal(Seq::filter);
    if ps.len() > 0 {
        law_terminal_ids(ps.drop_last());
        let f = ps.drop_last().filter(|p: PaneInfo| !p.is_plugin);
        if !ps.last().is_plugin {
            assert(f.push(ps.last()).map_values(|p: PaneInfo| p.id) =~= f.map_values(
                |p: PaneInfo| p.id,
            ).push(ps.last().id));
        }
    } else {
        assert(terminal_ids(ps) =~= ps.filter(|p: PaneInfo| !p.is_plugin).map_values(
            |p: PaneInfo| p.id,
        ));
    }
}

proof fn lemma_terminal_ids_contains(ps: Seq<PaneInfo>)
    ensures
        forall|x: u32| #[trigger]
            terminal_ids(ps).contains(x) <==> exists|j: int|
                0 <= j < ps.len() && #[trigger] ps[j].id == x && !ps[j].is_plugin,
    decreases ps.len(),
{
    if ps.len() > 0 {
        let init = ps.drop_last();
        lemma_terminal_ids_contains(init);
        let n = ps.len() - 1;
        assert forall|x: u32| #[trigger] terminal_ids(ps).contains(x) <==> exists|j: int|
            0 <= j < ps.len() && #[trigger] ps[j].id == x && !ps[j].is_plugin by {
            let r = terminal_ids(ps);
            let q = terminal_ids(init);
            if r.contains(x) {
                let k = choose|k: int| 0 <= k < r.len() && r[k] == x;
                if k < q.len() && (ps.last().is_plugin || k < q.len()) {
                    assert(q[k] == r[k]);
                    assert(q.contains(x));
                    let j = choose|j: int| 0 <= j < init.len() && #[trigger] init[j].id == x
                        && !init[j].is_plugin;
                    assert(ps[j] == init[j]);
                } else {
                    assert(ps[n].id == x);
                }
            }
            if exists|j: int| 0 <= j < ps.len() && #[trigger] ps[j].id == x && !ps[j].is_plugin {
                let j = choose|j: int| 0 <= j < ps.len() && #[trigger] ps[j].id == x
                    && !ps[j].is_plugin;
                if j < n {
                    assert(init[j] == ps[j]);
                    assert(q.contains(x));
                    let k = choose|k: int| 0 <= k < q.len() && q[k] == x;
                    assert(r[k] == x);
                } else {
                    assert(r[r.len() - 1] == x);
                }
            }
        }
    }
}

proof fn lemma_all_pane_ids_contains(panes: Seq<(usize, Seq<u32>)>)
    ensures
        forall|p: u32| #[trigger]
            all_pane_ids(panes).contains(p) <==> exists|i: int|
                0 <= i < panes.len() && #[trigger] panes[i].1.contains(p),
    decreases panes.len(),
{
    if panes.len() > 0 {
        let init = panes.drop_last();
        lemma_all_pane_ids_contains(init);
        let n = panes.len() - 1;
        let a = all_pane_ids(init);
        let b = panes.last().1;
        assert(all_pane_ids(panes) == a + b);
        assert forall|p: u32| #[trigger] all_pane_ids(panes).contains(p) <==> exists|i: int|
            0 <= i < panes.len() && #[trigger] panes[i].1.contains(p) by {
            let r = a + b;
            if r.contains(p) {
                let k = choose|k: int| 0 <= k < r.len() && r[k] == p;
                if k < a.len() {
                    assert(a[k] == p);
                    assert(a.contains(p));
                    let i = choose|i: int| 0 <= i < init.len() && #[trigger] init[i].1.contains(p);
                    assert(panes[i] == init[i]);
                } else {
                    assert(b[k - a.len()] == p);
                    assert(panes[n].1.contains(p));
                }
            }
            if exists|i: int| 0 <= i < panes.len() && #[trigger] panes[i].1.contains(p) {
                let i = choose|i: int| 0 <= i < panes.len() && #[trigger] panes[i].1.contains(p);
                if i < n {
                    assert(init[i] == panes[i]);
                    assert(init[i].1.contains(p));
                    assert(a.contains(p));
                    let k = choose|k: int| 0 <= k < a.len() && a[k] == p;
                    assert(r[k] == p);
                } else {
                    let k = choose|k: int| 0 <= k < b.len() && b[k] == p;
                    assert(r[a.len() + k] == p);
                }
            }
        }
    }
}

/// No two entries of a pane update stand at the same position.
pub open spec fn distinct_entry_positions(entries: Seq<(usize, Seq<PaneInfo>)>) -> bool {
    forall|i: int, j: int|
        0 <= i < entries.len() && 0 <= j < entries.len() && i != j ==> #[trigger] entries[i].0
            != #[trigger] entries[j].0
}

proof fn lemma_pane_table_distinct(entries: Seq<(usize, Seq<PaneInfo>)>)
    requires
        distinct_entry_positions(entries),
    ensures
        pane_table(entries).len() == entries.len(),
        forall|i: int|
            0 <= i < entries.len() ==> #[trigger] pane_table(entries)[i] == (
                entries[i].0,
                terminal_ids(entries[i].1),
            ),
    decreases entries.len(),
{
    if entries.len() > 0 {
        let init = entries.drop_last();
        assert(distinct_entry_positions(init)) by {
            assert forall|i: int, j: int|
                0 <= i < init.len() && 0 <= j < init.len() && i != j implies #[trigger] init[i].0
                != #[trigger] init[j].0 by {
                assert(init[i] == entries[i]);
                assert(init[j] == entries[j]);
            }
        }
        lemma_pane_table_distinct(init);
        let prev = pane_table(init);
        let last = entries.last();
        assert(!has_key(prev, last.0)) by {
            if has_key(prev, last.0) {
                let i = choose|i: int| 0 <= i < prev.len() && #[trigger] prev[i].0 == last.0;
                assert(prev[i] == (init[i].0, terminal_ids(init[i].1)));
                assert(init[i] == entries[i]);
                assert(entries[entries.len() - 1] == last);
            }
        }
        assert(pane_table(entries) == prev.push((last.0, terminal_ids(last.1))));
        assert forall|i: int| 0 <= i < entries.len() implies #[trigger] pane_table(entries)[i] == (
            entries[i].0,
            terminal_ids(entries[i].1),
        ) by {
            if i < init.len() {
                assert(init[i] == entries[i]);
            }
        }
    }
}

/// Whether tab `t` has something to show: under `pipe`, its prefix
/// differs from the one recorded as shown; under `rename`, its composed
/// name differs from the name it is believed to carry.
pub open spec fn needs_update(m: StateView, t: usize) -> bool {
    match m.sink {
        Sink::Pipe => lookup(m.shown, t) != desired_prefix(m, t),
        Sink::Rename => lookup(m.tab_name, t) matches Some(n) && compose_name(
            desired_prefix(m, t),
            n,
        ) != n,
        Sink::Unconfigured => false,
    }
}

/// The effect that brings tab `t` up to date.
pub open spec fn update_effect(m: StateView, t: usize) -> EffectView {
    match m.sink {
        Sink::Rename => EffectView::RenameTab {
            tab_id: t,
            name: compose_name(desired_prefix(m, t), lookup(m.tab_name, t)->Some_0),
        },
        _ => EffectView::ShowActivity { tab_id: t, prefix: desired_prefix(m, t) },
    }
}

/// Recomputing a list of distinct tabs with debugging off emits, in the
/// order of the list, exactly one effect for each tab that has something
/// to show (the one that brings it up to date) and nothing for any other.
pub proof fn law_recompute_tabs_emits_one_per_changed_tab(m: StateView, ids: Seq<usize>)
    requires
        unique_keys(m.shown),
        unique_keys(m.tab_name),
        !m.debug,
        ids.no_duplicates(),
    ensures
        recompute_tabs(m, ids).1 == ids.filter(|t: usize| needs_update(m, t)).map_values(
            |t: usize| update_effect(m, t),
        ),
    decreases ids.len(),
{
    reveal(Seq::filter);
    if ids.len() > 0 {
        let init = ids.drop_last();
        let last = ids.last();
        assert(init.no_duplicates()) by {
            assert forall|i: int, j: int|
                0 <= i < init.len() && 0 <= j < init.len() && i != j implies init[i]
                != init[j] by {
                assert(init[i] == ids[i] && init[j] == ids[j]);
            }
        }
        assert(!init.contains(last)) by {
            if init.contains(last) {
                let j = choose|j: int| 0 <= j < init.len() && init[j] == last;
                assert(ids[j] == ids[ids.len() - 1]);
            }
        }
        law_recompute_tabs_emits_one_per_changed_tab(m, init);
        lemma_recompute_tabs(m, init);
        let (m1, e1) = recompute_tabs(m, init);
        assert(lookup(m1.shown, last) == lookup(m.shown, last));
        assert(lookup(m1.tab_name, last) == lookup(m.tab_name, last));
        assert(desired_prefix(m1, last) == desired_prefix(m, last));
        assert(needs_update(m1, last) == needs_update(m, last));
        assert(update_effect(m1, last) == update_effect(m, last));
        let e2 = recompute_tab(m1, last).1;
        let f = init.filter(|t: usize| needs_update(m, t));
        if needs_update(m, last) {
            assert(e2 == seq![update_effect(m, last)]);
            assert(f.push(last).map_values(|t: usize| update_effect(m, t)) =~= f.map_values(
                |t: usize| update_effect(m, t),
            ) + seq![update_effect(m, last)]);
        } else {
            assert(e2 =~= Seq::<EffectView>::empty());
            assert(e1 + e2 =~= e1);
        }
    } else {
        assert(ids.filter(|t: usize| needs_update(m, t)).map_values(|t: usize| update_effect(m, t))
            =~= Seq::<EffectView>::empty());
    }
}

/// A tab update whose tabs stand at distinct positions and carry distinct
/// ids: the position table becomes the listed tabs; panes, activities and
/// send times stay; panes are mapped anew; prefixes are kept only for
/// listed tabs; every listed tab is brought up to date; and, with
/// debugging off, the effects are exactly one per listed tab that has
/// something to show, in the order of the list.
pub proof fn law_tab_update(m: StateView, tabs: Seq<TabInfoView>)
    requires
        wf(m),
        m.sink != Sink::Unconfigured,
        distinct_positions(tabs),
        tab_id_list(tabs).no_duplicates(),
    ensures
        ({
            let (m3, e) = handle(m, EventView::TabUpdate(tabs));
            let ids = tab_id_list(tabs);
            let m2 = StateView {
                tabs: tab_table(tabs),
                tab_name: name_table(tabs),
                shown: keep_keys(m.shown, ids),
                pane_to_tab: pane_tabs(m.panes, tab_table(tabs)),
                ..m
            };
            &&& m3.tabs.len() == tabs.len()
            &&& forall|i: int|
                0 <= i < tabs.len() ==> #[trigger] m3.tabs[i] == (tabs[i].position, tabs[i].tab_id)
            &&& m3.panes == m.panes
            &&& m3.activity == m.activity
            &&& m3.last_ts == m.last_ts
            &&& m3.pane_to_tab == pane_tabs(m.panes, m3.tabs)
            &&& forall|t: usize| #[trigger] lookup(m3.shown, t) is Some ==> ids.contains(t)
            &&& forall|t: usize| #[trigger] ids.contains(t) ==> current_at(m3, t)
            &&& !m.debug ==> e == ids.filter(|t: usize| needs_update(m2, t)).map_values(
                |t: usize| update_effect(m2, t),
            )
        }),
{
    let ids = tab_id_list(tabs);
    lemma_keep_keys(m.shown, ids);
    lemma_name_table(tabs);
    lemma_tab_table_distinct(tabs);
    let m2 = StateView {
        tabs: tab_table(tabs),
        tab_name: name_table(tabs),
        shown: keep_keys(m.shown, ids),
        pane_to_tab: pane_tabs(m.panes, tab_table(tabs)),
        ..m
    };
    assert(tab_ids(m2.tabs) =~= ids);
    lemma_recompute_tabs(m2, ids);
    law_updates_forget_what_is_gone(m, EventView::TabUpdate(tabs));
    if !m.debug {
        law_recompute_tabs_emits_one_per_changed_tab(m2, ids);
        let line = log_tabs(m2.tabs);
        assert(trace_line(m.debug, line) + recompute_tabs(m2, ids).1 =~= recompute_tabs(m2, ids).1);
    }
}

/// A pane update whose entries stand at distinct positions: each position
/// gets the ids of its panes that are not plugins, in order; a pane keeps
/// its activity and send time exactly when it is still listed; the
/// position table stays; panes are mapped anew; every tab of the position
/// table is brought up to date and no other tab's prefix or name changes;
/// and, with debugging off and distinct tab ids, the effects are exactly
/// one per tab that has something to show, in position-table order.
pub proof fn law_pane_update(m: StateView, entries: Seq<(usize, Seq<PaneInfo>)>)
    requires
        wf(m),
        m.sink != Sink::Unconfigured,
        distinct_entry_positions(entries),
    ensures
        ({
            let (m3, e) = handle(m, EventView::PaneUpdate(entries));
            let alive = all_pane_ids(m3.panes);
            let m2 = StateView {
                panes: pane_table(entries),
                activity: keep_keys(m.activity, alive),
                last_ts: keep_keys(m.last_ts, alive),
                pane_to_tab: pane_tabs(pane_table(entries), m.tabs),
                ..m
            };
            &&& m3.panes.len() == entries.len()
            &&& forall|i: int|
                0 <= i < entries.len() ==> #[trigger] m3.panes[i] == (
                    entries[i].0,
                    entries[i].1.filter(|p: PaneInfo| !p.is_plugin).map_values(|p: PaneInfo| p.id),
                )
            &&& forall|p: u32| #[trigger]
                alive.contains(p) <==> exists|i: int, j: int|
                    0 <= i < entries.len() && 0 <= j < entries[i].1.len() && #[trigger] entries[i].1[j].id
                        == p && !entries[i].1[j].is_plugin
            &&& forall|p: u32| #[trigger]
                lookup(m3.activity, p) == (if alive.contains(p) {
                    lookup(m.activity, p)
                } else {
                    None
                })
            &&& forall|p: u32| #[trigger]
                lookup(m3.last_ts, p) == (if alive.contains(p) {
                    lookup(m.last_ts, p)
                } else {
                    None
                })
            &&& m3.tabs == m.tabs
            &&& m3.pane_to_tab == pane_tabs(m3.panes, m3.tabs)
            &&& forall|t: usize| #[trigger] tab_ids(m.tabs).contains(t) ==> current_at(m3, t)
            &&& forall|t: usize|
                !tab_ids(m.tabs).contains(t) ==> #[trigger] lookup(m3.shown, t) == lookup(
                    m.shown,
                    t,
                ) && lookup(m3.tab_name, t) == lookup(m.tab_name, t)
            &&& !m.debug && tab_ids(m.tabs).no_duplicates() ==> e == tab_ids(m.tabs).filter(
                |t: usize| needs_update(m2, t),
            ).map_values(|t: usize| update_effect(m2, t))
        }),
{
    let panes = pane_table(entries);
    let alive = all_pane_ids(panes);
    lemma_keep_keys(m.activity, alive);
    lemma_keep_keys(m.last_ts, alive);
    lemma_pane_table_distinct(entries);
    let m2 = StateView {
        panes,
        activity: keep_keys(m.activity, alive),
        last_ts: keep_keys(m.last_ts, alive),
        pane_to_tab: pane_tabs(panes, m.tabs),
        ..m
    };
    let ids = tab_ids(m.tabs);
    lemma_recompute_tabs(m2, ids);
    let m3 = handle(m, EventView::PaneUpdate(entries)).0;
    assert(m3.panes == panes);
    assert forall|i: int| 0 <= i < entries.len() implies #[trigger] m3.panes[i] == (
        entries[i].0,
        entries[i].1.filter(|p: PaneInfo| !p.is_plugin).map_values(|p: PaneInfo| p.id),
    ) by {
        law_terminal_ids(entries[i].1);
    }
    lemma_all_pane_ids_contains(panes);
    assert forall|p: u32| #[trigger] alive.contains(p) <==> exists|i: int, j: int|
        0 <= i < entries.len() && 0 <= j < entries[i].1.len() && #[trigger] entries[i].1[j].id == p
            && !entries[i].1[j].is_plugin by {
        if alive.contains(p) {
            let i = choose|i: int| 0 <= i < panes.len() && #[trigger] panes[i].1.contains(p);
            lemma_terminal_ids_contains(entries[i].1);
            assert(terminal_ids(entries[i].1).contains(p));
            let j = choose|j: int|
                0 <= j < entries[i].1.len() && #[trigger] entries[i].1[j].id == p
                    && !entries[i].1[j].is_plugin;
        }
        if exists|i: int, j: int|
            0 <= i < entries.len() && 0 <= j < entries[i].1.len() && #[trigger] entries[i].1[j].id
                == p && !entries[i].1[j].is_plugin {
            let (i, j) = choose|i: int, j: int|
                0 <= i < entries.len() && 0 <= j < entries[i].1.len() && #[trigger] entries[i].1[j].id
                    == p && !entries[i].1[j].is_plugin;
            lemma_terminal_ids_contains(entries[i].1);
            assert(terminal_ids(entries[i].1).contains(p));
            assert(panes[i].1.contains(p));
        }
    }
    if !m.debug && ids.no_duplicates() {
        law_recompute_tabs_emits_one_per_changed_tab(m2, ids);
        let line = log_panes(m2.pane_to_tab);
        assert(trace_line(m.debug, line) + recompute_tabs(m2, ids).1 =~= recompute_tabs(m2, ids).1);
    }
}


/// The ordering guard reads a send time in full, up to the largest 64-bit
/// value (a millisecond epoch time among them): for a report from pane
/// `pane` whose `ts_ms` is the decimal form of `ts`, the report is dropped,
/// changing nothing and showing nothing, when `ts` is below the last time
/// accepted for that pane; otherwise `ts` becomes that pane's last
/// accepted time.
pub proof fn law_send_time_is_read_in_full(
    m: StateView,
    msg: PipeMessageView,
    pane: u32,
    ts: u64,
)
    requires
        unique_keys(m.last_ts),
        m.sink != Sink::Unconfigured,
        msg.name == PIPE_NAME@,
        lookup(msg.args, "pane_id"@) == Some(decimal(pane as nat)),
        lookup(msg.args, "ts_ms"@) == Some(decimal(ts as nat)),
    ensures
        (lookup(m.last_ts, pane) matches Some(last) && ts < last) ==> handle_pipe(m, msg).0 == m
            && shows_nothing(handle_pipe(m, msg).1),
        !(lookup(m.last_ts, pane) matches Some(last) && ts < last) ==> lookup(
            handle_pipe(m, msg).0.last_ts,
            pane,
        ) == Some(ts),
{
    lemma_decimal_reads_back(pane as nat, u32::MAX as nat);
    lemma_decimal_reads_back(ts as nat, u64::MAX as nat);
    assert(parsed_pane(msg.args) == Some(pane));
    assert(parsed_ts(msg.args) == Some(ts));
    if lookup(m.last_ts, pane) matches Some(last) && ts < last {
        law_stale_report_is_dropped(m, msg, pane, ts);
    } else {
        lemma_with_entry_unique(m.last_ts, pane, ts);
        let m1 = StateView { last_ts: with_entry(m.last_ts, pane, ts), ..m };
        match lookup(m1.pane_to_tab, pane) {
            None => {},
            Some(tab) => lemma_mapped_activity_keeps_last_ts(m1, msg.args, pane, tab),
        }
    }
}

/// Debugging is on exactly when the configuration's `debug` is `true` or
/// `1`; any other value, `false` among them, or none leaves it off, and
/// then loading in a known mode emits no diagnostic line, nor does any
/// later event or pipe message.
pub proof fn law_debug_switch(
    m: StateView,
    config: Seq<(Seq<char>, Seq<char>)>,
    ev: EventView,
    msg: PipeMessageView,
)
    ensures
        init(m, config).0.debug <==> (lookup(config, "debug"@) == Some("true"@) || lookup(
            config,
            "debug"@,
        ) == Some("1"@)),
        !(lookup(config, "debug"@) == Some("true"@) || lookup(config, "debug"@) == Some("1"@)) ==> {
            let m1 = init(m, config).0;
            &&& configured_sink(config) != Sink::Unconfigured ==> no_logs(init(m, config).1)
            &&& no_logs(handle(m1, ev).1)
            &&& no_logs(handle_pipe(m1, msg).1)
        },
{
    let m1 = init(m, config).0;
    if configured_sink(config) != Sink::Unconfigured {
        law_init_effects(m, config);
    }
    law_handle_effects(m1, ev);
    law_handle_pipe_effects(m1, msg);
}


/// What a report does to the activity of a pane mapped to a tab:
/// `SessionEnd` clears it; a `Notification` that is not an idle nudge sets
/// it to waiting for the user; any other event that reports an activity
/// sets it to that activity; no other pane's activity changes.
pub proof fn law_report_sets_activity(
    m: StateView,
    args: Seq<(Seq<char>, Seq<char>)>,
    pane: u32,
    tab: usize,
)
    requires
        unique_keys(m.activity),
    ensures
        ({
            let after = on_mapped_activity(m, args, pane, tab).0.activity;
            let event = arg_or_empty(args, "hook_event"@);
            let tool = arg_or_empty(args, "tool_name"@);
            &&& event == "SessionEnd"@ ==> lookup(after, pane) is None
            &&& event == "Notification"@ && lookup(args, "notification"@) != Some("idle"@)
                ==> lookup(after, pane) == Some(ActivityView::Waiting)
            &&& event != "SessionEnd"@ && event != "Notification"@ && activity_for(event, tool)
                is Some ==> lookup(after, pane) == activity_for(event, tool)
            &&& forall|q: u32| q != pane ==> #[trigger] lookup(after, q) == lookup(m.activity, q)
        }),
{
    let event = arg_or_empty(args, "hook_event"@);
    let tool = arg_or_empty(args, "tool_name"@);
    lemma_without_key_unique(m.activity, pane);
    lemma_with_entry_unique(m.activity, pane, ActivityView::Waiting);
    match activity_for(event, tool) {
        Some(a) => lemma_with_entry_unique(m.activity, pane, a),
        None => {},
    }
    reveal_strlit("SessionEnd");
    reveal_strlit("Notification");
    assert("SessionEnd"@ != "Notification"@) by {
        assert("SessionEnd"@[0] != "Notification"@[0]);
    }
}

} // verus!
