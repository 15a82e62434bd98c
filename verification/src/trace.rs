//! The diagnostic lines that the state machine emits when debugging is on:
//! what each line says, and the functions that write them.
use vstd::prelude::*;

use crate::activity::{activity_debug, Activity, ActivityView};
use crate::protocol::Args;
use crate::table::{unique_keys, Table};
use crate::text::{
    debug_quoted, debug_text, decimal, lemma_text_lt_total, lemma_text_lt_transitive,
    push_decimal, push_text, text_less, text_lt,
};

verus! {

/// One `key: value` entry of a string map, as `Debug` prints it.
pub open spec fn arg_entry(e: (Seq<char>, Seq<char>)) -> Seq<char> {
    debug_quoted(e.0) + ": "@ + debug_quoted(e.1)
}

/// The entries of a string map, separated by `, `.
pub open spec fn arg_entries(s: Seq<(Seq<char>, Seq<char>)>) -> Seq<char>
    decreases s.len(),
{
    if s.len() == 0 {
        Seq::empty()
    } else if s.len() == 1 {
        arg_entry(s[0])
    } else {
        arg_entries(s.drop_last()) + ", "@ + arg_entry(s.last())
    }
}

/// `e` put into the key-ordered `s`, before the first entry whose key
/// comes after its own.
pub open spec fn insert_by_key(s: Seq<(Seq<char>, Seq<char>)>, e: (Seq<char>, Seq<char>)) -> Seq<
    (Seq<char>, Seq<char>),
>
    decreases s.len(),
{
    if s.len() == 0 {
        seq![e]
    } else if text_lt(e.0, s[0].0) {
        seq![e] + s
    } else {
        seq![s[0]] + insert_by_key(s.drop_first(), e)
    }
}

/// The entries of a string map in the order of their keys, the order in
/// which a `BTreeMap` holds and prints them.
pub open spec fn by_key(s: Seq<(Seq<char>, Seq<char>)>) -> Seq<(Seq<char>, Seq<char>)>
    decreases s.len(),
{
    if s.len() == 0 {
        s
    } else {
        insert_by_key(by_key(s.drop_last()), s.last())
    }
}

/// The entries of `s` at the given indices, in that order.
pub open spec fn picked(s: Seq<(Seq<char>, Seq<char>)>, order: Seq<usize>) -> Seq<
    (Seq<char>, Seq<char>),
> {
    order.map_values(|k: usize| s[k as int])
}

/// Every key comes before the keys after it.
pub open spec fn keys_ascending(s: Seq<(Seq<char>, Seq<char>)>) -> bool {
    forall|i: int, j: int| 0 <= i < j < s.len() ==> text_lt(#[trigger] s[i].0, #[trigger] s[j].0)
}

proof fn lemma_insert_by_key(s: Seq<(Seq<char>, Seq<char>)>, e: (Seq<char>, Seq<char>))
    requires
        keys_ascending(s),
        forall|i: int| 0 <= i < s.len() ==> #[trigger] s[i].0 != e.0,
    ensures
        keys_ascending(insert_by_key(s, e)),
        insert_by_key(s, e).len() == s.len() + 1,
        forall|x: (Seq<char>, Seq<char>)| #[trigger]
            insert_by_key(s, e).contains(x) <==> (s.contains(x) || x == e),
    decreases s.len(),
{
    let r = insert_by_key(s, e);
    if s.len() == 0 {
        assert(r[0] == e);
    } else if text_lt(e.0, s[0].0) {
        assert(r == seq![e] + s);
        assert forall|i: int, j: int| 0 <= i < j < r.len() implies text_lt(
            #[trigger] r[i].0,
            #[trigger] r[j].0,
        ) by {
            if i == 0 {
                if j > 1 {
                    assert(text_lt(s[0].0, s[j - 1].0));
                    lemma_text_lt_transitive(e.0, s[0].0, s[j - 1].0);
                }
            } else {
                assert(r[i] == s[i - 1] && r[j] == s[j - 1]);
            }
        }
        assert forall|x: (Seq<char>, Seq<char>)| #[trigger] r.contains(x) <==> (s.contains(x)
            || x == e) by {
            if s.contains(x) {
                let k = choose|k: int| 0 <= k < s.len() && s[k] == x;
                assert(r[k + 1] == x);
            }
            if x == e {
                assert(r[0] == e);
            }
            if r.contains(x) {
                let k = choose|k: int| 0 <= k < r.len() && r[k] == x;
                if k > 0 {
                    assert(s[k - 1] == x);
                }
            }
        }
    } else {
        lemma_text_lt_total(e.0, s[0].0);
        let rest = s.drop_first();
        assert forall|i: int, j: int| 0 <= i < j < rest.len() implies text_lt(
            #[trigger] rest[i].0,
            #[trigger] rest[j].0,
        ) by {
            assert(rest[i] == s[i + 1] && rest[j] == s[j + 1]);
        }
        assert forall|i: int| 0 <= i < rest.len() implies #[trigger] rest[i].0 != e.0 by {
            assert(rest[i] == s[i + 1]);
        }
        lemma_insert_by_key(rest, e);
        let q = insert_by_key(rest, e);
        assert(r == seq![s[0]] + q);
        assert forall|i: int, j: int| 0 <= i < j < r.len() implies text_lt(
            #[trigger] r[i].0,
            #[trigger] r[j].0,
        ) by {
            assert(r[j] == q[j - 1]);
            if i == 0 {
                assert(q.contains(q[j - 1]));
                if q[j - 1] != e {
                    let k = choose|k: int| 0 <= k < rest.len() && rest[k] == q[j - 1];
                    assert(rest[k] == s[k + 1]);
                }
            } else {
                assert(r[i] == q[i - 1]);
            }
        }
        assert forall|x: (Seq<char>, Seq<char>)| #[trigger] r.contains(x) <==> (s.contains(x)
            || x == e) by {
            if s.contains(x) {
                let k = choose|k: int| 0 <= k < s.len() && s[k] == x;
                if k == 0 {
                    assert(r[0] == x);
                } else {
                    assert(rest[k - 1] == x);
                    assert(rest.contains(x));
                    assert(q.contains(x));
                    let m = choose|m: int| 0 <= m < q.len() && q[m] == x;
                    assert(r[m + 1] == x);
                }
            }
            if x == e {
                assert(q.contains(x));
                let m = choose|m: int| 0 <= m < q.len() && q[m] == x;
                assert(r[m + 1] == x);
            }
            if r.contains(x) {
                let k = choose|k: int| 0 <= k < r.len() && r[k] == x;
                if k == 0 {
                    assert(s[0] == x);
                } else {
                    assert(q[k - 1] == x);
                    assert(q.contains(x));
                    if x != e {
                        let m = choose|m: int| 0 <= m < rest.len() && rest[m] == x;
                        assert(s[m + 1] == x);
                    }
                }
            }
        }
    }
}

/// The `Debug` form of a string map lists every entry once and no other,
/// in ascending order of keys, as a `BTreeMap` does.
pub proof fn law_debug_args_in_key_order(s: Seq<(Seq<char>, Seq<char>)>)
    requires
        unique_keys(s),
    ensures
        keys_ascending(by_key(s)),
        by_key(s).len() == s.len(),
        forall|x: (Seq<char>, Seq<char>)| #[trigger] by_key(s).contains(x) <==> s.contains(x),
    decreases s.len(),
{
    if s.len() > 0 {
        let init = s.drop_last();
        let e = s.last();
        assert(unique_keys(init)) by {
            assert forall|i: int, j: int|
                0 <= i < init.len() && 0 <= j < init.len() && i != j implies #[trigger] init[i].0
                != #[trigger] init[j].0 by {
                assert(init[i] == s[i] && init[j] == s[j]);
            }
        }
        law_debug_args_in_key_order(init);
        let b = by_key(init);
        assert forall|i: int| 0 <= i < b.len() implies #[trigger] b[i].0 != e.0 by {
            assert(b.contains(b[i]));
            let k = choose|k: int| 0 <= k < init.len() && init[k] == b[i];
            assert(init[k] == s[k]);
            assert(s[s.len() - 1] == e);
        }
        lemma_insert_by_key(b, e);
        assert forall|x: (Seq<char>, Seq<char>)| #[trigger] by_key(s).contains(x) <==> s.contains(
            x,
        ) by {
            if s.contains(x) {
                let k = choose|k: int| 0 <= k < s.len() && s[k] == x;
                if k < s.len() - 1 {
                    assert(init[k] == x);
                    assert(init.contains(x));
                }
            }
            if init.contains(x) {
                let k = choose|k: int| 0 <= k < init.len() && init[k] == x;
                assert(s[k] == x);
            }
            if x == e {
                assert(s[s.len() - 1] == x);
            }
        }
    }
}

/// A string map as `Debug` prints a `BTreeMap`: `{"key": "value", ...}`,
/// ordered by key.
pub open spec fn debug_args(s: Seq<(Seq<char>, Seq<char>)>) -> Seq<char> {
    "{"@ + arg_entries(by_key(s)) + "}"@
}

/// One `key: value` entry of a map of numbers, as `Debug` prints it.
pub open spec fn number_entry(e: (nat, nat)) -> Seq<char> {
    decimal(e.0) + ": "@ + decimal(e.1)
}

pub open spec fn number_entries(s: Seq<(nat, nat)>) -> Seq<char>
    decreases s.len(),
{
    if s.len() == 0 {
        Seq::empty()
    } else if s.len() == 1 {
        number_entry(s[0])
    } else {
        number_entries(s.drop_last()) + ", "@ + number_entry(s.last())
    }
}

/// A map of numbers as `Debug` prints it: `{1: 2, ...}`.
pub open spec fn debug_numbers(s: Seq<(nat, nat)>) -> Seq<char> {
    "{"@ + number_entries(s) + "}"@
}

pub open spec fn tab_pairs(s: Seq<(usize, usize)>) -> Seq<(nat, nat)> {
    s.map_values(|e: (usize, usize)| (e.0 as nat, e.1 as nat))
}

pub open spec fn pane_pairs(s: Seq<(u32, usize)>) -> Seq<(nat, nat)> {
    s.map_values(|e: (u32, usize)| (e.0 as nat, e.1 as nat))
}

pub open spec fn pane_head(pane: u32) -> Seq<char> {
    "pane "@ + decimal(pane as nat)
}

pub open spec fn pane_tab_head(pane: u32, tab: usize) -> Seq<char> {
    "pane "@ + decimal(pane as nat) + " (tab "@ + decimal(tab as nat) + "): "@
}

pub open spec fn log_init(config: Seq<(Seq<char>, Seq<char>)>) -> Seq<char> {
    "debug tracing on (config: "@ + debug_args(config) + ")"@
}

pub open spec fn log_pipe(name: Seq<char>, args: Seq<(Seq<char>, Seq<char>)>) -> Seq<char> {
    "pipe '"@ + name + "' args="@ + debug_args(args)
}

pub open spec fn log_no_pane(args: Seq<(Seq<char>, Seq<char>)>) -> Seq<char> {
    "drop: no usable pane_id in "@ + debug_args(args)
}

pub open spec fn log_stale(pane: u32, ts: u64, last: u64) -> Seq<char> {
    pane_head(pane) + ": drop, stale ts "@ + decimal(ts as nat) + " < "@ + decimal(last as nat)
}

pub open spec fn log_unmapped_pane(pane: u32) -> Seq<char> {
    pane_head(pane) + ": drop, not mapped to a tab yet"@
}

pub open spec fn log_session_end(pane: u32, tab: usize) -> Seq<char> {
    pane_tab_head(pane, tab) + "SessionEnd -> cleared"@
}

pub open spec fn log_idle(pane: u32, tab: usize) -> Seq<char> {
    pane_tab_head(pane, tab) + "idle nudge -> ignored"@
}

pub open spec fn log_waiting(pane: u32, tab: usize) -> Seq<char> {
    pane_tab_head(pane, tab) + "Notification -> Waiting"@
}

pub open spec fn log_mapped(
    pane: u32,
    tab: usize,
    event: Seq<char>,
    tool: Seq<char>,
    a: ActivityView,
) -> Seq<char> {
    pane_tab_head(pane, tab) + event + "/"@ + tool + " -> "@ + activity_debug(a)
}

pub open spec fn log_kept(pane: u32, tab: usize, event: Seq<char>, tool: Seq<char>) -> Seq<char> {
    pane_tab_head(pane, tab) + event + "/"@ + tool + " unmapped, state kept"@
}

pub open spec fn log_tabs(tabs: Seq<(usize, usize)>) -> Seq<char> {
    "tabs: position->tab_id "@ + debug_numbers(tab_pairs(tabs))
}

pub open spec fn log_panes(pane_to_tab: Seq<(u32, usize)>) -> Seq<char> {
    "panes: pane_id->tab_id "@ + debug_numbers(pane_pairs(pane_to_tab))
}

pub open spec fn log_prefix(tab: usize, prefix: Option<Seq<char>>) -> Seq<char> {
    "tab "@ + decimal(tab as nat) + ": prefix -> "@ + match prefix {
        Some(p) => "Some("@ + debug_quoted(p) + ")"@,
        None => "None"@,
    }
}

pub open spec fn log_rename(tab: usize, name: Seq<char>) -> Seq<char> {
    "tab "@ + decimal(tab as nat) + ": name -> "@ + debug_quoted(name)
}

/// The line that says the configuration names no known mode. It is
/// emitted whether or not debugging is on.
pub open spec fn log_bad_mode(mode: Seq<char>) -> Seq<char> {
    "config: mode "@ + debug_quoted(mode)
        + " is neither \"pipe\" nor \"rename\"; doing nothing"@
}

/// The indices of a string map's entries, in the order of their keys.
fn key_order(args: &Args) -> (order: Vec<usize>)
    ensures
        forall|j: int| 0 <= j < order@.len() ==> order@[j] < args@.len(),
        picked(args@, order@) == by_key(args@),
{
    let ghost s = args@;
    let n = args.len();
    let mut order: Vec<usize> = Vec::new();
    let mut i: usize = 0;
    assert(s.take(0) =~= Seq::<(Seq<char>, Seq<char>)>::empty());
    assert(picked(s, order@) =~= by_key(s.take(0)));
    while i < n
        invariant
            n == s.len(),
            s == args@,
            i <= n,
            forall|j: int| 0 <= j < order@.len() ==> order@[j] < n,
            picked(s, order@) == by_key(s.take(i as int)),
        decreases n - i,
    {
        let ghost sorted = picked(s, order@);
        let ghost e = s[i as int];
        let key = args.key_at(i).as_str();
        let mut p: usize = 0;
        let mut found = false;
        assert(sorted.take(0) + sorted.skip(0) =~= sorted);
        while p < order.len() && !found
            invariant
                n == s.len(),
                s == args@,
                i < n,
                e == s[i as int],
                key@ == e.0,
                forall|j: int| 0 <= j < order@.len() ==> order@[j] < n,
                sorted == picked(s, order@),
                p <= order@.len(),
                insert_by_key(sorted, e) == sorted.take(p as int) + insert_by_key(
                    sorted.skip(p as int),
                    e,
                ),
                found ==> p < order@.len() && text_lt(e.0, sorted[p as int].0),
            decreases order@.len() - p + (if found {
                0int
            } else {
                1int
            }),
        {
            let other = args.key_at(order[p]).as_str();
            assert(sorted[p as int] == s[order@[p as int] as int]);
            if text_less(key, other) {
                found = true;
            } else {
                let ghost rest = sorted.skip(p as int);
                assert(rest[0] == sorted[p as int]);
                assert(rest.drop_first() =~= sorted.skip(p + 1));
                assert(sorted.take(p as int) + seq![sorted[p as int]] =~= sorted.take(p + 1));
                p = p + 1;
            }
        }
        proof {
            let rest = sorted.skip(p as int);
            if p < sorted.len() {
                assert(rest[0] == sorted[p as int]);
            } else {
                assert(rest.len() == 0);
            }
            assert(insert_by_key(rest, e) == seq![e] + rest);
        }
        order.insert(p, i);
        proof {
            assert(picked(s, order@) =~= sorted.take(p as int) + (seq![e] + sorted.skip(p as int)));
            assert(s.take(i + 1).drop_last() =~= s.take(i as int));
            assert(s.take(i + 1).last() == e);
        }
        i = i + 1;
    }
    assert(s.take(n as int) =~= s);
    order
}

/// Appends a string map in its `Debug` form, ordered by key.
pub fn push_args(out: &mut String, args: &Args)
    ensures
        final(out)@ == old(out)@ + debug_args(args@),
{
    let ghost before = out@;
    let ghost s = args@;
    let order = key_order(args);
    let ghost t = picked(s, order@);
    push_text(out, "{");
    let n = order.len();
    let mut i: usize = 0;
    assert(t.take(0) =~= Seq::<(Seq<char>, Seq<char>)>::empty());
    while i < n
        invariant
            n == t.len(),
            n == order@.len(),
            s == args@,
            t == picked(s, order@),
            forall|j: int| 0 <= j < order@.len() ==> order@[j] < s.len(),
            i <= n,
            out@ == before + "{"@ + arg_entries(t.take(i as int)),
        decreases n - i,
    {
        if i > 0 {
            push_text(out, ", ");
        }
        let k = order[i];
        assert(t[i as int] == s[k as int]);
        let q = debug_text(args.key_at(k).as_str());
        push_text(out, q.as_str());
        push_text(out, ": ");
        let v = debug_text(args.value_at(k).as_str());
        push_text(out, v.as_str());
        assert(t.take(i + 1).drop_last() =~= t.take(i as int));
        assert(t.take(i + 1).last() == t[i as int]);
        if i == 0 {
            assert(t.take(1)[0] == t[0]);
        }
        i = i + 1;
        assert(out@ =~= before + "{"@ + arg_entries(t.take(i as int)));
    }
    push_text(out, "}");
    assert(t.take(n as int) =~= t);
    assert(out@ =~= before + debug_args(s));
}

/// Appends the position -> tab id table in its `Debug` form.
pub fn push_tab_numbers(out: &mut String, t: &Table<usize, usize>)
    ensures
        final(out)@ == old(out)@ + debug_numbers(tab_pairs(t@)),
{
    let ghost before = out@;
    let ghost s = tab_pairs(t@);
    push_text(out, "{");
    let n = t.len();
    let mut i: usize = 0;
    assert(s.take(0) =~= Seq::<(nat, nat)>::empty());
    while i < n
        invariant
            n == s.len(),
            s == tab_pairs(t@),
            i <= n,
            out@ == before + "{"@ + number_entries(s.take(i as int)),
        decreases n - i,
    {
        if i > 0 {
            push_text(out, ", ");
        }
        push_decimal(out, *t.key_at(i) as u64);
        push_text(out, ": ");
        push_decimal(out, *t.value_at(i) as u64);
        assert(s.take(i + 1).drop_last() =~= s.take(i as int));
        assert(s.take(i + 1).last() == s[i as int]);
        if i == 0 {
            assert(s.take(1)[0] == s[0]);
        }
        i = i + 1;
        assert(out@ =~= before + "{"@ + number_entries(s.take(i as int)));
    }
    push_text(out, "}");
    assert(s.take(n as int) =~= s);
    assert(out@ =~= before + debug_numbers(s));
}

/// Appends the pane -> tab id table in its `Debug` form.
pub fn push_pane_numbers(out: &mut String, t: &Table<u32, usize>)
    ensures
        final(out)@ == old(out)@ + debug_numbers(pane_pairs(t@)),
{
    let ghost before = out@;
    let ghost s = pane_pairs(t@);
    push_text(out, "{");
    let n = t.len();
    let mut i: usize = 0;
    assert(s.take(0) =~= Seq::<(nat, nat)>::empty());
    while i < n
        invariant
            n == s.len(),
            s == pane_pairs(t@),
            i <= n,
            out@ == before + "{"@ + number_entries(s.take(i as int)),
        decreases n - i,
    {
        if i > 0 {
            push_text(out, ", ");
        }
        push_decimal(out, *t.key_at(i) as u64);
        push_text(out, ": ");
        push_decimal(out, *t.value_at(i) as u64);
        assert(s.take(i + 1).drop_last() =~= s.take(i as int));
        assert(s.take(i + 1).last() == s[i as int]);
        if i == 0 {
            assert(s.take(1)[0] == s[0]);
        }
        i = i + 1;
        assert(out@ =~= before + "{"@ + number_entries(s.take(i as int)));
    }
    push_text(out, "}");
    assert(s.take(n as int) =~= s);
    assert(out@ =~= before + debug_numbers(s));
}

fn push_pane_tab_head(out: &mut String, pane: u32, tab: usize)
    ensures
        final(out)@ == old(out)@ + pane_tab_head(pane, tab),
{
    let ghost before = out@;
    push_text(out, "pane ");
    push_decimal(out, pane as u64);
    push_text(out, " (tab ");
    push_decimal(out, tab as u64);
    push_text(out, "): ");
    assert(out@ =~= before + pane_tab_head(pane, tab));
}

pub fn line_init(config: &Args) -> (s: String)
    ensures
        s@ == log_init(config@),
{
    let mut s = "debug tracing on (config: ".to_owned();
    push_args(&mut s, config);
    push_text(&mut s, ")");
    s
}

pub fn line_pipe(name: &str, args: &Args) -> (s: String)
    ensures
        s@ == log_pipe(name@, args@),
{
    let mut s = "pipe '".to_owned();
    push_text(&mut s, name);
    push_text(&mut s, "' args=");
    push_args(&mut s, args);
    s
}

pub fn line_no_pane(args: &Args) -> (s: String)
    ensures
        s@ == log_no_pane(args@),
{
    let mut s = "drop: no usable pane_id in ".to_owned();
    push_args(&mut s, args);
    s
}

pub fn line_stale(pane: u32, ts: u64, last: u64) -> (s: String)
    ensures
        s@ == log_stale(pane, ts, last),
{
    let mut s = "pane ".to_owned();
    push_decimal(&mut s, pane as u64);
    push_text(&mut s, ": drop, stale ts ");
    push_decimal(&mut s, ts);
    push_text(&mut s, " < ");
    push_decimal(&mut s, last);
    s
}

pub fn line_unmapped_pane(pane: u32) -> (s: String)
    ensures
        s@ == log_unmapped_pane(pane),
{
    let mut s = "pane ".to_owned();
    push_decimal(&mut s, pane as u64);
    push_text(&mut s, ": drop, not mapped to a tab yet");
    s
}

pub fn line_session_end(pane: u32, tab: usize) -> (s: String)
    ensures
        s@ == log_session_end(pane, tab),
{
    let mut s = String::new();
    push_pane_tab_head(&mut s, pane, tab);
    push_text(&mut s, "SessionEnd -> cleared");
    s
}

pub fn line_idle(pane: u32, tab: usize) -> (s: String)
    ensures
        s@ == log_idle(pane, tab),
{
    let mut s = String::new();
    push_pane_tab_head(&mut s, pane, tab);
    push_text(&mut s, "idle nudge -> ignored");
    s
}

pub fn line_waiting(pane: u32, tab: usize) -> (s: String)
    ensures
        s@ == log_waiting(pane, tab),
{
    let mut s = String::new();
    push_pane_tab_head(&mut s, pane, tab);
    push_text(&mut s, "Notification -> Waiting");
    s
}

pub fn line_mapped(pane: u32, tab: usize, event: &str, tool: &str, a: &Activity) -> (s: String)
    ensures
        s@ == log_mapped(pane, tab, event@, tool@, a@),
{
    let mut s = String::new();
    push_pane_tab_head(&mut s, pane, tab);
    push_text(&mut s, event);
    push_text(&mut s, "/");
    push_text(&mut s, tool);
    push_text(&mut s, " -> ");
    a.push_debug(&mut s);
    s
}

pub fn line_kept(pane: u32, tab: usize, event: &str, tool: &str) -> (s: String)
    ensures
        s@ == log_kept(pane, tab, event@, tool@),
{
    let mut s = String::new();
    push_pane_tab_head(&mut s, pane, tab);
    push_text(&mut s, event);
    push_text(&mut s, "/");
    push_text(&mut s, tool);
    push_text(&mut s, " unmapped, state kept");
    s
}

pub fn line_tabs(tabs: &Table<usize, usize>) -> (s: String)
    ensures
        s@ == log_tabs(tabs@),
{
    let mut s = "tabs: position->tab_id ".to_owned();
    push_tab_numbers(&mut s, tabs);
    s
}

pub fn line_panes(pane_to_tab: &Table<u32, usize>) -> (s: String)
    ensures
        s@ == log_panes(pane_to_tab@),
{
    let mut s = "panes: pane_id->tab_id ".to_owned();
    push_pane_numbers(&mut s, pane_to_tab);
    s
}

pub fn line_prefix(tab: usize, prefix: &Option<String>) -> (s: String)
    ensures
        s@ == log_prefix(
            tab,
            match prefix {
                Some(p) => Some(p@),
                None => None,
            },
        ),
{
    let mut s = "tab ".to_owned();
    push_decimal(&mut s, tab as u64);
    push_text(&mut s, ": prefix -> ");
    match prefix {
        Some(p) => {
            push_text(&mut s, "Some(");
            let q = debug_text(p.as_str());
            push_text(&mut s, q.as_str());
            push_text(&mut s, ")");
        },
        None => push_text(&mut s, "None"),
    }
    s
}

pub fn line_rename(tab: usize, name: &str) -> (s: String)
    ensures
        s@ == log_rename(tab, name@),
{
    let mut s = "tab ".to_owned();
    push_decimal(&mut s, tab as u64);
    push_text(&mut s, ": name -> ");
    let q = debug_text(name);
    push_text(&mut s, q.as_str());
    s
}

pub fn line_bad_mode(mode: &str) -> (s: String)
    ensures
        s@ == log_bad_mode(mode@),
{
    let mut s = "config: mode ".to_owned();
    let q = debug_text(mode);
    push_text(&mut s, q.as_str());
    push_text(&mut s, " is neither \"pipe\" nor \"rename\"; doing nothing");
    s
}

} // verus!
