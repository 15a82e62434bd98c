//! What goes into the state machine (host events, pipe messages) and what
//! comes out of it (effects), each as plain values.
use vstd::prelude::*;

use crate::table::{has_key, Table};
use crate::text::{decimal, push_decimal};

verus! {

/// Name of the pipe on which producers report agent activity. The suffix is
/// the protocol's major version.
pub const PIPE_NAME: &'static str = "agent_activity.v1";

/// Key/value arguments of a pipe message, or the plugin's configuration.
pub type Args = Table<String, String>;

/// A tab of the session, as the host reports it.
#[derive(Debug, Clone, PartialEq, Eq)]
pub struct TabInfo {
    /// Stable id by which the tab is addressed.
    pub tab_id: usize,
    /// 0-indexed position of the tab.
    pub position: usize,
    /// The tab's name as the host shows it.
    pub name: String,
}

/// Who owns the tab names, as the `mode` configuration key says.
#[derive(Debug, Clone, Copy, PartialEq, Eq)]
pub enum Sink {
    /// Prefixes are piped to `zellij-tab-namer`, which owns the names.
    Pipe,
    /// The plugin renames the tabs itself, decorating the name it finds.
    Rename,
    /// The configuration names no known mode: the plugin does nothing.
    Unconfigured,
}

/// A pane of the session, as the host reports it.
#[derive(Debug, Clone, Copy, PartialEq, Eq, Default)]
pub struct PaneInfo {
    pub id: u32,
    pub is_plugin: bool,
}

/// The panes of each tab position.
#[derive(Debug, Clone)]
pub struct PaneManifest {
    pub panes: Vec<(usize, Vec<PaneInfo>)>,
}

/// A host event.
#[derive(Debug, Clone)]
pub enum Event {
    TabUpdate(Vec<TabInfo>),
    PaneUpdate(PaneManifest),
    /// Any other event: the plugin does not react to it.
    Other,
}

/// Where a pipe message comes from.
#[derive(Debug, Clone, PartialEq, Eq)]
pub enum PipeSource {
    /// A `zellij pipe` from the command line, by the id with which it is unblocked.
    Cli(String),
    Plugin(u32),
    Keybind,
}

/// A message on a pipe.
pub struct PipeMessage {
    pub source: PipeSource,
    pub name: String,
    pub args: Args,
}

/// A permission that the plugin asks the host for.
#[derive(Debug, Clone, Copy, PartialEq, Eq)]
pub enum Permission {
    ReadApplicationState,
    MessageAndLaunchOtherPlugins,
    ReadCliPipes,
    ChangeApplicationState,
}

/// A kind of host event that the plugin subscribes to.
#[derive(Debug, Clone, Copy, PartialEq, Eq)]
pub enum EventKind {
    TabUpdate,
    PaneUpdate,
}

/// Everything the plugin does to the world.
#[derive(Debug, Clone, PartialEq)]
pub enum Effect {
    RequestPermissions(Vec<Permission>),
    Subscribe(Vec<EventKind>),
    /// Show (`Some(prefix)`) or clear (`None`) a tab's activity prefix
    /// through `zellij-tab-namer` (the `pipe` mode).
    ShowActivity { tab_id: usize, prefix: Option<String> },
    /// Give a tab a new name (the `rename` mode).
    RenameTab { tab_id: usize, name: String },
    UnblockCliPipe(String),
    /// A diagnostic line; only emitted when debugging is on.
    Log(String),
}

pub enum PipeSourceView {
    Cli(Seq<char>),
    Plugin(u32),
    Keybind,
}

pub struct PipeMessageView {
    pub source: PipeSourceView,
    pub name: Seq<char>,
    pub args: Seq<(Seq<char>, Seq<char>)>,
}

pub struct TabInfoView {
    pub tab_id: usize,
    pub position: usize,
    pub name: Seq<char>,
}

pub enum EventView {
    TabUpdate(Seq<TabInfoView>),
    PaneUpdate(Seq<(usize, Seq<PaneInfo>)>),
    Other,
}

pub enum EffectView {
    RequestPermissions(Seq<Permission>),
    Subscribe(Seq<EventKind>),
    ShowActivity { tab_id: usize, prefix: Option<Seq<char>> },
    RenameTab { tab_id: usize, name: Seq<char> },
    UnblockCliPipe(Seq<char>),
    Log(Seq<char>),
}

impl View for PipeSource {
    type V = PipeSourceView;

    open spec fn view(&self) -> PipeSourceView {
        match self {
            PipeSource::Cli(id) => PipeSourceView::Cli(id@),
            PipeSource::Plugin(id) => PipeSourceView::Plugin(*id),
            PipeSource::Keybind => PipeSourceView::Keybind,
        }
    }
}

impl View for PipeMessage {
    type V = PipeMessageView;

    open spec fn view(&self) -> PipeMessageView {
        PipeMessageView { source: self.source@, name: self.name@, args: self.args@ }
    }
}

impl View for TabInfo {
    type V = TabInfoView;

    open spec fn view(&self) -> TabInfoView {
        TabInfoView { tab_id: self.tab_id, position: self.position, name: self.name@ }
    }
}

/// The tab or tabs that an effect shows something on.
pub open spec fn addressed_tab(e: EffectView) -> Option<usize> {
    match e {
        EffectView::ShowActivity { tab_id, .. } => Some(tab_id),
        EffectView::RenameTab { tab_id, .. } => Some(tab_id),
        _ => None,
    }
}

pub open spec fn manifest_view(m: PaneManifest) -> Seq<(usize, Seq<PaneInfo>)> {
    m.panes@.map_values(|e: (usize, Vec<PaneInfo>)| (e.0, e.1@))
}

impl View for Event {
    type V = EventView;

    open spec fn view(&self) -> EventView {
        match self {
            Event::TabUpdate(tabs) => EventView::TabUpdate(tabs@.map_values(|t: TabInfo| t@)),
            Event::PaneUpdate(m) => EventView::PaneUpdate(manifest_view(*m)),
            Event::Other => EventView::Other,
        }
    }
}

pub open spec fn prefix_view(p: Option<String>) -> Option<Seq<char>> {
    match p {
        Some(s) => Some(s@),
        None => None,
    }
}

impl View for Effect {
    type V = EffectView;

    open spec fn view(&self) -> EffectView {
        match self {
            Effect::RequestPermissions(p) => EffectView::RequestPermissions(p@),
            Effect::Subscribe(k) => EffectView::Subscribe(k@),
            Effect::ShowActivity { tab_id, prefix } => EffectView::ShowActivity {
                tab_id: *tab_id,
                prefix: prefix_view(*prefix),
            },
            Effect::RenameTab { tab_id, name } => EffectView::RenameTab {
                tab_id: *tab_id,
                name: name@,
            },
            Effect::UnblockCliPipe(id) => EffectView::UnblockCliPipe(id@),
            Effect::Log(line) => EffectView::Log(line@),
        }
    }
}

/// The pipe message that shows a prefix through `zellij-tab-namer`:
/// `set_prefix` with the tab's id and the prefix as `value`, or
/// `clear_prefix` with the tab's id alone.
pub fn namer_message(tab_id: usize, prefix: &Option<String>) -> (r: (String, Args))
    ensures
        r.0@ == (if prefix is Some {
            "set_prefix"@
        } else {
            "clear_prefix"@
        }),
        r.1@ == seq![("tab_id"@, decimal(tab_id as nat))] + match prefix {
            Some(p) => seq![("value"@, p@)],
            None => Seq::<(Seq<char>, Seq<char>)>::empty(),
        },
{
    let mut id = String::new();
    push_decimal(&mut id, tab_id as u64);
    let mut args: Args = Table::new();
    args.insert("tab_id".to_owned(), id);
    let ghost first = args@;
    proof {
        reveal_strlit("tab_id");
        reveal_strlit("value");
        assert(first =~= seq![("tab_id"@, decimal(tab_id as nat))]);
    }
    match prefix {
        Some(p) => {
            proof {
                assert("tab_id"@[0] != "value"@[0]);
                assert(!has_key(first, "value"@)) by {
                    if has_key(first, "value"@) {
                        let i = choose|i: int| 0 <= i < first.len() && #[trigger] first[i].0 == "value"@;
                        assert(first[i].0 == "tab_id"@);
                    }
                }
            }
            args.insert("value".to_owned(), p.clone());
            ("set_prefix".to_owned(), args)
        },
        None => {
            ("clear_prefix".to_owned(), args)
        },
    }
}

/// The views of a sequence of effects.
pub open spec fn effect_views(s: Seq<Effect>) -> Seq<EffectView> {
    s.map_values(|e: Effect| e@)
}

} // verus!
