//! What an agent is doing in a pane, how urgent that is, and the symbol
//! that stands for it in front of the tab's name.
use vstd::prelude::*;

use crate::text::{debug_quoted, debug_text, push_text, text_eq};

verus! {

/// What an agent is doing in a pane.
#[derive(Debug, Clone)]
pub enum Activity {
    Init,
    Thinking,
    Tool(String),
    Waiting,
    Done,
}

/// The mathematical form of an [`Activity`]: a tool is known by its name.
pub enum ActivityView {
    Init,
    Thinking,
    Tool(Seq<char>),
    Waiting,
    Done,
}

impl View for Activity {
    type V = ActivityView;

    open spec fn view(&self) -> ActivityView {
        match self {
            Activity::Init => ActivityView::Init,
            Activity::Thinking => ActivityView::Thinking,
            Activity::Tool(name) => ActivityView::Tool(name@),
            Activity::Waiting => ActivityView::Waiting,
            Activity::Done => ActivityView::Done,
        }
    }
}

/// How urgent an activity is: a tab shows the most urgent activity of its
/// panes, so a pane waiting for the user is never hidden by another one.
pub open spec fn priority_of(a: ActivityView) -> u8 {
    match a {
        ActivityView::Waiting => 4,
        ActivityView::Tool(_) => 3,
        ActivityView::Thinking => 2,
        ActivityView::Init => 1,
        ActivityView::Done => 0,
    }
}

/// The symbol of a tool, by its name.
pub open spec fn tool_symbol_of(name: Seq<char>) -> Seq<char> {
    if name == "Bash"@ {
        "⚡"@
    } else if name == "Read"@ || name == "Glob"@ || name == "Grep"@ {
        "◉"@
    } else if name == "Edit"@ || name == "Write"@ || name == "MultiEdit"@ {
        "✎"@
    } else if name == "Agent"@ || name == "Task"@ {
        "⊜"@
    } else if name == "WebSearch"@ || name == "WebFetch"@ {
        "◈"@
    } else {
        "⚙"@
    }
}

pub open spec fn symbol_of(a: ActivityView) -> Seq<char> {
    match a {
        ActivityView::Init => "◆"@,
        ActivityView::Thinking => "●"@,
        ActivityView::Tool(name) => tool_symbol_of(name),
        ActivityView::Waiting => "⚠"@,
        ActivityView::Done => "✓"@,
    }
}

/// What stands in front of a tab's name for an activity: its symbol and a space.
pub open spec fn prefix_of(a: ActivityView) -> Seq<char> {
    symbol_of(a) + " "@
}

/// The activity that a hook event reports; `None` leaves the pane's
/// activity as it was. `SessionEnd` and `Notification` are not decided
/// here: both depend on the pane's state.
pub open spec fn activity_for(event: Seq<char>, tool: Seq<char>) -> Option<ActivityView> {
    if event == "SessionStart"@ {
        Some(ActivityView::Init)
    } else if event == "PreToolUse"@ {
        Some(ActivityView::Tool(tool))
    } else if event == "PostToolUse"@ || event == "UserPromptSubmit"@ {
        Some(ActivityView::Thinking)
    } else if event == "Stop"@ {
        Some(ActivityView::Done)
    } else {
        None
    }
}

/// How diagnostics print an activity (its `Debug` form).
pub open spec fn activity_debug(a: ActivityView) -> Seq<char> {
    match a {
        ActivityView::Init => "Init"@,
        ActivityView::Thinking => "Thinking"@,
        ActivityView::Tool(name) => "Tool("@ + debug_quoted(name) + ")"@,
        ActivityView::Waiting => "Waiting"@,
        ActivityView::Done => "Done"@,
    }
}

impl Activity {
    pub fn priority(&self) -> (p: u8)
        ensures
            p == priority_of(self@),
    {
        match self {
            Activity::Waiting => 4,
            Activity::Tool(_) => 3,
            Activity::Thinking => 2,
            Activity::Init => 1,
            Activity::Done => 0,
        }
    }

    pub fn symbol(&self) -> (s: &'static str)
        ensures
            s@ == symbol_of(self@),
    {
        match self {
            Activity::Init => "◆",
            Activity::Thinking => "●",
            Activity::Tool(name) => tool_symbol(name.as_str()),
            Activity::Waiting => "⚠",
            Activity::Done => "✓",
        }
    }

    /// The symbol followed by a space.
    pub fn prefix(&self) -> (s: String)
        ensures
            s@ == prefix_of(self@),
    {
        let mut s = self.symbol().to_owned();
        push_text(&mut s, " ");
        s
    }

    /// Appends the `Debug` form of the activity.
    pub fn push_debug(&self, out: &mut String)
        ensures
            final(out)@ == old(out)@ + activity_debug(self@),
    {
        match self {
            Activity::Init => push_text(out, "Init"),
            Activity::Thinking => push_text(out, "Thinking"),
            Activity::Tool(name) => {
                let ghost before = out@;
                push_text(out, "Tool(");
                let quoted = debug_text(name.as_str());
                push_text(out, quoted.as_str());
                push_text(out, ")");
                assert(out@ =~= before + activity_debug(self@));
            },
            Activity::Waiting => push_text(out, "Waiting"),
            Activity::Done => push_text(out, "Done"),
        }
    }
}

/// The symbol of a tool, by its name.
pub fn tool_symbol(name: &str) -> (s: &'static str)
    ensures
        s@ == tool_symbol_of(name@),
{
    if text_eq(name, "Bash") {
        "⚡"
    } else if text_eq(name, "Read") || text_eq(name, "Glob") || text_eq(name, "Grep") {
        "◉"
    } else if text_eq(name, "Edit") || text_eq(name, "Write") || text_eq(name, "MultiEdit") {
        "✎"
    } else if text_eq(name, "Agent") || text_eq(name, "Task") {
        "⊜"
    } else if text_eq(name, "WebSearch") || text_eq(name, "WebFetch") {
        "◈"
    } else {
        "⚙"
    }
}

/// The activity that a hook event reports (`tool` is the tool's name, for
/// `PreToolUse`); `None` for an event that leaves the pane as it was.
pub fn activity_from_event(event: &str, tool: &str) -> (r: Option<Activity>)
    ensures
        match r {
            Some(a) => activity_for(event@, tool@) == Some(a@),
            None => activity_for(event@, tool@) is None,
        },
{
    if text_eq(event, "SessionStart") {
        Some(Activity::Init)
    } else if text_eq(event, "PreToolUse") {
        Some(Activity::Tool(tool.to_owned()))
    } else if text_eq(event, "PostToolUse") || text_eq(event, "UserPromptSubmit") {
        Some(Activity::Thinking)
    } else if text_eq(event, "Stop") {
        Some(Activity::Done)
    } else {
        None
    }
}


/// The symbols that a decoration may start with. These are the built-in
/// ones, and they stay strippable whatever symbols are in force, because
/// tab names out there still carry them.
pub open spec fn is_symbol(c: char) -> bool {
    c == '◆' || c == '●' || c == '⚡' || c == '✎' || c == '◉' || c == '⊜' || c == '◈' || c
        == '⚙' || c == '⚠' || c == '✓'
}

/// A name without its decoration: a leading symbol and the space after it
/// are dropped; any other name is kept as it is.
pub open spec fn strip_decoration(name: Seq<char>) -> Seq<char> {
    if name.len() >= 2 && is_symbol(name[0]) && name[1] == ' ' {
        name.skip(2)
    } else {
        name
    }
}

/// The name a tab should carry under the `rename` mode: its current name
/// undecorated, with the prefix (if any) in front.
pub open spec fn compose_name(prefix: Option<Seq<char>>, name: Seq<char>) -> Seq<char> {
    match prefix {
        Some(p) => p + strip_decoration(name),
        None => strip_decoration(name),
    }
}

/// Every prefix is one symbol and a space.
pub proof fn lemma_prefix_shape(a: ActivityView)
    ensures
        prefix_of(a).len() == 2,
        is_symbol(prefix_of(a)[0]),
        prefix_of(a)[1] == ' ',
{
    reveal_strlit(" ");
    reveal_strlit("◆");
    reveal_strlit("●");
    reveal_strlit("⚡");
    reveal_strlit("✎");
    reveal_strlit("◉");
    reveal_strlit("⊜");
    reveal_strlit("◈");
    reveal_strlit("⚙");
    reveal_strlit("⚠");
    reveal_strlit("✓");
}

/// Decorating an already decorated name with the same prefix changes
/// nothing: the composition is idempotent, so a tab's own echo closes the loop.
pub proof fn lemma_compose_idempotent(a: ActivityView, name: Seq<char>)
    ensures
        compose_name(Some(prefix_of(a)), compose_name(Some(prefix_of(a)), name)) == compose_name(
            Some(prefix_of(a)),
            name,
        ),
{
    lemma_prefix_shape(a);
    let p = prefix_of(a);
    let c = p + strip_decoration(name);
    assert(c[0] == p[0]);
    assert(c[1] == p[1]);
    assert(c.skip(2) =~= strip_decoration(name));
}

/// The symbols that tabs show. A tool shows the symbol of its kind:
/// `⚡` exactly for `Bash`; `◉` exactly for `Read`, `Glob` and `Grep`; `✎`
/// exactly for `Edit`, `Write` and `MultiEdit`; `⊜` exactly for a subagent,
/// `Agent` or, in older versions, `Task`; `◈` exactly for `WebSearch` and
/// `WebFetch`; `⚙` for every other tool. A session start shows `◆`,
/// thinking `●`, waiting for the user `⚠`, a finished turn `✓`; each
/// prefix is the symbol and a space.
pub proof fn law_symbols(name: Seq<char>, a: ActivityView)
    ensures
        symbol_of(ActivityView::Tool(name)) == "⚡"@ <==> name == "Bash"@,
        symbol_of(ActivityView::Tool(name)) == "◉"@ <==> (name == "Read"@ || name == "Glob"@
            || name == "Grep"@),
        symbol_of(ActivityView::Tool(name)) == "✎"@ <==> (name == "Edit"@ || name == "Write"@
            || name == "MultiEdit"@),
        symbol_of(ActivityView::Tool(name)) == "⊜"@ <==> (name == "Agent"@ || name == "Task"@),
        symbol_of(ActivityView::Tool(name)) == "◈"@ <==> (name == "WebSearch"@ || name
            == "WebFetch"@),
        symbol_of(ActivityView::Tool(name)) == "⚙"@ <==> !(name == "Bash"@ || name == "Read"@
            || name == "Glob"@ || name == "Grep"@ || name == "Edit"@ || name == "Write"@ || name
            == "MultiEdit"@ || name == "Agent"@ || name == "Task"@ || name == "WebSearch"@ || name
            == "WebFetch"@),
        symbol_of(ActivityView::Init) == "◆"@,
        symbol_of(ActivityView::Thinking) == "●"@,
        symbol_of(ActivityView::Waiting) == "⚠"@,
        symbol_of(ActivityView::Done) == "✓"@,
        prefix_of(a) == symbol_of(a) + " "@,
{
    reveal_strlit("Bash");
    reveal_strlit("Read");
    reveal_strlit("Glob");
    reveal_strlit("Grep");
    reveal_strlit("Edit");
    reveal_strlit("Write");
    reveal_strlit("MultiEdit");
    reveal_strlit("Agent");
    reveal_strlit("Task");
    reveal_strlit("WebSearch");
    reveal_strlit("WebFetch");
    assert("Read"@ != "Bash"@) by {
        assert("Read"@[0] != "Bash"@[0]);
    }
    assert("Glob"@ != "Bash"@) by {
        assert("Glob"@[0] != "Bash"@[0]);
    }
    assert("Grep"@ != "Bash"@) by {
        assert("Grep"@[0] != "Bash"@[0]);
    }
    assert("Edit"@ != "Bash"@) by {
        assert("Edit"@[0] != "Bash"@[0]);
    }
    assert("Edit"@ != "Read"@) by {
        assert("Edit"@[0] != "Read"@[0]);
    }
    assert("Edit"@ != "Glob"@) by {
        assert("Edit"@[0] != "Glob"@[0]);
    }
    assert("Edit"@ != "Grep"@) by {
        assert("Edit"@[0] != "Grep"@[0]);
    }
    assert("Write"@ != "Bash"@) by {
        assert("Write"@[0] != "Bash"@[0]);
    }
    assert("Write"@ != "Read"@) by {
        assert("Write"@[0] != "Read"@[0]);
    }
    assert("Write"@ != "Glob"@) by {
        assert("Write"@[0] != "Glob"@[0]);
    }
    assert("Write"@ != "Grep"@) by {
        assert("Write"@[0] != "Grep"@[0]);
    }
    assert("MultiEdit"@ != "Bash"@) by {
        assert("MultiEdit"@[0] != "Bash"@[0]);
    }
    assert("MultiEdit"@ != "Read"@) by {
        assert("MultiEdit"@[0] != "Read"@[0]);
    }
    assert("MultiEdit"@ != "Glob"@) by {
        assert("MultiEdit"@[0] != "Glob"@[0]);
    }
    assert("MultiEdit"@ != "Grep"@) by {
        assert("MultiEdit"@[0] != "Grep"@[0]);
    }
    assert("Agent"@ != "Bash"@) by {
        assert("Agent"@[0] != "Bash"@[0]);
    }
    assert("Agent"@ != "Read"@) by {
        assert("Agent"@[0] != "Read"@[0]);
    }
    assert("Agent"@ != "Glob"@) by {
        assert("Agent"@[0] != "Glob"@[0]);
    }
    assert("Agent"@ != "Grep"@) by {
        assert("Agent"@[0] != "Grep"@[0]);
    }
    assert("Agent"@ != "Edit"@) by {
        assert("Agent"@[0] != "Edit"@[0]);
    }
    assert("Agent"@ != "Write"@) by {
        assert("Agent"@[0] != "Write"@[0]);
    }
    assert("Agent"@ != "MultiEdit"@) by {
        assert("Agent"@[0] != "MultiEdit"@[0]);
    }
    assert("Task"@ != "Bash"@) by {
        assert("Task"@[0] != "Bash"@[0]);
    }
    assert("Task"@ != "Read"@) by {
        assert("Task"@[0] != "Read"@[0]);
    }
    assert("Task"@ != "Glob"@) by {
        assert("Task"@[0] != "Glob"@[0]);
    }
    assert("Task"@ != "Grep"@) by {
        assert("Task"@[0] != "Grep"@[0]);
    }
    assert("Task"@ != "Edit"@) by {
        assert("Task"@[0] != "Edit"@[0]);
    }
    assert("Task"@ != "Write"@) by {
        assert("Task"@[0] != "Write"@[0]);
    }
    assert("Task"@ != "MultiEdit"@) by {
        assert("Task"@[0] != "MultiEdit"@[0]);
    }
    assert("WebSearch"@ != "Bash"@) by {
        assert("WebSearch"@[0] != "Bash"@[0]);
    }
    assert("WebSearch"@ != "Read"@) by {
        assert("WebSearch"@[0] != "Read"@[0]);
    }
    assert("WebSearch"@ != "Glob"@) by {
        assert("WebSearch"@[0] != "Glob"@[0]);
    }
    assert("WebSearch"@ != "Grep"@) by {
        assert("WebSearch"@[0] != "Grep"@[0]);
    }
    assert("WebSearch"@ != "Edit"@) by {
        assert("WebSearch"@[0] != "Edit"@[0]);
    }
    assert("WebSearch"@ != "Write"@) by {
        assert("WebSearch"@[1] != "Write"@[1]);
    }
    assert("WebSearch"@ != "MultiEdit"@) by {
        assert("WebSearch"@[0] != "MultiEdit"@[0]);
    }
    assert("WebSearch"@ != "Agent"@) by {
        assert("WebSearch"@[0] != "Agent"@[0]);
    }
    assert("WebSearch"@ != "Task"@) by {
        assert("WebSearch"@[0] != "Task"@[0]);
    }
    assert("WebFetch"@ != "Bash"@) by {
        assert("WebFetch"@[0] != "Bash"@[0]);
    }
    assert("WebFetch"@ != "Read"@) by {
        assert("WebFetch"@[0] != "Read"@[0]);
    }
    assert("WebFetch"@ != "Glob"@) by {
        assert("WebFetch"@[0] != "Glob"@[0]);
    }
    assert("WebFetch"@ != "Grep"@) by {
        assert("WebFetch"@[0] != "Grep"@[0]);
    }
    assert("WebFetch"@ != "Edit"@) by {
        assert("WebFetch"@[0] != "Edit"@[0]);
    }
    assert("WebFetch"@ != "Write"@) by {
        assert("WebFetch"@[1] != "Write"@[1]);
    }
    assert("WebFetch"@ != "MultiEdit"@) by {
        assert("WebFetch"@[0] != "MultiEdit"@[0]);
    }
    assert("WebFetch"@ != "Agent"@) by {
        assert("WebFetch"@[0] != "Agent"@[0]);
    }
    assert("WebFetch"@ != "Task"@) by {
        assert("WebFetch"@[0] != "Task"@[0]);
    }
    reveal_strlit("⚡");
    reveal_strlit("◉");
    reveal_strlit("✎");
    reveal_strlit("⊜");
    reveal_strlit("◈");
    reveal_strlit("⚙");
    assert("⚡"@ != "◉"@) by {
        assert("⚡"@[0] != "◉"@[0]);
    }
    assert("⚡"@ != "✎"@) by {
        assert("⚡"@[0] != "✎"@[0]);
    }
    assert("⚡"@ != "⊜"@) by {
        assert("⚡"@[0] != "⊜"@[0]);
    }
    assert("⚡"@ != "◈"@) by {
        assert("⚡"@[0] != "◈"@[0]);
    }
    assert("⚡"@ != "⚙"@) by {
        assert("⚡"@[0] != "⚙"@[0]);
    }
    assert("◉"@ != "✎"@) by {
        assert("◉"@[0] != "✎"@[0]);
    }
    assert("◉"@ != "⊜"@) by {
        assert("◉"@[0] != "⊜"@[0]);
    }
    assert("◉"@ != "◈"@) by {
        assert("◉"@[0] != "◈"@[0]);
    }
    assert("◉"@ != "⚙"@) by {
        assert("◉"@[0] != "⚙"@[0]);
    }
    assert("✎"@ != "⊜"@) by {
        assert("✎"@[0] != "⊜"@[0]);
    }
    assert("✎"@ != "◈"@) by {
        assert("✎"@[0] != "◈"@[0]);
    }
    assert("✎"@ != "⚙"@) by {
        assert("✎"@[0] != "⚙"@[0]);
    }
    assert("⊜"@ != "◈"@) by {
        assert("⊜"@[0] != "◈"@[0]);
    }
    assert("⊜"@ != "⚙"@) by {
        assert("⊜"@[0] != "⚙"@[0]);
    }
    assert("◈"@ != "⚙"@) by {
        assert("◈"@[0] != "⚙"@[0]);
    }
}

/// Urgency orders the activities as waiting for the user, then any tool,
/// then thinking, then a session start, then a finished turn.
pub proof fn law_priority_order(name: Seq<char>)
    ensures
        priority_of(ActivityView::Waiting) > priority_of(ActivityView::Tool(name)),
        priority_of(ActivityView::Tool(name)) > priority_of(ActivityView::Thinking),
        priority_of(ActivityView::Thinking) > priority_of(ActivityView::Init),
        priority_of(ActivityView::Init) > priority_of(ActivityView::Done),
{
}

/// The activity each hook event reports: `SessionStart` a session start,
/// `PreToolUse` the tool it names, `PostToolUse` and `UserPromptSubmit`
/// thinking, `Stop` a finished turn; any other event (such as
/// `SubagentStop`) reports none, and no event reports waiting by itself.
pub proof fn law_event_activities(event: Seq<char>, tool: Seq<char>)
    ensures
        activity_for(event, tool) == Some(ActivityView::Init) <==> event == "SessionStart"@,
        event == "PreToolUse"@ ==> activity_for(event, tool) == Some(ActivityView::Tool(tool)),
        (activity_for(event, tool) matches Some(a) && a is Tool) ==> event == "PreToolUse"@,
        activity_for(event, tool) == Some(ActivityView::Thinking) <==> (event == "PostToolUse"@
            || event == "UserPromptSubmit"@),
        activity_for(event, tool) == Some(ActivityView::Done) <==> event == "Stop"@,
        activity_for(event, tool) is None <==> !(event == "SessionStart"@ || event
            == "PreToolUse"@ || event == "PostToolUse"@ || event == "UserPromptSubmit"@ || event
            == "Stop"@),
        activity_for(event, tool) != Some(ActivityView::Waiting),
{
    reveal_strlit("SessionStart");
    reveal_strlit("PreToolUse");
    reveal_strlit("PostToolUse");
    reveal_strlit("UserPromptSubmit");
    reveal_strlit("Stop");
    assert("SessionStart"@ != "PreToolUse"@) by {
        assert("SessionStart"@[0] != "PreToolUse"@[0]);
    }
    assert("SessionStart"@ != "PostToolUse"@) by {
        assert("SessionStart"@[0] != "PostToolUse"@[0]);
    }
    assert("SessionStart"@ != "UserPromptSubmit"@) by {
        assert("SessionStart"@[0] != "UserPromptSubmit"@[0]);
    }
    assert("SessionStart"@ != "Stop"@) by {
        assert("SessionStart"@[1] != "Stop"@[1]);
    }
    assert("PreToolUse"@ != "PostToolUse"@) by {
        assert("PreToolUse"@[1] != "PostToolUse"@[1]);
    }
    assert("PreToolUse"@ != "UserPromptSubmit"@) by {
        assert("PreToolUse"@[0] != "UserPromptSubmit"@[0]);
    }
    assert("PreToolUse"@ != "Stop"@) by {
        assert("PreToolUse"@[0] != "Stop"@[0]);
    }
    assert("PostToolUse"@ != "UserPromptSubmit"@) by {
        assert("PostToolUse"@[0] != "UserPromptSubmit"@[0]);
    }
    assert("PostToolUse"@ != "Stop"@) by {
        assert("PostToolUse"@[0] != "Stop"@[0]);
    }
    assert("UserPromptSubmit"@ != "Stop"@) by {
        assert("UserPromptSubmit"@[0] != "Stop"@[0]);
    }
}

/// One of the ten built-in symbols, written out.
pub open spec fn built_in_symbol(c: char) -> bool {
    c == '◆' || c == '●' || c == '⚡' || c == '✎' || c == '◉' || c == '⊜' || c == '◈' || c == '⚙'
        || c == '⚠' || c == '✓'
}

/// How the `rename` mode composes a name. Without a prefix, a name that
/// starts with one of the ten built-in symbols and a space loses exactly
/// those two characters, and any other name is kept whole; so whatever
/// decoration the plugin put on comes off again when the tab has nothing
/// left to show. With a prefix, the prefix goes in front of that cleared
/// name.
pub proof fn law_compose_name(name: Seq<char>, p: Seq<char>, a: ActivityView)
    ensures
        name.len() >= 2 && built_in_symbol(name[0]) && name[1] == ' ' ==> compose_name(None, name)
            == name.skip(2),
        !(name.len() >= 2 && built_in_symbol(name[0]) && name[1] == ' ') ==> compose_name(
            None,
            name,
        ) == name,
        compose_name(Some(p), name) == p + compose_name(None, name),
        compose_name(None, prefix_of(a) + name) == name,
        compose_name(Some(prefix_of(a)), prefix_of(a) + name) == prefix_of(a) + name,
{
    lemma_prefix_shape(a);
    let d = prefix_of(a) + name;
    assert(d[0] == prefix_of(a)[0] && d[1] == prefix_of(a)[1]);
    assert(d.skip(2) =~= name);
}

fn is_symbol_char(c: char) -> (b: bool)
    ensures
        b == is_symbol(c),
{
    c == '◆' || c == '●' || c == '⚡' || c == '✎' || c == '◉' || c == '⊜' || c == '◈' || c
        == '⚙' || c == '⚠' || c == '✓'
}

/// A name without its decoration.
pub fn strip_decoration_of(name: &str) -> (r: &str)
    ensures
        r@ == strip_decoration(name@),
{
    let n = name.unicode_len();
    if n >= 2 && is_symbol_char(name.get_char(0)) && name.get_char(1) == ' ' {
        name.substring_char(2, n)
    } else {
        name
    }
}

/// The name a tab should carry under the `rename` mode.
pub fn compose_name_of(prefix: &Option<String>, name: &str) -> (r: String)
    ensures
        r@ == compose_name(
            match prefix {
                Some(p) => Some(p@),
                None => None,
            },
            name@,
        ),
{
    let base = strip_decoration_of(name);
    match prefix {
        Some(p) => {
            let mut r = p.clone();
            push_text(&mut r, base);
            r
        },
        None => base.to_owned(),
    }
}

} // verus!
