//! Builds the shell command that installs the agent's hook: idempotent
//! (it does nothing when the installed hook is current), versioned, and
//! backing up the settings before it changes them. Only the command is
//! built here; running it is the plugin shell's business.
use vstd::prelude::*;

use crate::protocol::Args;
use crate::text::{push_char, push_text};

verus! {

/// The line that marks an installed hook with the version that wrote it.
pub const HOOK_VERSION_TAG: &'static str = "# zellij-agent-activity v0.1.0";

/// The install script; `__SETTINGS_DIR__` (the directory under `$HOME` that
/// holds the agent's `settings.json`), `__VERSION_TAG__` and `__HOOK_SCRIPT__`
/// are filled in.
pub const INSTALL_TEMPLATE: &'static str = r##"set -e
HOOK_PATH="$HOME/.config/zellij/plugins/zellij-agent-activity-hook.sh"
HOOK_CMD='${HOME}/.config/zellij/plugins/zellij-agent-activity-hook.sh'
SETTINGS="$HOME/__SETTINGS_DIR__/settings.json"

resolve_file_symlink() {
  path=$1
  while [ -L "$path" ]; do
    dir=$(cd "$(dirname "$path")" && pwd -P)
    target=$(readlink "$path")
    case "$target" in
      /*) path=$target ;;
      *) path=$dir/$target ;;
    esac
  done
  dir=$(cd "$(dirname "$path")" && pwd -P)
  printf '%s/%s\n' "$dir" "$(basename "$path")"
}

# Resolve symlink so mv doesn't replace the link with a regular file
if [ -L "$SETTINGS" ]; then
  SETTINGS="$(resolve_file_symlink "$SETTINGS")"
fi

# Already current? (hook file carries the version tag AND settings references it)
if grep -qF '__VERSION_TAG__' "$HOOK_PATH" 2>/dev/null; then
  if [ -f "$SETTINGS" ] && grep -qF "$HOOK_CMD" "$SETTINGS" 2>/dev/null; then
    echo "current"
    exit 0
  fi
fi

# Write hook script
mkdir -p "$(dirname "$HOOK_PATH")"
cat > "$HOOK_PATH" << 'CTI_HOOK_EOF'
__HOOK_SCRIPT__
CTI_HOOK_EOF
chmod +x "$HOOK_PATH"

# Register hooks (requires jq)
if ! command -v jq >/dev/null 2>&1; then
  echo "no_jq"
  exit 0
fi

if [ ! -f "$SETTINGS" ]; then
  mkdir -p "$HOME/__SETTINGS_DIR__"
  echo '{}' > "$SETTINGS"
fi

# Back up settings before modifying
cp "$SETTINGS" "$SETTINGS.bak"

# Remove ALL existing zellij-agent-activity hook entries (any path ending in our script)
tmp=$(mktemp)
jq '
  if .hooks and (.hooks | type == "object") then
    .hooks |= with_entries(
      .value |= [
        .[] | . as $group |
        ($group.hooks // []) | map(select((.command // "") | endswith("zellij-agent-activity-hook.sh") | not)) |
        . as $filtered |
        if length > 0 then ($group | .hooks = $filtered) else empty end
      ]
    ) | .hooks |= with_entries(select(.value | length > 0)) |
    if .hooks == {} then del(.hooks) else . end
  else . end
' "$SETTINGS" > "$tmp" && mv "$tmp" "$SETTINGS"

# Register only the events the plugin consumes (fewer forked hook subprocesses).
# `SubagentStop` is absent on purpose — see activity_from_event.
EVENTS='["SessionStart","PreToolUse","PostToolUse","UserPromptSubmit","Notification","Stop","SessionEnd"]'
ENTRY=$(jq -nc --arg cmd "$HOOK_CMD" '[{"hooks": [{"type": "command", "command": $cmd, "timeout": 5, "async": true}]}]')
tmp=$(mktemp)
jq --argjson events "$EVENTS" --argjson entry "$ENTRY" '
  .hooks //= {} |
  reduce ($events[]) as $event (.; .hooks[$event] = (.hooks[$event] // []) + $entry)
' "$SETTINGS" > "$tmp" && mv "$tmp" "$SETTINGS"

echo "installed"
"##;


/// The characters of a string slice.
fn chars_of(s: &str) -> (v: Vec<char>)
    ensures
        v@ == s@,
{
    let n = s.unicode_len();
    let mut v: Vec<char> = Vec::new();
    let mut i: usize = 0;
    while i < n
        invariant
            n == s@.len(),
            i <= n,
            v@ == s@.take(i as int),
        decreases n - i,
    {
        v.push(s.get_char(i));
        i = i + 1;
        assert(v@ =~= s@.take(i as int));
    }
    assert(s@.take(n as int) =~= s@);
    v
}

/// Where the first newline of `s` stands.
pub open spec fn first_newline(s: Seq<char>) -> Option<int> {
    if exists|i: int| 0 <= i < s.len() && s[i] == '\n' {
        Some(
            choose|i: int|
                0 <= i < s.len() && s[i] == '\n' && forall|j: int| 0 <= j < i ==> s[j] != '\n',
        )
    } else {
        None
    }
}

/// A script with the version tag inserted as its second line, after the
/// shebang; a script of a single line is left as it is.
pub open spec fn with_version_tag(s: Seq<char>) -> Seq<char> {
    match first_newline(s) {
        Some(p) => s.take(p) + "\n"@ + HOOK_VERSION_TAG@ + s.skip(p),
        None => s,
    }
}

/// `s` with every occurrence of `pat` replaced by `rep`, scanning from the
/// left and resuming after each replaced occurrence (as `str::replace` does
/// for a non-empty pattern).
pub open spec fn replace_all(s: Seq<char>, pat: Seq<char>, rep: Seq<char>) -> Seq<char>
    decreases s.len(),
{
    if pat.len() == 0 || s.len() < pat.len() {
        s
    } else if s.take(pat.len() as int) == pat {
        rep + replace_all(s.skip(pat.len() as int), pat, rep)
    } else {
        seq![s[0]] + replace_all(s.skip(1), pat, rep)
    }
}

/// The install script for a hook script and the agent's settings
/// directory: the directory, the version tag and the tagged hook script
/// filled into the template, in that order.
pub open spec fn install_script(hook: Seq<char>, settings_dir: Seq<char>) -> Seq<char> {
    replace_all(
        replace_all(
            replace_all(INSTALL_TEMPLATE@, "__SETTINGS_DIR__"@, settings_dir),
            "__VERSION_TAG__"@,
            HOOK_VERSION_TAG@,
        ),
        "__HOOK_SCRIPT__"@,
        with_version_tag(hook),
    )
}

/// Appends `s[from..to]`.
fn push_chars(out: &mut String, s: &Vec<char>, from: usize, to: usize)
    requires
        from <= to <= s@.len(),
    ensures
        final(out)@ == old(out)@ + s@.subrange(from as int, to as int),
{
    let ghost before = out@;
    let mut i = from;
    while i < to
        invariant
            from <= i <= to,
            to <= s@.len(),
            out@ == before + s@.subrange(from as int, i as int),
        decreases to - i,
    {
        push_char(out, s[i]);
        i = i + 1;
        assert(out@ =~= before + s@.subrange(from as int, i as int));
    }
}

/// Whether `pat` occurs in `s` at `i`.
fn occurs_at(s: &Vec<char>, i: usize, pat: &Vec<char>) -> (b: bool)
    requires
        i + pat@.len() <= s@.len(),
    ensures
        b == (s@.subrange(i as int, i + pat@.len()) == pat@),
{
    let m = pat.len();
    let len = s.len();
    let mut j: usize = 0;
    while j < m
        invariant
            m == pat@.len(),
            len == s@.len(),
            i + m <= s@.len(),
            j <= m,
            forall|k: int| 0 <= k < j ==> s@[i + k] == pat@[k],
        decreases m - j,
    {
        if s[i + j] != pat[j] {
            assert(s@.subrange(i as int, i + m)[j as int] != pat@[j as int]);
            return false;
        }
        j = j + 1;
    }
    assert(s@.subrange(i as int, i + m) =~= pat@);
    true
}

/// Appends `s` with every occurrence of `pat` replaced by `rep`.
fn push_replaced(out: &mut String, s: &Vec<char>, pat: &Vec<char>, rep: &str)
    requires
        pat@.len() > 0,
    ensures
        final(out)@ == old(out)@ + replace_all(s@, pat@, rep@),
{
    let ghost before = out@;
    let n = s.len();
    let m = pat.len();
    let mut i: usize = 0;
    assert(s@.skip(0) =~= s@);
    while i < n
        invariant
            n == s@.len(),
            m == pat@.len(),
            m > 0,
            i <= n,
            out@ + replace_all(s@.skip(i as int), pat@, rep@) == before + replace_all(
                s@,
                pat@,
                rep@,
            ),
        decreases n - i,
    {
        let ghost t = s@.skip(i as int);
        let ghost mid = out@;
        if m <= n - i && occurs_at(s, i, pat) {
            assert(t.take(m as int) =~= s@.subrange(i as int, i + m));
            assert(t.skip(m as int) =~= s@.skip(i + m));
            push_text(out, rep);
            i = i + m;
            assert(mid + replace_all(t, pat@, rep@) =~= out@ + replace_all(
                s@.skip(i as int),
                pat@,
                rep@,
            ));
        } else {
            assert(t.skip(1) =~= s@.skip(i + 1));
            if m <= n - i {
                assert(t.take(m as int) =~= s@.subrange(i as int, i + m));
            } else {
                assert(seq![t[0]] + t.skip(1) =~= t);
            }
            push_char(out, s[i]);
            i = i + 1;
            assert(mid + replace_all(t, pat@, rep@) =~= out@ + replace_all(
                s@.skip(i as int),
                pat@,
                rep@,
            ));
        }
    }
    assert(s@.skip(n as int) =~= Seq::<char>::empty());
}

/// The hook script with the version tag inserted after its first line, so
/// that a reinstall can tell whether the installed hook is current.
pub fn hook_script_content(script: &str) -> (r: String)
    ensures
        r@ == with_version_tag(script@),
{
    let cs = chars_of(script);
    let n = cs.len();
    let mut i: usize = 0;
    while i < n
        invariant
            n == cs@.len(),
            cs@ == script@,
            i <= n,
            forall|j: int| 0 <= j < i ==> cs@[j] != '\n',
        decreases n - i,
    {
        if cs[i] == '\n' {
            let ghost p = i as int;
            assert(first_newline(script@) == Some(p)) by {
                let q = choose|q: int|
                    0 <= q < script@.len() && script@[q] == '\n' && forall|j: int|
                        0 <= j < q ==> script@[j] != '\n';
                assert(script@[p] == '\n');
                if q < p {
                    assert(cs@[q] != '\n');
                }
                if p < q {
                    assert(script@[p] != '\n');
                }
            }
            let mut out = String::new();
            push_chars(&mut out, &cs, 0, i);
            push_text(&mut out, "\n");
            push_text(&mut out, HOOK_VERSION_TAG);
            push_chars(&mut out, &cs, i, n);
            assert(cs@.subrange(0, p) =~= script@.take(p));
            assert(cs@.subrange(p, n as int) =~= script@.skip(p));
            assert(out@ =~= with_version_tag(script@));
            return out;
        }
        i = i + 1;
    }
    assert(first_newline(script@) is None);
    script.to_owned()
}

/// The command that installs the hook (`sh -c <script>`), with the
/// context that tags its result (`type` = `install_hooks`). `settings_dir`
/// is the directory under `$HOME` that holds the agent's `settings.json`.
pub fn install_command(hook_script: &str, settings_dir: &str) -> (r: (Vec<String>, Args))
    ensures
        r.0@.map_values(|a: String| a@) == seq![
            "sh"@,
            "-c"@,
            install_script(hook_script@, settings_dir@),
        ],
        r.1@ == seq![("type"@, "install_hooks"@)],
{
    proof {
        reveal_strlit("__SETTINGS_DIR__");
        reveal_strlit("__VERSION_TAG__");
        reveal_strlit("__HOOK_SCRIPT__");
    }
    let template = chars_of(INSTALL_TEMPLATE);
    let dir_pat = chars_of("__SETTINGS_DIR__");
    let mut placed = String::new();
    push_replaced(&mut placed, &template, &dir_pat, settings_dir);
    let placed_chars = chars_of(placed.as_str());
    let version_pat = chars_of("__VERSION_TAG__");
    let mut tagged = String::new();
    push_replaced(&mut tagged, &placed_chars, &version_pat, HOOK_VERSION_TAG);
    let tagged_chars = chars_of(tagged.as_str());
    let script_pat = chars_of("__HOOK_SCRIPT__");
    let hook = hook_script_content(hook_script);
    let mut cmd = String::new();
    push_replaced(&mut cmd, &tagged_chars, &script_pat, hook.as_str());
    assert(cmd@ =~= install_script(hook_script@, settings_dir@));
    let mut argv: Vec<String> = Vec::new();
    argv.push("sh".to_owned());
    argv.push("-c".to_owned());
    argv.push(cmd);
    let mut ctx: Args = Args::new();
    ctx.insert("type".to_owned(), "install_hooks".to_owned());
    assert(argv@.map_values(|a: String| a@) =~= seq![
        "sh"@,
        "-c"@,
        install_script(hook_script@, settings_dir@),
    ]);
    assert(ctx@ =~= seq![("type"@, "install_hooks"@)]);
    (argv, ctx)
}

} // verus!
