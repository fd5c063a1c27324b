//! `amux setup codex`: where the Codex hook goes, and how its entries are merged into
//! `~/.codex/hooks.json` so that user hooks stay and the managed ones are replaced.
use vstd::prelude::*;

use crate::cli::json::{
    clone_entries, clone_items, clone_json, entries_get, entries_insert, entries_unique,
    entries_view, items_unique, items_view, json_error_message, json_view, lemma_entries_unique,
    lemma_entries_view_keys, lemma_items_unique, parse_json, parsed_json, pretty_json,
    unique_keys, write_json_pretty, JsonValue, JsonView,
};
use crate::cli::{no_home_error, setup_error, version_after_prefix, version_line};
use crate::error::AmuxError;
use crate::paths::{home_dir, join_path, path_join};
use crate::text::{
    chars_of, has_substring, opt_view, push_str, starts_with, str_contains, str_eq, string_of,
};

verus! {

/// The Codex events that the hook is registered for, in order.
pub open spec fn managed_events() -> Seq<Seq<char>> {
    seq![
        "SessionStart"@,
        "UserPromptSubmit"@,
        "PreToolUse"@,
        "PostToolUse"@,
        "PermissionRequest"@,
        "SubagentStart"@,
        "SubagentStop"@,
        "Stop"@,
    ]
}

/// The events whose hook entries carry a `matcher`.
pub open spec fn requires_matcher(event_name: Seq<char>) -> bool {
    ||| event_name == "PreToolUse"@
    ||| event_name == "PostToolUse"@
    ||| event_name == "PermissionRequest"@
    ||| event_name == "SubagentStart"@
    ||| event_name == "SubagentStop"@
}

/// Return whether the hook entry for `event_name` needs a `matcher`.
pub fn event_requires_matcher(event_name: &str) -> (r: bool)
    ensures
        r == requires_matcher(event_name@),
{
    str_eq(event_name, "PreToolUse") || str_eq(event_name, "PostToolUse") || str_eq(
        event_name,
        "PermissionRequest",
    ) || str_eq(event_name, "SubagentStart") || str_eq(event_name, "SubagentStop")
}

/// The version that the hook script announces on its second line.
pub fn version_from_content(content: &str) -> (r: Option<&str>)
    ensures
        match r {
            Some(v) => version_line(content@, 1, "# amux-status "@) == Some(v@),
            None => version_line(content@, 1, "# amux-status "@) is None,
        },
{
    version_after_prefix(content, 1, "# amux-status ")
}

/// `~/.codex` below `home`.
pub open spec fn codex_dir_of(home: Seq<char>) -> Seq<char> {
    path_join(home, ".codex"@)
}

/// The Codex configuration directory, below the home directory that the system
/// reports.
pub fn codex_dir() -> (r: Result<String, AmuxError>)
    ensures
        r matches Ok(d) ==> exists|h: Seq<char>| d@ == codex_dir_of(h),
        r matches Err(e) ==> e@ == setup_error("could not determine home directory"@),
{
    match home_dir() {
        Some(h) => codex_dir_from(Some(h.as_str())),
        None => codex_dir_from(None),
    }
}

/// Where the hook script is installed, below the home directory that the system
/// reports.
pub fn hook_script_path() -> (r: Result<String, AmuxError>)
    ensures
        r matches Ok(p) ==> exists|h: Seq<char>| p@ == path_join(
            path_join(codex_dir_of(h), "hooks"@),
            "amux-status.sh"@,
        ),
        r matches Err(e) ==> e@ == setup_error("could not determine home directory"@),
{
    match home_dir() {
        Some(h) => hook_script_path_from(Some(h.as_str())),
        None => hook_script_path_from(None),
    }
}

/// Where Codex reads its hook configuration, below the home directory that the
/// system reports.
pub fn hooks_json_path() -> (r: Result<String, AmuxError>)
    ensures
        r matches Ok(p) ==> exists|h: Seq<char>| p@ == path_join(codex_dir_of(h), "hooks.json"@),
        r matches Err(e) ==> e@ == setup_error("could not determine home directory"@),
{
    match home_dir() {
        Some(h) => hooks_json_path_from(Some(h.as_str())),
        None => hooks_json_path_from(None),
    }
}

/// The Codex configuration directory, below the home directory if it is known.
pub fn codex_dir_from(home: Option<&str>) -> (r: Result<String, AmuxError>)
    ensures
        match home {
            Some(h) => r matches Ok(d) && d@ == codex_dir_of(h@),
            None => r matches Err(e) && e@ == setup_error("could not determine home directory"@),
        },
{
    match home {
        None => Err(no_home_error()),
        Some(h) => Ok(join_path(h, ".codex")),
    }
}

/// Where the hook script is installed, below the home directory if it is known.
pub fn hook_script_path_from(home: Option<&str>) -> (r: Result<String, AmuxError>)
    ensures
        match home {
            Some(h) => r matches Ok(p) && p@ == path_join(
                path_join(codex_dir_of(h@), "hooks"@),
                "amux-status.sh"@,
            ),
            None => r matches Err(e) && e@ == setup_error("could not determine home directory"@),
        },
{
    let dir = codex_dir_from(home)?;
    let hooks = join_path(dir.as_str(), "hooks");
    Ok(join_path(hooks.as_str(), "amux-status.sh"))
}

/// Where Codex reads its hook configuration, below the home directory if it is known.
pub fn hooks_json_path_from(home: Option<&str>) -> (r: Result<String, AmuxError>)
    ensures
        match home {
            Some(h) => r matches Ok(p) && p@ == path_join(codex_dir_of(h@), "hooks.json"@),
            None => r matches Err(e) && e@ == setup_error("could not determine home directory"@),
        },
{
    let dir = codex_dir_from(home)?;
    Ok(join_path(dir.as_str(), "hooks.json"))
}

/// `s` with each `'` written as `'\''`.
pub open spec fn escape_quotes(s: Seq<char>) -> Seq<char>
    decreases s.len(),
{
    if s.len() == 0 {
        seq![]
    } else if s.last() == '\'' {
        escape_quotes(s.drop_last()) + "'\\''"@
    } else {
        escape_quotes(s.drop_last()).push(s.last())
    }
}

/// `s` in single quotes for a POSIX shell.
pub open spec fn quoted(s: Seq<char>) -> Seq<char> {
    "'"@ + escape_quotes(s) + "'"@
}

/// Quote `value` for a POSIX shell.
pub fn shell_quote(value: &str) -> (r: String)
    ensures
        r@ == quoted(value@),
{
    let v = chars_of(value);
    let mut r = string_of("'");
    let ghost start = r@;
    let mut i: usize = 0;
    while i < v.len()
        invariant
            v@ == value@,
            start == "'"@,
            0 <= i <= v.len(),
            r@ == start + escape_quotes(v@.take(i as int)),
        decreases v.len() - i,
    {
        proof {
            assert(v@.take(i + 1).drop_last() == v@.take(i as int));
            assert(v@.take(i + 1).last() == v@[i as int]);
        }
        if v[i] == '\'' {
            push_str(&mut r, "'\\''");
        } else {
            crate::text::push_char(&mut r, v[i]);
        }
        i = i + 1;
    }
    push_str(&mut r, "'");
    assert(v@.take(v.len() as int) == v@);
    r
}

/// A hook command that runs the installed script: it names the installed path, or a
/// path in `.codex/hooks/amux-status.sh`.
pub open spec fn managed_command(command: Seq<char>, installed_path: Seq<char>) -> bool {
    has_substring(command, installed_path) || has_substring(command, ".codex/hooks/amux-status.sh"@)
}

/// Return whether a hook command runs the script that setup installs.
pub fn command_is_managed(command: &str, installed_path: &str) -> (r: bool)
    ensures
        r == managed_command(command@, installed_path@),
{
    str_contains(command, installed_path) || str_contains(command, ".codex/hooks/amux-status.sh")
}

/// A hook that runs the installed script: an object whose `command` is such a command.
pub open spec fn is_managed_hook(h: JsonView, installed_path: Seq<char>) -> bool {
    match h {
        JsonView::Object(m) => m.contains_key("command"@) && match m["command"@] {
            JsonView::Str(c) => managed_command(c, installed_path),
            _ => false,
        },
        _ => false,
    }
}

/// The hooks of `hs` that do not run the installed script, in order.
pub open spec fn unmanaged_hooks(hs: Seq<JsonView>, installed_path: Seq<char>) -> Seq<JsonView>
    decreases hs.len(),
{
    if hs.len() == 0 {
        seq![]
    } else {
        let before = unmanaged_hooks(hs.drop_last(), installed_path);
        if is_managed_hook(hs.last(), installed_path) {
            before
        } else {
            before.push(hs.last())
        }
    }
}

/// A hook definition without the hooks that run the installed script: unchanged when
/// it has none of them, gone when it has only those, else with its `hooks` cut down.
pub open spec fn without_managed_hooks(d: JsonView, installed_path: Seq<char>) -> Option<JsonView> {
    match d {
        JsonView::Object(m) => if m.contains_key("hooks"@) && m["hooks"@] is Array {
            let hooks = m["hooks"@]->Array_0;
            let kept = unmanaged_hooks(hooks, installed_path);
            if kept.len() == hooks.len() {
                Some(d)
            } else if kept.len() == 0 {
                None
            } else {
                Some(JsonView::Object(m.insert("hooks"@, JsonView::Array(kept))))
            }
        } else {
            Some(d)
        },
        _ => Some(d),
    }
}

/// The definitions of `ds` without their managed hooks, those left empty dropped.
pub open spec fn cleaned_definitions(ds: Seq<JsonView>, installed_path: Seq<char>) -> Seq<JsonView>
    decreases ds.len(),
{
    if ds.len() == 0 {
        seq![]
    } else {
        let before = cleaned_definitions(ds.drop_last(), installed_path);
        match without_managed_hooks(ds.last(), installed_path) {
            Some(d) => before.push(d),
            None => before,
        }
    }
}

/// An event's definitions without managed hooks; a value that is not an array stays.
pub open spec fn cleaned_event(v: JsonView, installed_path: Seq<char>) -> JsonView {
    match v {
        JsonView::Array(ds) => JsonView::Array(cleaned_definitions(ds, installed_path)),
        _ => v,
    }
}

pub open spec fn is_empty_array(v: JsonView) -> bool {
    v is Array && v->Array_0.len() == 0
}

/// The hooks configuration without managed hooks, events left without definitions
/// dropped.
pub open spec fn cleaned_hooks(h: Map<Seq<char>, JsonView>, installed_path: Seq<char>) -> Map<
    Seq<char>,
    JsonView,
> {
    Map::new(
        |k: Seq<char>| h.contains_key(k) && !is_empty_array(cleaned_event(h[k], installed_path)),
        |k: Seq<char>| cleaned_event(h[k], installed_path),
    )
}

/// The command that the managed hooks run.
pub open spec fn hook_command(installed_path: Seq<char>) -> Seq<char> {
    quoted(installed_path) + " || true"@
}

/// The definition that registers `command` for `event_name`, with a `*` matcher where
/// the event takes one.
pub open spec fn managed_definition(event_name: Seq<char>, command: Seq<char>) -> JsonView {
    let hook = JsonView::Object(
        Map::empty().insert("type"@, JsonView::Str("command"@)).insert(
            "command"@,
            JsonView::Str(command),
        ),
    );
    let hooks = JsonView::Array(seq![hook]);
    if requires_matcher(event_name) {
        JsonView::Object(
            Map::empty().insert("matcher"@, JsonView::Str("*"@)).insert("hooks"@, hooks),
        )
    } else {
        JsonView::Object(Map::empty().insert("hooks"@, hooks))
    }
}

/// `h` with a managed definition appended to each of `events`; an event without an
/// array of definitions gets one that holds the managed definition alone.
pub open spec fn with_managed(
    h: Map<Seq<char>, JsonView>,
    events: Seq<Seq<char>>,
    command: Seq<char>,
) -> Map<Seq<char>, JsonView>
    decreases events.len(),
{
    if events.len() == 0 {
        h
    } else {
        let before = with_managed(h, events.drop_last(), command);
        let e = events.last();
        let d = managed_definition(e, command);
        if before.contains_key(e) && before[e] is Array {
            before.insert(e, JsonView::Array(before[e]->Array_0.push(d)))
        } else {
            before.insert(e, JsonView::Array(seq![d]))
        }
    }
}

/// The configuration after the merge: its `hooks` object cleaned of managed hooks and
/// given a managed definition for each managed event; all else unchanged.
pub open spec fn merged_config(root: Map<Seq<char>, JsonView>, installed_path: Seq<char>) -> Map<
    Seq<char>,
    JsonView,
> {
    let hooks = if root.contains_key("hooks"@) && root["hooks"@] is Object {
        root["hooks"@]->Object_0
    } else {
        Map::empty()
    };
    root.insert(
        "hooks"@,
        JsonView::Object(
            with_managed(
                cleaned_hooks(hooks, installed_path),
                managed_events(),
                hook_command(installed_path),
            ),
        ),
    )
}


/// Return whether a hook runs the installed script.
fn hook_is_managed(h: &JsonValue, installed_path: &str) -> (r: bool)
    ensures
        r == is_managed_hook(json_view(*h), installed_path@),
{
    match h {
        JsonValue::Object(entries) => match entries_get(entries, "command") {
            Some(JsonValue::String(c)) => command_is_managed(c.as_str(), installed_path),
            _ => false,
        },
        _ => false,
    }
}

/// Remove the hooks that run the installed script from a hook definition; `None` when
/// no hook is left.
pub fn remove_managed_hooks(definition: &JsonValue, installed_path: &str) -> (r: Option<JsonValue>)
    ensures
        match r {
            Some(d) => without_managed_hooks(json_view(*definition), installed_path@) == Some(json_view(d)),
            None => without_managed_hooks(json_view(*definition), installed_path@) is None,
        },
        unique_keys(*definition) ==> (r matches Some(d) ==> unique_keys(d)),
{
    let entries = match definition {
        JsonValue::Object(entries) => entries,
        _ => {
            return Some(clone_json(definition));
        },
    };
    let hooks = match entries_get(entries, "hooks") {
        Some(JsonValue::Array(hooks)) => hooks,
        _ => {
            return Some(clone_json(definition));
        },
    };
    proof {
        lemma_entries_unique(entries@);
        lemma_items_unique(hooks@);
    }
    let ghost p = installed_path@;
    let mut kept: Vec<JsonValue> = Vec::new();
    let mut i: usize = 0;
    while i < hooks.len()
        invariant
            0 <= i <= hooks.len(),
            p == installed_path@,
            items_view(kept@) == unmanaged_hooks(items_view(hooks@.take(i as int)), p),
            items_unique(hooks@) ==> items_unique(kept@),
            items_unique(hooks@) ==> forall|m: int| 0 <= m < hooks@.len() ==> unique_keys(#[trigger] hooks@[m]),
        decreases hooks.len() - i,
    {
        proof {
            crate::cli::json::lemma_items_view(hooks@.take(i + 1));
            crate::cli::json::lemma_items_view(hooks@.take(i as int));
            assert(items_view(hooks@.take(i + 1)).drop_last() =~= items_view(hooks@.take(i as int)));
            assert(items_view(hooks@.take(i + 1)).last() == json_view(hooks@[i as int]));
        }
        if !hook_is_managed(&hooks[i], installed_path) {
            let c = clone_json(&hooks[i]);
            let ghost kb = kept@;
            kept.push(c);
            assert(kept@.drop_last() == kb);
        }
        i = i + 1;
    }
    proof {
        assert(hooks@.take(hooks.len() as int) == hooks@);
        crate::cli::json::lemma_items_view(hooks@);
        lemma_unmanaged_len(items_view(hooks@), p);
        crate::cli::json::lemma_items_view(kept@);
    }
    if kept.len() == hooks.len() {
        return Some(clone_json(definition));
    }
    if kept.len() == 0 {
        return None;
    }
    let mut cleaned = clone_entries(entries);
    entries_insert(&mut cleaned, "hooks", JsonValue::Array(kept));
    assert(unique_keys(*definition) ==> items_unique(hooks@));
    Some(JsonValue::Object(cleaned))
}

proof fn lemma_unmanaged_len(hs: Seq<JsonView>, p: Seq<char>)
    ensures
        unmanaged_hooks(hs, p).len() <= hs.len(),
    decreases hs.len(),
{
    if hs.len() > 0 {
        lemma_unmanaged_len(hs.drop_last(), p);
    }
}

/// The definitions of one event without managed hooks, those left empty dropped.
fn clean_definitions(defs: &Vec<JsonValue>, installed_path: &str) -> (r: Vec<JsonValue>)
    ensures
        items_view(r@) == cleaned_definitions(items_view(defs@), installed_path@),
        items_unique(defs@) ==> items_unique(r@),
{
    let ghost p = installed_path@;
    let mut out: Vec<JsonValue> = Vec::new();
    let mut i: usize = 0;
    proof {
        lemma_items_unique(defs@);
    }
    while i < defs.len()
        invariant
            0 <= i <= defs.len(),
            p == installed_path@,
            items_view(out@) == cleaned_definitions(items_view(defs@.take(i as int)), p),
            items_unique(defs@) ==> items_unique(out@),
            items_unique(defs@) ==> forall|m: int| 0 <= m < defs@.len() ==> unique_keys(#[trigger] defs@[m]),
        decreases defs.len() - i,
    {
        proof {
            crate::cli::json::lemma_items_view(defs@.take(i + 1));
            crate::cli::json::lemma_items_view(defs@.take(i as int));
            assert(items_view(defs@.take(i + 1)).drop_last() =~= items_view(defs@.take(i as int)));
            assert(items_view(defs@.take(i + 1)).last() == json_view(defs@[i as int]));
        }
        match remove_managed_hooks(&defs[i], installed_path) {
            Some(d) => {
                let ghost ob = out@;
                out.push(d);
                assert(out@.drop_last() == ob);
            },
            None => {},
        }
        i = i + 1;
    }
    assert(defs@.take(defs.len() as int) == defs@);
    out
}

/// The value of one event without managed hooks.
fn clean_event(v: &JsonValue, installed_path: &str) -> (r: JsonValue)
    ensures
        json_view(r) == cleaned_event(json_view(*v), installed_path@),
        unique_keys(*v) ==> unique_keys(r),
{
    match v {
        JsonValue::Array(defs) => JsonValue::Array(clean_definitions(defs, installed_path)),
        _ => clone_json(v),
    }
}

/// Clean a hooks configuration of managed hooks and drop the events left empty; of
/// several entries of one event only the first counts, and it alone is kept.
fn clean_hooks(hooks: &Vec<(String, JsonValue)>, installed_path: &str) -> (r: Vec<(String, JsonValue)>)
    ensures
        entries_view(r@) == cleaned_hooks(entries_view(hooks@), installed_path@),
        entries_unique(hooks@) ==> entries_unique(r@),
{
    let ghost p = installed_path@;
    let mut out: Vec<(String, JsonValue)> = Vec::new();
    let mut i: usize = 0;
    proof {
        lemma_entries_unique(hooks@);
    }
    assert(hooks@.take(0) =~= Seq::<(String, JsonValue)>::empty());
    assert(cleaned_hooks(entries_view(hooks@.take(0)), p) =~= Map::<Seq<char>, JsonView>::empty());
    while i < hooks.len()
        invariant
            0 <= i <= hooks.len(),
            p == installed_path@,
            entries_view(out@) == cleaned_hooks(entries_view(hooks@.take(i as int)), p),
            entries_unique(hooks@) ==> entries_unique(out@),
            entries_unique(hooks@) ==> forall|m: int| 0 <= m < hooks@.len() ==> unique_keys(#[trigger] hooks@[m].1),
        decreases hooks.len() - i,
    {
        let ghost before = hooks@.take(i as int);
        let ghost m = entries_view(before);
        let key = &hooks[i].0;
        let mut first = true;
        let mut j: usize = 0;
        while j < i
            invariant
                0 <= j <= i < hooks.len(),
                key == hooks@[i as int].0,
                first ==> forall|l: int| 0 <= l < j ==> (#[trigger] hooks@[l]).0@ != key@,
                !first ==> exists|l: int| 0 <= l < i && (#[trigger] hooks@[l]).0@ == key@,
            decreases i - j,
        {
            if str_eq(hooks[j].0.as_str(), key.as_str()) {
                first = false;
            }
            j = j + 1;
        }
        proof {
            assert(hooks@.take(i + 1).drop_last() == before);
            assert(hooks@.take(i + 1).last() == hooks@[i as int]);
            lemma_entries_view_keys(before, key@);
            if !first {
                let l = choose|l: int| 0 <= l < i && (#[trigger] hooks@[l]).0@ == key@;
                assert(before[l] == hooks@[l]);
            } else {
                assert forall|l: int| 0 <= l < before.len() implies (#[trigger] before[l]).0@ != key@ by {
                    assert(before[l] == hooks@[l]);
                }
            }
        }
        if first {
            let cleaned = clean_event(&hooks[i].1, installed_path);
            let ghost cv = json_view(cleaned);
            let empty = match &cleaned {
                JsonValue::Array(items) => items.len() == 0,
                _ => false,
            };
            proof {
                if cleaned is Array {
                    crate::cli::json::lemma_items_view(cleaned->Array_0@);
                }
            }
            if !empty {
                let ghost out_before = out@;
                proof {
                    lemma_entries_view_keys(out@, key@);
                    assert(!entries_view(out@).contains_key(key@));
                }
                let k2 = key.clone();
                out.push((k2, cleaned));
                proof {
                    assert(out@.drop_last() == out_before);
                    assert(out@.last() == (k2, cleaned));
                    assert(entries_view(out@) =~= cleaned_hooks(entries_view(hooks@.take(i + 1)), p));
                }
            } else {
                assert(entries_view(out@) =~= cleaned_hooks(entries_view(hooks@.take(i + 1)), p));
            }
        } else {
            assert(entries_view(hooks@.take(i + 1)) == m);
        }
        i = i + 1;
    }
    assert(hooks@.take(hooks.len() as int) == hooks@);
    out
}


/// The definition that registers `command` for `event_name`.
fn build_managed_definition(event_name: &str, command: &str) -> (r: JsonValue)
    ensures
        json_view(r) == managed_definition(event_name@, command@),
        unique_keys(r),
{
    let mut hook_entries: Vec<(String, JsonValue)> = Vec::new();
    hook_entries.push((string_of("type"), JsonValue::String(string_of("command"))));
    hook_entries.push((string_of("command"), JsonValue::String(string_of(command))));
    proof {
        reveal_strlit("type");
        reveal_strlit("command");
        reveal_with_fuel(entries_view, 3);
        assert("type"@.len() == 4 && "command"@.len() == 7);
        assert("type"@ != "command"@);
        assert(hook_entries@.drop_last().drop_last() =~= Seq::<(String, JsonValue)>::empty());
        assert(entries_view(hook_entries@) =~= Map::empty().insert(
            "type"@,
            JsonView::Str("command"@),
        ).insert("command"@, JsonView::Str(command@)));
        reveal_with_fuel(entries_unique, 3);
        assert(entries_unique(hook_entries@));
    }
    let hook = JsonValue::Object(hook_entries);
    let mut hooks: Vec<JsonValue> = Vec::new();
    hooks.push(hook);
    proof {
        crate::cli::json::lemma_items_view(hooks@);
        assert(items_view(hooks@) =~= seq![json_view(hook)]);
        reveal_with_fuel(items_unique, 2);
        assert(hooks@.drop_last() =~= Seq::<JsonValue>::empty());
        assert(items_unique(hooks@));
    }
    let mut entries: Vec<(String, JsonValue)> = Vec::new();
    let matcher = event_requires_matcher(event_name);
    if matcher {
        entries.push((string_of("matcher"), JsonValue::String(string_of("*"))));
    }
    let ghost with_matcher = entries@;
    entries.push((string_of("hooks"), JsonValue::Array(hooks)));
    proof {
        reveal_strlit("hooks");
        reveal_strlit("matcher");
        reveal_with_fuel(entries_view, 3);
        assert("hooks"@.len() == 5 && "matcher"@.len() == 7);
        assert("hooks"@ != "matcher"@);
        assert(entries@.drop_last() == with_matcher);
        if matcher {
            assert(with_matcher.drop_last() =~= Seq::<(String, JsonValue)>::empty());
            assert(entries_view(entries@) =~= Map::empty().insert("matcher"@, JsonView::Str("*"@)).insert(
                "hooks"@,
                JsonView::Array(items_view(hooks@)),
            ));
            reveal_with_fuel(entries_unique, 3);
            assert(entries_unique(entries@));
        } else {
            assert(with_matcher =~= Seq::<(String, JsonValue)>::empty());
            assert(entries_view(entries@) =~= Map::empty().insert(
                "hooks"@,
                JsonView::Array(items_view(hooks@)),
            ));
            reveal_with_fuel(entries_unique, 2);
            assert(entries_unique(entries@));
        }
    }
    JsonValue::Object(entries)
}

/// Append a managed definition to each managed event of a hooks configuration.
fn add_managed_hooks(hooks: Vec<(String, JsonValue)>, command: &str) -> (r: Vec<(String, JsonValue)>)
    ensures
        entries_view(r@) == with_managed(entries_view(hooks@), managed_events(), command@),
        entries_unique(hooks@) ==> entries_unique(r@),
{
    let events: [&str; 8] = [
        "SessionStart",
        "UserPromptSubmit",
        "PreToolUse",
        "PostToolUse",
        "PermissionRequest",
        "SubagentStart",
        "SubagentStop",
        "Stop",
    ];
    let ghost ev = events@.map_values(|e: &str| e@);
    assert(ev =~= managed_events());
    let ghost start = entries_view(hooks@);
    let ghost unique_start = entries_unique(hooks@);
    let mut out = hooks;
    let mut i: usize = 0;
    assert(managed_events().take(0) =~= Seq::<Seq<char>>::empty());
    while i < 8
        invariant
            0 <= i <= 8,
            ev == events@.map_values(|e: &str| e@),
            ev == managed_events(),
            entries_view(out@) == with_managed(start, managed_events().take(i as int), command@),
            unique_start ==> entries_unique(out@),
        decreases 8 - i,
    {
        let e = events[i];
        proof {
            assert(managed_events().take(i + 1).drop_last() == managed_events().take(i as int));
            assert(managed_events().take(i + 1).last() == e@);
        }
        let d = build_managed_definition(e, command);
        proof {
            lemma_entries_unique(out@);
        }
        let existing: Option<Vec<JsonValue>> = match entries_get(&out, e) {
            Some(JsonValue::Array(a)) => {
                let c = clone_items(a);
                assert(unique_start ==> items_unique(a@));
                Some(c)
            },
            _ => None,
        };
        match existing {
            Some(a) => {
                let mut a = a;
                let ghost ab = a@;
                a.push(d);
                assert(a@.drop_last() == ab);
                assert(a@.last() == d);
                entries_insert(&mut out, e, JsonValue::Array(a));
            },
            None => {
                let mut a: Vec<JsonValue> = Vec::new();
                a.push(d);
                proof {
                    crate::cli::json::lemma_items_view(a@);
                    assert(items_view(a@) =~= seq![json_view(d)]);
                    assert(a@.drop_last() =~= Seq::<JsonValue>::empty());
                    assert(a@.last() == d);
                    assert(items_unique(a@.drop_last()));
                    assert(items_unique(a@));
                }
                entries_insert(&mut out, e, JsonValue::Array(a));
            },
        }
        i = i + 1;
    }
    assert(managed_events().take(8) =~= managed_events());
    out
}

/// Merge the managed hook entries into a hooks configuration: remove every hook that
/// runs the installed script, drop the events left without definitions, then register
/// the script for each managed event. Everything else in the configuration stays.
pub fn merge_hooks_json(root: JsonValue, installed_path: &str) -> (r: JsonValue)
    requires
        root is Object,
    ensures
        json_view(r) == JsonView::Object(merged_config(json_view(root)->Object_0, installed_path@)),
        unique_keys(root) ==> unique_keys(r),
{
    let ghost rv = json_view(root)->Object_0;
    let mut entries = match root {
        JsonValue::Object(entries) => entries,
        other => {
            return other;
        },
    };
    proof {
        lemma_entries_unique(entries@);
    }
    let ghost unique_root = entries_unique(entries@);
    let old_hooks: Vec<(String, JsonValue)> = match entries_get(&entries, "hooks") {
        Some(JsonValue::Object(h)) => {
            let c = clone_entries(h);
            assert(unique_root ==> entries_unique(h@));
            c
        },
        _ => Vec::new(),
    };
    proof {
        if !(rv.contains_key("hooks"@) && rv["hooks"@] is Object) {
            assert(entries_view(old_hooks@) =~= Map::<Seq<char>, JsonView>::empty());
        }
    }
    let cleaned = clean_hooks(&old_hooks, installed_path);
    let mut command = shell_quote(installed_path);
    push_str(&mut command, " || true");
    let hooks = add_managed_hooks(cleaned, command.as_str());
    entries_insert(&mut entries, "hooks", JsonValue::Object(hooks));
    JsonValue::Object(entries)
}

/// The hooks configuration to merge into: what `~/.codex/hooks.json` holds, or an
/// empty object when there is no such file; anything but an object is refused.
pub fn hooks_json_root(existing: Option<JsonValue>) -> (r: Result<JsonValue, AmuxError>)
    ensures
        match existing {
            None => r matches Ok(v) && json_view(v) == JsonView::Object(Map::empty()) && unique_keys(v),
            Some(v) => if v is Object {
                r == Ok::<JsonValue, AmuxError>(v)
            } else {
                r matches Err(e) && e@ == setup_error("expected ~/.codex/hooks.json to contain a JSON object"@)
            },
        },
{
    match existing {
        None => {
            let v = JsonValue::Object(Vec::new());
            assert(entries_view(Seq::<(String, JsonValue)>::empty()) =~= Map::<Seq<char>, JsonView>::empty());
            Ok(v)
        },
        Some(v) => match v {
            JsonValue::Object(_) => Ok(v),
            _ => Err(AmuxError::Setup(string_of("expected ~/.codex/hooks.json to contain a JSON object"))),
        },
    }
}

/// The configuration that setup merges into: what `~/.codex/hooks.json` holds when
/// the file exists (`None` when that does not parse), else an empty object.
pub open spec fn hooks_config_of(existing: Option<Seq<char>>) -> Option<JsonView> {
    match existing {
        None => Some(JsonView::Object(Map::empty())),
        Some(t) => parsed_json(t),
    }
}

/// The error of a `serde_json` call: `prefix` followed by the error's message.
fn json_failure(prefix: &str, e: &serde_json::Error) -> (r: AmuxError)
    ensures
        r matches AmuxError::Setup(m) && starts_with(m@, prefix@),
{
    let mut m = string_of(prefix);
    let detail = json_error_message(e);
    push_str(&mut m, detail.as_str());
    assert((prefix@ + detail@).take(prefix@.len() as int) =~= prefix@);
    AmuxError::Setup(m)
}

/// The new content of `~/.codex/hooks.json`, from its current text if the file
/// exists: that configuration, or an empty one, with the managed hooks merged in,
/// pretty-printed and followed by a newline. Text that does not parse, or that holds
/// anything but an object, is refused.
pub fn hooks_json_content(existing: Option<&str>, installed_path: &str) -> (r: Result<String, AmuxError>)
    ensures
        match hooks_config_of(opt_view(existing)) {
            None => r matches Err(AmuxError::Setup(m)) && starts_with(m@, "failed to parse hooks.json: "@),
            Some(JsonView::Object(m)) => r matches Ok(t) && t@ == pretty_json(
                JsonView::Object(merged_config(m, installed_path@)),
            ) + "\n"@,
            Some(_) => r matches Err(e) && e@ == setup_error("expected ~/.codex/hooks.json to contain a JSON object"@),
        },
{
    let parsed: Option<JsonValue> = match existing {
        None => None,
        Some(text) => match parse_json(text) {
            Ok(v) => Some(v),
            Err(e) => {
                return Err(json_failure("failed to parse hooks.json: ", &e));
            },
        },
    };
    let root = match hooks_json_root(parsed) {
        Ok(root) => root,
        Err(e) => {
            return Err(e);
        },
    };
    let merged = merge_hooks_json(root, installed_path);
    match write_json_pretty(&merged) {
        Ok(text) => {
            let mut t = text;
            push_str(&mut t, "\n");
            Ok(t)
        },
        Err(e) => Err(json_failure("failed to serialize hooks.json: ", &e)),
    }
}

/// A definition that holds no hook running the installed script.
pub open spec fn is_clean_definition(d: JsonView, installed_path: Seq<char>) -> bool {
    without_managed_hooks(d, installed_path) == Some(d)
}

proof fn lemma_unmanaged_hooks(hs: Seq<JsonView>, p: Seq<char>)
    ensures
        forall|i: int|
            0 <= i < unmanaged_hooks(hs, p).len() ==> !is_managed_hook(#[trigger] unmanaged_hooks(hs, p)[i], p),
        (forall|i: int| 0 <= i < hs.len() ==> !is_managed_hook(#[trigger] hs[i], p)) ==> unmanaged_hooks(hs, p)
            == hs,
    decreases hs.len(),
{
    if hs.len() > 0 {
        lemma_unmanaged_hooks(hs.drop_last(), p);
        let before = unmanaged_hooks(hs.drop_last(), p);
        let now = unmanaged_hooks(hs, p);
        assert forall|i: int| 0 <= i < now.len() implies !is_managed_hook(#[trigger] now[i], p) by {
            if i < before.len() {
                assert(now[i] == before[i]);
            }
        }
        if forall|i: int| 0 <= i < hs.len() ==> !is_managed_hook(#[trigger] hs[i], p) {
            assert forall|i: int| 0 <= i < hs.drop_last().len() implies !is_managed_hook(
                #[trigger] hs.drop_last()[i],
                p,
            ) by {
                assert(hs.drop_last()[i] == hs[i]);
            }
            assert(!is_managed_hook(hs[hs.len() - 1], p));
            assert(now =~= hs);
        }
    }
}

/// What is left of a definition once its managed hooks are removed holds none.
proof fn lemma_without_managed_is_clean(d: JsonView, p: Seq<char>)
    ensures
        without_managed_hooks(d, p) matches Some(x) ==> is_clean_definition(x, p),
{
    match d {
        JsonView::Object(m) => {
            if m.contains_key("hooks"@) && m["hooks"@] is Array {
                let hooks = m["hooks"@]->Array_0;
                let kept = unmanaged_hooks(hooks, p);
                if kept.len() != hooks.len() && kept.len() != 0 {
                    lemma_unmanaged_hooks(hooks, p);
                    lemma_unmanaged_hooks(kept, p);
                    let m2 = m.insert("hooks"@, JsonView::Array(kept));
                    assert(m2["hooks"@] == JsonView::Array(kept));
                }
            }
        },
        _ => {},
    }
}

proof fn lemma_cleaned_definitions(ds: Seq<JsonView>, p: Seq<char>)
    ensures
        forall|i: int|
            0 <= i < cleaned_definitions(ds, p).len() ==> is_clean_definition(
                #[trigger] cleaned_definitions(ds, p)[i],
                p,
            ),
        (forall|i: int| 0 <= i < ds.len() ==> is_clean_definition(#[trigger] ds[i], p))
            ==> cleaned_definitions(ds, p) == ds,
    decreases ds.len(),
{
    if ds.len() > 0 {
        lemma_cleaned_definitions(ds.drop_last(), p);
        lemma_without_managed_is_clean(ds.last(), p);
        let before = cleaned_definitions(ds.drop_last(), p);
        let now = cleaned_definitions(ds, p);
        assert forall|i: int| 0 <= i < now.len() implies is_clean_definition(#[trigger] now[i], p) by {
            if i < before.len() {
                assert(now[i] == before[i]);
            }
        }
        if forall|i: int| 0 <= i < ds.len() ==> is_clean_definition(#[trigger] ds[i], p) {
            assert forall|i: int| 0 <= i < ds.drop_last().len() implies is_clean_definition(
                #[trigger] ds.drop_last()[i],
                p,
            ) by {
                assert(ds.drop_last()[i] == ds[i]);
            }
            assert(is_clean_definition(ds[ds.len() - 1], p));
            assert(now =~= ds);
        }
    }
}

proof fn lemma_escape_quotes_plain(s: Seq<char>)
    requires
        !crate::text::has_char(s, '\''),
    ensures
        escape_quotes(s) == s,
    decreases s.len(),
{
    crate::text::lemma_first_index(s, crate::text::CharClass::Is('\''));
    if s.len() > 0 {
        crate::text::lemma_first_index(s.drop_last(), crate::text::CharClass::Is('\''));
        if crate::text::has_char(s.drop_last(), '\'') {
            let f = crate::text::first_index(s.drop_last(), crate::text::CharClass::Is('\''));
            assert(s[f] == s.drop_last()[f]);
        }
        lemma_escape_quotes_plain(s.drop_last());
        assert(s.last() != '\'') by {
            if s.last() == '\'' {
                assert(s[s.len() - 1] == '\'');
            }
        }
        assert(s.drop_last().push(s.last()) =~= s);
    }
}

/// A path without a single quote is named verbatim in the command that runs it, so
/// that command is recognized as managed.
pub proof fn lemma_plain_path_is_managed(p: Seq<char>)
    requires
        !crate::text::has_char(p, '\''),
    ensures
        managed_command(hook_command(p), p),
{
    let cmd = hook_command(p);
    lemma_escape_quotes_plain(p);
    reveal_strlit("'");
    assert("'"@.len() == 1);
    assert(cmd == "'"@ + p + "'"@ + " || true"@);
    assert(cmd.subrange(1int, 1 + p.len() as int) =~= p);
    assert(has_substring(cmd, p));
}

/// A managed definition holds only the managed hook, so cleaning removes it whole
/// when its command is recognized as managed.
proof fn lemma_managed_definition_removed(e: Seq<char>, p: Seq<char>)
    requires
        managed_command(hook_command(p), p),
    ensures
        without_managed_hooks(managed_definition(e, hook_command(p)), p) is None,
{
    let cmd = hook_command(p);
    let hook = JsonView::Object(
        Map::empty().insert("type"@, JsonView::Str("command"@)).insert("command"@, JsonView::Str(cmd)),
    );
    assert(is_managed_hook(hook, p));
    let hs = seq![hook];
    assert(hs.drop_last() =~= Seq::<JsonView>::empty());
    assert(hs.last() == hook);
    assert(unmanaged_hooks(hs.drop_last(), p) =~= Seq::<JsonView>::empty());
    assert(unmanaged_hooks(hs, p) =~= Seq::<JsonView>::empty());
}

/// The managed events are distinct.
proof fn lemma_managed_events_distinct()
    ensures
        managed_events().no_duplicates(),
{
    reveal_strlit("SessionStart");
    reveal_strlit("UserPromptSubmit");
    reveal_strlit("PreToolUse");
    reveal_strlit("PostToolUse");
    reveal_strlit("PermissionRequest");
    reveal_strlit("SubagentStart");
    reveal_strlit("SubagentStop");
    reveal_strlit("Stop");
    let ev = managed_events();
    assert forall|i: int, j: int| 0 <= i < ev.len() && 0 <= j < ev.len() && i != j implies ev[i] != ev[j] by {
        if ev[i].len() == ev[j].len() {
            assert(ev[i][1] != ev[j][1] || ev[i][2] != ev[j][2]);
        }
    }
}

/// The definitions that a managed event's entry starts from: its array, if it has one.
pub open spec fn base_definitions(h: Map<Seq<char>, JsonView>, e: Seq<char>) -> Seq<JsonView> {
    if h.contains_key(e) && h[e] is Array {
        h[e]->Array_0
    } else {
        seq![]
    }
}

proof fn lemma_with_managed(
    h: Map<Seq<char>, JsonView>,
    events: Seq<Seq<char>>,
    command: Seq<char>,
)
    requires
        events.no_duplicates(),
    ensures
        with_managed(h, events, command).dom() == h.dom().union(events.to_set()),
        forall|k: Seq<char>|
            #[trigger] with_managed(h, events, command).contains_key(k) ==> (if events.contains(k) {
                with_managed(h, events, command)[k] == JsonView::Array(
                    base_definitions(h, k).push(managed_definition(k, command)),
                )
            } else {
                with_managed(h, events, command)[k] == h[k]
            }),
    decreases events.len(),
{
    if events.len() > 0 {
        let d = events.drop_last();
        assert(d.no_duplicates());
        lemma_with_managed(h, d, command);
        let e = events.last();
        assert(!d.contains(e)) by {
            if d.contains(e) {
                let i = choose|i: int| 0 <= i < d.len() && d[i] == e;
                assert(events[i] == events[events.len() - 1]);
            }
        }
        assert(events.to_set() =~= d.to_set().insert(e)) by {
            assert forall|x: Seq<char>| events.to_set().contains(x) <==> d.to_set().insert(e).contains(x) by {
                if events.contains(x) {
                    let i = choose|i: int| 0 <= i < events.len() && events[i] == x;
                    if i < events.len() - 1 {
                        assert(d[i] == x);
                    }
                }
                if d.contains(x) {
                    let i = choose|i: int| 0 <= i < d.len() && d[i] == x;
                    assert(events[i] == x);
                }
                if x == e {
                    assert(events[events.len() - 1] == e);
                }
            }
        }
        let before = with_managed(h, d, command);
        let now = with_managed(h, events, command);
        assert(now.dom() =~= h.dom().union(events.to_set()));
        assert forall|k: Seq<char>| #[trigger] now.contains_key(k) implies (if events.contains(k) {
            now[k] == JsonView::Array(base_definitions(h, k).push(managed_definition(k, command)))
        } else {
            now[k] == h[k]
        }) by {
            if k == e {
                assert(events[events.len() - 1] == e);
                assert(!before.contains_key(e) || before[e] == h[e]);
                if before.contains_key(e) {
                    assert(h.contains_key(e));
                }
            } else {
                assert(events.contains(k) <==> d.contains(k)) by {
                    if events.contains(k) {
                        let i = choose|i: int| 0 <= i < events.len() && events[i] == k;
                        assert(d[i] == k);
                    }
                    if d.contains(k) {
                        let i = choose|i: int| 0 <= i < d.len() && d[i] == k;
                        assert(events[i] == k);
                    }
                }
            }
        }
    }
}

/// Merging twice gives what merging once gives: the managed entries that the first
/// merge added are recognized and replaced by the second. This holds whenever the
/// command of the managed hooks is recognized as managed, as it is for every path
/// without a single quote (`lemma_plain_path_is_managed`).
pub proof fn lemma_merge_idempotent(root: Map<Seq<char>, JsonView>, installed_path: Seq<char>)
    requires
        managed_command(hook_command(installed_path), installed_path),
    ensures
        merged_config(merged_config(root, installed_path), installed_path) == merged_config(
            root,
            installed_path,
        ),
{
    let p = installed_path;
    let cmd = hook_command(p);
    let ev = managed_events();
    lemma_managed_events_distinct();
    let h0 = if root.contains_key("hooks"@) && root["hooks"@] is Object {
        root["hooks"@]->Object_0
    } else {
        Map::empty()
    };
    let c = cleaned_hooks(h0, p);
    let h1 = with_managed(c, ev, cmd);
    let r1 = merged_config(root, p);
    assert(r1 == root.insert("hooks"@, JsonView::Object(h1)));
    assert(r1.contains_key("hooks"@) && r1["hooks"@] == JsonView::Object(h1));
    let c2 = cleaned_hooks(h1, p);
    let h2 = with_managed(c2, ev, cmd);
    lemma_with_managed(c, ev, cmd);
    lemma_with_managed(c2, ev, cmd);
    // The cleaned configuration holds clean definitions only, and no empty array.
    assert forall|k: Seq<char>| #[trigger] c.contains_key(k) && c[k] is Array implies cleaned_definitions(
        c[k]->Array_0,
        p,
    ) == c[k]->Array_0 by {
        let h0k = h0[k];
        lemma_cleaned_definitions(h0k->Array_0, p);
        lemma_cleaned_definitions(c[k]->Array_0, p);
    }
    assert forall|k: Seq<char>| #[trigger] h2.contains_key(k) <==> h1.contains_key(k) by {
        if ev.contains(k) {
            assert(ev.to_set().contains(k));
        }
        if c2.contains_key(k) && !ev.contains(k) {
            assert(h1.contains_key(k));
            assert(c.contains_key(k));
        }
        if h1.contains_key(k) && !ev.contains(k) {
            assert(!ev.to_set().contains(k));
            assert(c.contains_key(k));
            assert(h1[k] == c[k]);
            assert(cleaned_event(c[k], p) == c[k]);
            assert(c2.contains_key(k));
        }
    }
    assert forall|k: Seq<char>| #[trigger] h2.contains_key(k) implies h2[k] == h1[k] by {
        if ev.contains(k) {
            lemma_managed_definition_removed(k, p);
            let b = base_definitions(c, k);
            assert(h1[k] == JsonView::Array(b.push(managed_definition(k, cmd))));
            assert(b.push(managed_definition(k, cmd)).drop_last() == b);
            lemma_cleaned_definitions(b, p);
            assert(cleaned_definitions(b, p) == b);
            assert(cleaned_event(h1[k], p) == JsonView::Array(b));
            assert(base_definitions(c2, k) == b);
        } else {
            assert(c.contains_key(k));
            assert(h1[k] == c[k]);
            assert(cleaned_event(c[k], p) == c[k]);
        }
    }
    assert(h2 =~= h1);
    assert(merged_config(r1, p) =~= r1);
}


/// The hooks object of a configuration: its `hooks` entry when that is an object,
/// else an empty one.
pub open spec fn hooks_of(root: Map<Seq<char>, JsonView>) -> Map<Seq<char>, JsonView> {
    if root.contains_key("hooks"@) && root["hooks"@] is Object {
        root["hooks"@]->Object_0
    } else {
        Map::empty()
    }
}

proof fn lemma_cleaned_keeps_clean(ds: Seq<JsonView>, p: Seq<char>, i: int)
    requires
        0 <= i < ds.len(),
        is_clean_definition(ds[i], p),
    ensures
        cleaned_definitions(ds, p).contains(ds[i]),
    decreases ds.len(),
{
    let before = cleaned_definitions(ds.drop_last(), p);
    let now = cleaned_definitions(ds, p);
    if i == ds.len() - 1 {
        assert(now == before.push(ds[i]));
        assert(now[now.len() - 1] == ds[i]);
    } else {
        assert(ds.drop_last()[i] == ds[i]);
        lemma_cleaned_keeps_clean(ds.drop_last(), p, i);
        let j = choose|j: int| 0 <= j < before.len() && before[j] == ds[i];
        assert(now[j] == before[j]);
    }
}

/// The merge keeps what the user configured: every setting besides `hooks` is
/// unchanged, and every hook definition that runs no managed hook stays under its
/// event.
pub proof fn lemma_merge_preserves_user_settings(root: Map<Seq<char>, JsonView>, installed_path: Seq<char>)
    ensures
        forall|k: Seq<char>|
            k != "hooks"@ ==> (#[trigger] merged_config(root, installed_path).contains_key(k)
                <==> root.contains_key(k)),
        forall|k: Seq<char>|
            k != "hooks"@ && root.contains_key(k) ==> #[trigger] merged_config(root, installed_path)[k]
                == root[k],
        forall|e: Seq<char>, i: int|
            #![trigger hooks_of(root)[e]->Array_0[i]]
            hooks_of(root).contains_key(e) && hooks_of(root)[e] is Array && 0 <= i
                < hooks_of(root)[e]->Array_0.len() && is_clean_definition(
                hooks_of(root)[e]->Array_0[i],
                installed_path,
            ) ==> hooks_of(merged_config(root, installed_path)).contains_key(e) && hooks_of(
                merged_config(root, installed_path),
            )[e] is Array && hooks_of(merged_config(root, installed_path))[e]->Array_0.contains(
                hooks_of(root)[e]->Array_0[i],
            ),
{
    let p = installed_path;
    let h0 = hooks_of(root);
    let c = cleaned_hooks(h0, p);
    let cmd = hook_command(p);
    let ev = managed_events();
    lemma_managed_events_distinct();
    lemma_with_managed(c, ev, cmd);
    let merged = merged_config(root, p);
    let h1 = with_managed(c, ev, cmd);
    assert(hooks_of(merged) == h1);
    assert forall|e: Seq<char>, i: int|
        #![trigger hooks_of(root)[e]->Array_0[i]]
        hooks_of(root).contains_key(e) && hooks_of(root)[e] is Array && 0 <= i
            < hooks_of(root)[e]->Array_0.len() && is_clean_definition(
            hooks_of(root)[e]->Array_0[i],
            p,
        ) implies h1.contains_key(e) && h1[e] is Array && h1[e]->Array_0.contains(
        hooks_of(root)[e]->Array_0[i],
    ) by {
        let ds = h0[e]->Array_0;
        let d = ds[i];
        lemma_cleaned_keeps_clean(ds, p, i);
        let cd = cleaned_definitions(ds, p);
        assert(cleaned_event(h0[e], p) == JsonView::Array(cd));
        assert(cd.len() > 0);
        assert(c.contains_key(e));
        assert(c[e] == JsonView::Array(cd));
        assert(h1.dom().contains(e));
        if ev.contains(e) {
            assert(base_definitions(c, e) == cd);
            let j = choose|j: int| 0 <= j < cd.len() && cd[j] == d;
            assert(cd.push(managed_definition(e, cmd))[j] == d);
        }
    }
}

} // verus!
