//! Rendering the `.desktop` text written back to disk: the full form used by
//! saves, and the short `Hidden=true` override used to delete entries that
//! live in read-only system directories.

use vstd::prelude::*;
use vstd::string::StringExecFns;

use crate::entry::AutostartEntry;

verus! {

/// One `key=value` line.
pub open spec fn kv(key: Seq<char>, value: Seq<char>) -> Seq<char> {
    key + "="@ + value + "\n"@
}

/// The text a save writes: the fixed header and `Type`, the entry's name,
/// the (possibly changed) command, `Terminal=false`, the optional icon and
/// comment, and the enabled flag. No `Hidden` key is ever written.
pub open spec fn save_content_model(
    name: Seq<char>,
    command: Seq<char>,
    icon: Option<Seq<char>>,
    comment: Option<Seq<char>>,
    enabled: bool,
) -> Seq<char> {
    "[Desktop Entry]"@ + "\n"@ + kv("Type"@, "Application"@) + kv("Name"@, name) + kv(
        "Exec"@,
        command,
    ) + kv("Terminal"@, "false"@) + (match icon {
        Some(ic) => kv("Icon"@, ic),
        None => Seq::empty(),
    }) + (match comment {
        Some(cm) => kv("Comment"@, cm),
        None => Seq::empty(),
    }) + kv(
        "X-GNOME-Autostart-enabled"@,
        if enabled {
            "true"@
        } else {
            "false"@
        },
    )
}

/// The text of the override file that shadows and disables a system entry.
pub open spec fn hidden_content_model(name: Seq<char>, command: Seq<char>) -> Seq<char> {
    "[Desktop Entry]"@ + "\n"@ + kv("Type"@, "Application"@) + kv("Name"@, name) + kv(
        "Exec"@,
        command,
    ) + kv("Hidden"@, "true"@)
}

/// Appends one `key=value` line to `out`.
fn push_kv(out: &mut String, key: &str, value: &str)
    ensures
        final(out)@ == old(out)@ + kv(key@, value@),
{
    out.append(key);
    out.append("=");
    out.append(value);
    out.append("\n");
    assert(out@ =~= old(out)@ + kv(key@, value@));
}

/// Renders the text a save of this entry writes, with `new_exec` in place of
/// the stored command.
pub fn save_content(e: &AutostartEntry, new_exec: &str) -> (r: String)
    ensures
        r@ == save_content_model(e@.name, new_exec@, e@.icon, e@.comment, e@.enabled),
{
    let mut out = String::new();
    out.append("[Desktop Entry]");
    out.append("\n");
    push_kv(&mut out, "Type", "Application");
    push_kv(&mut out, "Name", e.name.as_str());
    push_kv(&mut out, "Exec", new_exec);
    push_kv(&mut out, "Terminal", "false");
    match &e.icon {
        Some(ic) => push_kv(&mut out, "Icon", ic.as_str()),
        None => (),
    }
    match &e.comment {
        Some(cm) => push_kv(&mut out, "Comment", cm.as_str()),
        None => (),
    }
    if e.enabled {
        push_kv(&mut out, "X-GNOME-Autostart-enabled", "true");
    } else {
        push_kv(&mut out, "X-GNOME-Autostart-enabled", "false");
    }
    assert(out@ =~= save_content_model(e@.name, new_exec@, e@.icon, e@.comment, e@.enabled));
    out
}

/// Renders the override text that hides a system entry.
pub fn hidden_content(name: &str, command: &str) -> (r: String)
    ensures
        r@ == hidden_content_model(name@, command@),
{
    let mut out = String::new();
    out.append("[Desktop Entry]");
    out.append("\n");
    push_kv(&mut out, "Type", "Application");
    push_kv(&mut out, "Name", name);
    push_kv(&mut out, "Exec", command);
    push_kv(&mut out, "Hidden", "true");
    assert(out@ =~= hidden_content_model(name@, command@));
    out
}

} // verus!
