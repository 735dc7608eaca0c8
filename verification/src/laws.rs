//! The library's laws: statements that hold of all inputs, proved once and
//! for all against the parser, merge and rendering models.

use vstd::prelude::*;

use crate::entry::entry_wf;
use crate::entry::EntryModel;
use crate::entry::RepoError;
use crate::merge::file_model;
use crate::merge::merged_models;
use crate::merge::scan_spec;
use crate::merge::ScannedFile;
use crate::parse::apply_key;
use crate::parse::init_fields;
use crate::parse::parse_err;
use crate::parse::parse_lines;
use crate::parse::parse_ok;
use crate::parse::parsed_entry;
use crate::parse::parsed_fields;
use crate::parse::ParseFields;
use crate::parse::step;
use crate::parse::strip_cr;
use crate::render::hidden_content_model;
use crate::render::kv;
use crate::render::save_content_model;
use crate::text::eq_ignore_ascii_case;
use crate::text::find_char;
use crate::text::is_ws;
use crate::text::lemma_find_char_is;
use crate::text::lemma_find_char_props;
use crate::text::lemma_trim_id;

verus! {

/// A value that renders onto one line and survives a parse round trip: no
/// line breaks, no whitespace at either end.
pub open spec fn clean_value(s: Seq<char>) -> bool {
    &&& forall|j: int| 0 <= j < s.len() ==> s[j] != '\n' && s[j] != '\r'
    &&& s.len() > 0 ==> !is_ws(s[0]) && !is_ws(s.last())
}

/// A key as it may stand at the start of a `key=value` line.
pub open spec fn line_key_ok(k: Seq<char>) -> bool {
    &&& k.len() > 0
    &&& !is_ws(k[0]) && !is_ws(k.last())
    &&& forall|j: int| 0 <= j < k.len() ==> k[j] != '=' && k[j] != '\n' && k[j] != '\r'
    &&& k[0] != '[' && k[0] != '#'
}

/// Ground facts about the key and value literals of the file format.
pub proof fn lemma_key_facts()
    ensures
        line_key_ok("Type"@),
        line_key_ok("Name"@),
        line_key_ok("Exec"@),
        line_key_ok("Icon"@),
        line_key_ok("Comment"@),
        line_key_ok("Terminal"@),
        line_key_ok("X-GNOME-Autostart-enabled"@),
        line_key_ok("Hidden"@),
        clean_value("Application"@),
        clean_value("false"@),
        clean_value("true"@),
        "Type"@ != "Name"@ && "Type"@ != "Exec"@ && "Type"@ != "Icon"@ && "Type"@ != "Comment"@
            && "Type"@ != "X-GNOME-Autostart-enabled"@ && "Type"@ != "Hidden"@,
        "Terminal"@ != "Name"@ && "Terminal"@ != "Exec"@ && "Terminal"@ != "Icon"@ && "Terminal"@
            != "Comment"@ && "Terminal"@ != "X-GNOME-Autostart-enabled"@ && "Terminal"@
            != "Hidden"@,
        "Exec"@ != "Name"@,
        "Icon"@ != "Name"@ && "Icon"@ != "Exec"@,
        "Comment"@ != "Name"@ && "Comment"@ != "Exec"@ && "Comment"@ != "Icon"@,
        "X-GNOME-Autostart-enabled"@ != "Name"@ && "X-GNOME-Autostart-enabled"@ != "Exec"@
            && "X-GNOME-Autostart-enabled"@ != "Icon"@ && "X-GNOME-Autostart-enabled"@
            != "Comment"@,
        "Hidden"@ != "Name"@ && "Hidden"@ != "Exec"@ && "Hidden"@ != "Icon"@ && "Hidden"@
            != "Comment"@ && "Hidden"@ != "X-GNOME-Autostart-enabled"@,
        !eq_ignore_ascii_case("true"@, "false"@),
        eq_ignore_ascii_case("true"@, "true"@),
        eq_ignore_ascii_case("false"@, "false"@),
{
    reveal_strlit("Type");
    reveal_strlit("Name");
    reveal_strlit("Exec");
    reveal_strlit("Icon");
    reveal_strlit("Comment");
    reveal_strlit("Terminal");
    reveal_strlit("X-GNOME-Autostart-enabled");
    reveal_strlit("Hidden");
    reveal_strlit("Application");
    reveal_strlit("false");
    reveal_strlit("true");
    assert("Type"@.len() == 4);
    assert("Name"@.len() == 4);
    assert("Exec"@.len() == 4);
    assert("Icon"@.len() == 4);
    assert("Comment"@.len() == 7);
    assert("Terminal"@.len() == 8);
    assert("X-GNOME-Autostart-enabled"@.len() == 25);
    assert("Hidden"@.len() == 6);
    assert("Application"@.len() == 11);
    assert("false"@.len() == 5);
    assert("true"@.len() == 4);
    assert("Type"@[0] == 'T' && "Name"@[0] == 'N' && "Exec"@[0] == 'E' && "Icon"@[0] == 'I');
    assert("true"@[0] == 't');
}

/// A line holding `key=value` hands the pair to [`apply_key`].
pub proof fn lemma_step_kv(st: ParseFields, key: Seq<char>, val: Seq<char>)
    requires
        st.in_section,
        line_key_ok(key),
        clean_value(val),
    ensures
        step(st, key + "="@ + val) == apply_key(st, key, val),
{
    reveal_strlit("=");
    assert("="@.len() == 1 && "="@[0] == '=');
    let line = key + "="@ + val;
    assert(line[0] == key[0]);
    if val.len() > 0 {
        assert(line.last() == val.last());
    } else {
        assert(line.last() == '=');
    }
    lemma_trim_id(line);
    assert forall|j: int| 0 <= j < key.len() implies line[j] != '=' by {
        assert(line[j] == key[j]);
    }
    assert(line[key.len() as int] == '=');
    lemma_find_char_is(line, '=', key.len() as int);
    assert(line.take(key.len() as int) =~= key);
    assert(line.skip(key.len() as int + 1) =~= val);
    lemma_trim_id(key);
    lemma_trim_id(val);
}

/// The section header line turns the section flag on.
pub proof fn lemma_step_header(st: ParseFields)
    ensures
        step(st, "[Desktop Entry]"@) == (ParseFields { in_section: true, ..st }),
{
    reveal_strlit("[Desktop Entry]");
    let h = "[Desktop Entry]"@;
    assert(h.len() == 15);
    assert(h[0] == '[');
    assert(h.last() == ']');
    lemma_trim_id(h);
}

/// Folding over `line`, a newline, and `rest` is one [`step`] on `line`
/// followed by the fold over `rest`.
pub proof fn lemma_parse_lines_cons(line: Seq<char>, rest: Seq<char>, st: ParseFields)
    requires
        forall|j: int| 0 <= j < line.len() ==> line[j] != '\n',
        line.len() > 0 ==> line.last() != '\r',
    ensures
        parse_lines(line + "\n"@ + rest, st) == parse_lines(rest, step(st, line)),
{
    reveal_strlit("\n");
    assert("\n"@.len() == 1 && "\n"@[0] == '\n');
    let s = line + "\n"@ + rest;
    assert forall|j: int| 0 <= j < line.len() implies s[j] != '\n' by {
        assert(s[j] == line[j]);
    }
    assert(s[line.len() as int] == '\n');
    lemma_find_char_is(s, '\n', line.len() as int);
    assert(s.take(line.len() as int) =~= line);
    assert(strip_cr(line) == line);
    assert(s.skip(line.len() as int + 1) =~= rest);
}

/// Folding over a concatenation whose first part ends at a line boundary
/// folds the parts in turn.
pub proof fn lemma_parse_lines_append(u: Seq<char>, v: Seq<char>, st: ParseFields)
    requires
        u.len() == 0 || u.last() == '\n',
    ensures
        parse_lines(u + v, st) == parse_lines(v, parse_lines(u, st)),
    decreases u.len(),
{
    if u.len() == 0 {
        assert(u + v =~= v);
    } else {
        let f = find_char(u, '\n') as int;
        lemma_find_char_props(u, '\n');
        assert(f < u.len()) by {
            if f == u.len() {
                assert(u[u.len() - 1] != '\n');
            }
        }
        let s = u + v;
        assert forall|j: int| 0 <= j < f implies s[j] != '\n' by {
            assert(s[j] == u[j]);
        }
        assert(s[f] == u[f]);
        lemma_find_char_is(s, '\n', f);
        assert(s.take(f) =~= u.take(f));
        assert(s.skip(f + 1) =~= u.skip(f + 1) + v);
        let u1 = u.skip(f + 1);
        assert(u1.len() == 0 || u1.last() == '\n') by {
            if u1.len() > 0 {
                assert(u1.last() == u.last());
            }
        }
        lemma_parse_lines_append(u1, v, step(st, strip_cr(u.take(f))));
    }
}

/// A `Hidden=true` line is sticky: every later line keeps the flag set.
pub proof fn lemma_hidden_sticky(s: Seq<char>, st: ParseFields)
    requires
        st.hidden,
    ensures
        parse_lines(s, st).hidden,
    decreases s.len(),
{
    if s.len() > 0 {
        let j = find_char(s, '\n');
        if j < s.len() {
            assert(step(st, strip_cr(s.take(j as int))).hidden);
            lemma_hidden_sticky(s.skip(j as int + 1), step(st, strip_cr(s.take(j as int))));
        } else {
            assert(step(st, s).hidden);
        }
    }
}

/// One `key=value` line inside the section, followed by the rest of the
/// file.
pub proof fn lemma_parse_kv_line(st: ParseFields, key: Seq<char>, val: Seq<char>, rest: Seq<char>)
    requires
        st.in_section,
        line_key_ok(key),
        clean_value(val),
    ensures
        parse_lines(kv(key, val) + rest, st) == parse_lines(rest, apply_key(st, key, val)),
{
    reveal_strlit("=");
    assert("="@.len() == 1 && "="@[0] == '=');
    let line = key + "="@ + val;
    assert(kv(key, val) + rest =~= line + "\n"@ + rest);
    assert forall|j: int| 0 <= j < line.len() implies line[j] != '\n' by {
        if j < key.len() {
            assert(line[j] == key[j]);
        } else if j > key.len() {
            assert(line[j] == val[j - key.len() - 1]);
        }
    }
    if val.len() > 0 {
        assert(line.last() == val.last());
        assert(!is_ws(line.last()));
    } else {
        assert(line.last() == '=');
    }
    lemma_parse_lines_cons(line, rest, st);
    lemma_step_kv(st, key, val);
}

/// The `[Desktop Entry]` header line followed by the rest of the file.
pub proof fn lemma_parse_header_line(st: ParseFields, rest: Seq<char>)
    ensures
        parse_lines("[Desktop Entry]"@ + "\n"@ + rest, st) == parse_lines(
            rest,
            ParseFields { in_section: true, ..st },
        ),
{
    reveal_strlit("[Desktop Entry]");
    let h = "[Desktop Entry]"@;
    assert(h.len() == 15);
    assert(forall|j: int| 0 <= j < h.len() ==> h[j] != '\n');
    assert(h.last() == ']');
    lemma_parse_lines_cons(h, rest, st);
    lemma_step_header(st);
}

/// A `[Desktop Entry]` block holding `Name=n` and `Exec=x` parses to an
/// enabled entry with exactly that name and command.
pub proof fn lemma_parse_basic_block(n: Seq<char>, x: Seq<char>, path: Seq<char>, dir: Seq<char>)
    requires
        clean_value(n),
        n.len() > 0,
        clean_value(x),
        x.len() > 0,
    ensures
        ({
            let c = "[Desktop Entry]"@ + "\n"@ + kv("Name"@, n) + kv("Exec"@, x);
            &&& parse_ok(c)
            &&& parsed_entry(c, path, dir).name == n
            &&& parsed_entry(c, path, dir).command == x
            &&& parsed_entry(c, path, dir).enabled
            &&& parsed_entry(c, path, dir).icon is None
            &&& parsed_entry(c, path, dir).comment is None
        }),
{
    lemma_key_facts();
    let c = "[Desktop Entry]"@ + "\n"@ + kv("Name"@, n) + kv("Exec"@, x);
    let r1 = kv("Exec"@, x);
    let r0 = kv("Name"@, n) + r1;
    assert(c =~= "[Desktop Entry]"@ + "\n"@ + r0);
    lemma_parse_header_line(init_fields(), r0);
    let st1 = ParseFields { in_section: true, ..init_fields() };
    lemma_parse_kv_line(st1, "Name"@, n, r1);
    let st2 = apply_key(st1, "Name"@, n);
    assert(r1 =~= kv("Exec"@, x) + Seq::<char>::empty());
    lemma_parse_kv_line(st2, "Exec"@, x, Seq::empty());
    let st3 = apply_key(st2, "Exec"@, x);
    assert(parsed_fields(c) == st3);
}

/// A block whose only assignment is `Name=n` fails: with a non-empty name
/// the command is reported missing, with an empty one the name is.
pub proof fn lemma_parse_block_missing_exec(n: Seq<char>)
    requires
        clean_value(n),
    ensures
        ({
            let c = "[Desktop Entry]"@ + "\n"@ + kv("Name"@, n);
            &&& !parse_ok(c)
            &&& parse_err(c) == (if n.len() == 0 {
                RepoError::MissingName
            } else {
                RepoError::MissingExec
            })
        }),
{
    lemma_key_facts();
    let c = "[Desktop Entry]"@ + "\n"@ + kv("Name"@, n);
    let r0 = kv("Name"@, n);
    assert(c =~= "[Desktop Entry]"@ + "\n"@ + r0);
    lemma_parse_header_line(init_fields(), r0);
    let st1 = ParseFields { in_section: true, ..init_fields() };
    assert(r0 =~= kv("Name"@, n) + Seq::<char>::empty());
    lemma_parse_kv_line(st1, "Name"@, n, Seq::empty());
    assert(parsed_fields(c) == apply_key(st1, "Name"@, n));
}

/// A `Hidden=true` line inside the section disables the entry, whatever
/// stands before it and whatever follows it — any later
/// `X-GNOME-Autostart-enabled` line included.
pub proof fn lemma_hidden_true_disables(u: Seq<char>, w: Seq<char>, path: Seq<char>, dir: Seq<
    char,
>)
    requires
        u.len() == 0 || u.last() == '\n',
        parse_lines(u, init_fields()).in_section,
    ensures
        !parsed_entry(u + kv("Hidden"@, "true"@) + w, path, dir).enabled,
{
    lemma_key_facts();
    let c = u + kv("Hidden"@, "true"@) + w;
    let st_u = parse_lines(u, init_fields());
    assert(c =~= u + (kv("Hidden"@, "true"@) + w));
    lemma_parse_lines_append(u, kv("Hidden"@, "true"@) + w, init_fields());
    lemma_parse_kv_line(st_u, "Hidden"@, "true"@, w);
    let st_h = apply_key(st_u, "Hidden"@, "true"@);
    assert(st_h.hidden);
    lemma_hidden_sticky(w, st_h);
}

/// In a block `Name=n`, `Exec=x`, `X-GNOME-Autostart-enabled=v` the entry is
/// enabled exactly when `v` is not `false` in any letter case; without
/// `Hidden`, no other value disables it.
pub proof fn lemma_autostart_enabled_decides(
    n: Seq<char>,
    x: Seq<char>,
    v: Seq<char>,
    path: Seq<char>,
    dir: Seq<char>,
)
    requires
        clean_value(n),
        n.len() > 0,
        clean_value(x),
        x.len() > 0,
        clean_value(v),
    ensures
        ({
            let c = "[Desktop Entry]"@ + "\n"@ + kv("Name"@, n) + kv("Exec"@, x) + kv(
                "X-GNOME-Autostart-enabled"@,
                v,
            );
            &&& parse_ok(c)
            &&& parsed_entry(c, path, dir).enabled == !eq_ignore_ascii_case(v, "false"@)
        }),
{
    lemma_key_facts();
    let c = "[Desktop Entry]"@ + "\n"@ + kv("Name"@, n) + kv("Exec"@, x) + kv(
        "X-GNOME-Autostart-enabled"@,
        v,
    );
    let r2 = kv("X-GNOME-Autostart-enabled"@, v);
    let r1 = kv("Exec"@, x) + r2;
    let r0 = kv("Name"@, n) + r1;
    assert(c =~= "[Desktop Entry]"@ + "\n"@ + r0);
    lemma_parse_header_line(init_fields(), r0);
    let st1 = ParseFields { in_section: true, ..init_fields() };
    lemma_parse_kv_line(st1, "Name"@, n, r1);
    let st2 = apply_key(st1, "Name"@, n);
    lemma_parse_kv_line(st2, "Exec"@, x, r2);
    let st3 = apply_key(st2, "Exec"@, x);
    assert(r2 =~= kv("X-GNOME-Autostart-enabled"@, v) + Seq::<char>::empty());
    lemma_parse_kv_line(st3, "X-GNOME-Autostart-enabled"@, v, Seq::empty());
    let st4 = apply_key(st3, "X-GNOME-Autostart-enabled"@, v);
    assert(parsed_fields(c) == st4);
}

/// Round trip: the text a save writes parses back to an entry with the same
/// name, command, enabled flag, icon and comment.
#[verifier::rlimit(100)]
pub proof fn lemma_save_round_trip(
    name: Seq<char>,
    command: Seq<char>,
    icon: Option<Seq<char>>,
    comment: Option<Seq<char>>,
    enabled: bool,
    path: Seq<char>,
    dir: Seq<char>,
)
    requires
        clean_value(name),
        name.len() > 0,
        clean_value(command),
        command.len() > 0,
        icon matches Some(ic) ==> clean_value(ic),
        comment matches Some(cm) ==> clean_value(cm),
    ensures
        ({
            let c = save_content_model(name, command, icon, comment, enabled);
            &&& parse_ok(c)
            &&& parsed_entry(c, path, dir).name == name
            &&& parsed_entry(c, path, dir).command == command
            &&& parsed_entry(c, path, dir).icon == icon
            &&& parsed_entry(c, path, dir).comment == comment
            &&& parsed_entry(c, path, dir).enabled == enabled
        }),
{
    lemma_key_facts();
    let c = save_content_model(name, command, icon, comment, enabled);
    let tv = if enabled {
        "true"@
    } else {
        "false"@
    };
    let ipart = match icon {
        Some(ic) => kv("Icon"@, ic),
        None => Seq::<char>::empty(),
    };
    let cpart = match comment {
        Some(cm) => kv("Comment"@, cm),
        None => Seq::<char>::empty(),
    };
    let r5 = kv("X-GNOME-Autostart-enabled"@, tv);
    let r4 = cpart + r5;
    let r3 = ipart + r4;
    let r2 = kv("Terminal"@, "false"@) + r3;
    let r1 = kv("Exec"@, command) + r2;
    let r0 = kv("Name"@, name) + r1;
    let rt = kv("Type"@, "Application"@) + r0;
    assert(c =~= "[Desktop Entry]"@ + "\n"@ + rt);
    lemma_parse_header_line(init_fields(), rt);
    let st1 = ParseFields { in_section: true, ..init_fields() };
    lemma_parse_kv_line(st1, "Type"@, "Application"@, r0);
    assert(apply_key(st1, "Type"@, "Application"@) == st1);
    lemma_parse_kv_line(st1, "Name"@, name, r1);
    let st2 = apply_key(st1, "Name"@, name);
    lemma_parse_kv_line(st2, "Exec"@, command, r2);
    let st3 = apply_key(st2, "Exec"@, command);
    lemma_parse_kv_line(st3, "Terminal"@, "false"@, r3);
    assert(apply_key(st3, "Terminal"@, "false"@) == st3);
    let st4 = match icon {
        Some(ic) => apply_key(st3, "Icon"@, ic),
        None => st3,
    };
    match icon {
        Some(ic) => {
            assert(r3 =~= kv("Icon"@, ic) + r4);
            lemma_parse_kv_line(st3, "Icon"@, ic, r4);
        },
        None => {
            assert(r3 =~= r4);
        },
    }
    assert(parse_lines(r3, st3) == parse_lines(r4, st4));
    let st5 = match comment {
        Some(cm) => apply_key(st4, "Comment"@, cm),
        None => st4,
    };
    match comment {
        Some(cm) => {
            assert(r4 =~= kv("Comment"@, cm) + r5);
            lemma_parse_kv_line(st4, "Comment"@, cm, r5);
        },
        None => {
            assert(r4 =~= r5);
        },
    }
    assert(parse_lines(r4, st4) == parse_lines(r5, st5));
    assert(r5 =~= kv("X-GNOME-Autostart-enabled"@, tv) + Seq::<char>::empty());
    lemma_parse_kv_line(st5, "X-GNOME-Autostart-enabled"@, tv, Seq::empty());
    let st6 = apply_key(st5, "X-GNOME-Autostart-enabled"@, tv);
    assert(parsed_fields(c) == st6);
    assert(st6.name == Some(name));
    assert(st6.command == Some(command));
    assert(st6.icon == icon);
    assert(st6.comment == comment);
    assert(st6.enabled_key == enabled);
    assert(!st6.hidden);
}

/// The override a delete writes for a system entry parses back as the same
/// entry, disabled: it shadows the original rather than removing it.
pub proof fn lemma_override_parses_disabled(
    name: Seq<char>,
    command: Seq<char>,
    path: Seq<char>,
    dir: Seq<char>,
)
    requires
        clean_value(name),
        name.len() > 0,
        clean_value(command),
        command.len() > 0,
    ensures
        ({
            let c = hidden_content_model(name, command);
            &&& parse_ok(c)
            &&& parsed_entry(c, path, dir).name == name
            &&& parsed_entry(c, path, dir).command == command
            &&& !parsed_entry(c, path, dir).enabled
        }),
{
    lemma_key_facts();
    let c = hidden_content_model(name, command);
    let r3 = kv("Hidden"@, "true"@);
    let r2 = kv("Exec"@, command) + r3;
    let r1 = kv("Name"@, name) + r2;
    let r0 = kv("Type"@, "Application"@) + r1;
    assert(c =~= "[Desktop Entry]"@ + "\n"@ + r0);
    lemma_parse_header_line(init_fields(), r0);
    let st1 = ParseFields { in_section: true, ..init_fields() };
    lemma_parse_kv_line(st1, "Type"@, "Application"@, r1);
    assert(apply_key(st1, "Type"@, "Application"@) == st1);
    lemma_parse_kv_line(st1, "Name"@, name, r2);
    let st2 = apply_key(st1, "Name"@, name);
    lemma_parse_kv_line(st2, "Exec"@, command, r3);
    let st3 = apply_key(st2, "Exec"@, command);
    assert(r3 =~= kv("Hidden"@, "true"@) + Seq::<char>::empty());
    lemma_parse_kv_line(st3, "Hidden"@, "true"@, Seq::empty());
    let st4 = apply_key(st3, "Hidden"@, "true"@);
    assert(parsed_fields(c) == st4);
    assert(st4.hidden);
}

/// Whether this file contributes an entry named `n`.
pub open spec fn yields_name(f: ScannedFile, dir: Seq<char>, n: Seq<char>) -> bool {
    file_model(f, dir) matches Some(w) && w.name == n
}

/// `v` is the contribution of file `i`, the first file claiming its name,
/// and that name was not already seen.
pub open spec fn first_contribution(
    files: Seq<ScannedFile>,
    dir: Seq<char>,
    seen: Set<Seq<char>>,
    v: EntryModel,
    i: int,
) -> bool {
    &&& 0 <= i < files.len()
    &&& file_model(files[i], dir) == Some(v)
    &&& !seen.contains(v.name)
    &&& forall|j: int| 0 <= j < i ==> !yields_name(files[j], dir, v.name)
}

/// The scan emits exactly the first contribution of each unseen name.
pub proof fn lemma_scan_contains(
    files: Seq<ScannedFile>,
    dir: Seq<char>,
    seen: Set<Seq<char>>,
    v: EntryModel,
)
    ensures
        scan_spec(files, dir, seen).contains(v) <==> exists|i: int|
            first_contribution(files, dir, seen, v, i),
    decreases files.len(),
{
    if files.len() == 0 {
        assert(!scan_spec(files, dir, seen).contains(v));
        assert(!exists|i: int| first_contribution(files, dir, seen, v, i));
    } else {
        let rest = files.drop_first();
        match file_model(files[0], dir) {
            None => {
                lemma_scan_contains(rest, dir, seen, v);
                if scan_spec(files, dir, seen).contains(v) {
                    let i = choose|i: int| first_contribution(rest, dir, seen, v, i);
                    assert(files[i + 1] == rest[i]);
                    assert forall|j: int| 0 <= j < i + 1 implies !yields_name(
                        files[j],
                        dir,
                        v.name,
                    ) by {
                        if j > 0 {
                            assert(files[j] == rest[j - 1]);
                        }
                    }
                    assert(first_contribution(files, dir, seen, v, i + 1));
                }
                if exists|i: int| first_contribution(files, dir, seen, v, i) {
                    let i = choose|i: int| first_contribution(files, dir, seen, v, i);
                    assert(i > 0);
                    assert forall|j: int| 0 <= j < i - 1 implies !yields_name(
                        rest[j],
                        dir,
                        v.name,
                    ) by {
                        assert(rest[j] == files[j + 1]);
                    }
                    assert(first_contribution(rest, dir, seen, v, i - 1));
                }
            },
            Some(w) => {
                if seen.contains(w.name) {
                    lemma_scan_contains(rest, dir, seen, v);
                    if v.name == w.name {
                        assert(!scan_spec(files, dir, seen).contains(v)) by {
                            if scan_spec(rest, dir, seen).contains(v) {
                                let i = choose|i: int|
                                    first_contribution(rest, dir, seen, v, i);
                                assert(!seen.contains(v.name));
                            }
                        }
                        assert(!exists|i: int| first_contribution(files, dir, seen, v, i)) by {
                            if exists|i: int| first_contribution(files, dir, seen, v, i) {
                                let i = choose|i: int|
                                    first_contribution(files, dir, seen, v, i);
                                assert(!seen.contains(v.name));
                            }
                        }
                    } else {
                        if scan_spec(files, dir, seen).contains(v) {
                            let i = choose|i: int| first_contribution(rest, dir, seen, v, i);
                            assert(files[i + 1] == rest[i]);
                            assert forall|j: int| 0 <= j < i + 1 implies !yields_name(
                                files[j],
                                dir,
                                v.name,
                            ) by {
                                if j > 0 {
                                    assert(files[j] == rest[j - 1]);
                                }
                            }
                            assert(first_contribution(files, dir, seen, v, i + 1));
                        }
                        if exists|i: int| first_contribution(files, dir, seen, v, i) {
                            let i = choose|i: int| first_contribution(files, dir, seen, v, i);
                            assert(i > 0) by {
                                if i == 0 {
                                    assert(file_model(files[0], dir) == Some(v));
                                }
                            }
                            assert forall|j: int| 0 <= j < i - 1 implies !yields_name(
                                rest[j],
                                dir,
                                v.name,
                            ) by {
                                assert(rest[j] == files[j + 1]);
                            }
                            assert(first_contribution(rest, dir, seen, v, i - 1));
                        }
                    }
                } else {
                    let seen1 = seen.insert(w.name);
                    let t = scan_spec(rest, dir, seen1);
                    lemma_scan_contains(rest, dir, seen1, v);
                    assert(scan_spec(files, dir, seen) == seq![w] + t);
                    assert((seq![w] + t).contains(v) <==> v == w || t.contains(v)) by {
                        if (seq![w] + t).contains(v) {
                            let k = choose|k: int|
                                0 <= k < (seq![w] + t).len() && (seq![w] + t)[k] == v;
                            if k > 0 {
                                assert(t[k - 1] == v);
                            }
                        }
                        if t.contains(v) {
                            let k = choose|k: int| 0 <= k < t.len() && t[k] == v;
                            assert((seq![w] + t)[k + 1] == v);
                        }
                        assert((seq![w] + t)[0] == w);
                    }
                    if v == w {
                        assert(first_contribution(files, dir, seen, v, 0));
                    } else if v.name == w.name {
                        assert(!t.contains(v)) by {
                            if t.contains(v) {
                                let i = choose|i: int|
                                    first_contribution(rest, dir, seen1, v, i);
                                assert(seen1.contains(v.name));
                            }
                        }
                        assert(!exists|i: int| first_contribution(files, dir, seen, v, i)) by {
                            if exists|i: int| first_contribution(files, dir, seen, v, i) {
                                let i = choose|i: int|
                                    first_contribution(files, dir, seen, v, i);
                                if i == 0 {
                                    assert(file_model(files[0], dir) == Some(v));
                                } else {
                                    assert(yields_name(files[0], dir, v.name));
                                }
                            }
                        }
                    } else {
                        if t.contains(v) {
                            let i = choose|i: int| first_contribution(rest, dir, seen1, v, i);
                            assert(files[i + 1] == rest[i]);
                            assert forall|j: int| 0 <= j < i + 1 implies !yields_name(
                                files[j],
                                dir,
                                v.name,
                            ) by {
                                if j > 0 {
                                    assert(files[j] == rest[j - 1]);
                                }
                            }
                            assert(first_contribution(files, dir, seen, v, i + 1));
                        }
                        if exists|i: int| first_contribution(files, dir, seen, v, i) {
                            let i = choose|i: int| first_contribution(files, dir, seen, v, i);
                            assert(i > 0) by {
                                if i == 0 {
                                    assert(file_model(files[0], dir) == Some(v));
                                }
                            }
                            assert forall|j: int| 0 <= j < i - 1 implies !yields_name(
                                rest[j],
                                dir,
                                v.name,
                            ) by {
                                assert(rest[j] == files[j + 1]);
                            }
                            assert(!seen1.contains(v.name));
                            assert(first_contribution(rest, dir, seen1, v, i - 1));
                            assert(t.contains(v));
                        }
                    }
                }
            },
        }
    }
}

/// Every entry the scan emits is well formed: a non-empty name and command.
pub proof fn lemma_scan_wf(files: Seq<ScannedFile>, dir: Seq<char>, seen: Set<Seq<char>>)
    ensures
        forall|v: EntryModel| #[trigger] scan_spec(files, dir, seen).contains(v) ==> entry_wf(v),
    decreases files.len(),
{
    if files.len() > 0 {
        let rest = files.drop_first();
        match file_model(files[0], dir) {
            None => {
                lemma_scan_wf(rest, dir, seen);
                assert(scan_spec(files, dir, seen) == scan_spec(rest, dir, seen));
                assert forall|v: EntryModel| #[trigger] scan_spec(files, dir, seen).contains(
                    v,
                ) implies entry_wf(v) by {
                    assert(scan_spec(rest, dir, seen).contains(v));
                }
            },
            Some(w) => {
                if seen.contains(w.name) {
                    lemma_scan_wf(rest, dir, seen);
                    assert(scan_spec(files, dir, seen) == scan_spec(rest, dir, seen));
                    assert forall|v: EntryModel| #[trigger] scan_spec(files, dir, seen).contains(
                        v,
                    ) implies entry_wf(v) by {
                        assert(scan_spec(rest, dir, seen).contains(v));
                    }
                } else {
                    let t = scan_spec(rest, dir, seen.insert(w.name));
                    lemma_scan_wf(rest, dir, seen.insert(w.name));
                    assert(entry_wf(w));
                    assert(scan_spec(files, dir, seen) == seq![w] + t);
                    assert forall|v: EntryModel| #[trigger] scan_spec(files, dir, seen).contains(
                        v,
                    ) implies entry_wf(v) by {
                        let s = seq![w] + t;
                        let k = choose|k: int| 0 <= k < s.len() && s[k] == v;
                        if k > 0 {
                            assert(t[k - 1] == v);
                            assert(t.contains(v));
                        } else {
                            assert(s[0] == w);
                        }
                    }
                }
            },
        }
    }
}

/// Merge precedence: when the first user file claiming a name contributes an
/// entry, the merged list holds that entry, and no other entry of that name.
pub proof fn lemma_user_precedence(
    user: Seq<ScannedFile>,
    system: Seq<ScannedFile>,
    dir: Seq<char>,
    i: int,
)
    requires
        0 <= i < user.len(),
        file_model(user[i], dir) is Some,
        forall|j: int| 0 <= j < i ==> !yields_name(user[j], dir, file_model(user[i], dir)->0.name),
    ensures
        ({
            let v = file_model(user[i], dir)->0;
            let m = merged_models(user, system, dir);
            &&& m.contains(v)
            &&& forall|w: EntryModel| m.contains(w) && w.name == v.name ==> w == v
        }),
{
    let v = file_model(user[i], dir)->0;
    let all = user + system;
    let m = merged_models(user, system, dir);
    lemma_scan_contains(all, dir, Set::empty(), v);
    assert(all[i] == user[i]);
    assert forall|j: int| 0 <= j < i implies !yields_name(all[j], dir, v.name) by {
        assert(all[j] == user[j]);
    }
    assert(first_contribution(all, dir, Set::empty(), v, i));
    assert(m.contains(v));
    assert forall|w: EntryModel| m.contains(w) && w.name == v.name implies w == v by {
        lemma_scan_contains(all, dir, Set::empty(), w, );
        let k = choose|k: int| first_contribution(all, dir, Set::empty(), w, k);
        if k < i {
            assert(all[k] == user[k]);
            assert(yields_name(user[k], dir, v.name));
        } else if k > i {
            assert(yields_name(all[i], dir, w.name));
        } else {
            assert(file_model(all[i], dir) == Some(w));
        }
    }
}

} // verus!
