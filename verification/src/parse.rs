//! The `.desktop` file parser: a line-by-line scan of the `[Desktop Entry]`
//! section that extracts the four known keys and the two flags deciding
//! whether the entry is enabled.
//!
//! The scan is modelled as a left fold of [`step`] over the lines of the
//! file, and the executable parser is proved to compute exactly that fold.

use vstd::prelude::*;
use vstd::string::StrSliceExecFns;
use vstd::string::StringExecFns;

use crate::entry::entry_wf;
use crate::entry::AutostartEntry;
use crate::entry::EntryModel;
use crate::entry::RepoError;
use crate::text::chars_of_str;
use crate::text::eq_ignore_ascii_case;
use crate::text::find_char;
use crate::text::is_ws;
use crate::text::is_ws_char;
use crate::text::lemma_find_char_is;
use crate::text::lemma_trim_end_take;
use crate::text::lemma_trim_start_skip;
use crate::text::string_of_chars;
use crate::text::trim;
use crate::text::vec_eq_ignore_case;
use crate::text::vec_eq_str;

verus! {

/// The parser's accumulated knowledge after some prefix of the lines.
#[verifier::ext_equal]
pub struct ParseFields {
    pub name: Option<Seq<char>>,
    pub command: Option<Seq<char>>,
    pub icon: Option<Seq<char>>,
    pub comment: Option<Seq<char>>,
    /// The last `X-GNOME-Autostart-enabled` value seen was not `false`.
    pub enabled_key: bool,
    /// Some `Hidden` line with value `true` has been seen; never reset.
    pub hidden: bool,
    /// The scan currently stands inside a `[Desktop Entry]` section.
    pub in_section: bool,
}

pub open spec fn init_fields() -> ParseFields {
    ParseFields {
        name: None,
        command: None,
        icon: None,
        comment: None,
        enabled_key: true,
        hidden: false,
        in_section: false,
    }
}

/// Effect of one `key=value` assignment found inside the section.
pub open spec fn apply_key(st: ParseFields, key: Seq<char>, val: Seq<char>) -> ParseFields {
    if key == "Name"@ {
        ParseFields { name: Some(val), ..st }
    } else if key == "Exec"@ {
        ParseFields { command: Some(val), ..st }
    } else if key == "Icon"@ {
        ParseFields { icon: Some(val), ..st }
    } else if key == "Comment"@ {
        ParseFields { comment: Some(val), ..st }
    } else if key == "X-GNOME-Autostart-enabled"@ {
        ParseFields { enabled_key: !eq_ignore_ascii_case(val, "false"@), ..st }
    } else if key == "Hidden"@ {
        if eq_ignore_ascii_case(val, "true"@) {
            ParseFields { hidden: true, ..st }
        } else {
            st
        }
    } else {
        st
    }
}

/// Effect of one line on the scan state: section headers switch the section
/// flag, blanks, comments and anything outside the section are skipped, and
/// `key=value` lines (split at the first `=`, both sides trimmed) go to
/// [`apply_key`].
pub open spec fn step(st: ParseFields, line: Seq<char>) -> ParseFields {
    let t = trim(line);
    if t.len() > 0 && t[0] == '[' {
        ParseFields { in_section: t == "[Desktop Entry]"@, ..st }
    } else if !st.in_section || t.len() == 0 || t[0] == '#' {
        st
    } else if find_char(t, '=') < t.len() {
        let e = find_char(t, '=') as int;
        apply_key(st, trim(t.take(e)), trim(t.skip(e + 1)))
    } else {
        st
    }
}

/// Removes the `\r` of a `\r\n` line ending, as `str::lines` does.
pub open spec fn strip_cr(l: Seq<char>) -> Seq<char> {
    if l.len() > 0 && l.last() == '\r' {
        l.drop_last()
    } else {
        l
    }
}

/// The fold of [`step`] over the lines of `s`, split at `\n`. A final
/// segment without a newline keeps any trailing `\r`, as `str::lines`
/// keeps it.
pub open spec fn parse_lines(s: Seq<char>, st: ParseFields) -> ParseFields
    decreases s.len(),
{
    if s.len() == 0 {
        st
    } else {
        let j = find_char(s, '\n');
        if j < s.len() {
            parse_lines(s.skip(j as int + 1), step(st, strip_cr(s.take(j as int))))
        } else {
            step(st, s)
        }
    }
}

/// What a whole file parses to.
pub open spec fn parsed_fields(content: Seq<char>) -> ParseFields {
    parse_lines(content, init_fields())
}

/// A required field was assigned a non-empty value.
pub open spec fn field_usable(o: Option<Seq<char>>) -> bool {
    match o {
        Some(s) => s.len() > 0,
        None => false,
    }
}

/// Parsing succeeds exactly when both `Name` and `Exec` carry non-empty
/// values.
pub open spec fn parse_ok(content: Seq<char>) -> bool {
    field_usable(parsed_fields(content).name) && field_usable(parsed_fields(content).command)
}

/// The error reported on failure; a missing name is reported first.
pub open spec fn parse_err(content: Seq<char>) -> RepoError {
    if !field_usable(parsed_fields(content).name) {
        RepoError::MissingName
    } else {
        RepoError::MissingExec
    }
}

/// Whether `path` names something strictly inside the directory `dir`
/// (given without a trailing slash): a path-prefix comparison, not a
/// substring search.
pub open spec fn is_under_dir(path: Seq<char>, dir: Seq<char>) -> bool {
    path.len() > dir.len() && path.take(dir.len() as int) == dir && path[dir.len() as int] == '/'
}

/// The entry a successful parse yields. `enabled` holds unless the last
/// `X-GNOME-Autostart-enabled` value was `false` or any `Hidden=true` line
/// appeared; `Hidden=true` wins over everything.
pub open spec fn parsed_entry(content: Seq<char>, path: Seq<char>, user_dir: Seq<char>)
    -> EntryModel {
    let st = parsed_fields(content);
    EntryModel {
        name: match st.name {
            Some(n) => n,
            None => Seq::empty(),
        },
        command: match st.command {
            Some(x) => x,
            None => Seq::empty(),
        },
        icon: st.icon,
        comment: st.comment,
        enabled: st.enabled_key && !st.hidden,
        file_path: path,
        is_user_entry: is_under_dir(path, user_dir),
    }
}

/// Runtime twin of [`ParseFields`].
struct ParseAcc {
    name: Option<String>,
    command: Option<String>,
    icon: Option<String>,
    comment: Option<String>,
    enabled_key: bool,
    hidden: bool,
    in_section: bool,
}

pub open spec fn opt_str_view(o: Option<String>) -> Option<Seq<char>> {
    match o {
        Some(s) => Some(s@),
        None => None,
    }
}

impl View for ParseAcc {
    type V = ParseFields;

    closed spec fn view(&self) -> ParseFields {
        ParseFields {
            name: opt_str_view(self.name),
            command: opt_str_view(self.command),
            icon: opt_str_view(self.icon),
            comment: opt_str_view(self.comment),
            enabled_key: self.enabled_key,
            hidden: self.hidden,
            in_section: self.in_section,
        }
    }
}

/// The characters `v[a..b]`, as a fresh vector.
pub fn subvec(v: &Vec<char>, a: usize, b: usize) -> (r: Vec<char>)
    requires
        a <= b <= v@.len(),
    ensures
        r@ == v@.subrange(a as int, b as int),
{
    let mut r: Vec<char> = Vec::new();
    let mut i: usize = a;
    while i < b
        invariant
            a <= i <= b <= v@.len(),
            r@ == v@.subrange(a as int, i as int),
        decreases b - i,
    {
        r.push(v[i]);
        assert(r@ =~= v@.subrange(a as int, i + 1));
        i = i + 1;
    }
    r
}

/// Trims whitespace from both ends, computing [`trim`].
pub fn trim_vec(v: &Vec<char>) -> (r: Vec<char>)
    ensures
        r@ == trim(v@),
{
    let mut a: usize = 0;
    while a < v.len() && is_ws_char(v[a])
        invariant
            a <= v@.len(),
            forall|j: int| 0 <= j < a ==> is_ws(v@[j]),
        decreases v@.len() - a,
    {
        a = a + 1;
    }
    let mut b: usize = v.len();
    while b > a && is_ws_char(v[b - 1])
        invariant
            a <= b <= v@.len(),
            forall|j: int| b <= j < v@.len() ==> is_ws(v@[j]),
        decreases b,
    {
        b = b - 1;
    }
    let r = subvec(v, a, b);
    proof {
        lemma_trim_start_skip(v@, a as int);
        lemma_trim_end_take(v@.skip(a as int), b - a);
        assert(v@.skip(a as int).take(b - a) =~= v@.subrange(a as int, b as int));
    }
    r
}

/// Applies one line to the accumulator, computing [`step`].
fn step_exec(acc: &mut ParseAcc, line: &Vec<char>)
    ensures
        final(acc)@ == step(old(acc)@, line@),
{
    let t = trim_vec(line);
    if t.len() > 0 && t[0] == '[' {
        acc.in_section = vec_eq_str(&t, "[Desktop Entry]");
        assert(acc@ =~= step(old(acc)@, line@));
        return ;
    }
    if !acc.in_section || t.len() == 0 || t[0] == '#' {
        assert(acc@ =~= step(old(acc)@, line@));
        return ;
    }
    let mut j: usize = 0;
    while j < t.len() && t[j] != '='
        invariant
            j <= t@.len(),
            forall|k: int| 0 <= k < j ==> t@[k] != '=',
        decreases t@.len() - j,
    {
        j = j + 1;
    }
    proof {
        lemma_find_char_is(t@, '=', j as int);
    }
    if j == t.len() {
        assert(acc@ =~= step(old(acc)@, line@));
        return ;
    }
    let key = trim_vec(&subvec(&t, 0, j));
    let val = trim_vec(&subvec(&t, j + 1, t.len()));
    proof {
        assert(t@.subrange(0, j as int) =~= t@.take(j as int));
        assert(t@.subrange(j + 1, t@.len() as int) =~= t@.skip(j + 1));
    }
    if vec_eq_str(&key, "Name") {
        acc.name = Some(string_of_chars(&val));
    } else if vec_eq_str(&key, "Exec") {
        acc.command = Some(string_of_chars(&val));
    } else if vec_eq_str(&key, "Icon") {
        acc.icon = Some(string_of_chars(&val));
    } else if vec_eq_str(&key, "Comment") {
        acc.comment = Some(string_of_chars(&val));
    } else if vec_eq_str(&key, "X-GNOME-Autostart-enabled") {
        acc.enabled_key = !vec_eq_ignore_case(&val, "false");
    } else if vec_eq_str(&key, "Hidden") {
        if vec_eq_ignore_case(&val, "true") {
            acc.hidden = true;
        }
    }
    assert(acc@ =~= step(old(acc)@, line@));
}

/// Whether `path` lies strictly under `dir`, by path-prefix comparison.
pub fn path_is_under_dir(path: &str, dir: &str) -> (r: bool)
    ensures
        r == is_under_dir(path@, dir@),
{
    let p = chars_of_str(path);
    let d = chars_of_str(dir);
    if p.len() <= d.len() {
        return false;
    }
    let mut i: usize = 0;
    while i < d.len()
        invariant
            i <= d@.len() < p@.len(),
            p@ == path@,
            d@ == dir@,
            forall|j: int| 0 <= j < i ==> p@[j] == d@[j],
        decreases d@.len() - i,
    {
        if p[i] != d[i] {
            assert(path@.take(dir@.len() as int)[i as int] != dir@[i as int]);
            return false;
        }
        i = i + 1;
    }
    assert(path@.take(dir@.len() as int) =~= dir@);
    p[d.len()] == '/'
}

/// Parses the text of one `.desktop` file.
///
/// `path` is the file's own absolute path and `user_autostart_dir` the
/// per-user autostart directory (no trailing slash); the latter only decides
/// the `is_user_entry` flag. Fails, reporting the name first, when `Name` or
/// `Exec` is absent or empty.
pub fn parse(content: &str, path: &str, user_autostart_dir: &str) -> (r: Result<
    AutostartEntry,
    RepoError,
>)
    ensures
        r is Ok <==> parse_ok(content@),
        (match r {
            Ok(e) => e@ == parsed_entry(content@, path@, user_autostart_dir@) && entry_wf(e@),
            Err(er) => er == parse_err(content@),
        }),
{
    let cs = chars_of_str(content);
    let n = cs.len();
    let mut acc = ParseAcc {
        name: None,
        command: None,
        icon: None,
        comment: None,
        enabled_key: true,
        hidden: false,
        in_section: false,
    };
    proof {
        assert(acc@ =~= init_fields());
        assert(cs@.skip(0) =~= content@);
    }
    let mut i: usize = 0;
    while i < n
        invariant
            i <= n,
            n == cs@.len(),
            cs@ == content@,
            parse_lines(content@, init_fields()) == parse_lines(cs@.skip(i as int), acc@),
        decreases n - i,
    {
        let ghost acc0 = acc@;
        let ghost s = cs@.skip(i as int);
        let mut j: usize = i;
        while j < n && cs[j] != '\n'
            invariant
                i <= j <= n,
                n == cs@.len(),
                forall|k: int| i <= k < j ==> cs@[k] != '\n',
            decreases n - j,
        {
            j = j + 1;
        }
        proof {
            assert forall|k: int| 0 <= k < j - i implies s[k] != '\n' by {
                assert(s[k] == cs@[i + k]);
            }
            lemma_find_char_is(s, '\n', j - i);
        }
        let mut line = subvec(&cs, i, j);
        if j < n {
            if line.len() > 0 && line[line.len() - 1] == '\r' {
                line.pop();
            }
            proof {
                assert(line@ =~= strip_cr(s.take(j - i)));
            }
        } else {
            proof {
                assert(line@ =~= s);
            }
        }
        step_exec(&mut acc, &line);
        if j < n {
            proof {
                assert(s.skip(j - i + 1) =~= cs@.skip(j + 1));
                assert(parse_lines(s, acc0) == parse_lines(cs@.skip(j + 1), acc@));
            }
            i = j + 1;
        } else {
            proof {
                assert(parse_lines(s, acc0) == acc@);
                assert(cs@.skip(n as int) =~= Seq::<char>::empty());
            }
            i = n;
        }
    }
    proof {
        assert(cs@.skip(n as int) =~= Seq::<char>::empty());
        assert(acc@ == parsed_fields(content@));
    }
    let name = match acc.name {
        Some(s) => s,
        None => {
            return Err(RepoError::MissingName);
        },
    };
    if name.as_str().is_empty() {
        return Err(RepoError::MissingName);
    }
    let command = match acc.command {
        Some(s) => s,
        None => {
            return Err(RepoError::MissingExec);
        },
    };
    if command.as_str().is_empty() {
        return Err(RepoError::MissingExec);
    }
    let is_user = path_is_under_dir(path, user_autostart_dir);
    let e = AutostartEntry {
        name,
        command,
        icon: acc.icon,
        comment: acc.comment,
        enabled: acc.enabled_key && !acc.hidden,
        file_path: String::from_str(path),
        is_user_entry: is_user,
    };
    assert(e@ =~= parsed_entry(content@, path@, user_autostart_dir@));
    Ok(e)
}

} // verus!
