//! Naming a brand-new entry: the display name is lowercased, spaces become
//! hyphens, everything that is neither alphanumeric nor a hyphen is dropped,
//! and `.desktop` is appended; the result is the filename of the new file in
//! the user autostart directory.

use vstd::prelude::*;
use vstd::string::StrSliceExecFns;
use vstd::string::StringExecFns;

use crate::entry::AutostartEntry;
use crate::text::chars_of_str;
use crate::text::string_of_chars;

verus! {

/// What `str::to_lowercase` returns: a function of the characters alone.
pub uninterp spec fn lower_of(s: Seq<char>) -> Seq<char>;

/// Whether `char::is_alphanumeric` accepts the character.
pub uninterp spec fn unicode_alnum(c: char) -> bool;

/// Relies on `str::to_lowercase`: the Unicode lowercase of the string,
/// a function of its characters alone.
#[verifier::external_body]
fn lowercase(s: &str) -> (r: String)
    ensures
        r@ == lower_of(s@),
{
    s.to_lowercase()
}

/// Relies on `char::is_alphanumeric`: whether the character is in one of the
/// Unicode letter or number categories, a function of the character alone.
#[verifier::external_body]
fn char_is_alphanumeric(c: char) -> (r: bool)
    ensures
        r == unicode_alnum(c),
{
    c.is_alphanumeric()
}

/// Spaces become hyphens; characters that are then neither alphanumeric nor
/// a hyphen are dropped.
pub open spec fn sanitized(s: Seq<char>) -> Seq<char>
    decreases s.len(),
{
    if s.len() == 0 {
        Seq::empty()
    } else {
        let c = if s[0] == ' ' {
            '-'
        } else {
            s[0]
        };
        let rest = sanitized(s.drop_first());
        if unicode_alnum(c) || c == '-' {
            seq![c] + rest
        } else {
            rest
        }
    }
}

/// The filename derived from a display name.
pub open spec fn filename_for(name: Seq<char>) -> Seq<char> {
    sanitized(lower_of(name)) + ".desktop"@
}

pub proof fn lemma_sanitized_snoc(s: Seq<char>, c: char)
    ensures
        sanitized(s.push(c)) == sanitized(s) + sanitized(seq![c]),
    decreases s.len(),
{
    if s.len() == 0 {
        assert(s.push(c) =~= seq![c]);
        assert(sanitized(s) =~= Seq::<char>::empty());
        assert(Seq::<char>::empty() + sanitized(seq![c]) =~= sanitized(seq![c]));
    } else {
        assert(s.push(c).drop_first() =~= s.drop_first().push(c));
        lemma_sanitized_snoc(s.drop_first(), c);
        let h = if s[0] == ' ' {
            '-'
        } else {
            s[0]
        };
        if unicode_alnum(h) || h == '-' {
            assert(seq![h] + (sanitized(s.drop_first()) + sanitized(seq![c])) =~= (seq![h]
                + sanitized(s.drop_first())) + sanitized(seq![c]));
        }
    }
}

/// Derives the filename for a new entry from its display name: lowercase,
/// spaces to hyphens, only alphanumerics and hyphens kept, `.desktop`
/// appended.
pub fn derive_filename(name: &str) -> (r: String)
    ensures
        r@ == filename_for(name@),
{
    let low = lowercase(name);
    let lv = chars_of_str(low.as_str());
    let mut out: Vec<char> = Vec::new();
    let mut i: usize = 0;
    while i < lv.len()
        invariant
            i <= lv@.len(),
            lv@ == lower_of(name@),
            out@ == sanitized(lv@.take(i as int)),
        decreases lv@.len() - i,
    {
        let c = if lv[i] == ' ' {
            '-'
        } else {
            lv[i]
        };
        if char_is_alphanumeric(c) || c == '-' {
            out.push(c);
        }
        proof {
            lemma_sanitized_snoc(lv@.take(i as int), lv@[i as int]);
            assert(lv@.take(i as int).push(lv@[i as int]) =~= lv@.take(i + 1));
            assert(seq![lv@[i as int]].drop_first() =~= Seq::<char>::empty());
            assert(sanitized(Seq::<char>::empty()) =~= Seq::<char>::empty());
            assert(seq![c] + Seq::<char>::empty() =~= seq![c]);
            if unicode_alnum(c) || c == '-' {
                assert(sanitized(seq![lv@[i as int]]) =~= seq![c]);
                assert(out@ =~= sanitized(lv@.take(i as int)) + seq![c]);
            } else {
                assert(sanitized(seq![lv@[i as int]]) =~= Seq::<char>::empty());
                assert(out@ =~= sanitized(lv@.take(i as int)) + Seq::<char>::empty());
            }
        }
        i = i + 1;
    }
    proof {
        assert(lv@.take(lv@.len() as int) =~= lv@);
    }
    let mut r = string_of_chars(&out);
    r.append(".desktop");
    r
}

/// Builds a brand-new, enabled user entry from a display name and a command:
/// its backing path lies in the user autostart directory under the derived
/// filename. Saving it creates the file.
pub fn new_entry(name: String, command: String, user_autostart_dir: &str) -> (e: AutostartEntry)
    ensures
        e@.name == name@,
        e@.command == command@,
        e@.icon is None,
        e@.comment is None,
        e@.enabled,
        e@.is_user_entry,
        e@.file_path == user_autostart_dir@ + "/"@ + filename_for(name@),
{
    let fname = derive_filename(name.as_str());
    let mut path = String::new();
    path.append(user_autostart_dir);
    path.append("/");
    path.append(fname.as_str());
    assert(path@ =~= user_autostart_dir@ + "/"@ + filename_for(name@));
    AutostartEntry {
        name,
        command,
        icon: None,
        comment: None,
        enabled: true,
        file_path: path,
        is_user_entry: true,
    }
}

} // verus!
