//! Discovery and merge: turning the files scanned from the autostart
//! directories into one deduplicated list, ordered by entry name, with
//! earlier directories taking precedence over later ones keyed on the
//! entry's `Name`.

use vstd::prelude::*;

use crate::entry::AutostartEntry;
use crate::entry::EntryModel;
use crate::parse::parse;
use crate::parse::parse_ok;
use crate::parse::parsed_entry;
use crate::paths::has_desktop_ext;
use crate::paths::has_desktop_extension;
use crate::text::chars_of_str;
use crate::text::chars_le;
use crate::text::lemma_str_le_total;
use crate::text::lemma_str_le_trans;
use crate::text::str_le;

verus! {

/// One file handed in by the caller: its absolute path and its full text.
pub struct ScannedFile {
    pub path: String,
    pub content: String,
}

/// The entry a scanned file contributes, if any: it must carry the
/// `.desktop` extension and parse successfully; everything else is skipped
/// silently.
pub open spec fn file_model(f: ScannedFile, user_dir: Seq<char>) -> Option<EntryModel> {
    if has_desktop_ext(f.path@) && parse_ok(f.content@) {
        Some(parsed_entry(f.content@, f.path@, user_dir))
    } else {
        None
    }
}

/// The entries contributed by `files` in order, keeping only the first
/// contribution per name: `seen` holds the names claimed by earlier files.
pub open spec fn scan_spec(
    files: Seq<ScannedFile>,
    user_dir: Seq<char>,
    seen: Set<Seq<char>>,
) -> Seq<EntryModel>
    decreases files.len(),
{
    if files.len() == 0 {
        Seq::empty()
    } else {
        match file_model(files[0], user_dir) {
            Some(v) => if seen.contains(v.name) {
                scan_spec(files.drop_first(), user_dir, seen)
            } else {
                seq![v] + scan_spec(files.drop_first(), user_dir, seen.insert(v.name))
            },
            None => scan_spec(files.drop_first(), user_dir, seen),
        }
    }
}

/// What `load_all` must return, as an unordered collection: user files
/// first, then the system files, first contribution per name wins.
pub open spec fn merged_models(
    user: Seq<ScannedFile>,
    system: Seq<ScannedFile>,
    user_dir: Seq<char>,
) -> Seq<EntryModel> {
    scan_spec(user + system, user_dir, Set::empty())
}

/// The models of a sequence of entries.
pub open spec fn models(s: Seq<AutostartEntry>) -> Seq<EntryModel> {
    s.map_values(|e: AutostartEntry| e@)
}

/// The names occurring in a sequence of entry models.
pub open spec fn name_set(s: Seq<EntryModel>) -> Set<Seq<char>> {
    Set::new(|n: Seq<char>| exists|i: int| 0 <= i < s.len() && s[i].name == n)
}

/// Non-decreasing by name under ordinary string ordering.
pub open spec fn sorted_by_name(s: Seq<EntryModel>) -> bool {
    forall|i: int, j: int| 0 <= i < j < s.len() ==> str_le(s[i].name, s[j].name)
}

/// No two entries share a name.
pub open spec fn distinct_names(s: Seq<EntryModel>) -> bool {
    forall|i: int, j: int| 0 <= i < j < s.len() ==> s[i].name != s[j].name
}

pub proof fn lemma_name_set_cons(v: EntryModel, t: Seq<EntryModel>)
    ensures
        name_set(seq![v] + t) =~= name_set(t).insert(v.name),
{
    let s = seq![v] + t;
    assert forall|n: Seq<char>| name_set(s).contains(n) implies name_set(t).insert(
        v.name,
    ).contains(n) by {
        let i = choose|i: int| 0 <= i < s.len() && s[i].name == n;
        if i > 0 {
            assert(t[i - 1].name == n);
        }
    }
    assert forall|n: Seq<char>| name_set(t).insert(v.name).contains(n) implies name_set(
        s,
    ).contains(n) by {
        if n == v.name {
            assert(s[0].name == n);
        } else {
            let i = choose|i: int| 0 <= i < t.len() && t[i].name == n;
            assert(s[i + 1].name == n);
        }
    }
}

/// Whether some entry in `r` already carries `name`.
fn contains_name(r: &Vec<AutostartEntry>, name: &String) -> (b: bool)
    ensures
        b == name_set(models(r@)).contains(name@),
{
    let mut i: usize = 0;
    while i < r.len()
        invariant
            i <= r@.len(),
            forall|j: int| 0 <= j < i ==> models(r@)[j].name != name@,
        decreases r@.len() - i,
    {
        if r[i].name.eq(name) {
            assert(models(r@)[i as int].name == name@);
            return true;
        }
        i = i + 1;
    }
    false
}

/// Whether `a`'s characters come no later than `b`'s in string order.
fn name_le(a: &String, b: &String) -> (r: bool)
    ensures
        r == str_le(a@, b@),
{
    let av = chars_of_str(a.as_str());
    let bv = chars_of_str(b.as_str());
    chars_le(&av, &bv)
}

/// Inserts `e` into a name-sorted vector, keeping it sorted; the new
/// collection holds exactly the old entries and `e`.
fn insert_sorted(r: &mut Vec<AutostartEntry>, e: AutostartEntry)
    requires
        sorted_by_name(models(old(r)@)),
    ensures
        sorted_by_name(models(final(r)@)),
        final(r)@.len() == old(r)@.len() + 1,
        forall|v: EntryModel| #[trigger] models(final(r)@).contains(v) <==> models(
            old(r)@,
        ).contains(v) || v == e@,
        name_set(models(final(r)@)) == name_set(models(old(r)@)).insert(e@.name),
        distinct_names(models(old(r)@)) && !name_set(models(old(r)@)).contains(e@.name)
            ==> distinct_names(models(final(r)@)),
{
    let ghost olds = models(old(r)@);
    let mut p: usize = 0;
    while p < r.len() && name_le(&r[p].name, &e.name)
        invariant
            p <= r@.len(),
            r@ == old(r)@,
            forall|j: int| 0 <= j < p ==> str_le(models(r@)[j].name, e@.name),
        decreases r@.len() - p,
    {
        p = p + 1;
    }
    proof {
        if p < r@.len() {
            lemma_str_le_total(olds[p as int].name, e@.name);
        }
    }
    r.insert(p, e);
    proof {
        let news = models(r@);
        assert(news =~= olds.insert(p as int, e@)) by {
            olds.insert_ensures(p as int, e@);
            assert forall|k: int| 0 <= k < news.len() implies news[k] == olds.insert(
                p as int,
                e@,
            )[k] by {
                olds.insert_ensures(p as int, e@);
            }
        }
        olds.insert_ensures(p as int, e@);
        assert forall|i: int, j: int| 0 <= i < j < news.len() implies str_le(
            news[i].name,
            news[j].name,
        ) by {
            if j < p {
            } else if i < p && j == p {
            } else if i < p && j > p {
            } else if i == p {
                if j > p + 1 {
                    lemma_str_le_trans(e@.name, olds[p as int].name, olds[j - 1].name);
                }
            } else {
            }
        }
        assert forall|v: EntryModel| models(final(r)@).contains(v) <==> olds.contains(v) || v
            == e@ by {
            if news.contains(v) {
                let k = choose|k: int| 0 <= k < news.len() && news[k] == v;
                if k < p {
                    assert(olds[k] == v);
                } else if k > p {
                    assert(olds[k - 1] == v);
                }
            }
            if olds.contains(v) {
                let k = choose|k: int| 0 <= k < olds.len() && olds[k] == v;
                if k < p {
                    assert(news[k] == v);
                } else {
                    assert(news[k + 1] == v);
                }
            }
            assert(news[p as int] == e@);
        }
        assert(name_set(news) =~= name_set(olds).insert(e@.name)) by {
            assert forall|n: Seq<char>| name_set(news).contains(n) implies name_set(olds).insert(
                e@.name,
            ).contains(n) by {
                let k = choose|k: int| 0 <= k < news.len() && news[k].name == n;
                if k < p {
                    assert(olds[k].name == n);
                } else if k > p {
                    assert(olds[k - 1].name == n);
                }
            }
            assert forall|n: Seq<char>| name_set(olds).insert(e@.name).contains(n) implies name_set(
                news,
            ).contains(n) by {
                if n == e@.name {
                    assert(news[p as int].name == n);
                } else {
                    let k = choose|k: int| 0 <= k < olds.len() && olds[k].name == n;
                    if k < p {
                        assert(news[k].name == n);
                    } else {
                        assert(news[k + 1].name == n);
                    }
                }
            }
        }
        if distinct_names(olds) && !name_set(olds).contains(e@.name) {
            assert forall|i: int, j: int| 0 <= i < j < news.len() implies news[i].name
                != news[j].name by {
                if i == p {
                    assert(olds[j - 1].name != e@.name);
                } else if j == p {
                    assert(olds[i].name != e@.name);
                }
            }
        }
    }
}

pub proof fn lemma_name_set_snoc(t: Seq<EntryModel>, v: EntryModel)
    ensures
        name_set(t + seq![v]) =~= name_set(t).insert(v.name),
{
    let s = t + seq![v];
    assert forall|n: Seq<char>| name_set(s).contains(n) implies name_set(t).insert(
        v.name,
    ).contains(n) by {
        let i = choose|i: int| 0 <= i < s.len() && s[i].name == n;
        if i < t.len() {
            assert(t[i].name == n);
        }
    }
    assert forall|n: Seq<char>| name_set(t).insert(v.name).contains(n) implies name_set(
        s,
    ).contains(n) by {
        if n == v.name {
            assert(s[t.len() as int].name == n);
        } else {
            let i = choose|i: int| 0 <= i < t.len() && t[i].name == n;
            assert(s[i].name == n);
        }
    }
}

pub proof fn lemma_contains_snoc<A>(t: Seq<A>, v: A, w: A)
    ensures
        (t + seq![v]).contains(w) <==> t.contains(w) || w == v,
{
    let s = t + seq![v];
    if s.contains(w) {
        let i = choose|i: int| 0 <= i < s.len() && s[i] == w;
        if i < t.len() {
            assert(t[i] == w);
        }
    }
    if t.contains(w) {
        let i = choose|i: int| 0 <= i < t.len() && t[i] == w;
        assert(s[i] == w);
    }
    assert(s[t.len() as int] == v);
}

pub proof fn lemma_contains_concat<A>(a: Seq<A>, b: Seq<A>, w: A)
    ensures
        (a + b).contains(w) <==> a.contains(w) || b.contains(w),
{
    let s = a + b;
    if s.contains(w) {
        let i = choose|i: int| 0 <= i < s.len() && s[i] == w;
        if i < a.len() {
            assert(a[i] == w);
        } else {
            assert(b[i - a.len()] == w);
        }
    }
    if a.contains(w) {
        let i = choose|i: int| 0 <= i < a.len() && a[i] == w;
        assert(s[i] == w);
    }
    if b.contains(w) {
        let i = choose|i: int| 0 <= i < b.len() && b[i] == w;
        assert(s[a.len() + i] == w);
    }
}

/// Scanning a concatenation scans the first part, then the second with the
/// first part's names added to the seen set.
pub proof fn lemma_scan_append(
    a: Seq<ScannedFile>,
    b: Seq<ScannedFile>,
    d: Seq<char>,
    seen: Set<Seq<char>>,
)
    ensures
        scan_spec(a + b, d, seen) == scan_spec(a, d, seen) + scan_spec(
            b,
            d,
            seen.union(name_set(scan_spec(a, d, seen))),
        ),
    decreases a.len(),
{
    if a.len() == 0 {
        assert(a + b =~= b);
        assert(scan_spec(a, d, seen) =~= Seq::<EntryModel>::empty());
        assert(name_set(scan_spec(a, d, seen)) =~= Set::<Seq<char>>::empty());
        assert(seen.union(name_set(scan_spec(a, d, seen))) =~= seen);
        assert(scan_spec(a, d, seen) + scan_spec(b, d, seen) =~= scan_spec(b, d, seen));
    } else {
        let ab = a + b;
        assert(ab[0] == a[0]);
        assert(ab.drop_first() =~= a.drop_first() + b);
        match file_model(a[0], d) {
            Some(v) => {
                if seen.contains(v.name) {
                    lemma_scan_append(a.drop_first(), b, d, seen);
                } else {
                    let seen1 = seen.insert(v.name);
                    lemma_scan_append(a.drop_first(), b, d, seen1);
                    let t = scan_spec(a.drop_first(), d, seen1);
                    lemma_name_set_cons(v, t);
                    assert(seen.union(name_set(seq![v] + t)) =~= seen1.union(name_set(t)));
                    assert((seq![v] + t) + scan_spec(b, d, seen1.union(name_set(t))) =~= seq![v] + (
                    t + scan_spec(b, d, seen1.union(name_set(t)))));
                }
            },
            None => {
                lemma_scan_append(a.drop_first(), b, d, seen);
            },
        }
    }
}

/// Folds the contributions of `files` into the sorted, name-deduplicated
/// vector `r`, exactly as [`scan_spec`] describes with `r`'s names as the
/// initially seen set.
fn scan_into(files: &Vec<ScannedFile>, user_autostart_dir: &str, r: &mut Vec<AutostartEntry>)
    requires
        sorted_by_name(models(old(r)@)),
        distinct_names(models(old(r)@)),
    ensures
        sorted_by_name(models(final(r)@)),
        distinct_names(models(final(r)@)),
        final(r)@.len() == old(r)@.len() + scan_spec(
            files@,
            user_autostart_dir@,
            name_set(models(old(r)@)),
        ).len(),
        forall|v: EntryModel| #[trigger] models(final(r)@).contains(v) <==> models(
            old(r)@,
        ).contains(v) || scan_spec(files@, user_autostart_dir@, name_set(models(old(r)@))).contains(
            v,
        ),
        name_set(models(final(r)@)) == name_set(models(old(r)@)).union(
            name_set(scan_spec(files@, user_autostart_dir@, name_set(models(old(r)@)))),
        ),
{
    let ghost d = user_autostart_dir@;
    let ghost base = models(old(r)@);
    let ghost s0 = name_set(base);
    let ghost full = scan_spec(files@, d, s0);
    let ghost mut emitted: Seq<EntryModel> = Seq::empty();
    proof {
        assert(name_set(emitted) =~= Set::<Seq<char>>::empty());
        assert(s0.union(name_set(emitted)) =~= s0);
        assert(files@.skip(0) =~= files@);
    }
    let mut i: usize = 0;
    while i < files.len()
        invariant
            i <= files@.len(),
            d == user_autostart_dir@,
            base == models(old(r)@),
            s0 == name_set(base),
            full == scan_spec(files@, d, s0),
            sorted_by_name(models(r@)),
            distinct_names(models(r@)),
            full == emitted + scan_spec(files@.skip(i as int), d, s0.union(name_set(emitted))),
            r@.len() == old(r)@.len() + emitted.len(),
            forall|v: EntryModel| #[trigger] models(r@).contains(v) <==> base.contains(v)
                || emitted.contains(v),
            name_set(models(r@)) == s0.union(name_set(emitted)),
        decreases files@.len() - i,
    {
        let ghost rem = files@.skip(i as int);
        let ghost seenset = s0.union(name_set(emitted));
        proof {
            assert(rem[0] == files@[i as int]);
            assert(rem.drop_first() =~= files@.skip(i + 1));
        }
        let f = &files[i];
        if has_desktop_extension(f.path.as_str()) {
            match parse(f.content.as_str(), f.path.as_str(), user_autostart_dir) {
                Ok(e) => {
                    proof {
                        assert(file_model(files@[i as int], d) == Some(e@));
                    }
                    if !contains_name(r, &e.name) {
                        let ghost v = e@;
                        let ghost olde = emitted;
                        proof {
                            assert(!seenset.contains(v.name));
                            assert(scan_spec(rem, d, seenset) == seq![v] + scan_spec(
                                rem.drop_first(),
                                d,
                                seenset.insert(v.name),
                            ));
                            emitted = emitted + seq![v];
                            lemma_name_set_snoc(olde, v);
                            assert(s0.union(name_set(emitted)) =~= seenset.insert(v.name));
                            assert(olde + (seq![v] + scan_spec(
                                files@.skip(i + 1),
                                d,
                                s0.union(name_set(emitted)),
                            )) =~= emitted + scan_spec(
                                files@.skip(i + 1),
                                d,
                                s0.union(name_set(emitted)),
                            ));
                        }
                        insert_sorted(r, e);
                        proof {
                            assert forall|w: EntryModel| #[trigger] models(r@).contains(w)
                                <==> base.contains(w) || emitted.contains(w) by {
                                lemma_contains_snoc(olde, v, w);
                            }
                            assert(name_set(models(r@)) =~= s0.union(name_set(emitted)));
                        }
                    } else {
                        proof {
                            assert(scan_spec(rem, d, seenset) == scan_spec(
                                rem.drop_first(),
                                d,
                                seenset,
                            ));
                        }
                    }
                },
                Err(_) => {
                    proof {
                        assert(file_model(files@[i as int], d) is None);
                        assert(scan_spec(rem, d, seenset) == scan_spec(
                            rem.drop_first(),
                            d,
                            seenset,
                        ));
                    }
                },
            }
        } else {
            proof {
                assert(file_model(files@[i as int], d) is None);
                assert(scan_spec(rem, d, seenset) == scan_spec(rem.drop_first(), d, seenset));
            }
        }
        i = i + 1;
    }
    proof {
        assert(files@.skip(files@.len() as int) =~= Seq::<ScannedFile>::empty());
        assert(full =~= emitted + Seq::<EntryModel>::empty());
        assert(full =~= emitted);
    }
}

/// Merges and orders the autostart entries the caller scanned from disk.
///
/// `user_files` are the files of the per-user autostart directory;
/// `system_files` those of the system directories, concatenated in
/// precedence order. Files without the `.desktop` extension and files that
/// fail to parse are skipped silently. The result holds one entry per name,
/// the first contribution winning (so a user entry shadows system entries of
/// the same name), sorted by name in ordinary string order.
pub fn load_all(
    user_files: &Vec<ScannedFile>,
    system_files: &Vec<ScannedFile>,
    user_autostart_dir: &str,
) -> (r: Vec<AutostartEntry>)
    ensures
        sorted_by_name(models(r@)),
        distinct_names(models(r@)),
        r@.len() == merged_models(user_files@, system_files@, user_autostart_dir@).len(),
        forall|v: EntryModel| #[trigger] models(r@).contains(v) <==> merged_models(
            user_files@,
            system_files@,
            user_autostart_dir@,
        ).contains(v),
{
    let ghost d = user_autostart_dir@;
    let mut r: Vec<AutostartEntry> = Vec::new();
    proof {
        assert(models(r@) =~= Seq::<EntryModel>::empty());
        assert(name_set(models(r@)) =~= Set::<Seq<char>>::empty());
    }
    let ghost su = scan_spec(user_files@, d, name_set(models(r@)));
    scan_into(user_files, user_autostart_dir, &mut r);
    let ghost ss = scan_spec(system_files@, d, name_set(models(r@)));
    scan_into(system_files, user_autostart_dir, &mut r);
    proof {
        lemma_scan_append(user_files@, system_files@, d, Set::empty());
        assert(scan_spec(user_files@, d, Set::empty()) == su);
        assert(merged_models(user_files@, system_files@, d) == su + ss);
        assert forall|v: EntryModel| #[trigger] models(r@).contains(v) <==> (su + ss).contains(
            v,
        ) by {
            lemma_contains_concat(su, ss, v);
        }
    }
    r
}

} // verus!
