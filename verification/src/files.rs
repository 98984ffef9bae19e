//! Choosing `config.toml` and theme files among what the candidate
//! directories hold. The caller lists the directories and their files; the
//! choice is made here.

use std::path::PathBuf;
use vstd::prelude::*;

use crate::text::{str_chars, string_from_chars};
use crate::theme::{ascii_key, theme_key, theme_key_spec};
use vstd::utf8::is_ascii_chars;

verus! {

broadcast use vstd::string::group_string_axioms;

/// `std::path::PathBuf`, carried through unopened.
#[verifier::external_type_specification]
#[verifier::external_body]
pub struct ExPathBuf(PathBuf);

/// `<PathBuf as Clone>::clone` copies the path: the copy is taken to be the
/// same path value.
pub assume_specification[ <PathBuf as Clone>::clone ](p: &PathBuf) -> (r: PathBuf)
    ensures
        r == *p,
;

/// A candidate configuration directory, the path of `config.toml` in it,
/// and whether that path is a file.
pub struct ConfigCandidate {
    pub dir: PathBuf,
    pub config_path: PathBuf,
    pub is_file: bool,
}

/// The index of the first candidate that holds a `config.toml` file.
pub open spec fn first_config(candidates: Seq<ConfigCandidate>) -> Option<int>
    decreases candidates.len(),
{
    if candidates.len() == 0 {
        None
    } else if candidates[0].is_file {
        Some(0)
    } else {
        match first_config(candidates.drop_first()) {
            Some(i) => Some(i + 1),
            None => None,
        }
    }
}

/// The first candidate that holds a `config.toml` file: its directory and
/// the file. Without one, the third candidate directory (else `current_dir`)
/// with no file.
pub open spec fn find_config_spec(candidates: Seq<ConfigCandidate>, current_dir: PathBuf) -> (
    PathBuf,
    Option<PathBuf>,
) {
    match first_config(candidates) {
        Some(i) => (candidates[i].dir, Some(candidates[i].config_path)),
        None => if candidates.len() > 2 {
            (candidates[2].dir, None)
        } else {
            (current_dir, None)
        },
    }
}

proof fn lemma_first_config(candidates: Seq<ConfigCandidate>, i: int)
    requires
        0 <= i <= candidates.len(),
        forall|j: int| 0 <= j < i ==> !(#[trigger] candidates[j]).is_file,
    ensures
        i < candidates.len() && candidates[i].is_file ==> first_config(candidates) == Some(i),
        i == candidates.len() ==> first_config(candidates) is None,
    decreases i,
{
    if i > 0 {
        let rest = candidates.drop_first();
        assert forall|j: int| 0 <= j < i - 1 implies !(#[trigger] rest[j]).is_file by {
            assert(rest[j] == candidates[j + 1]);
        }
        lemma_first_config(rest, i - 1);
        assert(!candidates[0].is_file);
    }
}

/// The candidate of highest priority that holds a `config.toml` wins: when
/// candidate `i` holds one and none before it does, the result is its
/// directory and file, whatever follows. When none holds one, no file is
/// found.
pub proof fn lemma_config_priority(candidates: Seq<ConfigCandidate>, current_dir: PathBuf, i: int)
    requires
        0 <= i < candidates.len(),
        candidates[i].is_file,
        forall|j: int| 0 <= j < i ==> !(#[trigger] candidates[j]).is_file,
    ensures
        find_config_spec(candidates, current_dir) == (candidates[i].dir, Some(candidates[i].config_path)),
{
    lemma_first_config(candidates, i);
}

/// Without any candidate that holds a `config.toml`, no file is found, and
/// the directory is the third candidate's, or `current_dir` when there are
/// fewer than three.
pub proof fn lemma_no_config(candidates: Seq<ConfigCandidate>, current_dir: PathBuf)
    requires
        forall|j: int| 0 <= j < candidates.len() ==> !(#[trigger] candidates[j]).is_file,
    ensures
        find_config_spec(candidates, current_dir).1 is None,
        find_config_spec(candidates, current_dir).0 == if candidates.len() > 2 {
            candidates[2].dir
        } else {
            current_dir
        },
{
    lemma_first_config(candidates, candidates.len() as int);
}

/// Picks the configuration directory and `config.toml` from the candidate
/// directories, in their order of priority.
pub fn find_config_file(candidate_dirs: Vec<ConfigCandidate>, current_dir: PathBuf) -> (r: (
    PathBuf,
    Option<PathBuf>,
))
    ensures
        r == find_config_spec(candidate_dirs@, current_dir),
{
    let mut candidates = candidate_dirs;
    let ghost all = candidates@;
    let n = candidates.len();
    let mut i: usize = 0;
    while i < n
        invariant
            n == candidates@.len(),
            candidates@ == all,
            all == candidate_dirs@,
            i <= n,
            forall|j: int| 0 <= j < i ==> !(#[trigger] all[j]).is_file,
        decreases n - i,
    {
        if candidates[i].is_file {
            proof {
                lemma_first_config(all, i as int);
            }
            let c = candidates.remove(i);
            return (c.dir, Some(c.config_path));
        }
        i = i + 1;
    }
    proof {
        lemma_first_config(all, n as int);
    }
    if n > 2 {
        let c = candidates.remove(2);
        (c.dir, None)
    } else {
        (current_dir, None)
    }
}

/// A directory entry: its path, whether it is a file with the `toml`
/// extension, and its file stem when that is valid Unicode.
pub struct FileEntry {
    pub path: PathBuf,
    pub is_file: bool,
    pub is_toml: bool,
    pub stem: Option<String>,
}

/// A directory to search for theme files: the entries of the directory and of
/// its `themes` subdirectory (empty when a directory is missing or
/// unreadable), and whether it is the active configuration directory.
pub struct SearchDir {
    pub is_active: bool,
    pub files: Vec<FileEntry>,
    pub theme_files: Vec<FileEntry>,
}

/// `s` without all its trailing `.toml` suffixes.
pub open spec fn strip_toml_suffixes(s: Seq<char>) -> Seq<char>
    decreases s.len(),
{
    if s.len() >= 5 && s.subrange(s.len() - 5, s.len() as int) == seq!['.', 't', 'o', 'm', 'l'] {
        strip_toml_suffixes(s.subrange(0, s.len() - 5))
    } else {
        s
    }
}

/// The entry is a `.toml` file whose stem, compared as a theme key, is `key`.
pub open spec fn entry_matches(e: FileEntry, key: Seq<char>) -> bool {
    &&& e.is_file
    &&& e.is_toml
    &&& match e.stem {
        Some(stem) => theme_key_spec(stem@) == key,
        None => false,
    }
}

/// The first entry that matches `key`.
pub open spec fn first_match(entries: Seq<FileEntry>, key: Seq<char>) -> Option<PathBuf>
    decreases entries.len(),
{
    if entries.len() == 0 {
        None
    } else if entry_matches(entries[0], key) {
        Some(entries[0].path)
    } else {
        first_match(entries.drop_first(), key)
    }
}

/// The entries of a search directory, the directory's own first, skipped when
/// it is the active directory.
pub open spec fn dir_entries(d: SearchDir) -> Seq<FileEntry> {
    if d.is_active {
        seq![]
    } else {
        d.files@ + d.theme_files@
    }
}

/// The entries of the candidate directories, in order.
pub open spec fn others_entries(others: Seq<SearchDir>) -> Seq<FileEntry>
    decreases others.len(),
{
    if others.len() == 0 {
        seq![]
    } else {
        dir_entries(others[0]) + others_entries(others.drop_first())
    }
}

/// All entries in the order they are searched: the active directory, its
/// `themes` subdirectory, then each other candidate directory and its
/// `themes` subdirectory.
pub open spec fn search_entries(active: SearchDir, others: Seq<SearchDir>) -> Seq<FileEntry> {
    active.files@ + active.theme_files@ + others_entries(others)
}

/// The theme file for `theme_name`: the first `.toml` file, in search order,
/// whose stem matches the name without its `.toml` suffixes, ignoring case,
/// `-`, `_` and spaces.
pub open spec fn find_theme_spec(theme_name: Seq<char>, active: SearchDir, others: Seq<SearchDir>) -> Option<PathBuf> {
    first_match(search_entries(active, others), theme_key_spec(strip_toml_suffixes(theme_name)))
}

/// Every entry's stem, where it has one, is ASCII text.
pub open spec fn stems_ascii(entries: Seq<FileEntry>) -> bool {
    forall|i: int| 0 <= i < entries.len() ==> ((#[trigger] entries[i]).stem matches Some(st) ==> is_ascii_chars(st@))
}

/// The entry is a `.toml` file whose ASCII stem has the ASCII key `key`.
pub open spec fn entry_matches_ascii(e: FileEntry, key: Seq<char>) -> bool {
    &&& e.is_file
    &&& e.is_toml
    &&& match e.stem {
        Some(stem) => ascii_key(stem@) == key,
        None => false,
    }
}

/// The first entry that matches `key` as an ASCII key.
pub open spec fn first_match_ascii(entries: Seq<FileEntry>, key: Seq<char>) -> Option<PathBuf>
    decreases entries.len(),
{
    if entries.len() == 0 {
        None
    } else if entry_matches_ascii(entries[0], key) {
        Some(entries[0].path)
    } else {
        first_match_ascii(entries.drop_first(), key)
    }
}

/// For a `.toml` file with an ASCII stem, the stem's key is its ASCII key.
spec fn keyed(e: FileEntry) -> bool {
    match e.stem {
        Some(st) => (e.is_file && e.is_toml && is_ascii_chars(st@)) ==> theme_key_spec(st@) == ascii_key(st@),
        None => true,
    }
}

/// No entry before `i` matches `key`.
spec fn no_match_before(entries: Seq<FileEntry>, key: Seq<char>, i: int) -> bool {
    forall|j: int| 0 <= j < i ==> !entry_matches(#[trigger] entries[j], key)
}

/// Each entry up to the first that matches `key` is keyed.
spec fn keyed_until_match(entries: Seq<FileEntry>, key: Seq<char>) -> bool {
    forall|i: int| 0 <= i < entries.len() && no_match_before(entries, key, i) ==> keyed(#[trigger] entries[i])
}

proof fn lemma_keyed_concat(a: Seq<FileEntry>, b: Seq<FileEntry>, key: Seq<char>)
    requires
        keyed_until_match(a, key),
        first_match(a, key) is None ==> keyed_until_match(b, key),
    ensures
        keyed_until_match(a + b, key),
{
    let ab = a + b;
    assert forall|i: int| 0 <= i < ab.len() && no_match_before(ab, key, i) implies keyed(#[trigger] ab[i]) by {
        if i < a.len() {
            assert forall|j: int| 0 <= j < i implies !entry_matches(#[trigger] a[j], key) by {
                assert(ab[j] == a[j]);
            }
            assert(ab[i] == a[i]);
        } else {
            assert forall|j: int| 0 <= j < a.len() implies !entry_matches(#[trigger] a[j], key) by {
                assert(ab[j] == a[j]);
            }
            lemma_first_match_index(a, key, a.len() as int);
            let m = i - a.len();
            assert forall|j: int| 0 <= j < m implies !entry_matches(#[trigger] b[j], key) by {
                assert(ab[j + a.len()] == b[j]);
            }
            assert(no_match_before(b, key, m));
            assert(ab[i] == b[m]);
        }
    }
}

proof fn lemma_first_match_ascii(entries: Seq<FileEntry>, key: Seq<char>)
    requires
        keyed_until_match(entries, key),
        stems_ascii(entries),
    ensures
        first_match(entries, key) == first_match_ascii(entries, key),
    decreases entries.len(),
{
    if entries.len() > 0 {
        let e = entries[0];
        assert(no_match_before(entries, key, 0));
        assert(keyed(entries[0]));
        assert(e.stem matches Some(st) ==> is_ascii_chars(st@));
        assert(entry_matches(e, key) == entry_matches_ascii(e, key));
        if !entry_matches(e, key) {
            let rest = entries.drop_first();
            assert forall|i: int| 0 <= i < rest.len() && no_match_before(rest, key, i) implies keyed(
                #[trigger] rest[i],
            ) by {
                assert forall|j: int| 0 <= j < i + 1 implies !entry_matches(#[trigger] entries[j], key) by {
                    if j > 0 {
                        assert(entries[j] == rest[j - 1]);
                    }
                }
                assert(no_match_before(entries, key, i + 1));
                assert(entries[i + 1] == rest[i]);
            }
            assert forall|i: int| 0 <= i < rest.len() implies ((#[trigger] rest[i]).stem matches Some(st)
                ==> is_ascii_chars(st@)) by {
                assert(rest[i] == entries[i + 1]);
            }
            lemma_first_match_ascii(rest, key);
        }
    }
}

/// Dropping `.toml` suffixes keeps a name ASCII.
proof fn lemma_strip_ascii(s: Seq<char>)
    requires
        is_ascii_chars(s),
    ensures
        is_ascii_chars(strip_toml_suffixes(s)),
    decreases s.len(),
{
    if s.len() >= 5 && s.subrange(s.len() - 5, s.len() as int) == seq!['.', 't', 'o', 'm', 'l'] {
        let p = s.subrange(0, s.len() - 5);
        assert forall|i: int| 0 <= i < p.len() implies '\0' <= #[trigger] p[i] <= '\u{7f}' by {
            assert(p[i] == s[i]);
        }
        lemma_strip_ascii(p);
    }
}

/// Where every entry up to the first match is keyed, an ASCII name and ASCII
/// stems are compared by their ASCII keys.
proof fn lemma_ascii_search(theme_name: Seq<char>, entries: Seq<FileEntry>, key: Seq<char>)
    requires
        keyed_until_match(entries, key),
        is_ascii_chars(strip_toml_suffixes(theme_name)) ==> key == ascii_key(strip_toml_suffixes(theme_name)),
    ensures
        is_ascii_chars(theme_name) && stems_ascii(entries) ==> first_match(entries, key) == first_match_ascii(
            entries,
            ascii_key(strip_toml_suffixes(theme_name)),
        ),
{
    if is_ascii_chars(theme_name) && stems_ascii(entries) {
        lemma_strip_ascii(theme_name);
        lemma_first_match_ascii(entries, key);
    }
}

proof fn lemma_first_match_concat(a: Seq<FileEntry>, b: Seq<FileEntry>, key: Seq<char>)
    ensures
        first_match(a + b, key) == if first_match(a, key) is Some {
            first_match(a, key)
        } else {
            first_match(b, key)
        },
    decreases a.len(),
{
    if a.len() == 0 {
        assert(a + b =~= b);
    } else {
        assert((a + b).drop_first() =~= a.drop_first() + b);
        lemma_first_match_concat(a.drop_first(), b, key);
    }
}

proof fn lemma_first_match_index(entries: Seq<FileEntry>, key: Seq<char>, i: int)
    requires
        0 <= i <= entries.len(),
        forall|j: int| 0 <= j < i ==> !entry_matches(#[trigger] entries[j], key),
    ensures
        i < entries.len() && entry_matches(entries[i], key) ==> first_match(entries, key) == Some(
            entries[i].path,
        ),
        i == entries.len() ==> first_match(entries, key) is None,
    decreases i,
{
    if i > 0 {
        let rest = entries.drop_first();
        assert forall|j: int| 0 <= j < i - 1 implies !entry_matches(#[trigger] rest[j], key) by {
            assert(rest[j] == entries[j + 1]);
        }
        lemma_first_match_index(rest, key, i - 1);
        assert(!entry_matches(entries[0], key));
    }
}

/// The index of the first entry of `entries` that matches `key`.
fn find_in_entries(entries: &Vec<FileEntry>, key: &String) -> (r: Option<usize>)
    ensures
        match r {
            Some(i) => i < entries@.len() && first_match(entries@, key@) == Some(entries@[i as int].path),
            None => first_match(entries@, key@) is None,
        },
        keyed_until_match(entries@, key@),
{
    let n = entries.len();
    let mut i: usize = 0;
    while i < n
        invariant
            n == entries@.len(),
            i <= n,
            forall|j: int| 0 <= j < i ==> !entry_matches(#[trigger] entries@[j], key@),
            forall|j: int| 0 <= j < i ==> keyed(#[trigger] entries@[j]),
        decreases n - i,
    {
        let e = &entries[i];
        if e.is_file && e.is_toml {
            if let Some(stem) = &e.stem {
                let k = theme_key(stem.as_str());
                assert(keyed(entries@[i as int]));
                if k == *key {
                    proof {
                        lemma_first_match_index(entries@, key@, i as int);
                        assert(entry_matches(entries@[i as int], key@));
                        assert forall|m: int|
                            0 <= m < entries@.len() && no_match_before(entries@, key@, m) implies keyed(
                            #[trigger] entries@[m],
                        ) by {
                            if m > i {
                                assert(!entry_matches(entries@[i as int], key@));
                            }
                        }
                    }
                    return Some(i);
                }
            }
        }
        assert(keyed(entries@[i as int]));
        i = i + 1;
    }
    proof {
        lemma_first_match_index(entries@, key@, n as int);
    }
    None
}

/// `name` without all its trailing `.toml` suffixes.
pub fn strip_toml(name: &str) -> (r: String)
    ensures
        r@ == strip_toml_suffixes(name@),
{
    let cs = str_chars(name);
    let mut end = cs.len();
    assert(cs@.subrange(0, end as int) =~= cs@);
    while end >= 5 && cs[end - 5] == '.' && cs[end - 4] == 't' && cs[end - 3] == 'o' && cs[end
        - 2] == 'm' && cs[end - 1] == 'l'
        invariant
            end <= cs@.len(),
            cs@ == name@,
            strip_toml_suffixes(name@) == strip_toml_suffixes(cs@.subrange(0, end as int)),
        decreases end,
    {
        let ghost s = cs@.subrange(0, end as int);
        assert(s.subrange(s.len() - 5, s.len() as int) =~= seq!['.', 't', 'o', 'm', 'l']);
        assert(s.subrange(0, s.len() - 5) =~= cs@.subrange(0, end - 5));
        end = end - 5;
    }
    let ghost s = cs@.subrange(0, end as int);
    assert(!(s.len() >= 5 && s.subrange(s.len() - 5, s.len() as int) == seq!['.', 't', 'o', 'm', 'l'])) by {
        if s.len() >= 5 && s.subrange(s.len() - 5, s.len() as int) == seq!['.', 't', 'o', 'm', 'l'] {
            assert(s.subrange(s.len() - 5, s.len() as int)[0] == cs@[end - 5]);
            assert(s.subrange(s.len() - 5, s.len() as int)[1] == cs@[end - 4]);
            assert(s.subrange(s.len() - 5, s.len() as int)[2] == cs@[end - 3]);
            assert(s.subrange(s.len() - 5, s.len() as int)[3] == cs@[end - 2]);
            assert(s.subrange(s.len() - 5, s.len() as int)[4] == cs@[end - 1]);
        }
    }
    string_from_chars(vstd::slice::slice_subrange(cs.as_slice(), 0, end))
}

/// Searches for the theme file of `theme_name` in the active configuration
/// directory and its `themes` subdirectory, then in each other candidate
/// directory and its `themes` subdirectory. For an ASCII name and ASCII
/// stems, names are compared by their ASCII keys: `Nord` finds `nord.toml`.
pub fn find_theme_file(theme_name: &str, active_dir: SearchDir, other_dirs: Vec<SearchDir>) -> (r: Option<PathBuf>)
    ensures
        r == find_theme_spec(theme_name@, active_dir, other_dirs@),
        is_ascii_chars(theme_name@) && stems_ascii(search_entries(active_dir, other_dirs@)) ==> r
            == first_match_ascii(
            search_entries(active_dir, other_dirs@),
            ascii_key(strip_toml_suffixes(theme_name@)),
        ),
{
    let ghost all_others = other_dirs@;
    let clean = strip_toml(theme_name);
    let key = theme_key(clean.as_str());
    let mut active = active_dir;
    let mut others = other_dirs;
    let ghost a = active;
    let ghost all = search_entries(a, all_others);
    let ghost own = a.files@ + a.theme_files@;
    proof {
        lemma_first_match_concat(own, others_entries(all_others), key@);
        lemma_first_match_concat(a.files@, a.theme_files@, key@);
    }
    if let Some(i) = find_in_entries(&active.files, &key) {
        proof {
            lemma_keyed_concat(a.files@, a.theme_files@, key@);
            lemma_keyed_concat(own, others_entries(all_others), key@);
            lemma_ascii_search(theme_name@, all, key@);
        }
        let e = active.files.remove(i);
        return Some(e.path);
    }
    if let Some(i) = find_in_entries(&active.theme_files, &key) {
        proof {
            lemma_keyed_concat(a.files@, a.theme_files@, key@);
            lemma_keyed_concat(own, others_entries(all_others), key@);
            lemma_ascii_search(theme_name@, all, key@);
        }
        let e = active.theme_files.remove(i);
        return Some(e.path);
    }
    proof {
        lemma_keyed_concat(a.files@, a.theme_files@, key@);
        if keyed_until_match(others_entries(all_others), key@) {
            lemma_keyed_concat(own, others_entries(all_others), key@);
        }
    }
    let n = others.len();
    let mut k: usize = 0;
    assert(all_others.skip(0) =~= all_others);
    while k < n
        invariant
            n == others@.len(),
            others@ == all_others,
            all_others == other_dirs@,
            a == active_dir,
            all == search_entries(a, all_others),
            k <= n,
            find_theme_spec(theme_name@, a, all_others) == first_match(
                others_entries(all_others.skip(k as int)),
                key@,
            ),
            key@ == theme_key_spec(strip_toml_suffixes(theme_name@)),
            is_ascii_chars(strip_toml_suffixes(theme_name@)) ==> key@ == ascii_key(
                strip_toml_suffixes(theme_name@),
            ),
            keyed_until_match(others_entries(all_others.skip(k as int)), key@) ==> keyed_until_match(
                all,
                key@,
            ),
        decreases n - k,
    {
        let ghost rest = all_others.skip(k as int);
        assert(rest[0] == all_others[k as int]);
        assert(rest.drop_first() =~= all_others.skip(k + 1));
        let ghost d = all_others[k as int];
        let ghost tail = others_entries(all_others.skip(k + 1));
        assert(others_entries(rest) == dir_entries(d) + tail);
        proof {
            lemma_first_match_concat(dir_entries(d), tail, key@);
            lemma_first_match_concat(d.files@, d.theme_files@, key@);
        }
        if !others[k].is_active {
            if let Some(i) = find_in_entries(&others[k].files, &key) {
                proof {
                    lemma_keyed_concat(d.files@, d.theme_files@, key@);
                    lemma_keyed_concat(dir_entries(d), tail, key@);
                    lemma_ascii_search(theme_name@, all, key@);
                }
                let mut dir = others.remove(k);
                let e = dir.files.remove(i);
                return Some(e.path);
            }
            if let Some(i) = find_in_entries(&others[k].theme_files, &key) {
                proof {
                    lemma_keyed_concat(d.files@, d.theme_files@, key@);
                    lemma_keyed_concat(dir_entries(d), tail, key@);
                    lemma_ascii_search(theme_name@, all, key@);
                }
                let mut dir = others.remove(k);
                let e = dir.theme_files.remove(i);
                return Some(e.path);
            }
            proof {
                lemma_keyed_concat(d.files@, d.theme_files@, key@);
                if keyed_until_match(tail, key@) {
                    lemma_keyed_concat(dir_entries(d), tail, key@);
                }
            }
        } else {
            assert(dir_entries(d) + tail =~= tail);
        }
        k = k + 1;
    }
    proof {
        assert(others_entries(all_others.skip(n as int)) =~= Seq::<FileEntry>::empty());
        lemma_ascii_search(theme_name@, all, key@);
    }
    None
}

/// A theme file in the active configuration directory wins over any in the
/// other candidate directories.
pub proof fn lemma_active_dir_first(
    theme_name: Seq<char>,
    active: SearchDir,
    others: Seq<SearchDir>,
    more_others: Seq<SearchDir>,
)
    requires
        first_match(active.files@, theme_key_spec(strip_toml_suffixes(theme_name))) is Some,
    ensures
        find_theme_spec(theme_name, active, others) == find_theme_spec(theme_name, active, more_others),
        find_theme_spec(theme_name, active, others) == first_match(
            active.files@,
            theme_key_spec(strip_toml_suffixes(theme_name)),
        ),
{
    let key = theme_key_spec(strip_toml_suffixes(theme_name));
    lemma_first_match_concat(active.files@, active.theme_files@, key);
    lemma_first_match_concat(active.files@ + active.theme_files@, others_entries(others), key);
    lemma_first_match_concat(active.files@ + active.theme_files@, others_entries(more_others), key);
}

/// A file named after a theme, in any case and with or without `-`, `_` or
/// spaces, is found for it when it is the first `.toml` file of the active
/// configuration directory.
pub proof fn lemma_name_forms_found(
    theme_name: Seq<char>,
    active: SearchDir,
    others: Seq<SearchDir>,
    stem: String,
)
    requires
        active.files@.len() > 0,
        active.files@[0].is_file,
        active.files@[0].is_toml,
        active.files@[0].stem == Some(stem),
        theme_key_spec(stem@) == theme_key_spec(strip_toml_suffixes(theme_name)),
    ensures
        find_theme_spec(theme_name, active, others) == Some(active.files@[0].path),
{
    lemma_active_dir_first(theme_name, active, others, others);
}

/// A directory where the configuration may be, in the order searched.
#[derive(Debug, Clone, Copy, PartialEq, Eq, Structural)]
pub enum ConfigDir {
    /// The directory named by `COMPARE_CONFIG_DIR`.
    CompareConfigDirEnv,
    /// The directory named by `DIFFITRUST_CONFIG_DIR`.
    DiffitrustConfigDirEnv,
    /// The current working directory.
    CurrentDir,
    /// `$HOME/.config/compare`.
    HomeConfigCompare,
    /// `$HOME/.config/diffitrust`.
    HomeConfigDiffitrust,
    /// `$HOME/Library/Application Support/Compare`.
    HomeLibraryCompare,
    /// `$HOME/Library/Application Support/DiffiTrust`.
    HomeLibraryDiffiTrust,
    /// `Compare` under `APPDATA`.
    AppDataCompare,
    /// `DiffiTrust` under `APPDATA`.
    AppDataDiffiTrust,
}

/// The configuration directories in priority order, given which of
/// `COMPARE_CONFIG_DIR`, `DIFFITRUST_CONFIG_DIR`, `HOME` and `APPDATA` are
/// set: the two explicit directories, the current directory, the user
/// directories under `HOME`, then those under `APPDATA`.
pub open spec fn config_dir_order_spec(
    compare_set: bool,
    diffitrust_set: bool,
    home_set: bool,
    appdata_set: bool,
) -> Seq<ConfigDir> {
    (if compare_set { seq![ConfigDir::CompareConfigDirEnv] } else { seq![] }) + (if diffitrust_set {
        seq![ConfigDir::DiffitrustConfigDirEnv]
    } else {
        seq![]
    }) + seq![ConfigDir::CurrentDir] + (if home_set {
        seq![
            ConfigDir::HomeConfigCompare,
            ConfigDir::HomeConfigDiffitrust,
            ConfigDir::HomeLibraryCompare,
            ConfigDir::HomeLibraryDiffiTrust,
        ]
    } else {
        seq![]
    }) + (if appdata_set {
        seq![ConfigDir::AppDataCompare, ConfigDir::AppDataDiffiTrust]
    } else {
        seq![]
    })
}

/// The configuration directories to search, in priority order, given which
/// of `COMPARE_CONFIG_DIR`, `DIFFITRUST_CONFIG_DIR`, `HOME` and `APPDATA`
/// are set.
pub fn config_dir_order(compare_set: bool, diffitrust_set: bool, home_set: bool, appdata_set: bool) -> (r: Vec<
    ConfigDir,
>)
    ensures
        r@ == config_dir_order_spec(compare_set, diffitrust_set, home_set, appdata_set),
{
    let mut dirs: Vec<ConfigDir> = Vec::new();
    if compare_set {
        dirs.push(ConfigDir::CompareConfigDirEnv);
    }
    if diffitrust_set {
        dirs.push(ConfigDir::DiffitrustConfigDirEnv);
    }
    dirs.push(ConfigDir::CurrentDir);
    if home_set {
        dirs.push(ConfigDir::HomeConfigCompare);
        dirs.push(ConfigDir::HomeConfigDiffitrust);
        dirs.push(ConfigDir::HomeLibraryCompare);
        dirs.push(ConfigDir::HomeLibraryDiffiTrust);
    }
    if appdata_set {
        dirs.push(ConfigDir::AppDataCompare);
        dirs.push(ConfigDir::AppDataDiffiTrust);
    }
    assert(dirs@ =~= config_dir_order_spec(compare_set, diffitrust_set, home_set, appdata_set));
    dirs
}

/// The current directory is always searched, after the directories named
/// by the environment and before the user directories.
pub proof fn lemma_current_dir_searched(
    compare_set: bool,
    diffitrust_set: bool,
    home_set: bool,
    appdata_set: bool,
)
    ensures
        ({
            let d = config_dir_order_spec(compare_set, diffitrust_set, home_set, appdata_set);
            let k = (if compare_set { 1int } else { 0int }) + (if diffitrust_set { 1int } else { 0int });
            &&& d[k] == ConfigDir::CurrentDir
            &&& forall|i: int| 0 <= i < k ==> (#[trigger] d[i] == ConfigDir::CompareConfigDirEnv || d[i] == ConfigDir::DiffitrustConfigDirEnv)
            &&& forall|i: int| k < i < d.len() ==> #[trigger] d[i] != ConfigDir::CurrentDir
        }),
{
}

} // verus!
