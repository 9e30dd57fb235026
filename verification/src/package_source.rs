//! The files of a skill package and the checks that read them: nested
//! package boundaries, execution profiles, declared sidecar and harness
//! files, manual ownership, package identity and the package digest.
use vstd::prelude::*;

use vstd::string::StringSliceAdditionalSpecFns;

use crate::json::{has_key, lookup, JsonModel, JsonObject, JsonValue};
use crate::javascript::{utf8_error_text, utf8_text};
use crate::package::SkillPackageError;
use crate::text::{
    concat, contains_char, contains_spec, contains_str, debug_quoted, debug_str, decimal, decimal_digits, ends_with,
    ends_with_spec, join, joined, sort_dedup, split_on, split_spec, starts_with, starts_with_spec, str_eq,
    string_views, strictly_sorted, trim, trim_spec,
};

verus! {

/// The files of a skill package, by package-relative path (in path order),
/// and the paths that are symbolic links.
#[derive(Debug)]
pub struct SkillPackageSource {
    pub files: Vec<(String, Vec<u8>)>,
    pub symlinks: Vec<String>,
}

/// Whether the package has a file at `path`.
pub open spec fn has_file(files: Seq<(String, Vec<u8>)>, path: Seq<char>) -> bool {
    exists|i: int| 0 <= i < files.len() && #[trigger] files[i].0@ == path
}

/// The index of the first file at `path`.
pub open spec fn file_index(files: Seq<(String, Vec<u8>)>, path: Seq<char>) -> int {
    choose|i: int|
        0 <= i < files.len() && files[i].0@ == path && forall|j: int|
            0 <= j < i ==> #[trigger] files[j].0@ != path
}

/// The position of the first file at `path`, if any.
pub fn find_file(source: &SkillPackageSource, path: &str) -> (r: Option<usize>)
    ensures
        match r {
            Some(i) => i < source.files@.len() && source.files@[i as int].0@ == path@ && (forall|j: int|
                0 <= j < i ==> #[trigger] source.files@[j].0@ != path@),
            None => !has_file(source.files@, path@),
        },
{
    let mut i: usize = 0;
    while i < source.files.len()
        invariant
            i <= source.files@.len(),
            forall|j: int| 0 <= j < i ==> #[trigger] source.files@[j].0@ != path@,
        decreases source.files.len() - i,
    {
        if str_eq(source.files[i].0.as_str(), path) {
            return Some(i);
        }
        i = i + 1;
    }
    None
}

/// Whether the package has a file at `path`.
pub fn contains_file(source: &SkillPackageSource, path: &str) -> (r: bool)
    ensures
        r == has_file(source.files@, path@),
{
    match find_file(source, path) {
        Some(i) => {
            assert(source.files@[i as int].0@ == path@);
            true
        },
        None => false,
    }
}

// ---------------------------------------------------------------------------
// Paths
// ---------------------------------------------------------------------------
/// The index of the last `c` in `s`.
pub open spec fn last_index(s: Seq<char>, c: char) -> Option<int>
    decreases s.len(),
{
    if s.len() == 0 {
        None
    } else if s.last() == c {
        Some(s.len() - 1)
    } else {
        last_index(s.drop_last(), c)
    }
}

proof fn lemma_last_index(s: Seq<char>, c: char, i: int)
    requires
        0 <= i <= s.len(),
        forall|j: int| i <= j < s.len() ==> s[j] != c,
    ensures
        i > 0 && s[i - 1] == c ==> last_index(s, c) == Some(i - 1),
        i == 0 ==> last_index(s, c) is None,
    decreases s.len(),
{
    if s.len() > 0 && i < s.len() {
        lemma_last_index(s.drop_last(), c, i);
    } else if s.len() > 0 && i == s.len() && i > 0 && s[i - 1] != c {
    } else if i == s.len() && s.len() > 0 && s[i - 1] != c {
    }
}

/// The position of the last `c` in `s`.
fn last_index_of(s: &Vec<char>, c: char) -> (r: Option<usize>)
    ensures
        match last_index(s@, c) {
            Some(i) => r matches Some(k) && k == i && 0 <= i < s@.len(),
            None => r is None,
        },
{
    let mut i: usize = s.len();
    while i > 0
        invariant
            i <= s@.len(),
            forall|j: int| i <= j < s@.len() ==> s@[j] != c,
        decreases i,
    {
        if s[i - 1] == c {
            proof {
                lemma_last_index(s@, c, i as int);
            }
            return Some(i - 1);
        }
        i = i - 1;
    }
    proof {
        lemma_last_index(s@, c, 0);
    }
    None
}

/// The directory part of a path (before its last `/`), if it has one.
pub open spec fn directory_of(path: Seq<char>) -> Option<Seq<char>> {
    match last_index(path, '/') {
        Some(i) => Some(path.subrange(0, i)),
        None => None,
    }
}

fn directory_part(path: &str) -> (r: Option<String>)
    ensures
        match directory_of(path@) {
            Some(d) => r matches Some(x) && x@ == d,
            None => r is None,
        },
{
    let chars = crate::text::chars_of(path);
    match last_index_of(&chars, '/') {
        Some(i) => Some(crate::text::string_from_range(&chars, 0, i)),
        None => None,
    }
}

/// The directory of a package file: empty at the package root.
pub fn package_directory(path: &str) -> (r: String)
    ensures
        r@ == match directory_of(path@) {
            Some(d) => d,
            None => Seq::empty(),
        },
{
    match directory_part(path) {
        Some(d) => d,
        None => String::new(),
    }
}

/// The directory an execution profile's relative paths are resolved in:
/// the directory of a nested `X.yaml`, else the package root.
pub open spec fn profile_directory_spec(path: Seq<char>) -> Seq<char> {
    if ends_with_spec(path, "/X.yaml"@) {
        path.subrange(0, path.len() - 7)
    } else {
        Seq::empty()
    }
}

/// The directory of an execution profile.
pub fn profile_directory(path: &str) -> (r: String)
    ensures
        r@ == profile_directory_spec(path@),
{
    proof {
        reveal_strlit("/X.yaml");
    }
    if ends_with(path, "/X.yaml") {
        let chars = crate::text::chars_of(path);
        crate::text::string_from_range(&chars, 0, chars.len() - 7)
    } else {
        String::new()
    }
}

/// `path` relative to the package: joined to `directory` unless that is the
/// root.
pub open spec fn package_relative_spec(directory: Seq<char>, path: Seq<char>) -> Seq<char> {
    if directory.len() == 0 {
        path
    } else {
        directory + "/"@ + path
    }
}

/// A path relative to the package.
pub fn package_relative(directory: &str, path: &str) -> (r: String)
    ensures
        r@ == package_relative_spec(directory@, path@),
{
    if directory.unicode_len() == 0 {
        path.to_owned()
    } else {
        let head = concat(directory, "/");
        concat(head.as_str(), path)
    }
}

/// No segment is empty, `.` or `..`.
pub open spec fn normal_segments(s: Seq<char>) -> bool {
    forall|i: int|
        0 <= i < split_spec(s, '/').len() ==> #[trigger] split_spec(s, '/')[i].len() > 0
            && split_spec(s, '/')[i] != "."@ && split_spec(s, '/')[i] != ".."@
}

fn normal_segments_exec(s: &str) -> (r: bool)
    ensures
        r == normal_segments(s@),
{
    let parts = split_on(s, '/');
    let ghost pv = string_views(parts@);
    let mut i: usize = 0;
    while i < parts.len()
        invariant
            i <= parts@.len(),
            pv == string_views(parts@),
            pv == split_spec(s@, '/'),
            forall|j: int|
                0 <= j < i ==> #[trigger] pv[j].len() > 0 && pv[j] != "."@ && pv[j] != ".."@,
        decreases parts.len() - i,
    {
        let p = parts[i].as_str();
        if p.unicode_len() == 0 || str_eq(p, ".") || str_eq(p, "..") {
            assert(!(pv[i as int].len() > 0 && pv[i as int] != "."@ && pv[i as int] != ".."@));
            return false;
        }
        i = i + 1;
    }
    true
}

/// A process argument that names a package script: trimmed, without a
/// leading `./`, a relative `.js` or `.mjs` path of normal segments.
pub open spec fn script_path_spec(profile_dir: Seq<char>, value: Seq<char>) -> Option<Seq<char>> {
    let t = trim_spec(value);
    let path = if starts_with_spec(t, "./"@) {
        t.subrange(2, t.len() as int)
    } else {
        t
    };
    if (ends_with_spec(path, ".js"@) || ends_with_spec(path, ".mjs"@)) && !starts_with_spec(
        path,
        "/"@,
    ) && !path.contains('\\') && normal_segments(path) {
        Some(package_relative_spec(profile_dir, path))
    } else {
        None
    }
}

/// The package script a process argument names, if any.
pub fn process_script_path(profile_dir: &str, value: &str) -> (r: Option<String>)
    ensures
        match script_path_spec(profile_dir@, value@) {
            Some(p) => r matches Some(x) && x@ == p,
            None => r is None,
        },
{
    proof {
        reveal_strlit("./");
    }
    let t = trim(value);
    let path = if starts_with(t.as_str(), "./") {
        let chars = crate::text::chars_of(t.as_str());
        crate::text::string_from_range(&chars, 2, chars.len())
    } else {
        t
    };
    let p = path.as_str();
    let valid = (ends_with(p, ".js") || ends_with(p, ".mjs")) && !starts_with(p, "/")
        && !contains_char(p, '\\') && normal_segments_exec(p);
    if valid {
        Some(package_relative(profile_dir, p))
    } else {
        None
    }
}

// ---------------------------------------------------------------------------
// Nested packages
// ---------------------------------------------------------------------------
/// The first `k` segments joined by `/`.
pub open spec fn segment_prefix(segs: Seq<Seq<char>>, k: int) -> Seq<char> {
    joined(segs.subrange(0, k), "/"@)
}

/// A file under a directory that holds its own `SKILL.md` belongs to that
/// nested package.
pub open spec fn nested_boundary(files: Seq<(String, Vec<u8>)>, path: Seq<char>) -> bool {
    directory_of(path) is Some && exists|k: int|
        1 <= k <= split_spec(directory_of(path)->0, '/').len() && #[trigger] boundary_at(
            files,
            directory_of(path)->0,
            k,
        )
}

/// The first `k` segments of directory `d` hold a `SKILL.md`.
pub open spec fn boundary_at(files: Seq<(String, Vec<u8>)>, d: Seq<char>, k: int) -> bool {
    has_file(files, segment_prefix(split_spec(d, '/'), k) + "/SKILL.md"@)
}

/// Whether one of the first `limit` leading runs of `segments`, joined by
/// `/`, is a directory that holds a `SKILL.md`.
fn manual_within(source: &SkillPackageSource, segments: &Vec<String>, limit: usize) -> (r: bool)
    requires
        limit <= segments@.len(),
    ensures
        r == exists|k: int|
            1 <= k <= limit && #[trigger] has_file(
                source.files@,
                segment_prefix(string_views(segments@), k) + "/SKILL.md"@,
            ),
{
    let ghost sv = string_views(segments@);
    let mut prefix = String::new();
    let mut k: usize = 0;
    assert(sv.subrange(0, 0) =~= Seq::<Seq<char>>::empty());
    while k < limit
        invariant
            k <= limit <= segments@.len(),
            sv == string_views(segments@),
            prefix@ == segment_prefix(sv, k as int),
            forall|j: int|
                1 <= j <= k ==> !#[trigger] has_file(
                    source.files@,
                    segment_prefix(sv, j) + "/SKILL.md"@,
                ),
        decreases limit - k,
    {
        if k > 0 {
            prefix.append("/");
        }
        prefix.append(segments[k].as_str());
        proof {
            let p = sv.subrange(0, k + 1);
            assert(p.drop_last() =~= sv.subrange(0, k as int));
            if k == 0 {
                assert(Seq::<char>::empty() + sv[0] =~= sv[0]);
            }
        }
        let candidate = concat(prefix.as_str(), "/SKILL.md");
        if contains_file(source, candidate.as_str()) {
            assert(has_file(source.files@, segment_prefix(sv, k + 1) + "/SKILL.md"@));
            return true;
        }
        k = k + 1;
    }
    false
}

/// Whether a file lies inside a nested skill package.
pub fn has_nested_manual_boundary(path: &str, source: &SkillPackageSource) -> (r: bool)
    ensures
        r == nested_boundary(source.files@, path@),
{
    let directory = match directory_part(path) {
        None => {
            return false;
        },
        Some(d) => d,
    };
    let segments = split_on(directory.as_str(), '/');
    let r = manual_within(source, &segments, segments.len());
    proof {
        let d = directory@;
        if r {
            let k = choose|k: int|
                1 <= k <= segments@.len() && #[trigger] has_file(
                    source.files@,
                    segment_prefix(string_views(segments@), k) + "/SKILL.md"@,
                );
            assert(boundary_at(source.files@, d, k));
        } else {
            assert forall|k: int| 1 <= k <= split_spec(d, '/').len() implies !#[trigger] boundary_at(
                source.files@,
                d,
                k,
            ) by {
                assert(!has_file(
                    source.files@,
                    segment_prefix(string_views(segments@), k) + "/SKILL.md"@,
                ));
            }
        }
    }
    r
}

/// The directory of a nested manual: `path` without a final `/SKILL.md`.
pub open spec fn manual_prefix(path: Seq<char>) -> Option<Seq<char>> {
    if ends_with_spec(path, "/SKILL.md"@) {
        Some(path.subrange(0, path.len() - 9))
    } else {
        None
    }
}

/// No shorter leading run of the directory's segments holds a manual.
pub open spec fn outermost_manual(files: Seq<(String, Vec<u8>)>, prefix: Seq<char>) -> bool {
    forall|k: int| 1 <= k < split_spec(prefix, '/').len() ==> !#[trigger] boundary_at(files, prefix, k)
}

/// The directories of the outermost nested manuals among the first `n`
/// files, in file order.
pub open spec fn nested_manual_prefixes(files: Seq<(String, Vec<u8>)>, n: int) -> Seq<Seq<char>>
    decreases n,
{
    if n <= 0 {
        Seq::empty()
    } else {
        let before = nested_manual_prefixes(files, n - 1);
        match manual_prefix(files[n - 1].0@) {
            Some(p) => if outermost_manual(files, p) {
                before.push(p)
            } else {
                before
            },
            None => before,
        }
    }
}

/// The directories of the nested packages directly inside this one: each
/// directory with a `SKILL.md` that no enclosing directory's manual claims.
pub fn immediate_nested_manual_prefixes(source: &SkillPackageSource) -> (r: Vec<String>)
    ensures
        string_views(r@) == nested_manual_prefixes(source.files@, source.files@.len() as int),
{
    let mut r: Vec<String> = Vec::new();
    let mut i: usize = 0;
    while i < source.files.len()
        invariant
            i <= source.files@.len(),
            string_views(r@) == nested_manual_prefixes(source.files@, i as int),
        decreases source.files.len() - i,
    {
        let path = source.files[i].0.as_str();
        if ends_with(path, "/SKILL.md") {
            proof {
                reveal_strlit("/SKILL.md");
            }
            let chars = crate::text::chars_of(path);
            let prefix = crate::text::string_from_range(&chars, 0, chars.len() - 9);
            let segments = split_on(prefix.as_str(), '/');
            let inner = manual_within(source, &segments, segments.len() - 1);
            proof {
                let pv = prefix@;
                assert(manual_prefix(path@) == Some(pv));
                if inner {
                    let k = choose|k: int|
                        1 <= k <= segments@.len() - 1 && #[trigger] has_file(
                            source.files@,
                            segment_prefix(string_views(segments@), k) + "/SKILL.md"@,
                        );
                    assert(boundary_at(source.files@, pv, k));
                    assert(!outermost_manual(source.files@, pv));
                } else {
                    assert forall|k: int| 1 <= k < split_spec(pv, '/').len() implies !#[trigger] boundary_at(
                        source.files@,
                        pv,
                        k,
                    ) by {
                        assert(!has_file(
                            source.files@,
                            segment_prefix(string_views(segments@), k) + "/SKILL.md"@,
                        ));
                    }
                }
            }
            if !inner {
                let ghost before = string_views(r@);
                r.push(prefix);
                assert(string_views(r@) =~= before.push(string_views(r@).last()));
            }
        }
        i = i + 1;
    }
    r
}

/// The package-relative path of `path` inside directory `dir`, if it lies
/// there.
pub open spec fn relative_to(path: Seq<char>, dir: Seq<char>) -> Option<Seq<char>> {
    let p = dir + "/"@;
    if starts_with_spec(path, p) {
        Some(path.subrange(p.len() as int, path.len() as int))
    } else {
        None
    }
}

/// Files by their path and contents.
pub open spec fn file_views(files: Seq<(String, Vec<u8>)>) -> Seq<(Seq<char>, Seq<u8>)> {
    files.map_values(|f: (String, Vec<u8>)| (f.0@, f.1@))
}

/// The files under `dir`, by their paths relative to it, in order.
pub open spec fn files_under(files: Seq<(Seq<char>, Seq<u8>)>, dir: Seq<char>) -> Seq<(Seq<char>, Seq<u8>)>
    decreases files.len(),
{
    if files.len() == 0 {
        Seq::empty()
    } else {
        let before = files_under(files.drop_last(), dir);
        match relative_to(files.last().0, dir) {
            Some(r) => before.push((r, files.last().1)),
            None => before,
        }
    }
}

/// The paths under `dir`, relative to it, in order.
pub open spec fn paths_under(paths: Seq<Seq<char>>, dir: Seq<char>) -> Seq<Seq<char>>
    decreases paths.len(),
{
    if paths.len() == 0 {
        Seq::empty()
    } else {
        let before = paths_under(paths.drop_last(), dir);
        match relative_to(paths.last(), dir) {
            Some(r) => before.push(r),
            None => before,
        }
    }
}

fn relative_path(path: &str, dir_slash: &str) -> (r: Option<String>)
    requires
        dir_slash@.len() >= 1,
        dir_slash@.last() == '/',
    ensures
        match relative_to(path@, dir_slash@.drop_last()) {
            Some(x) => r matches Some(y) && y@ == x,
            None => r is None,
        },
{
    assert(dir_slash@.drop_last() + "/"@ =~= dir_slash@) by {
        reveal_strlit("/");
    }
    if starts_with(path, dir_slash) {
        let chars = crate::text::chars_of(path);
        let n = crate::text::chars_of(dir_slash).len();
        Some(crate::text::string_from_range(&chars, n, chars.len()))
    } else {
        None
    }
}

/// The files and links of the nested package in directory `prefix`, by
/// their paths inside it.
pub fn nested_package_source(source: &SkillPackageSource, prefix: &str) -> (r: SkillPackageSource)
    ensures
        file_views(r.files@) == files_under(file_views(source.files@), prefix@),
        string_views(r.symlinks@) == paths_under(string_views(source.symlinks@), prefix@),
{
    let dir_slash = concat(prefix, "/");
    proof {
        reveal_strlit("/");
        assert(dir_slash@.drop_last() =~= prefix@);
    }
    let ghost fv = file_views(source.files@);
    let mut files: Vec<(String, Vec<u8>)> = Vec::new();
    let mut i: usize = 0;
    assert(fv.subrange(0, 0) =~= Seq::<(Seq<char>, Seq<u8>)>::empty());
    while i < source.files.len()
        invariant
            i <= source.files@.len(),
            fv == file_views(source.files@),
            dir_slash@.len() >= 1,
            dir_slash@.last() == '/',
            dir_slash@.drop_last() == prefix@,
            file_views(files@) == files_under(fv.subrange(0, i as int), prefix@),
        decreases source.files.len() - i,
    {
        assert(fv.subrange(0, i + 1).drop_last() =~= fv.subrange(0, i as int));
        match relative_path(source.files[i].0.as_str(), dir_slash.as_str()) {
            Some(relative) => {
                let contents = source.files[i].1.clone();
                assert(contents@ =~= source.files@[i as int].1@);
                let ghost before = file_views(files@);
                files.push((relative, contents));
                assert(file_views(files@) =~= before.push(file_views(files@).last()));
            },
            None => {},
        }
        i = i + 1;
    }
    assert(fv.subrange(0, source.files@.len() as int) =~= fv);
    let ghost lv = string_views(source.symlinks@);
    let mut symlinks: Vec<String> = Vec::new();
    let mut j: usize = 0;
    assert(lv.subrange(0, 0) =~= Seq::<Seq<char>>::empty());
    while j < source.symlinks.len()
        invariant
            j <= source.symlinks@.len(),
            lv == string_views(source.symlinks@),
            dir_slash@.len() >= 1,
            dir_slash@.last() == '/',
            dir_slash@.drop_last() == prefix@,
            string_views(symlinks@) == paths_under(lv.subrange(0, j as int), prefix@),
        decreases source.symlinks.len() - j,
    {
        assert(lv.subrange(0, j + 1).drop_last() =~= lv.subrange(0, j as int));
        match relative_path(source.symlinks[j].as_str(), dir_slash.as_str()) {
            Some(relative) => {
                let ghost before = string_views(symlinks@);
                symlinks.push(relative);
                assert(string_views(symlinks@) =~= before.push(string_views(symlinks@).last()));
            },
            None => {},
        }
        j = j + 1;
    }
    assert(lv.subrange(0, source.symlinks@.len() as int) =~= lv);
    SkillPackageSource { files, symlinks }
}

/// A file under `dir` keeps its contents, by its relative path, among the
/// files under `dir`.
proof fn lemma_file_under(files: Seq<(Seq<char>, Seq<u8>)>, dir: Seq<char>, i: int)
    requires
        0 <= i < files.len(),
        relative_to(files[i].0, dir) is Some,
    ensures
        files_under(files, dir).contains((relative_to(files[i].0, dir)->0, files[i].1)),
    decreases files.len(),
{
    let before = files_under(files.drop_last(), dir);
    if i == files.len() - 1 {
        assert(files_under(files, dir) == before.push((relative_to(files[i].0, dir)->0, files[i].1)));
        assert(files_under(files, dir)[before.len() as int] == (relative_to(files[i].0, dir)->0, files[i].1));
    } else {
        assert(files.drop_last()[i] == files[i]);
        lemma_file_under(files.drop_last(), dir, i);
        let j = choose|j: int| 0 <= j < before.len() && before[j] == (relative_to(files[i].0, dir)->0, files[i].1);
        match relative_to(files.last().0, dir) {
            Some(r) => assert(files_under(files, dir)[j] == before[j]),
            None => {},
        }
    }
}

/// Every nested package found directly inside a package holds its own
/// manual: the source cut out for it has a `SKILL.md`, with the contents
/// the outer package has for that manual.
pub proof fn lemma_nested_prefix_has_manual(source: SkillPackageSource, k: int)
    requires
        0 <= k < nested_manual_prefixes(source.files@, source.files@.len() as int).len(),
    ensures
        exists|i: int|
            0 <= i < source.files@.len() && #[trigger] files_under(
                file_views(source.files@),
                nested_manual_prefixes(source.files@, source.files@.len() as int)[k],
            ).contains(("SKILL.md"@, source.files@[i].1@)),
{
    lemma_prefix_from_manual(source.files@, source.files@.len() as int, k);
    let files = source.files@;
    let p = nested_manual_prefixes(files, files.len() as int)[k];
    let i = choose|i: int| 0 <= i < files.len() && manual_prefix(#[trigger] files[i].0@) == Some(p);
    let path = files[i].0@;
    reveal_strlit("/SKILL.md");
    reveal_strlit("SKILL.md");
    reveal_strlit("/");
    assert(path == p + "/SKILL.md"@) by {
        assert(path.subrange(path.len() - 9, path.len() as int) == "/SKILL.md"@);
        assert(path =~= path.subrange(0, path.len() - 9) + path.subrange(path.len() - 9, path.len() as int));
    }
    assert(starts_with_spec(path, p + "/"@)) by {
        assert(path.subrange(0, (p + "/"@).len() as int) =~= p + "/"@);
    }
    assert(path.subrange((p + "/"@).len() as int, path.len() as int) =~= "SKILL.md"@);
    let fv = file_views(files);
    assert(fv[i] == (path, files[i].1@));
    lemma_file_under(fv, p, i);
}

/// Each prefix found comes from a manual among the files.
proof fn lemma_prefix_from_manual(files: Seq<(String, Vec<u8>)>, n: int, k: int)
    requires
        0 <= n <= files.len(),
        0 <= k < nested_manual_prefixes(files, n).len(),
    ensures
        exists|i: int|
            0 <= i < n && manual_prefix(#[trigger] files[i].0@) == Some(nested_manual_prefixes(files, n)[k]),
    decreases n,
{
    let before = nested_manual_prefixes(files, n - 1);
    if k < before.len() {
        lemma_prefix_from_manual(files, n - 1, k);
        let i = choose|i: int| 0 <= i < n - 1 && manual_prefix(#[trigger] files[i].0@) == Some(before[k]);
        assert(nested_manual_prefixes(files, n)[k] == before[k]);
        assert(manual_prefix(files[i].0@) == Some(nested_manual_prefixes(files, n)[k]));
    } else {
        assert(manual_prefix(files[n - 1].0@) == Some(nested_manual_prefixes(files, n)[k]));
    }
}

// ---------------------------------------------------------------------------
// Text files
// ---------------------------------------------------------------------------
/// What reading package bytes as text gives: the decoded text, or the
/// message that the bytes are not UTF-8.
pub open spec fn text_result(bytes: Seq<u8>) -> Result<Seq<char>, Seq<char>> {
    if vstd::utf8::valid_utf8(bytes) {
        Ok(vstd::utf8::decode_utf8(bytes))
    } else {
        Err("parser input must be UTF-8: "@ + utf8_error_text(bytes))
    }
}

/// `r` is what reading `bytes` at `path` gives.
pub open spec fn read_as_text(r: Result<String, SkillPackageError>, path: Seq<char>, bytes: Seq<u8>) -> bool {
    match text_result(bytes) {
        Ok(t) => r matches Ok(x) && x@ == t,
        Err(m) => r matches Err(SkillPackageError::Invalid { path: p, message: x }) && p@ == path && x@
            == m,
    }
}

/// The contents of a package file as text.
pub fn text_file(path: &str, bytes: &[u8]) -> (r: Result<String, SkillPackageError>)
    ensures
        read_as_text(r, path@, bytes@),
{
    assert(bytes@.subrange(0, bytes@.len() as int) =~= bytes@);
    match utf8_text(bytes, 0, bytes.len()) {
        Ok(text) => Ok(text),
        Err(error) => Err(
            SkillPackageError::invalid(path, concat("parser input must be UTF-8: ", error.as_str())),
        ),
    }
}

/// The text of a file the package must have.
pub fn required_text_file(source: &SkillPackageSource, path: &str) -> (r: Result<
    String,
    SkillPackageError,
>)
    ensures
        !has_file(source.files@, path@) ==> (r matches Err(
            SkillPackageError::Invalid { path: p, message: m },
        ) && p@ == path@ && m@ == "required package file is missing"@),
        has_file(source.files@, path@) ==> read_as_text(
            r,
            path@,
            source.files@[file_index(source.files@, path@)].1@,
        ),
{
    match find_file(source, path) {
        None => Err(SkillPackageError::invalid(path, "required package file is missing".to_owned())),
        Some(i) => {
            proof {
                let files = source.files@;
                assert(has_file(files, path@));
                let j = file_index(files, path@);
                assert(0 <= i < files.len() && files[i as int].0@ == path@ && forall|m: int|
                    0 <= m < i ==> #[trigger] files[m].0@ != path@);
                assert(j == i as int) by {
                    if j < i {
                        assert(files[j].0@ != path@);
                    } else if j > i {
                        assert(files[i as int].0@ != path@);
                    }
                }
            }
            text_file(path, source.files[i].1.as_slice())
        },
    }
}

/// An operator reference: a Markdown file under a `references` directory
/// that belongs to this package, not a nested one.
pub open spec fn operator_reference(files: Seq<(String, Vec<u8>)>, path: Seq<char>) -> bool {
    &&& (starts_with_spec(path, "references/"@) || contains_spec(path, "/references/"@))
    &&& ends_with_spec(path, ".md"@)
    &&& !nested_boundary(files, path)
}

/// The operator references among the first `n` files, in order, or the
/// first of them that is not text, with its bytes.
pub open spec fn operator_references(files: Seq<(String, Vec<u8>)>, n: int) -> Result<
    Seq<Seq<char>>,
    (Seq<char>, Seq<u8>),
>
    decreases n,
{
    if n <= 0 {
        Ok(Seq::empty())
    } else {
        match operator_references(files, n - 1) {
            Err(e) => Err(e),
            Ok(before) => {
                let f = files[n - 1];
                if !operator_reference(files, f.0@) {
                    Ok(before)
                } else if vstd::utf8::valid_utf8(f.1@) {
                    Ok(before.push(f.0@))
                } else {
                    Err((f.0@, f.1@))
                }
            },
        }
    }
}

/// A file that is not text stays the answer, however many files follow.
proof fn lemma_operator_references_error_stays(files: Seq<(String, Vec<u8>)>, m: int, n: int)
    requires
        0 <= m <= n,
        operator_references(files, m) is Err,
    ensures
        operator_references(files, n) == operator_references(files, m),
    decreases n - m,
{
    if m < n {
        lemma_operator_references_error_stays(files, m, n - 1);
    }
}

/// The package's operator references, each of which must be text.
pub fn validate_operator_reference_files(source: &SkillPackageSource) -> (r: Result<
    Vec<String>,
    SkillPackageError,
>)
    ensures
        match operator_references(source.files@, source.files@.len() as int) {
            Ok(paths) => r matches Ok(v) && string_views(v@) == paths,
            Err((path, bytes)) => r matches Err(SkillPackageError::Invalid { path: p, message: m })
                && p@ == path && m@ == "parser input must be UTF-8: "@ + utf8_error_text(bytes),
        },
{
    let mut found: Vec<String> = Vec::new();
    let mut i: usize = 0;
    while i < source.files.len()
        invariant
            i <= source.files@.len(),
            operator_references(source.files@, i as int) matches Ok(paths) && string_views(found@)
                == paths,
        decreases source.files.len() - i,
    {
        let path = source.files[i].0.as_str();
        if (starts_with(path, "references/") || contains_str(path, "/references/")) && ends_with(
            path,
            ".md",
        ) && !has_nested_manual_boundary(path, source) {
            match text_file(path, source.files[i].1.as_slice()) {
                Err(e) => {
                    proof {
                        lemma_operator_references_error_stays(
                            source.files@,
                            i + 1,
                            source.files@.len() as int,
                        );
                    }
                    return Err(e);
                },
                Ok(_) => {
                    let ghost before = string_views(found@);
                    found.push(path.to_owned());
                    assert(string_views(found@) =~= before.push(path@));
                },
            }
        }
        i = i + 1;
    }
    Ok(found)
}

/// The package's execution profiles: `X.yaml` files outside nested
/// packages, in path order.
pub open spec fn owned_profile(files: Seq<(String, Vec<u8>)>, path: Seq<char>) -> bool {
    (path == "X.yaml"@ || ends_with_spec(path, "/X.yaml"@)) && !nested_boundary(files, path)
}

/// The paths of the package's own execution profiles.
pub fn owned_profile_paths(source: &SkillPackageSource) -> (r: Vec<String>)
    ensures
        string_views(r@) == source.files@.map_values(|f: (String, Vec<u8>)| f.0@).filter(
            |p: Seq<char>| owned_profile(source.files@, p),
        ),
{
    let ghost names = source.files@.map_values(|f: (String, Vec<u8>)| f.0@);
    let ghost pred = |p: Seq<char>| owned_profile(source.files@, p);
    let mut r: Vec<String> = Vec::new();
    let mut i: usize = 0;
    proof {
        reveal(Seq::filter);
        assert(names.subrange(0, 0).filter(pred) =~= Seq::<Seq<char>>::empty());
    }
    while i < source.files.len()
        invariant
            i <= source.files@.len(),
            names == source.files@.map_values(|f: (String, Vec<u8>)| f.0@),
            pred == (|p: Seq<char>| owned_profile(source.files@, p)),
            string_views(r@) == names.subrange(0, i as int).filter(pred),
        decreases source.files.len() - i,
    {
        let path = source.files[i].0.as_str();
        proof {
            reveal(Seq::filter);
            assert(names.subrange(0, i + 1).drop_last() =~= names.subrange(0, i as int));
        }
        if (str_eq(path, "X.yaml") || ends_with(path, "/X.yaml")) && !has_nested_manual_boundary(
            path,
            source,
        ) {
            let ghost before = string_views(r@);
            r.push(path.to_owned());
            assert(string_views(r@) =~= before.push(names[i as int]));
        }
        i = i + 1;
    }
    assert(names.subrange(0, source.files@.len() as int) =~= names);
    r
}

// ---------------------------------------------------------------------------
// Declared files
// ---------------------------------------------------------------------------
/// Every declared execution sidecar must be in the package; the first that
/// is not is reported.
pub fn validate_execution_files(source: &SkillPackageSource, paths: &Vec<String>) -> (r: Result<
    (),
    SkillPackageError,
>)
    ensures
        r is Ok <==> forall|i: int| 0 <= i < paths@.len() ==> has_file(source.files@, #[trigger] paths@[i]@),
        r matches Err(e) ==> exists|i: int|
            0 <= i < paths@.len() && !has_file(source.files@, #[trigger] paths@[i]@)
                && e.path_view() == paths@[i]@ && e is Invalid && e.message_view()
                == "declared execution sidecar is missing from the skill package"@,
{
    let mut i: usize = 0;
    while i < paths.len()
        invariant
            i <= paths@.len(),
            forall|j: int| 0 <= j < i ==> has_file(source.files@, #[trigger] paths@[j]@),
        decreases paths.len() - i,
    {
        if !contains_file(source, paths[i].as_str()) {
            return Err(
                SkillPackageError::invalid(
                    paths[i].as_str(),
                    "declared execution sidecar is missing from the skill package".to_owned(),
                ),
            );
        }
        i = i + 1;
    }
    Ok(())
}

/// A harness file declaration: a normalized profile-relative path under
/// `fixtures/`.
pub open spec fn harness_file_ok(d: Seq<char>) -> bool {
    &&& trim_spec(d) == d
    &&& d.len() > 0
    &&& !starts_with_spec(d, "/"@)
    &&& !d.contains('\\')
    &&& normal_segments(d)
    &&& starts_with_spec(d, "fixtures/"@)
}

fn harness_file_ok_exec(d: &str) -> (r: bool)
    ensures
        r == harness_file_ok(d@),
{
    let t = trim(d);
    str_eq(t.as_str(), d) && d.unicode_len() > 0 && !starts_with(d, "/") && !contains_char(d, '\\')
        && normal_segments_exec(d) && starts_with(d, "fixtures/")
}

/// The field of the `index`-th harness file of a profile.
pub open spec fn harness_field(profile: Seq<char>, index: nat) -> Seq<char> {
    profile + ".harness.files["@ + decimal_digits(index) + "]"@
}

/// A profile's declared harness files, if it has a harness.
#[derive(Debug)]
pub struct ProfileHarness {
    pub profile_path: String,
    pub harness_files: Option<Vec<String>>,
}

/// The result of checking harness files: the package files they resolve
/// to, or the field and message of the first bad declaration.
pub open spec fn harness_files_spec(
    files: Seq<(String, Vec<u8>)>,
    profiles: Seq<ProfileHarness>,
) -> Result<Seq<Seq<char>>, (Seq<char>, Seq<char>)>
    decreases profiles.len(),
{
    if profiles.len() == 0 {
        Ok(Seq::empty())
    } else {
        match harness_files_spec(files, profiles.drop_last()) {
            Err(e) => Err(e),
            Ok(prior) => match profiles.last().harness_files {
                None => Ok(prior),
                Some(declared) => profile_harness_spec(
                    files,
                    profiles.last().profile_path@,
                    declared@,
                    prior,
                    0,
                ),
            },
        }
    }
}

/// One profile's declarations from `index` on.
pub open spec fn profile_harness_spec(
    files: Seq<(String, Vec<u8>)>,
    profile: Seq<char>,
    declared: Seq<String>,
    acc: Seq<Seq<char>>,
    index: int,
) -> Result<Seq<Seq<char>>, (Seq<char>, Seq<char>)>
    decreases declared.len() - index,
{
    if index < 0 || index >= declared.len() {
        Ok(acc)
    } else {
        let d = declared[index]@;
        let dir = match directory_of(profile) {
            Some(x) => x,
            None => Seq::empty(),
        };
        let resolved = package_relative_spec(dir, d);
        if !harness_file_ok(d) {
            Err(
                (
                    harness_field(profile, index as nat),
                    "harness files must be normalized profile-relative paths under fixtures/"@,
                ),
            )
        } else if !has_file(files, resolved) {
            Err(
                (
                    harness_field(profile, index as nat),
                    "declared harness file "@ + debug_quoted(resolved)
                        + " is missing from the package"@,
                ),
            )
        } else {
            profile_harness_spec(files, profile, declared, acc.push(resolved), index + 1)
        }
    }
}

fn harness_field_of(profile: &str, index: usize) -> (r: String)
    ensures
        r@ == harness_field(profile@, index as nat),
{
    let a = concat(profile, ".harness.files[");
    let b = concat(a.as_str(), decimal(index).as_str());
    concat(b.as_str(), "]")
}

/// The harness support files the profiles declare, resolved in the package;
/// each must be a normalized path under `fixtures/` that the package holds.
pub fn validate_harness_support_files(
    source: &SkillPackageSource,
    profiles: &Vec<ProfileHarness>,
) -> (r: Result<Vec<String>, SkillPackageError>)
    ensures
        match harness_files_spec(source.files@, profiles@) {
            Ok(v) => r matches Ok(x) && string_views(x@) == v,
            Err((field, message)) => r matches Err(e) && e is Invalid && e.path_view() == field
                && e.message_view() == message,
        },
{
    let mut out: Vec<String> = Vec::new();
    let mut p: usize = 0;
    assert(string_views(out@) =~= Seq::<Seq<char>>::empty());
    while p < profiles.len()
        invariant
            p <= profiles@.len(),
            harness_files_spec(source.files@, profiles@.subrange(0, p as int)) == Ok::<
                Seq<Seq<char>>,
                (Seq<char>, Seq<char>),
            >(string_views(out@)),
        decreases profiles.len() - p,
    {
        assert(profiles@.subrange(0, p + 1).drop_last() =~= profiles@.subrange(0, p as int));
        let profile = &profiles[p];
        match &profile.harness_files {
            None => {},
            Some(declared) => {
                let dir = package_directory(profile.profile_path.as_str());
                let ghost acc0 = string_views(out@);
                let mut i: usize = 0;
                proof {
                    assert(profiles@.subrange(0, p + 1).last() == profiles@[p as int]);
                }
                while i < declared.len()
                    invariant
                        i <= declared@.len(),
                        p < profiles@.len(),
                        *profile == profiles@[p as int],
                        profile.harness_files == Some(*declared),
                        harness_files_spec(source.files@, profiles@.subrange(0, p as int)) == Ok::<
                            Seq<Seq<char>>,
                            (Seq<char>, Seq<char>),
                        >(acc0),
                        profiles@.subrange(0, p + 1).drop_last() == profiles@.subrange(0, p as int),
                        profiles@.subrange(0, p + 1).last() == profiles@[p as int],
                        dir@ == match directory_of(profile.profile_path@) {
                            Some(x) => x,
                            None => Seq::empty(),
                        },
                        profile_harness_spec(
                            source.files@,
                            profile.profile_path@,
                            declared@,
                            acc0,
                            0,
                        ) == profile_harness_spec(
                            source.files@,
                            profile.profile_path@,
                            declared@,
                            string_views(out@),
                            i as int,
                        ),
                    decreases declared.len() - i,
                {
                    let d = declared[i].as_str();
                    if !harness_file_ok_exec(d) {
                        proof {
                            lemma_harness_err(source.files@, profiles@, p as int);
                        }
                        return Err(
                            SkillPackageError::invalid(
                                harness_field_of(profile.profile_path.as_str(), i).as_str(),
                                "harness files must be normalized profile-relative paths under fixtures/".to_owned(),
                            ),
                        );
                    }
                    let resolved = package_relative(dir.as_str(), d);
                    if !contains_file(source, resolved.as_str()) {
                        let a = concat("declared harness file ", debug_str(resolved.as_str()).as_str());
                        proof {
                            lemma_harness_err(source.files@, profiles@, p as int);
                        }
                        return Err(
                            SkillPackageError::invalid(
                                harness_field_of(profile.profile_path.as_str(), i).as_str(),
                                concat(a.as_str(), " is missing from the package"),
                            ),
                        );
                    }
                    let ghost before = string_views(out@);
                    out.push(resolved);
                    assert(string_views(out@) =~= before.push(
                        package_relative_spec(dir@, declared@[i as int]@),
                    ));
                    i = i + 1;
                }
            },
        }
        p = p + 1;
    }
    assert(profiles@.subrange(0, profiles@.len() as int) =~= profiles@);
    Ok(out)
}

/// A failure in one profile is the failure of the whole list.
proof fn lemma_harness_err(files: Seq<(String, Vec<u8>)>, profiles: Seq<ProfileHarness>, p: int)
    requires
        0 <= p < profiles.len(),
        harness_files_spec(files, profiles.subrange(0, p + 1)) is Err,
    ensures
        harness_files_spec(files, profiles) == harness_files_spec(files, profiles.subrange(0, p + 1)),
    decreases profiles.len() - p,
{
    if p + 1 < profiles.len() {
        assert(profiles.subrange(0, p + 2).drop_last() =~= profiles.subrange(0, p + 1));
        lemma_harness_err(files, profiles, p + 1);
    } else {
        assert(profiles.subrange(0, p + 1) =~= profiles);
    }
}

// ---------------------------------------------------------------------------
// Manual and identity
// ---------------------------------------------------------------------------
/// Frontmatter fields that belong to the execution profile.
pub open spec fn manifest_field(k: Seq<char>) -> bool {
    k == "allowed_tools"@ || k == "artifacts"@ || k == "auth"@ || k == "credentials"@ || k
        == "execution"@ || k == "harness"@ || k == "idempotency"@ || k == "inputs"@ || k
        == "mutating"@ || k == "outputs"@ || k == "retry"@ || k == "risk"@ || k == "runners"@ || k
        == "runtime"@ || k == "source"@
}

/// The manifest fields in the order they are checked.
pub open spec fn manifest_fields() -> Seq<Seq<char>> {
    seq![
        "allowed_tools"@,
        "artifacts"@,
        "auth"@,
        "credentials"@,
        "execution"@,
        "harness"@,
        "idempotency"@,
        "inputs"@,
        "mutating"@,
        "outputs"@,
        "retry"@,
        "risk"@,
        "runners"@,
        "runtime"@,
        "source"@,
    ]
}

pub open spec fn catalog_key(k: Seq<char>) -> bool {
    k == "category"@ || k == "tags"@
}

/// `i` is the first key of `r` that is not a catalog key.
pub open spec fn first_extra(r: Seq<(Seq<char>, JsonModel)>, i: int) -> bool {
    0 <= i < r.len() && !catalog_key(r[i].0) && forall|j: int|
        0 <= j < i ==> catalog_key(#[trigger] r[j].0)
}

/// Why a manual's frontmatter is refused: the first manifest field it
/// holds, else the first key of its `runx` object beyond category and tags.
pub open spec fn ownership_failure(front: Seq<(Seq<char>, JsonModel)>) -> Option<Seq<char>> {
    if exists|i: int| 0 <= i < manifest_fields().len() && has_key(front, #[trigger] manifest_fields()[i]) {
        let i = choose|i: int|
            0 <= i < manifest_fields().len() && has_key(front, manifest_fields()[i]) && forall|j: int|
                0 <= j < i ==> !has_key(front, #[trigger] manifest_fields()[j]);
        Some("SKILL.md."@ + manifest_fields()[i])
    } else {
        match lookup(front, "runx"@) {
            Some(JsonModel::Object(r)) => if exists|i: int|
                0 <= i < r.len() && !catalog_key(#[trigger] r[i].0) {
                let i = choose|i: int| first_extra(r, i);
                Some("SKILL.md.runx."@ + r[i].0)
            } else {
                None
            },
            _ => None,
        }
    }
}

fn manifest_field_names() -> (r: Vec<&'static str>)
    ensures
        r@.len() == manifest_fields().len(),
        forall|i: int| 0 <= i < r@.len() ==> #[trigger] r@[i]@ == manifest_fields()[i],
{
    let r = vec![
        "allowed_tools",
        "artifacts",
        "auth",
        "credentials",
        "execution",
        "harness",
        "idempotency",
        "inputs",
        "mutating",
        "outputs",
        "retry",
        "risk",
        "runners",
        "runtime",
        "source",
    ];
    r
}

/// The manual must not hold execution metadata: no manifest field, and a
/// `runx` object with catalog category and tags only.
#[verifier::spinoff_prover]
pub fn validate_manual_ownership(frontmatter: &JsonObject) -> (r: Result<(), SkillPackageError>)
    ensures
        match ownership_failure(frontmatter@) {
            None => r is Ok,
            Some(field) => r matches Err(e) && e is Invalid && e.path_view() == field,
        },
{
    let fields = manifest_field_names();
    let mut i: usize = 0;
    while i < fields.len()
        invariant
            i <= fields@.len(),
            fields@.len() == manifest_fields().len(),
            forall|k: int| 0 <= k < fields@.len() ==> #[trigger] fields@[k]@ == manifest_fields()[k],
            forall|j: int| 0 <= j < i ==> !has_key(frontmatter@, #[trigger] manifest_fields()[j]),
        decreases fields.len() - i,
    {
        if frontmatter.contains_key(fields[i]) {
            proof {
                let f = manifest_fields();
                assert(has_key(frontmatter@, f[i as int]));
                let c = choose|c: int|
                    0 <= c < f.len() && has_key(frontmatter@, f[c]) && forall|j: int|
                        0 <= j < c ==> !has_key(frontmatter@, #[trigger] f[j]);
                if c < i {
                    assert(!has_key(frontmatter@, f[c]));
                } else if c > i {
                    assert(!has_key(frontmatter@, f[i as int]));
                }
            }
            return Err(
                SkillPackageError::invalid(
                    concat("SKILL.md.", fields[i]).as_str(),
                    "execution metadata belongs in X.yaml; SKILL.md is the operator manual".to_owned(),
                ),
            );
        }
        i = i + 1;
    }
    assert(forall|j: int|
        0 <= j < manifest_fields().len() ==> !has_key(frontmatter@, #[trigger] manifest_fields()[j]));
    match frontmatter.get("runx") {
        Some(JsonValue::Object(runx)) => {
            let n = runx.len();
            let ghost e = runx@;
            assert(lookup(frontmatter@, "runx"@) == Some(JsonModel::Object(e)));
            let mut k: usize = 0;
            while k < n
                invariant
                    k <= n == e.len(),
                    e == runx@,
                    lookup(frontmatter@, "runx"@) == Some(JsonModel::Object(e)),
                    forall|j: int|
                        0 <= j < manifest_fields().len() ==> !has_key(
                            frontmatter@,
                            #[trigger] manifest_fields()[j],
                        ),
                    forall|j: int| 0 <= j < k ==> catalog_key(#[trigger] e[j].0),
                decreases n - k,
            {
                let (key, _) = runx.entry(k);
                if !(str_eq(key.as_str(), "category") || str_eq(key.as_str(), "tags")) {
                    proof {
                        assert(first_extra(e, k as int));
                        assert(!catalog_key(e[k as int].0));
                        let c = choose|i: int| first_extra(e, i);
                        assert(first_extra(e, c));
                        if c < k {
                            assert(catalog_key(e[c].0));
                        } else if c > k {
                            assert(catalog_key(e[k as int].0));
                        }
                        assert(!(exists|i: int|
                            0 <= i < manifest_fields().len() && has_key(
                                frontmatter@,
                                #[trigger] manifest_fields()[i],
                            )));
                        assert(c == k);
                        assert(exists|i: int| 0 <= i < e.len() && !catalog_key(#[trigger] e[i].0));
                        assert(ownership_failure(frontmatter@) == Some("SKILL.md.runx."@ + e[k as int].0));
                    }
                    return Err(
                        SkillPackageError::invalid(
                            concat("SKILL.md.runx.", key.as_str()).as_str(),
                            "execution metadata belongs in X.yaml; SKILL.md.runx may contain only catalog category and tags".to_owned(),
                        ),
                    );
                }
                k = k + 1;
            }
            Ok(())
        },
        _ => Ok(()),
    }
}

/// The skill an execution profile names must be the manual's skill.
pub fn validate_package_identity(skill_name: &str, manifest_skill: Option<&str>) -> (r: Result<
    (),
    SkillPackageError,
>)
    ensures
        match manifest_skill {
            None => r is Ok,
            Some(m) => if m@ == skill_name@ {
                r is Ok
            } else {
                r matches Err(e) && e is Invalid && e.path_view() == "X.yaml.skill"@
                    && e.message_view() == "manifest skill "@ + debug_quoted(m@)
                    + " does not match SKILL.md name "@ + debug_quoted(skill_name@)
            },
        },
{
    let name = match manifest_skill {
        None => {
            return Ok(());
        },
        Some(m) => m,
    };
    if str_eq(name, skill_name) {
        return Ok(());
    }
    let a = concat("manifest skill ", debug_str(name).as_str());
    let b = concat(a.as_str(), " does not match SKILL.md name ");
    Err(SkillPackageError::invalid("X.yaml.skill", concat(b.as_str(), debug_str(skill_name).as_str())))
}

/// A profile may name at most one default runner.
pub fn validate_default_runners(profile_path: &str, defaults: &Vec<bool>) -> (r: Result<
    (),
    SkillPackageError,
>)
    ensures
        r is Ok <==> defaults@.filter(|d: bool| d).len() <= 1,
        r matches Err(e) ==> e is Invalid && e.path_view() == profile_path@ + ".runners"@
            && e.message_view() == "runner selection is ambiguous: declare at most one default runner"@,
{
    let mut count: usize = 0;
    let mut i: usize = 0;
    proof {
        reveal(Seq::filter);
        assert(defaults@.subrange(0, 0).filter(|d: bool| d) =~= Seq::<bool>::empty());
    }
    while i < defaults.len()
        invariant
            i <= defaults@.len(),
            count == defaults@.subrange(0, i as int).filter(|d: bool| d).len(),
            count <= i,
        decreases defaults.len() - i,
    {
        proof {
            reveal(Seq::filter);
            assert(defaults@.subrange(0, i + 1).drop_last() =~= defaults@.subrange(0, i as int));
        }
        if defaults[i] {
            count = count + 1;
        }
        i = i + 1;
    }
    assert(defaults@.subrange(0, defaults@.len() as int) =~= defaults@);
    if count > 1 {
        return Err(
            SkillPackageError::invalid(
                concat(profile_path, ".runners").as_str(),
                "runner selection is ambiguous: declare at most one default runner".to_owned(),
            ),
        );
    }
    Ok(())
}

/// The context skill references of a graph step, which must not repeat.
pub fn collect_step_context_refs(step_field: &str, references: &Vec<String>) -> (r: Result<
    Vec<String>,
    SkillPackageError,
>)
    ensures
        r is Ok <==> (forall|i: int, j: int|
            0 <= i < j < references@.len() ==> #[trigger] references@[i]@ != #[trigger] references@[j]@),
        r matches Ok(v) ==> string_views(v@) == string_views(references@),
        r matches Err(e) ==> e is Invalid && e.path_view() == step_field@ + ".context_skills"@
            && exists|j: int|
            0 <= j < references@.len() && e.message_view() == "context skill ref "@ + debug_quoted(
                #[trigger] references@[j]@,
            ) + " is declared more than once"@,
{
    let mut seen = crate::string_set::StringSet::new();
    let mut out: Vec<String> = Vec::new();
    let mut i: usize = 0;
    assert(string_views(out@) =~= string_views(references@.subrange(0, 0)));
    while i < references.len()
        invariant
            i <= references@.len(),
            seen@ == string_views(references@.subrange(0, i as int)).to_set(),
            string_views(out@) == string_views(references@.subrange(0, i as int)),
            forall|a: int, b: int|
                0 <= a < b < i ==> #[trigger] references@[a]@ != #[trigger] references@[b]@,
        decreases references.len() - i,
    {
        let reference = references[i].as_str();
        let ghost prefix = string_views(references@.subrange(0, i as int));
        assert(string_views(references@.subrange(0, i + 1)) =~= prefix.push(references@[i as int]@));
        if seen.contains(reference) {
            proof {
                let a = choose|a: int| 0 <= a < prefix.len() && prefix[a] == reference@;
                assert(references@[a]@ == references@[i as int]@);
            }
            let field = concat(step_field, ".context_skills");
            let a = concat("context skill ref ", debug_str(reference).as_str());
            return Err(
                SkillPackageError::invalid(
                    field.as_str(),
                    concat(a.as_str(), " is declared more than once"),
                ),
            );
        }
        proof {
            assert forall|a: int| 0 <= a < i implies references@[a]@ != references@[i as int]@ by {
                if references@[a]@ == references@[i as int]@ {
                    assert(prefix[a] == reference@);
                    assert(prefix.contains(reference@));
                }
            }
            prefix.lemma_push_to_set_commute(reference@);
        }
        seen.insert(reference.to_owned());
        out.push(reference.to_owned());
        i = i + 1;
    }
    assert(references@.subrange(0, references@.len() as int) =~= references@);
    Ok(out)
}

// ---------------------------------------------------------------------------
// Digests
// ---------------------------------------------------------------------------
/// The SHA-256 digest of some bytes.
pub uninterp spec fn sha256_digest(data: Seq<u8>) -> Seq<u8>;

/// SHA-256 of `data`.
///
/// Trusted: calls `sha2::Sha256::digest`, whose output is the 32-byte
/// SHA-256 digest of its input and depends on nothing else.
#[verifier::external_body]
fn sha256(data: &[u8]) -> (r: Vec<u8>)
    ensures
        r@ == sha256_digest(data@),
        r@.len() == 32,
{
    <sha2::Sha256 as sha2::Digest>::digest(data).to_vec()
}

pub open spec fn hex_digit_lower(d: u8) -> char {
    if d < 10 {
        ((d + 0x30) as u8) as char
    } else {
        ((d + 0x57) as u8) as char
    }
}

/// Lowercase hexadecimal, two digits per byte.
pub open spec fn hex_lower(b: Seq<u8>) -> Seq<char>
    decreases b.len(),
{
    if b.len() == 0 {
        Seq::empty()
    } else {
        hex_lower(b.drop_last()).push(hex_digit_lower(b.last() / 16)).push(
            hex_digit_lower(b.last() % 16),
        )
    }
}

fn hex_char(d: u8) -> (r: char)
    requires
        d < 16,
    ensures
        r == hex_digit_lower(d),
{
    if d < 10 {
        ((d + 0x30) as u8) as char
    } else {
        ((d + 0x57) as u8) as char
    }
}

/// Lowercase hexadecimal of some bytes.
pub fn hex_encode(bytes: &[u8]) -> (r: String)
    ensures
        r@ == hex_lower(bytes@),
{
    let mut out = String::new();
    let mut i: usize = 0;
    while i < bytes.len()
        invariant
            i <= bytes@.len(),
            out@ == hex_lower(bytes@.subrange(0, i as int)),
        decreases bytes.len() - i,
    {
        assert(bytes@.subrange(0, i + 1).drop_last() =~= bytes@.subrange(0, i as int));
        let b = bytes[i];
        crate::text::push_char(&mut out, hex_char(b / 16));
        crate::text::push_char(&mut out, hex_char(b % 16));
        i = i + 1;
    }
    assert(bytes@.subrange(0, bytes@.len() as int) =~= bytes@);
    out
}

/// The lowercase hex SHA-256 of `data`.
pub fn sha256_hex(data: &[u8]) -> (r: String)
    ensures
        r@ == hex_lower(sha256_digest(data@)),
{
    let digest = sha256(data);
    hex_encode(digest.as_slice())
}

/// `sha256:` and the lowercase hex SHA-256 of `data`.
pub fn sha256_prefixed(data: &[u8]) -> (r: String)
    ensures
        r@ == "sha256:"@ + hex_lower(sha256_digest(data@)),
{
    concat("sha256:", sha256_hex(data).as_str())
}

/// The eight big-endian bytes of `n`.
pub open spec fn be64(n: nat) -> Seq<u8> {
    seq![
        ((n / 0x100000000000000) % 256) as u8,
        ((n / 0x1000000000000) % 256) as u8,
        ((n / 0x10000000000) % 256) as u8,
        ((n / 0x100000000) % 256) as u8,
        ((n / 0x1000000) % 256) as u8,
        ((n / 0x10000) % 256) as u8,
        ((n / 0x100) % 256) as u8,
        (n % 256) as u8,
    ]
}

proof fn lemma_be64_value(x: u64)
    ensures
        x == ((x / 0x100000000000000) % 256) * 0x100000000000000 + ((x / 0x1000000000000) % 256)
            * 0x1000000000000 + ((x / 0x10000000000) % 256) * 0x10000000000 + ((x / 0x100000000)
            % 256) * 0x100000000 + ((x / 0x1000000) % 256) * 0x1000000 + ((x / 0x10000) % 256)
            * 0x10000 + ((x / 0x100) % 256) * 0x100 + x % 256,
{
    assert(x == ((x / 0x100000000000000) % 256) * 0x100000000000000 + ((x / 0x1000000000000) % 256)
        * 0x1000000000000 + ((x / 0x10000000000) % 256) * 0x10000000000 + ((x / 0x100000000) % 256)
        * 0x100000000 + ((x / 0x1000000) % 256) * 0x1000000 + ((x / 0x10000) % 256) * 0x10000 + ((x
        / 0x100) % 256) * 0x100 + x % 256) by (bit_vector);
}

/// A length below 2^64 is the one its eight big-endian bytes spell.
proof fn lemma_be64_injective(n: nat, m: nat)
    requires
        n < 0x10000000000000000,
        m < 0x10000000000000000,
        be64(n) == be64(m),
    ensures
        n == m,
{
    let x = n as u64;
    let y = m as u64;
    lemma_be64_value(x);
    lemma_be64_value(y);
    assert(be64(n)[0] == be64(m)[0]);
    assert(be64(n)[1] == be64(m)[1]);
    assert(be64(n)[2] == be64(m)[2]);
    assert(be64(n)[3] == be64(m)[3]);
    assert(be64(n)[4] == be64(m)[4]);
    assert(be64(n)[5] == be64(m)[5]);
    assert(be64(n)[6] == be64(m)[6]);
    assert(be64(n)[7] == be64(m)[7]);
}

/// A length-prefixed field of the canonical package encoding.
pub open spec fn digest_field(v: Seq<u8>) -> Seq<u8> {
    be64(v.len()) + v
}

pub(crate) fn push_bytes(target: &mut Vec<u8>, bytes: &[u8])
    ensures
        final(target)@ == old(target)@ + bytes@,
{
    let mut i: usize = 0;
    while i < bytes.len()
        invariant
            i <= bytes@.len(),
            target@ == old(target)@ + bytes@.subrange(0, i as int),
        decreases bytes.len() - i,
    {
        target.push(bytes[i]);
        assert(target@ =~= old(target)@ + bytes@.subrange(0, i + 1));
        i = i + 1;
    }
    assert(bytes@.subrange(0, bytes@.len() as int) =~= bytes@);
}

/// Appends a length-prefixed field.
pub fn append_digest_field(target: &mut Vec<u8>, value: &[u8])
    ensures
        final(target)@ == old(target)@ + digest_field(value@),
{
    let n = value.len() as u64;
    let mut prefix: Vec<u8> = Vec::new();
    prefix.push(((n / 0x100000000000000) % 256) as u8);
    prefix.push(((n / 0x1000000000000) % 256) as u8);
    prefix.push(((n / 0x10000000000) % 256) as u8);
    prefix.push(((n / 0x100000000) % 256) as u8);
    prefix.push(((n / 0x1000000) % 256) as u8);
    prefix.push(((n / 0x10000) % 256) as u8);
    prefix.push(((n / 0x100) % 256) as u8);
    prefix.push((n % 256) as u8);
    assert(prefix@ =~= be64(value@.len()));
    push_bytes(target, prefix.as_slice());
    push_bytes(target, value);
    assert(final(target)@ =~= old(target)@ + digest_field(value@)) by {
        assert(old(target)@ + prefix@ + value@ =~= old(target)@ + (prefix@ + value@));
    }
}

/// The canonical encoding of a package's files, in order: each path and
/// its contents as length-prefixed fields.
pub open spec fn canonical_fields(files: Seq<(String, Vec<u8>)>) -> Seq<u8>
    decreases files.len(),
{
    if files.len() == 0 {
        Seq::empty()
    } else {
        canonical_fields(files.drop_last()) + digest_field(
            vstd::utf8::encode_utf8(files.last().0@),
        ) + digest_field(files.last().1@)
    }
}

pub open spec fn file_fields(f: (String, Vec<u8>)) -> Seq<u8> {
    digest_field(vstd::utf8::encode_utf8(f.0@)) + digest_field(f.1@)
}

proof fn lemma_canonical_front(files: Seq<(String, Vec<u8>)>)
    requires
        files.len() > 0,
    ensures
        canonical_fields(files) == file_fields(files[0]) + canonical_fields(files.drop_first()),
    decreases files.len(),
{
    if files.len() == 1 {
        assert(files.drop_last() =~= Seq::<(String, Vec<u8>)>::empty());
        assert(files.drop_first() =~= Seq::<(String, Vec<u8>)>::empty());
        assert(canonical_fields(files) =~= file_fields(files[0]) + canonical_fields(files.drop_first()));
    } else {
        let d = files.drop_last();
        lemma_canonical_front(d);
        assert(d[0] == files[0]);
        assert(d.drop_first() =~= files.drop_first().drop_last());
        assert(files.drop_first().last() == files.last());
        assert(canonical_fields(files) =~= file_fields(files[0]) + canonical_fields(files.drop_first()));
    }
}

/// Every path (in UTF-8) and every content of `files` is shorter than 2^64
/// bytes, as a length prefix can state.
pub open spec fn lengths_fit(files: Seq<(String, Vec<u8>)>) -> bool {
    forall|k: int|
        0 <= k < files.len() ==> vstd::utf8::encode_utf8((#[trigger] files[k]).0@).len()
            < 0x10000000000000000 && files[k].1@.len() < 0x10000000000000000
}

proof fn lemma_field_split(a: Seq<u8>, b: Seq<u8>, ra: Seq<u8>, rb: Seq<u8>)
    requires
        a.len() < 0x10000000000000000,
        b.len() < 0x10000000000000000,
        digest_field(a) + ra == digest_field(b) + rb,
    ensures
        a == b,
        ra == rb,
{
    let l = digest_field(a) + ra;
    let r = digest_field(b) + rb;
    assert(be64(a.len()) =~= l.subrange(0, 8));
    assert(be64(b.len()) =~= r.subrange(0, 8));
    lemma_be64_injective(a.len(), b.len());
    assert(a =~= l.subrange(8, 8 + a.len() as int));
    assert(b =~= r.subrange(8, 8 + b.len() as int));
    assert(ra =~= l.subrange(8 + a.len() as int, l.len() as int));
    assert(rb =~= r.subrange(8 + b.len() as int, r.len() as int));
}

proof fn lemma_first_file_decodes(a: Seq<(String, Vec<u8>)>, b: Seq<(String, Vec<u8>)>)
    requires
        a.len() > 0,
        b.len() > 0,
        lengths_fit(a),
        lengths_fit(b),
        canonical_fields(a) == canonical_fields(b),
    ensures
        a[0].0@ == b[0].0@,
        a[0].1@ == b[0].1@,
        canonical_fields(a.drop_first()) == canonical_fields(b.drop_first()),
{
    lemma_canonical_front(a);
    lemma_canonical_front(b);
    let pa = vstd::utf8::encode_utf8(a[0].0@);
    let pb = vstd::utf8::encode_utf8(b[0].0@);
    let ra = canonical_fields(a.drop_first());
    let rb = canonical_fields(b.drop_first());
    assert(canonical_fields(a) =~= digest_field(pa) + (digest_field(a[0].1@) + ra));
    assert(canonical_fields(b) =~= digest_field(pb) + (digest_field(b[0].1@) + rb));
    lemma_field_split(pa, pb, digest_field(a[0].1@) + ra, digest_field(b[0].1@) + rb);
    lemma_field_split(a[0].1@, b[0].1@, ra, rb);
    vstd::utf8::encode_utf8_decode_utf8(a[0].0@);
    vstd::utf8::encode_utf8_decode_utf8(b[0].0@);
}

/// The canonical encoding is unambiguous: two file lists (with lengths a
/// length prefix can state) that encode alike list the same paths with the
/// same contents, in the same order; so a package digest binds every path
/// and every byte of every file.
pub proof fn lemma_canonical_encoding_unambiguous(a: Seq<(String, Vec<u8>)>, b: Seq<(String, Vec<u8>)>)
    requires
        lengths_fit(a),
        lengths_fit(b),
        canonical_fields(a) == canonical_fields(b),
    ensures
        a.len() == b.len(),
        forall|k: int| 0 <= k < a.len() ==> (#[trigger] a[k]).0@ == b[k].0@ && a[k].1@ == b[k].1@,
    decreases a.len(),
{
    if a.len() == 0 || b.len() == 0 {
        if a.len() > 0 {
            lemma_canonical_front(a);
            assert(canonical_fields(a).len() >= 16);
        }
        if b.len() > 0 {
            lemma_canonical_front(b);
            assert(canonical_fields(b).len() >= 16);
        }
    } else {
        lemma_first_file_decodes(a, b);
        let da = a.drop_first();
        let db = b.drop_first();
        assert(lengths_fit(da)) by {
            assert forall|k: int| 0 <= k < da.len() implies (#[trigger] da[k]) == a[k + 1] by {}
        }
        assert(lengths_fit(db)) by {
            assert forall|k: int| 0 <= k < db.len() implies (#[trigger] db[k]) == b[k + 1] by {}
        }
        lemma_canonical_encoding_unambiguous(da, db);
        assert forall|k: int| 0 <= k < a.len() implies (#[trigger] a[k]).0@ == b[k].0@ && a[k].1@ == b[k].1@ by {
            if k > 0 {
                assert(da[k - 1] == a[k]);
                assert(db[k - 1] == b[k]);
            }
        }
    }
}

/// The header of the canonical package encoding.
pub open spec fn package_header() -> Seq<u8> {
    vstd::utf8::encode_utf8("runx.skill-package.v1\0"@)
}

/// The digest of a package: SHA-256 of its canonical encoding.
pub fn package_digest(files: &Vec<(String, Vec<u8>)>) -> (r: String)
    ensures
        r@ == "sha256:"@ + hex_lower(sha256_digest(package_header() + canonical_fields(files@))),
{
    let mut canonical: Vec<u8> = Vec::new();
    push_bytes(&mut canonical, "runx.skill-package.v1\0".as_bytes());
    assert(canonical@ =~= package_header());
    let mut i: usize = 0;
    assert(files@.subrange(0, 0) =~= Seq::<(String, Vec<u8>)>::empty());
    while i < files.len()
        invariant
            i <= files@.len(),
            canonical@ == package_header() + canonical_fields(files@.subrange(0, i as int)),
        decreases files.len() - i,
    {
        assert(files@.subrange(0, i + 1).drop_last() =~= files@.subrange(0, i as int));
        let ghost before = canonical@;
        append_digest_field(&mut canonical, files[i].0.as_str().as_bytes());
        append_digest_field(&mut canonical, files[i].1.as_slice());
        assert(canonical@ =~= package_header() + canonical_fields(files@.subrange(0, i + 1)));
        i = i + 1;
    }
    assert(files@.subrange(0, files@.len() as int) =~= files@);
    sha256_prefixed(canonical.as_slice())
}

// ---------------------------------------------------------------------------
// The validated package
// ---------------------------------------------------------------------------
/// What parsing a package's documents yields for its validation: the
/// manual's name and frontmatter, the skill its profile names, each
/// profile's harness declarations, for each owned profile whether each of
/// its runners is the default, the execution sidecars its sources and tools name, the
/// JavaScript modules they load, and the context skills its sources
/// reference.
#[derive(Debug)]
pub struct ParsedPackageParts {
    pub manual_name: String,
    pub manual_frontmatter: JsonObject,
    pub manifest_skill: Option<String>,
    pub harness: Vec<ProfileHarness>,
    pub profile_defaults: Vec<(String, Vec<bool>)>,
    pub execution_files: Vec<String>,
    pub module_files: Vec<String>,
    pub context_skill_refs: Vec<String>,
}

/// A validated skill package: its manual, its digests, and the files its
/// validation read.
#[derive(Debug)]
pub struct ValidatedSkillPackage {
    pub manual_markdown: String,
    pub manual_digest: String,
    pub package_digest: String,
    pub source_digests: Vec<(String, String)>,
    pub profiles: Vec<String>,
    pub execution_files: Vec<String>,
    pub harness_files: Vec<String>,
    pub consumed_files: Vec<String>,
    pub context_skill_refs: Vec<String>,
}

pub open spec fn ambiguous_default_message() -> Seq<char> {
    "runner selection is ambiguous: declare at most one default runner"@
}

/// A profile's runners (by whether each is the default) name at most one
/// default.
pub open spec fn default_count_ok(profile: (String, Vec<bool>)) -> bool {
    profile.1@.filter(|d: bool| d).len() <= 1
}

/// Each profile declares at most one default runner.
pub open spec fn defaults_unambiguous(profiles: Seq<(String, Vec<bool>)>) -> bool {
    forall|i: int| 0 <= i < profiles.len() ==> default_count_ok(#[trigger] profiles[i])
}

/// Every owned profile declares at most one default runner; the first
/// that declares more is reported at its `runners`.
pub fn validate_profile_defaults(profiles: &Vec<(String, Vec<bool>)>) -> (r: Result<(), SkillPackageError>)
    ensures
        r is Ok <==> defaults_unambiguous(profiles@),
        r matches Err(e) ==> exists|i: int|
            0 <= i < profiles@.len() && !default_count_ok(#[trigger] profiles@[i]) && (forall|j: int|
                0 <= j < i ==> default_count_ok(#[trigger] profiles@[j])) && e is Invalid && e.path_view()
                == profiles@[i].0@ + ".runners"@ && e.message_view() == ambiguous_default_message(),
{
    let mut i: usize = 0;
    while i < profiles.len()
        invariant
            i <= profiles@.len(),
            forall|j: int| 0 <= j < i ==> default_count_ok(#[trigger] profiles@[j]),
        decreases profiles.len() - i,
    {
        match validate_default_runners(profiles[i].0.as_str(), &profiles[i].1) {
            Ok(()) => {},
            Err(e) => {
                assert(!default_count_ok(profiles@[i as int]));
                return Err(e);
            },
        }
        i = i + 1;
    }
    Ok(())
}

/// `sha256:` and the lowercase hex SHA-256 of some bytes.
pub open spec fn digest_text(data: Seq<u8>) -> Seq<char> {
    "sha256:"@ + hex_lower(sha256_digest(data))
}

/// The bytes of the package's manual.
pub open spec fn manual_bytes(files: Seq<(String, Vec<u8>)>) -> Seq<u8> {
    files[file_index(files, "SKILL.md"@)].1@
}

/// Every check of a package passes, in this order: the manual is there and
/// is text; its frontmatter holds no execution metadata; the profile names
/// the manual's skill; every declared sidecar is there; the harness files
/// are well declared and there; every operator reference is text.
pub open spec fn package_checks_pass(files: Seq<(String, Vec<u8>)>, parts: ParsedPackageParts) -> bool {
    &&& has_file(files, "SKILL.md"@)
    &&& vstd::utf8::valid_utf8(manual_bytes(files))
    &&& ownership_failure(parts.manual_frontmatter@) is None
    &&& defaults_unambiguous(parts.profile_defaults@)
    &&& (parts.manifest_skill matches Some(m) ==> m@ == parts.manual_name@)
    &&& (forall|i: int| 0 <= i < parts.execution_files@.len() ==> has_file(files, #[trigger] parts.execution_files@[i]@))
    &&& harness_files_spec(files, parts.harness@) is Ok
    &&& operator_references(files, files.len() as int) is Ok
}

/// The files a valid package's validation read: its manual, its profiles,
/// its modules, its sidecars, its harness files and its operator
/// references.
pub open spec fn consumed_spec(files: Seq<(String, Vec<u8>)>, parts: ParsedPackageParts) -> Set<Seq<char>> {
    set!["SKILL.md"@] + files.map_values(|f: (String, Vec<u8>)| f.0@).filter(
        |p: Seq<char>| owned_profile(files, p),
    ).to_set() + string_views(parts.module_files@).to_set() + string_views(parts.execution_files@).to_set()
        + harness_files_spec(files, parts.harness@)->Ok_0.to_set() + operator_references(
        files,
        files.len() as int,
    )->Ok_0.to_set()
}

/// Validates a package whose documents were parsed into `parts` and
/// assembles it: the manual's text and digest, each file's digest, the
/// package digest, the harness files and the consumed files, in order and
/// without repeats. The first failing check is reported.
pub fn validate_skill_package(source: &SkillPackageSource, parts: &ParsedPackageParts) -> (r: Result<
    ValidatedSkillPackage,
    SkillPackageError,
>)
    ensures
        r is Ok <==> package_checks_pass(source.files@, *parts),
        r matches Ok(v) ==> {
            &&& v.manual_markdown@ == vstd::utf8::decode_utf8(manual_bytes(source.files@))
            &&& v.manual_digest@ == digest_text(manual_bytes(source.files@))
            &&& v.package_digest@ == digest_text(package_header() + canonical_fields(source.files@))
            &&& v.source_digests@.len() == source.files@.len()
            &&& forall|i: int|
                0 <= i < source.files@.len() ==> (#[trigger] v.source_digests@[i]).0@ == source.files@[i].0@
                    && v.source_digests@[i].1@ == digest_text(source.files@[i].1@)
            &&& string_views(v.harness_files@) == harness_files_spec(source.files@, parts.harness@)->Ok_0
            &&& strictly_sorted(string_views(v.consumed_files@))
            &&& string_views(v.consumed_files@).to_set() == consumed_spec(source.files@, *parts)
            &&& string_views(v.profiles@) == source.files@.map_values(|f: (String, Vec<u8>)| f.0@).filter(
                |p: Seq<char>| owned_profile(source.files@, p),
            )
            &&& strictly_sorted(string_views(v.execution_files@))
            &&& string_views(v.execution_files@).to_set() == string_views(parts.execution_files@).to_set()
            &&& strictly_sorted(string_views(v.context_skill_refs@))
            &&& string_views(v.context_skill_refs@).to_set() == string_views(parts.context_skill_refs@).to_set()
            &&& string_views(v.consumed_files@).to_set().contains("SKILL.md"@)
            &&& string_views(v.profiles@).to_set().subset_of(string_views(v.consumed_files@).to_set())
            &&& string_views(v.execution_files@).to_set().subset_of(
                string_views(v.consumed_files@).to_set(),
            )
            &&& forall|i: int|
                0 <= i < v.execution_files@.len() ==> has_file(
                    source.files@,
                    #[trigger] v.execution_files@[i]@,
                )
        },
        !has_file(source.files@, "SKILL.md"@) ==> (r matches Err(SkillPackageError::Invalid { path, message })
            && path@ == "SKILL.md"@ && message@ == "required package file is missing"@),
        has_file(source.files@, "SKILL.md"@) && !vstd::utf8::valid_utf8(manual_bytes(source.files@)) ==> (
        r matches Err(SkillPackageError::Invalid { path, message }) && path@ == "SKILL.md"@ && message@
            == "parser input must be UTF-8: "@ + utf8_error_text(manual_bytes(source.files@))),
        has_file(source.files@, "SKILL.md"@) && vstd::utf8::valid_utf8(manual_bytes(source.files@))
            && ownership_failure(parts.manual_frontmatter@) is Some ==> (r matches Err(e) && e is Invalid
            && e.path_view() == ownership_failure(parts.manual_frontmatter@)->0),
{
    let manual = match required_text_file(source, "SKILL.md") {
        Ok(text) => text,
        Err(e) => {
            return Err(e);
        },
    };
    match validate_manual_ownership(&parts.manual_frontmatter) {
        Ok(()) => {},
        Err(e) => {
            return Err(e);
        },
    }
    match validate_profile_defaults(&parts.profile_defaults) {
        Ok(()) => {},
        Err(e) => {
            return Err(e);
        },
    }
    let manifest_skill = match &parts.manifest_skill {
        Some(m) => Some(m.as_str()),
        None => None,
    };
    match validate_package_identity(parts.manual_name.as_str(), manifest_skill) {
        Ok(()) => {},
        Err(e) => {
            return Err(e);
        },
    }
    match validate_execution_files(source, &parts.execution_files) {
        Ok(()) => {},
        Err(e) => {
            return Err(e);
        },
    }
    let harness_files = match validate_harness_support_files(source, &parts.harness) {
        Ok(v) => v,
        Err(e) => {
            return Err(e);
        },
    };
    let references = match validate_operator_reference_files(source) {
        Ok(v) => v,
        Err(e) => {
            return Err(e);
        },
    };
    let profiles = owned_profile_paths(source);
    let execution_files = sort_dedup(clone_strings(&parts.execution_files));
    let context_skill_refs = sort_dedup(clone_strings(&parts.context_skill_refs));
    let mut consumed: Vec<String> = Vec::new();
    consumed.push("SKILL.md".to_owned());
    let ghost c0 = string_views(consumed@);
    append_strings(&mut consumed, &profiles);
    append_strings(&mut consumed, &parts.module_files);
    append_strings(&mut consumed, &parts.execution_files);
    append_strings(&mut consumed, &harness_files);
    append_strings(&mut consumed, &references);
    proof {
        let files = source.files@;
        assert(c0 =~= seq!["SKILL.md"@]);
        assert(seq!["SKILL.md"@].to_set() =~= set!["SKILL.md"@]) by {
            assert(seq!["SKILL.md"@][0] == "SKILL.md"@);
        }
        lemma_concat_to_set(c0, string_views(profiles@));
        let c1 = c0 + string_views(profiles@);
        lemma_concat_to_set(c1, string_views(parts.module_files@));
        let c2 = c1 + string_views(parts.module_files@);
        lemma_concat_to_set(c2, string_views(parts.execution_files@));
        let c3 = c2 + string_views(parts.execution_files@);
        lemma_concat_to_set(c3, string_views(harness_files@));
        let c4 = c3 + string_views(harness_files@);
        lemma_concat_to_set(c4, string_views(references@));
        assert(string_views(consumed@).to_set() =~= consumed_spec(files, *parts));
    }
    let consumed_files = sort_dedup(consumed);
    let mut source_digests: Vec<(String, String)> = Vec::new();
    let mut i: usize = 0;
    while i < source.files.len()
        invariant
            i <= source.files@.len(),
            source_digests@.len() == i,
            forall|j: int|
                0 <= j < i ==> (#[trigger] source_digests@[j]).0@ == source.files@[j].0@
                    && source_digests@[j].1@ == digest_text(source.files@[j].1@),
        decreases source.files.len() - i,
    {
        let d = sha256_prefixed(source.files[i].1.as_slice());
        source_digests.push((source.files[i].0.clone(), d));
        i = i + 1;
    }
    let manual_digest = match find_file(source, "SKILL.md") {
        Some(k) => sha256_prefixed(source.files[k].1.as_slice()),
        None => {
            return Err(SkillPackageError::invalid("SKILL.md", "manual digest is missing".to_owned()));
        },
    };
    proof {
        let files = source.files@;
        let j = file_index(files, "SKILL.md"@);
        assert(has_file(files, "SKILL.md"@));
    }
    let package = package_digest(&source.files);
    proof {
        let files = source.files@;
        let cs = string_views(consumed_files@).to_set();
        assert(cs.contains("SKILL.md"@));
        assert forall|x: Seq<char>| string_views(profiles@).to_set().contains(x) implies cs.contains(x) by {
            assert(string_views(profiles@).contains(x));
        }
        assert forall|x: Seq<char>| string_views(execution_files@).to_set().contains(x) implies cs.contains(
            x,
        ) by {
            assert(string_views(parts.execution_files@).to_set().contains(x));
        }
        assert forall|i: int| 0 <= i < execution_files@.len() implies has_file(
            files,
            #[trigger] execution_files@[i]@,
        ) by {
            let x = execution_files@[i]@;
            assert(string_views(execution_files@)[i] == x);
            assert(string_views(execution_files@).to_set().contains(x));
            assert(string_views(parts.execution_files@).contains(x));
            let k = choose|k: int| 0 <= k < string_views(parts.execution_files@).len() && string_views(
                parts.execution_files@,
            )[k] == x;
            assert(has_file(files, parts.execution_files@[k]@));
        }
    }
    Ok(
        ValidatedSkillPackage {
            manual_markdown: manual,
            manual_digest,
            package_digest: package,
            source_digests,
            profiles,
            execution_files,
            harness_files,
            consumed_files,
            context_skill_refs,
        },
    )
}

fn clone_strings(items: &Vec<String>) -> (r: Vec<String>)
    ensures
        string_views(r@) == string_views(items@),
{
    let mut r: Vec<String> = Vec::new();
    append_strings(&mut r, items);
    assert(string_views(Seq::<String>::empty()) + string_views(items@) =~= string_views(items@));
    r
}

fn append_strings(target: &mut Vec<String>, items: &Vec<String>)
    ensures
        string_views(final(target)@) == string_views(old(target)@) + string_views(items@),
{
    let ghost start = string_views(target@);
    let mut i: usize = 0;
    assert(string_views(items@).subrange(0, 0) =~= Seq::<Seq<char>>::empty());
    while i < items.len()
        invariant
            i <= items@.len(),
            string_views(target@) == start + string_views(items@).subrange(0, i as int),
        decreases items.len() - i,
    {
        let ghost before = string_views(target@);
        target.push(items[i].clone());
        assert(string_views(target@) =~= before.push(items@[i as int]@));
        assert(string_views(items@).subrange(0, i + 1) =~= string_views(items@).subrange(0, i as int).push(
            items@[i as int]@,
        ));
        i = i + 1;
    }
    assert(string_views(items@).subrange(0, items@.len() as int) =~= string_views(items@));
}

proof fn lemma_concat_to_set(a: Seq<Seq<char>>, b: Seq<Seq<char>>)
    ensures
        (a + b).to_set() == a.to_set() + b.to_set(),
{
    broadcast use vstd::seq_lib::group_seq_properties;

    assert((a + b).to_set() =~= a.to_set() + b.to_set()) by {
        assert forall|x: Seq<char>| (a + b).to_set().contains(x) <==> (a.to_set() + b.to_set()).contains(x) by {
            if (a + b).contains(x) {
                let k = choose|k: int| 0 <= k < (a + b).len() && (a + b)[k] == x;
                if k < a.len() {
                    assert(a[k] == x);
                } else {
                    assert(b[k - a.len()] == x);
                }
            }
            if a.contains(x) {
                let k = choose|k: int| 0 <= k < a.len() && a[k] == x;
                assert((a + b)[k] == x);
            }
            if b.contains(x) {
                let k = choose|k: int| 0 <= k < b.len() && b[k] == x;
                assert((a + b)[a.len() + k] == x);
            }
        }
    }
}

} // verus!
