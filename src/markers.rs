use vstd::prelude::*;
use crate::text::{chars_of, string_of, trim, trimmed};

verus! {

/// One file of a directory listing: its name, and its text where the name calls for it.
pub struct FileEntry {
    pub name: String,
    pub content: Option<String>,
}

/// What one directory of the walk shows: the text of `.idea/.name` if it could be read,
/// and its files in the order the listing gave them.
pub struct DirectoryScan {
    pub idea_name: Option<String>,
    pub files: Vec<FileEntry>,
}

/// The kinds of file that can name a project.
#[derive(Clone, Copy, Debug, PartialEq, Eq, Structural)]
pub enum MarkerKind {
    Solution,
    RProject,
    CodeWorkspace,
    PackageJson,
    PyProject,
    Other,
}

pub open spec fn opt_view(o: Option<String>) -> Option<Seq<char>> {
    match o {
        Some(s) => Some(s@),
        None => None,
    }
}

/// The index of the last `.` in `s`, or -1 where there is none.
pub open spec fn last_dot(s: Seq<char>) -> int
    decreases s.len(),
{
    if s.len() == 0 {
        -1
    } else if s.last() == '.' {
        s.len() - 1
    } else {
        last_dot(s.drop_last())
    }
}

/// Whether `name` has an extension: a `.` after its first character, and it is not `..`.
pub open spec fn has_extension(name: Seq<char>) -> bool {
    last_dot(name) > 0 && name != seq!['.', '.']
}

/// The file name without its extension.
pub open spec fn stem_of(name: Seq<char>) -> Seq<char> {
    if has_extension(name) {
        name.take(last_dot(name))
    } else {
        name
    }
}

/// What follows the last `.` of the file name, if it has an extension.
pub open spec fn extension_of(name: Seq<char>) -> Option<Seq<char>> {
    if has_extension(name) {
        Some(name.skip(last_dot(name) + 1))
    } else {
        None
    }
}

pub open spec fn sln_ext() -> Seq<char> {
    seq!['s', 'l', 'n']
}

pub open spec fn rproj_ext() -> Seq<char> {
    seq!['R', 'p', 'r', 'o', 'j']
}

pub open spec fn workspace_ext() -> Seq<char> {
    seq!['c', 'o', 'd', 'e', '-', 'w', 'o', 'r', 'k', 's', 'p', 'a', 'c', 'e']
}

pub open spec fn package_json_name() -> Seq<char> {
    seq!['p', 'a', 'c', 'k', 'a', 'g', 'e', '.', 'j', 's', 'o', 'n']
}

pub open spec fn pyproject_name() -> Seq<char> {
    seq!['p', 'y', 'p', 'r', 'o', 'j', 'e', 'c', 't', '.', 't', 'o', 'm', 'l']
}

/// The kind of marker that a file of this name is, by extension first, then by full name.
pub open spec fn marker_kind_of(name: Seq<char>) -> MarkerKind {
    let ext = extension_of(name);
    if ext == Some(sln_ext()) {
        MarkerKind::Solution
    } else if ext == Some(rproj_ext()) {
        MarkerKind::RProject
    } else if ext == Some(workspace_ext()) {
        MarkerKind::CodeWorkspace
    } else if name == package_json_name() {
        MarkerKind::PackageJson
    } else if name == pyproject_name() {
        MarkerKind::PyProject
    } else {
        MarkerKind::Other
    }
}

/// The string at the top-level `name` key of a JSON document.
pub uninterp spec fn json_name_of(text: Seq<char>) -> Option<Seq<char>>;

/// The string at the key `project.name` of a TOML document.
pub uninterp spec fn toml_project_name_of(text: Seq<char>) -> Option<Seq<char>>;

/// Relies on `serde_json::from_str::<serde_json::Value>`, then `Value::get("name")` and
/// `Value::as_str`: the top-level `name` string, or `None` where the text does not parse
/// or holds no such string. The result depends on the text alone.
#[verifier::external_body]
fn json_name(text: &str) -> (r: Option<String>)
    ensures
        opt_view(r) == json_name_of(text@),
{
    match serde_json::from_str::<serde_json::Value>(text) {
        Ok(v) => v.get("name").and_then(|n| n.as_str()).map(|s| s.to_string()),
        Err(_) => None,
    }
}

/// Relies on `str::parse::<toml::Value>`, then `Value::get("project")`, `Value::get("name")`
/// and `Value::as_str`: the `project.name` string, or `None` where the text does not
/// parse or holds no such string. The result depends on the text alone.
#[verifier::external_body]
fn toml_project_name(text: &str) -> (r: Option<String>)
    ensures
        opt_view(r) == toml_project_name_of(text@),
{
    match text.parse::<toml::Value>() {
        Ok(v) => v.get("project").and_then(|p| p.get("name")).and_then(|n| n.as_str()).map(
            |s| s.to_string(),
        ),
        Err(_) => None,
    }
}

/// The name that one file gives, if it is a marker that names the project.
pub open spec fn entry_name(e: FileEntry) -> Option<Seq<char>> {
    match marker_kind_of(e.name@) {
        MarkerKind::Solution | MarkerKind::RProject => Some(stem_of(e.name@)),
        MarkerKind::CodeWorkspace | MarkerKind::PackageJson => match e.content {
            Some(c) => json_name_of(c@),
            None => None,
        },
        MarkerKind::PyProject => match e.content {
            Some(c) => toml_project_name_of(c@),
            None => None,
        },
        MarkerKind::Other => None,
    }
}

/// The name that the first naming file of `files` gives.
pub open spec fn first_entry_name(files: Seq<FileEntry>) -> Option<Seq<char>>
    decreases files.len(),
{
    if files.len() == 0 {
        None
    } else {
        match entry_name(files[0]) {
            Some(n) => Some(n),
            None => first_entry_name(files.drop_first()),
        }
    }
}

/// The name that one directory gives: `.idea/.name` trimmed, else the first naming file.
pub open spec fn directory_name(d: DirectoryScan) -> Option<Seq<char>> {
    match d.idea_name {
        Some(t) => Some(trimmed(t@)),
        None => first_entry_name(d.files@),
    }
}

/// The first naming file is the one at `k`.
pub proof fn lemma_first_entry_name_at(files: Seq<FileEntry>, k: int)
    requires
        0 <= k < files.len(),
        forall|j: int| 0 <= j < k ==> entry_name(#[trigger] files[j]) is None,
        entry_name(files[k]) is Some,
    ensures
        first_entry_name(files) == entry_name(files[k]),
    decreases k,
{
    if k > 0 {
        let rest = files.drop_first();
        assert forall|j: int| 0 <= j < k - 1 implies entry_name(#[trigger] rest[j]) is None by {
            assert(rest[j] == files[j + 1]);
        }
        assert(entry_name(files[0]) is None);
        lemma_first_entry_name_at(rest, k - 1);
    }
}

fn same_chars(a: &Vec<char>, b: &Vec<char>) -> (r: bool)
    ensures
        r == (a@ == b@),
{
    if a.len() != b.len() {
        return false;
    }
    let mut i: usize = 0;
    while i < a.len()
        invariant
            a.len() == b.len(),
            i <= a.len(),
            a@.take(i as int) == b@.take(i as int),
        decreases a.len() - i,
    {
        if a[i] != b[i] {
            assert(a@[i as int] != b@[i as int]);
            return false;
        }
        assert(a@.take(i + 1) =~= a@.take(i as int).push(a@[i as int]));
        assert(b@.take(i + 1) =~= b@.take(i as int).push(b@[i as int]));
        i = i + 1;
    }
    assert(a@ =~= a@.take(i as int));
    assert(b@ =~= b@.take(i as int));
    true
}

/// The index of the last `.` in `v`, if there is one.
fn find_last_dot(v: &Vec<char>) -> (r: Option<usize>)
    ensures
        match r {
            Some(i) => last_dot(v@) == i && i < v.len(),
            None => last_dot(v@) == -1,
        },
{
    let mut j: usize = v.len();
    assert(v@.take(j as int) =~= v@);
    while j > 0
        invariant
            j <= v.len(),
            last_dot(v@) == last_dot(v@.take(j as int)),
        decreases j,
    {
        assert(v@.take(j as int).drop_last() =~= v@.take(j - 1));
        if v[j - 1] == '.' {
            return Some(j - 1);
        }
        j = j - 1;
    }
    None
}

/// The extension of a file name split off: its stem, and the extension if there is one.
pub fn split_extension(name: &Vec<char>) -> (r: (Vec<char>, Option<Vec<char>>))
    ensures
        r.0@ == stem_of(name@),
        match r.1 {
            Some(e) => extension_of(name@) == Some(e@),
            None => extension_of(name@) is None,
        },
{
    let dots = vec!['.', '.'];
    let dot = find_last_dot(name);
    match dot {
        Some(i) => {
            if i == 0 || same_chars(name, &dots) {
                (name.clone(), None)
            } else {
                let mut stem: Vec<char> = Vec::new();
                let mut k: usize = 0;
                while k < i
                    invariant
                        i < name.len(),
                        k <= i,
                        stem@ == name@.take(k as int),
                    decreases i - k,
                {
                    stem.push(name[k]);
                    assert(name@.take(k + 1) =~= name@.take(k as int).push(name@[k as int]));
                    k = k + 1;
                }
                let mut ext: Vec<char> = Vec::new();
                let mut m: usize = i + 1;
                while m < name.len()
                    invariant
                        i < m <= name.len(),
                        ext@ == name@.subrange(i + 1, m as int),
                    decreases name.len() - m,
                {
                    ext.push(name[m]);
                    assert(name@.subrange(i + 1, m + 1) =~= name@.subrange(i + 1, m as int).push(
                        name@[m as int],
                    ));
                    m = m + 1;
                }
                assert(ext@ =~= name@.skip(i + 1));
                (stem, Some(ext))
            }
        },
        None => (name.clone(), None),
    }
}

} // verus!

verus! {

/// The kind of marker that a file of this name is.
pub fn marker_kind(name: &str) -> (r: MarkerKind)
    ensures
        r == marker_kind_of(name@),
{
    let chars = chars_of(name);
    let (_, ext) = split_extension(&chars);
    let sln = vec!['s', 'l', 'n'];
    let rproj = vec!['R', 'p', 'r', 'o', 'j'];
    let workspace = vec!['c', 'o', 'd', 'e', '-', 'w', 'o', 'r', 'k', 's', 'p', 'a', 'c', 'e'];
    let package_json = vec!['p', 'a', 'c', 'k', 'a', 'g', 'e', '.', 'j', 's', 'o', 'n'];
    let pyproject = vec!['p', 'y', 'p', 'r', 'o', 'j', 'e', 'c', 't', '.', 't', 'o', 'm', 'l'];
    assert(sln@ =~= sln_ext());
    assert(rproj@ =~= rproj_ext());
    assert(workspace@ =~= workspace_ext());
    assert(package_json@ =~= package_json_name());
    assert(pyproject@ =~= pyproject_name());
    let by_ext = match &ext {
        Some(e) => {
            if same_chars(e, &sln) {
                MarkerKind::Solution
            } else if same_chars(e, &rproj) {
                MarkerKind::RProject
            } else if same_chars(e, &workspace) {
                MarkerKind::CodeWorkspace
            } else {
                MarkerKind::Other
            }
        },
        None => MarkerKind::Other,
    };
    if by_ext != MarkerKind::Other {
        by_ext
    } else if same_chars(&chars, &package_json) {
        MarkerKind::PackageJson
    } else if same_chars(&chars, &pyproject) {
        MarkerKind::PyProject
    } else {
        MarkerKind::Other
    }
}

impl MarkerKind {
    /// Whether a file of this kind names the project through its text.
    pub fn reads_content(&self) -> (r: bool)
        ensures
            r == (*self == MarkerKind::CodeWorkspace || *self == MarkerKind::PackageJson || *self
                == MarkerKind::PyProject),
    {
        match self {
            MarkerKind::CodeWorkspace | MarkerKind::PackageJson | MarkerKind::PyProject => true,
            _ => false,
        }
    }
}

/// The name that one file gives, if it is a marker that names the project: the stem of a
/// `.sln` or `.Rproj` file, the `name` of a `.code-workspace` or `package.json` file, the
/// `project.name` of `pyproject.toml`.
pub fn name_from_entry(e: &FileEntry) -> (r: Option<String>)
    ensures
        opt_view(r) == entry_name(*e),
{
    let kind = marker_kind(e.name.as_str());
    match kind {
        MarkerKind::Solution | MarkerKind::RProject => {
            let chars = chars_of(e.name.as_str());
            let (stem, _) = split_extension(&chars);
            Some(string_of(&stem, 0, stem.len()))
        },
        MarkerKind::CodeWorkspace | MarkerKind::PackageJson => match &e.content {
            Some(c) => json_name(c.as_str()),
            None => None,
        },
        MarkerKind::PyProject => match &e.content {
            Some(c) => toml_project_name(c.as_str()),
            None => None,
        },
        MarkerKind::Other => None,
    }
}

/// The name that one directory gives: the trimmed text of `.idea/.name` where it was read,
/// else the name of the first file, in listing order, that gives one.
pub fn name_in_directory(d: &DirectoryScan) -> (r: Option<String>)
    ensures
        opt_view(r) == directory_name(*d),
{
    match &d.idea_name {
        Some(t) => {
            return Some(trim(t.as_str()));
        },
        None => {},
    }
    let files = &d.files;
    let mut i: usize = 0;
    assert(files@.skip(0) =~= files@);
    while i < files.len()
        invariant
            i <= files.len(),
            d.idea_name is None,
            files@ == d.files@,
            first_entry_name(files@) == first_entry_name(files@.skip(i as int)),
        decreases files.len() - i,
    {
        assert(files@.skip(i as int).drop_first() =~= files@.skip(i + 1));
        assert(files@.skip(i as int)[0] == files@[i as int]);
        let found = name_from_entry(&files[i]);
        if found.is_some() {
            return found;
        }
        i = i + 1;
    }
    None
}

} // verus!
