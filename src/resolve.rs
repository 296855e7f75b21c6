use vstd::prelude::*;
use crate::fallback::{abbreviate_path, abbreviated_path, lemma_abbreviated_path_nonempty};
use crate::markers::{
    directory_name, entry_name, extension_of, first_entry_name, last_dot, lemma_first_entry_name_at,
    marker_kind_of, name_in_directory, opt_view, package_json_name, stem_of, json_name_of,
    DirectoryScan, FileEntry, MarkerKind,
};
use crate::text::trimmed;

verus! {

/// How many directories the walk looks at: the start and up to three of its ancestors.
pub const WALK_DEPTH: usize = 4;

/// The name that the first naming directory of `levels` gives.
pub open spec fn first_directory_name(levels: Seq<DirectoryScan>) -> Option<Seq<char>>
    decreases levels.len(),
{
    if levels.len() == 0 {
        None
    } else {
        match directory_name(levels[0]) {
            Some(n) => Some(n),
            None => first_directory_name(levels.drop_first()),
        }
    }
}

/// The directories that the walk looks at: the first `WALK_DEPTH` of `levels`.
pub open spec fn walked(levels: Seq<DirectoryScan>) -> Seq<DirectoryScan> {
    if levels.len() <= WALK_DEPTH {
        levels
    } else {
        levels.take(WALK_DEPTH as int)
    }
}

/// The project name: the one that the walk finds, else the abbreviated path.
pub open spec fn resolved_name(levels: Seq<DirectoryScan>, path: Seq<char>) -> Seq<char> {
    match first_directory_name(walked(levels)) {
        Some(n) => n,
        None => abbreviated_path(path),
    }
}

/// Guesses the name of the project at `project_path` from what its directory and its
/// ancestors hold. `levels[0]` is the directory itself and each next one its parent; only
/// the first `WALK_DEPTH` are looked at. Where none gives a name, the result is the
/// abbreviated path.
pub fn resolve_project_name(levels: &Vec<DirectoryScan>, project_path: &str) -> (r: String)
    ensures
        r@ == resolved_name(levels@, project_path@),
{
    let n = if levels.len() < WALK_DEPTH {
        levels.len()
    } else {
        WALK_DEPTH
    };
    let ghost walk = walked(levels@);
    assert(walk =~= levels@.take(n as int));
    assert(walk.skip(0) =~= walk);
    let mut i: usize = 0;
    while i < n
        invariant
            n <= levels.len(),
            walk == levels@.take(n as int),
            walk == walked(levels@),
            i <= n,
            first_directory_name(walk) == first_directory_name(walk.skip(i as int)),
        decreases n - i,
    {
        assert(walk.skip(i as int).drop_first() =~= walk.skip(i + 1));
        assert(walk.skip(i as int)[0] == levels@[i as int]);
        let found = name_in_directory(&levels[i]);
        match found {
            Some(name) => {
                return name;
            },
            None => {},
        }
        i = i + 1;
    }
    abbreviate_path(project_path)
}

/// The first naming directory is the one at `i`.
pub proof fn lemma_first_directory_name_at(levels: Seq<DirectoryScan>, i: int)
    requires
        0 <= i < levels.len(),
        forall|j: int| 0 <= j < i ==> directory_name(#[trigger] levels[j]) is None,
        directory_name(levels[i]) is Some,
    ensures
        first_directory_name(levels) == directory_name(levels[i]),
    decreases i,
{
    if i > 0 {
        let rest = levels.drop_first();
        assert forall|j: int| 0 <= j < i - 1 implies directory_name(#[trigger] rest[j]) is None by {
            assert(rest[j] == levels[j + 1]);
        }
        assert(directory_name(levels[0]) is None);
        lemma_first_directory_name_at(rest, i - 1);
    }
}

/// Where directory `i` of the walk is the first to give a name, that name is the result.
pub proof fn lemma_resolved_at(levels: Seq<DirectoryScan>, path: Seq<char>, i: int)
    requires
        0 <= i < WALK_DEPTH,
        i < levels.len(),
        forall|j: int| 0 <= j < i ==> directory_name(#[trigger] levels[j]) is None,
        directory_name(levels[i]) is Some,
    ensures
        resolved_name(levels, path) == directory_name(levels[i])->0,
{
    let walk = walked(levels);
    assert forall|j: int| 0 <= j < i implies directory_name(#[trigger] walk[j]) is None by {
        assert(walk[j] == levels[j]);
    }
    assert(walk[i] == levels[i]);
    lemma_first_directory_name_at(walk, i);
}

/// The name is never empty, unless a marker itself gives an empty name.
pub proof fn lemma_resolved_name_nonempty(levels: Seq<DirectoryScan>, path: Seq<char>)
    requires
        first_directory_name(walked(levels)) matches Some(n) ==> n.len() > 0,
    ensures
        resolved_name(levels, path).len() > 0,
{
    lemma_abbreviated_path_nonempty(path);
}

/// A readable `.idea/.name` in a walked directory gives the name, trimmed, whatever else
/// that directory holds, where no directory walked before it gives one.
pub proof fn lemma_idea_name_wins(levels: Seq<DirectoryScan>, path: Seq<char>, i: int)
    requires
        0 <= i < WALK_DEPTH,
        i < levels.len(),
        forall|j: int| 0 <= j < i ==> directory_name(#[trigger] levels[j]) is None,
        levels[i].idea_name is Some,
    ensures
        resolved_name(levels, path) == trimmed(levels[i].idea_name->0@),
{
    lemma_resolved_at(levels, path, i);
}

/// The last `.` of `x`, a `.` and then text without a `.`, is the one after `x`.
pub proof fn lemma_last_dot_before(x: Seq<char>, y: Seq<char>)
    requires
        forall|j: int| 0 <= j < y.len() ==> y[j] != '.',
    ensures
        last_dot(x.push('.') + y) == x.len(),
    decreases y.len(),
{
    if y.len() > 0 {
        assert((x.push('.') + y).drop_last() =~= x.push('.') + y.drop_last());
        lemma_last_dot_before(x, y.drop_last());
    } else {
        assert(x.push('.') + y =~= x.push('.'));
    }
}

/// A `.sln` file gives its stem as the name, where no walked directory before gives a name,
/// its own directory has no readable `.idea/.name`, and no file listed before it names the
/// project.
pub proof fn lemma_solution_file_names_project(
    levels: Seq<DirectoryScan>,
    path: Seq<char>,
    i: int,
    k: int,
    stem: Seq<char>,
)
    requires
        0 <= i < WALK_DEPTH,
        i < levels.len(),
        forall|j: int| 0 <= j < i ==> directory_name(#[trigger] levels[j]) is None,
        levels[i].idea_name is None,
        0 <= k < levels[i].files@.len(),
        forall|m: int| 0 <= m < k ==> entry_name(#[trigger] levels[i].files@[m]) is None,
        stem.len() > 0,
        levels[i].files@[k].name@ == stem + seq!['.', 's', 'l', 'n'],
    ensures
        resolved_name(levels, path) == stem,
{
    let files = levels[i].files@;
    let name = files[k].name@;
    let ext = seq!['s', 'l', 'n'];
    lemma_last_dot_before(stem, ext);
    assert(stem.push('.') + ext =~= name);
    assert(name.len() != 2);
    assert(name.take(stem.len() as int) =~= stem);
    assert(name.skip(stem.len() as int + 1) =~= ext);
    assert(stem_of(name) == stem);
    assert(extension_of(name) == Some(ext));
    assert(marker_kind_of(name) == MarkerKind::Solution);
    lemma_first_entry_name_at(files, k);
    lemma_resolved_at(levels, path, i);
}

/// A `package.json` whose text holds a `name` string gives that string as the name, where
/// no walked directory before gives a name, its own directory has no readable
/// `.idea/.name`, and no file listed before it names the project.
pub proof fn lemma_package_json_names_project(
    levels: Seq<DirectoryScan>,
    path: Seq<char>,
    i: int,
    k: int,
)
    requires
        0 <= i < WALK_DEPTH,
        i < levels.len(),
        forall|j: int| 0 <= j < i ==> directory_name(#[trigger] levels[j]) is None,
        levels[i].idea_name is None,
        0 <= k < levels[i].files@.len(),
        forall|m: int| 0 <= m < k ==> entry_name(#[trigger] levels[i].files@[m]) is None,
        levels[i].files@[k].name@ == package_json_name(),
        levels[i].files@[k].content matches Some(c) && json_name_of(c@) is Some,
    ensures
        resolved_name(levels, path) == json_name_of(levels[i].files@[k].content->0@)->0,
{
    let files = levels[i].files@;
    let name = files[k].name@;
    let base = seq!['p', 'a', 'c', 'k', 'a', 'g', 'e'];
    let ext = seq!['j', 's', 'o', 'n'];
    lemma_last_dot_before(base, ext);
    assert(base.push('.') + ext =~= name);
    assert(name.len() != 2);
    assert(name.skip(base.len() as int + 1) =~= ext);
    assert(extension_of(name) == Some(ext));
    assert(marker_kind_of(name) == MarkerKind::PackageJson);
    lemma_first_entry_name_at(files, k);
    lemma_resolved_at(levels, path, i);
}

/// Two listings of a file that read the same text.
pub open spec fn same_entry_text(a: FileEntry, b: FileEntry) -> bool {
    a.name@ == b.name@ && opt_view(a.content) == opt_view(b.content)
}

/// Two scans of a directory that read the same text, with files listed in the same order.
pub open spec fn same_scan_text(a: DirectoryScan, b: DirectoryScan) -> bool {
    &&& opt_view(a.idea_name) == opt_view(b.idea_name)
    &&& a.files@.len() == b.files@.len()
    &&& forall|m: int|
        0 <= m < a.files@.len() ==> same_entry_text(#[trigger] a.files@[m], b.files@[m])
}

proof fn lemma_first_entry_name_same_text(a: Seq<FileEntry>, b: Seq<FileEntry>)
    requires
        a.len() == b.len(),
        forall|m: int| 0 <= m < a.len() ==> same_entry_text(#[trigger] a[m], b[m]),
    ensures
        first_entry_name(a) == first_entry_name(b),
    decreases a.len(),
{
    if a.len() > 0 {
        assert(same_entry_text(a[0], b[0]));
        assert(entry_name(a[0]) == entry_name(b[0]));
        assert forall|m: int| 0 <= m < a.len() - 1 implies same_entry_text(
            #[trigger] a.drop_first()[m],
            b.drop_first()[m],
        ) by {
            assert(same_entry_text(a[m + 1], b[m + 1]));
        }
        lemma_first_entry_name_same_text(a.drop_first(), b.drop_first());
    }
}

proof fn lemma_first_directory_name_same_text(a: Seq<DirectoryScan>, b: Seq<DirectoryScan>)
    requires
        a.len() == b.len(),
        forall|j: int| 0 <= j < a.len() ==> same_scan_text(#[trigger] a[j], b[j]),
    ensures
        first_directory_name(a) == first_directory_name(b),
    decreases a.len(),
{
    if a.len() > 0 {
        assert(same_scan_text(a[0], b[0]));
        lemma_first_entry_name_same_text(a[0].files@, b[0].files@);
        assert(directory_name(a[0]) == directory_name(b[0]));
        assert forall|j: int| 0 <= j < a.len() - 1 implies same_scan_text(
            #[trigger] a.drop_first()[j],
            b.drop_first()[j],
        ) by {
            assert(same_scan_text(a[j + 1], b[j + 1]));
        }
        lemma_first_directory_name_same_text(a.drop_first(), b.drop_first());
    }
}

/// Resolving twice over a tree that has not changed, and so reads the same text in the
/// same order, gives the same name.
pub proof fn lemma_resolve_repeatable(a: Seq<DirectoryScan>, b: Seq<DirectoryScan>, path: Seq<char>)
    requires
        a.len() == b.len(),
        forall|j: int| 0 <= j < a.len() ==> same_scan_text(#[trigger] a[j], b[j]),
    ensures
        resolved_name(a, path) == resolved_name(b, path),
{
    let wa = walked(a);
    let wb = walked(b);
    assert forall|j: int| 0 <= j < wa.len() implies same_scan_text(#[trigger] wa[j], wb[j]) by {
        assert(wa[j] == a[j]);
        assert(wb[j] == b[j]);
    }
    lemma_first_directory_name_same_text(wa, wb);
}

} // verus!
