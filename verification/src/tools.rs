//! Where the tools are: ncmdump, Demucs, FFmpeg and ffprobe.

use crate::config::string_list;
use crate::letters::{eq_ignore_ascii_case, same_ignoring_ascii_case};
use crate::path::{path_opt, paths_view, FilePath, PathView};
use crate::search::{
    candidates_view, first_existing, first_found, found_at, found_view, lookup, Candidate,
    CandidateView, Found, FoundView,
};
use crate::text::{same_text, texts};
use vstd::prelude::*;

verus! {

// ---------------------------------------------------------------------------
// The directories to search
// ---------------------------------------------------------------------------

/// How many ancestors of a directory are searched, itself included.
pub const ROOT_DEPTH: usize = 4;

/// Whether one of the directories is the path.
pub open spec fn holds_path(dirs: Seq<PathView>, path: PathView) -> bool {
    exists|i: int| 0 <= i < dirs.len() && (#[trigger] dirs[i]).parts == path.parts
}

/// The directories with those of `more` added that are not there yet.
pub open spec fn with_roots(roots: Seq<PathView>, more: Seq<PathView>) -> Seq<PathView>
    decreases more.len(),
{
    if more.len() == 0 {
        roots
    } else {
        let before = with_roots(roots, more.drop_last());
        if holds_path(before, more.last()) {
            before
        } else {
            before.push(more.last())
        }
    }
}

/// A directory and those above it, the nearest first: all of them, or the
/// first `n`.
pub open spec fn ancestry(dir: PathView, n: nat) -> Seq<PathView>
    decreases n,
{
    if n == 0 {
        Seq::empty()
    } else {
        match dir.dir() {
            Some(d) => seq![dir] + ancestry(d, (n - 1) as nat),
            None => seq![dir],
        }
    }
}

/// The directories with `dir` and those above it added.
pub open spec fn with_roots_of(roots: Seq<PathView>, dir: PathView) -> Seq<PathView> {
    with_roots(roots, ancestry(dir, ROOT_DEPTH as nat))
}

/// Whether one of the directories is the path.
fn contains_path(dirs: &Vec<FilePath>, path: &FilePath) -> (yes: bool)
    ensures
        yes == holds_path(paths_view(dirs@), path@),
{
    for i in 0..dirs.len()
        invariant
            forall|j: int| 0 <= j < i ==> (#[trigger] paths_view(dirs@)[j]).parts != path@.parts,
    {
        if dirs[i].same(path) {
            assert(paths_view(dirs@)[i as int].parts == path@.parts);
            return true;
        }
    }
    false
}

/// Adds a directory, unless it is there.
fn push_root(roots: &mut Vec<FilePath>, dir: &FilePath)
    ensures
        paths_view(final(roots)@) == (if holds_path(paths_view(old(roots)@), dir@) {
            paths_view(old(roots)@)
        } else {
            paths_view(old(roots)@).push(dir@)
        }),
{
    if !contains_path(roots, dir) {
        let ghost before = paths_view(roots@);
        let d = dir.clone();
        roots.push(d);
        assert(paths_view(roots@) == before.push(d@));
    }
}

/// Adds a directory and those above it to the directories to search: at most
/// `ROOT_DEPTH` of them, the nearest first, and none twice.
pub fn push_tool_roots(roots: &mut Vec<FilePath>, root: &FilePath)
    ensures
        paths_view(final(roots)@) == with_roots_of(paths_view(old(roots)@), root@),
{
    let ghost start = paths_view(roots@);
    let ghost all = ancestry(root@, ROOT_DEPTH as nat);
    let ghost mut done = seq![root@];
    let mut n: usize = 1;
    let mut next = root.parent_path();
    proof {
        assert(done.drop_last() == Seq::<PathView>::empty());
        assert(with_roots(start, Seq::<PathView>::empty()) == start);
        assert(all == done + ancestry_above(path_opt(next), (ROOT_DEPTH - 1) as nat));
    }
    push_root(roots, root);
    while n < ROOT_DEPTH && next.is_some()
        invariant
            1 <= n <= ROOT_DEPTH,
            all == done + ancestry_above(path_opt(next), (ROOT_DEPTH - n) as nat),
            paths_view(roots@) == with_roots(start, done),
        decreases ROOT_DEPTH - n,
    {
        if let Some(dir) = next {
            let ghost longer = done.push(dir@);
            assert(longer.drop_last() == done);
            push_root(roots, &dir);
            next = dir.parent_path();
            assert(all == longer + ancestry_above(path_opt(next), (ROOT_DEPTH - n - 1) as nat));
            proof {
                done = longer;
            }
        }
        n = n + 1;
    }
    assert(all == done);
}

/// The directory that a path lies in, if it lies in one, and those above it.
spec fn ancestry_above(dir: Option<PathView>, n: nat) -> Seq<PathView> {
    match dir {
        Some(d) => ancestry(d, n),
        None => Seq::empty(),
    }
}

/// The directories with those of `dir` added, if that is known.
pub open spec fn with_roots_of_known(roots: Seq<PathView>, dir: Option<PathView>) -> Seq<PathView> {
    match dir {
        Some(d) => with_roots_of(roots, d),
        None => roots,
    }
}

/// The directories to search: that of the program and those above it, then
/// the working directory and those above it, as far as they are known, and
/// none of them twice.
pub fn tool_roots(program_dir: &Option<FilePath>, working_dir: &Option<FilePath>) -> (roots: Vec<
    FilePath,
>)
    ensures
        paths_view(roots@) == with_roots_of_known(
            with_roots_of_known(Seq::empty(), path_opt(*program_dir)),
            path_opt(*working_dir),
        ),
        none_twice(paths_view(roots@)),
{
    let mut roots: Vec<FilePath> = Vec::new();
    assert(paths_view(roots@) == Seq::<PathView>::empty());
    if let Some(dir) = program_dir {
        proof {
            law_roots_once(paths_view(roots@), dir@);
        }
        push_tool_roots(&mut roots, dir);
    }
    if let Some(dir) = working_dir {
        proof {
            law_roots_once(paths_view(roots@), dir@);
        }
        push_tool_roots(&mut roots, dir);
    }
    roots
}

/// Whether no two of the directories are the same.
pub open spec fn none_twice(roots: Seq<PathView>) -> bool {
    forall|i: int, j: int|
        #![trigger roots[i], roots[j]]
        0 <= i < j < roots.len() ==> roots[i].parts != roots[j].parts
}

/// None of the directories that were there is lost, every added one is there,
/// at most as many come in as are added, and none is there twice if none was.
pub proof fn law_roots(roots: Seq<PathView>, more: Seq<PathView>)
    ensures
        ({
            let out = with_roots(roots, more);
            &&& roots.len() <= out.len() <= roots.len() + more.len()
            &&& out.take(roots.len() as int) == roots
            &&& none_twice(roots) ==> none_twice(out)
            &&& forall|i: int| 0 <= i < more.len() ==> holds_path(out, #[trigger] more[i])
        }),
    decreases more.len(),
{
    if more.len() > 0 {
        let before = with_roots(roots, more.drop_last());
        law_roots(roots, more.drop_last());
        let out = with_roots(roots, more);
        assert(out.take(roots.len() as int) == roots);
        if none_twice(roots) {
            assert forall|i: int, j: int|
                #![trigger out[i], out[j]]
                0 <= i < j < out.len() implies out[i].parts != out[j].parts by {
                if j < before.len() {
                    let _ = (before[i], before[j]);
                } else {
                    let _ = before[i];
                }
            }
        }
        assert forall|i: int| 0 <= i < more.len() implies holds_path(out, #[trigger] more[i]) by {
            if i < more.len() - 1 {
                assert(more[i] == more.drop_last()[i]);
                assert(holds_path(before, more[i]));
                let k = choose|k: int|
                    0 <= k < before.len() && (#[trigger] before[k]).parts == more[i].parts;
                assert(out[k] == before[k]);
            } else if !holds_path(before, more.last()) {
                assert(out[before.len() as int] == more[i]);
            }
        }
    } else {
        assert(roots.take(roots.len() as int) == roots);
    }
}

/// Adding a directory and those above it brings in at most `ROOT_DEPTH`
/// directories, keeps those that were there, makes none of them double, and
/// brings in nothing the second time.
pub proof fn law_roots_once(roots: Seq<PathView>, dir: PathView)
    ensures
        ({
            let out = with_roots_of(roots, dir);
            &&& roots.len() <= out.len() <= roots.len() + ROOT_DEPTH
            &&& out.take(roots.len() as int) == roots
            &&& none_twice(roots) ==> none_twice(out)
            &&& holds_path(out, dir)
            &&& with_roots_of(out, dir) == out
        }),
{
    let more = ancestry(dir, ROOT_DEPTH as nat);
    lemma_ancestry(dir, ROOT_DEPTH as nat);
    law_roots(roots, more);
    lemma_nothing_new(with_roots(roots, more), more);
    assert(more[0] == dir);
}

/// At most `n` directories are taken, and the first is the directory itself.
proof fn lemma_ancestry(dir: PathView, n: nat)
    ensures
        ancestry(dir, n).len() <= n,
        n > 0 ==> ancestry(dir, n).len() > 0 && ancestry(dir, n)[0] == dir,
    decreases n,
{
    if n > 0 {
        if let Some(d) = dir.dir() {
            lemma_ancestry(d, (n - 1) as nat);
        }
    }
}

/// Adding directories that are all there changes nothing.
proof fn lemma_nothing_new(roots: Seq<PathView>, more: Seq<PathView>)
    requires
        forall|i: int| 0 <= i < more.len() ==> holds_path(roots, #[trigger] more[i]),
    ensures
        with_roots(roots, more) == roots,
    decreases more.len(),
{
    if more.len() > 0 {
        assert forall|i: int| 0 <= i < more.len() - 1 implies holds_path(
            roots,
            #[trigger] more.drop_last()[i],
        ) by {
            assert(more.drop_last()[i] == more[i]);
        }
        lemma_nothing_new(roots, more.drop_last());
        assert(holds_path(roots, more[more.len() - 1]));
    }
}

// ---------------------------------------------------------------------------
// Finding a tool
// ---------------------------------------------------------------------------

/// The places of a tool below the directories to search: in each, first in
/// its `tools` directory, then in itself.
pub open spec fn places_in_roots(name: Seq<char>, roots: Seq<PathView>) -> Seq<CandidateView>
    decreases roots.len(),
{
    if roots.len() == 0 {
        Seq::empty()
    } else {
        places_in_roots(name, roots.drop_last()) + seq![
            CandidateView { base: roots.last().text, below: seq!["tools"@, name] },
            CandidateView { base: roots.last().text, below: seq![name] },
        ]
    }
}

/// The places of a tool in the directories of the search path.
pub open spec fn places_on_path(name: Seq<char>, dirs: Seq<PathView>) -> Seq<CandidateView> {
    dirs.map_values(|d: PathView| CandidateView { base: d.text, below: seq![name] })
}

/// All places of a tool, in the order in which they are tried.
pub open spec fn tool_places(
    name: Seq<char>,
    roots: Seq<PathView>,
    path_dirs: Seq<PathView>,
) -> Seq<CandidateView> {
    places_in_roots(name, roots) + places_on_path(name, path_dirs)
}

/// Appends a place to a list.
fn push_place(list: &mut Vec<Candidate>, place: Candidate)
    ensures
        candidates_view(final(list)@) == candidates_view(old(list)@).push(place@),
{
    list.push(place);
    assert(candidates_view(list@) == candidates_view(old(list)@).push(place@));
}

/// All places of a tool, in the order in which they are tried.
pub fn tool_candidates(name: &str, roots: &Vec<FilePath>, path_dirs: &Vec<FilePath>) -> (places:
    Vec<Candidate>)
    ensures
        candidates_view(places@) == tool_places(
            name@,
            paths_view(roots@),
            paths_view(path_dirs@),
        ),
{
    let mut places: Vec<Candidate> = Vec::new();
    let ghost r = paths_view(roots@);
    let ghost d = paths_view(path_dirs@);
    assert(candidates_view(places@) == places_in_roots(name@, r.take(0)));
    for i in 0..roots.len()
        invariant
            r == paths_view(roots@),
            candidates_view(places@) == places_in_roots(name@, r.take(i as int)),
    {
        assert(r.take(i + 1).drop_last() == r.take(i as int));
        assert(r.take(i + 1).last() == roots@[i as int]@);
        let ghost before = candidates_view(places@);
        push_place(&mut places, Candidate::two_below(roots[i].text.as_str(), "tools", name));
        push_place(&mut places, Candidate::in_dir(roots[i].text.as_str(), name));
        assert(candidates_view(places@) == before + seq![
            CandidateView { base: roots@[i as int]@.text, below: seq!["tools"@, name@] },
            CandidateView { base: roots@[i as int]@.text, below: seq![name@] },
        ]);
    }
    assert(r.take(r.len() as int) == r);
    let ghost on_path = places_on_path(name@, d);
    assert(on_path.take(0) == Seq::<CandidateView>::empty());
    for i in 0..path_dirs.len()
        invariant
            d == paths_view(path_dirs@),
            on_path == places_on_path(name@, d),
            candidates_view(places@) == places_in_roots(name@, r) + on_path.take(i as int),
    {
        push_place(&mut places, Candidate::in_dir(path_dirs[i].text.as_str(), name));
        assert(on_path.take(i + 1) == on_path.take(i as int).push(on_path[i as int]));
    }
    assert(on_path.take(on_path.len() as int) == on_path);
    places
}

/// Where a tool is, given what exists at its places.
pub open spec fn tool_at(
    name: Seq<char>,
    roots: Seq<PathView>,
    path_dirs: Seq<PathView>,
    found: Seq<FoundView>,
) -> Option<PathView> {
    first_found(tool_places(name, roots, path_dirs), found)
}

/// Where a tool is: at the first of its places where `found` has something.
pub fn find_tool(
    name: &str,
    roots: &Vec<FilePath>,
    path_dirs: &Vec<FilePath>,
    found: &Vec<Found>,
) -> (path: Option<FilePath>)
    ensures
        path_opt(path) == tool_at(
            name@,
            paths_view(roots@),
            paths_view(path_dirs@),
            found_view(found@),
        ),
{
    let places = tool_candidates(name, roots, path_dirs);
    first_existing(&places, found)
}

/// Where FFmpeg is.
pub fn find_ffmpeg(roots: &Vec<FilePath>, path_dirs: &Vec<FilePath>, found: &Vec<Found>) -> (path:
    Option<FilePath>)
    ensures
        path_opt(path) == tool_at(
            "ffmpeg.exe"@,
            paths_view(roots@),
            paths_view(path_dirs@),
            found_view(found@),
        ),
{
    find_tool("ffmpeg.exe", roots, path_dirs, found)
}

/// The name of ffprobe on this kind of machine.
pub open spec fn ffprobe_file(windows: bool) -> Seq<char> {
    if windows {
        "ffprobe.exe"@
    } else {
        "ffprobe"@
    }
}

/// The name of ffprobe on this kind of machine.
pub fn ffprobe_name(windows: bool) -> (name: &'static str)
    ensures
        name@ == ffprobe_file(windows),
{
    if windows {
        "ffprobe.exe"
    } else {
        "ffprobe"
    }
}

/// The place of a file of that name beside another file.
pub open spec fn beside(path: PathView, name: Seq<char>) -> CandidateView {
    CandidateView {
        base: match path.parent {
            Some(dir) => dir,
            None => Seq::empty(),
        },
        below: seq![name],
    }
}

/// The place of a file of that name beside another file.
pub fn place_beside(path: &FilePath, name: &str) -> (place: Candidate)
    ensures
        place@ == beside(path@, name@),
{
    match &path.parent {
        Some(dir) => Candidate::in_dir(dir.as_str(), name),
        None => {
            proof {
                reveal_strlit("");
                assert(""@ == Seq::<char>::empty());
            }
            Candidate::in_dir("", name)
        },
    }
}

/// Where ffprobe is: beside FFmpeg, or else where any tool may be.
pub fn find_ffprobe(
    windows: bool,
    roots: &Vec<FilePath>,
    path_dirs: &Vec<FilePath>,
    found: &Vec<Found>,
) -> (path: Option<FilePath>)
    ensures
        path_opt(path) == ({
            let r = paths_view(roots@);
            let d = paths_view(path_dirs@);
            let f = found_view(found@);
            let near_ffmpeg = match tool_at("ffmpeg.exe"@, r, d, f) {
                Some(ffmpeg) => found_at(f, beside(ffmpeg, ffprobe_file(windows))),
                None => None,
            };
            match near_ffmpeg {
                Some(p) => Some(p),
                None => tool_at(ffprobe_file(windows), r, d, f),
            }
        }),
{
    let name = ffprobe_name(windows);
    if let Some(ffmpeg) = find_ffmpeg(roots, path_dirs, found) {
        if let Some(p) = lookup(found, &place_beside(&ffmpeg, name)) {
            return Some(p.clone());
        }
    }
    find_tool(name, roots, path_dirs, found)
}

// ---------------------------------------------------------------------------
// Demucs
// ---------------------------------------------------------------------------

/// A Python that may have Demucs installed.
pub const CONDA_PYTHON: &'static str = r"D:\conda\python.exe";

/// Where Demucs is.
pub enum DemucsPlace {
    /// A program of its own in a `tools` directory.
    Local(FilePath),
    /// A module of the Python that is shipped with the application.
    Portable(FilePath),
    /// A program of its own elsewhere.
    Tool(FilePath),
    /// A module of Conda's Python.
    Conda,
    /// A module of whatever Python there is.
    Python,
}

/// Where Demucs is, as a value.
pub enum DemucsView {
    Local(PathView),
    Portable(PathView),
    Tool(PathView),
    Conda,
    Python,
}

impl View for DemucsPlace {
    type V = DemucsView;

    open spec fn view(&self) -> DemucsView {
        match self {
            DemucsPlace::Local(p) => DemucsView::Local(p@),
            DemucsPlace::Portable(p) => DemucsView::Portable(p@),
            DemucsPlace::Tool(p) => DemucsView::Tool(p@),
            DemucsPlace::Conda => DemucsView::Conda,
            DemucsPlace::Python => DemucsView::Python,
        }
    }
}

/// The places below each of the directories under the same names.
pub open spec fn below_each(dirs: Seq<PathView>, below: Seq<Seq<char>>) -> Seq<CandidateView> {
    dirs.map_values(|d: PathView| CandidateView { base: d.text, below })
}

/// The directories in which Demucs is looked for: the working directory,
/// then those of every tool.
pub open spec fn demucs_dirs(cwd: Option<PathView>, roots: Seq<PathView>) -> Seq<PathView> {
    match cwd {
        Some(dir) => seq![dir] + roots,
        None => roots,
    }
}

/// Where Demucs is: as a program in a `tools` directory, as a module of the
/// Python that is shipped along, as a tool elsewhere, as a module of Conda's
/// Python, or else as a module of whatever Python there is.
pub open spec fn demucs_at(
    cwd: Option<PathView>,
    roots: Seq<PathView>,
    path_dirs: Seq<PathView>,
    found: Seq<FoundView>,
) -> DemucsView {
    let dirs = demucs_dirs(cwd, roots);
    match first_found(below_each(dirs, seq!["tools"@, "demucs.exe"@]), found) {
        Some(p) => DemucsView::Local(p),
        None => match first_found(
            below_each(dirs, seq!["runtime"@, "python"@, "python.exe"@]),
            found,
        ) {
            Some(p) => DemucsView::Portable(p),
            None => match tool_at("demucs.exe"@, roots, path_dirs, found) {
                Some(p) => DemucsView::Tool(p),
                None => if found_at(
                    found,
                    CandidateView { base: CONDA_PYTHON@, below: Seq::empty() },
                ) is Some {
                    DemucsView::Conda
                } else {
                    DemucsView::Python
                },
            },
        },
    }
}

/// The place below each of the directories under the same names.
fn places_below(dirs: &Vec<FilePath>, below: Vec<&'static str>) -> (places: Vec<Candidate>)
    ensures
        candidates_view(places@) == below_each(paths_view(dirs@), below.deep_view()),
{
    let ghost all = below_each(paths_view(dirs@), below.deep_view());
    let mut places: Vec<Candidate> = Vec::new();
    let names = string_list(below);
    assert(all.take(0) == Seq::<CandidateView>::empty());
    for i in 0..dirs.len()
        invariant
            all.len() == dirs@.len(),
            forall|j: int|
                0 <= j < dirs@.len() ==> all[j] == (CandidateView {
                    base: dirs@[j]@.text,
                    below: texts(names@),
                }),
            candidates_view(places@) == all.take(i as int),
    {
        let place = Candidate {
            base: dirs[i].text.clone(),
            below: crate::text::copy_texts(&names),
        };
        assert(place@ == all[i as int]);
        push_place(&mut places, place);
        assert(all.take(i + 1) == all.take(i as int).push(all[i as int]));
    }
    assert(all.take(all.len() as int) == all);
    places
}

/// The directories in which Demucs is looked for.
fn dirs_for_demucs(cwd: &Option<FilePath>, roots: &Vec<FilePath>) -> (dirs: Vec<FilePath>)
    ensures
        paths_view(dirs@) == demucs_dirs(path_opt(*cwd), paths_view(roots@)),
{
    let mut dirs: Vec<FilePath> = Vec::new();
    if let Some(dir) = cwd {
        let d = dir.clone();
        dirs.push(d);
        assert(paths_view(dirs@) == seq![d@]);
    }
    let ghost start = paths_view(dirs@);
    let ghost r = paths_view(roots@);
    for i in 0..roots.len()
        invariant
            r == paths_view(roots@),
            paths_view(dirs@) == start + r.take(i as int),
    {
        let d = roots[i].clone();
        let ghost before = paths_view(dirs@);
        dirs.push(d);
        assert(paths_view(dirs@) == before.push(d@));
        assert(r.take(i + 1) == r.take(i as int).push(d@));
    }
    assert(r.take(r.len() as int) == r);
    assert(Seq::<PathView>::empty() + r == r);
    dirs
}

/// The places in which Demucs is looked for, beside those of `demucs.exe` as
/// a tool.
pub fn demucs_candidates(cwd: &Option<FilePath>, roots: &Vec<FilePath>) -> (places: Vec<Candidate>)
    ensures
        candidates_view(places@) == ({
            let dirs = demucs_dirs(path_opt(*cwd), paths_view(roots@));
            below_each(dirs, seq!["tools"@, "demucs.exe"@]) + below_each(
                dirs,
                seq!["runtime"@, "python"@, "python.exe"@],
            ) + seq![CandidateView { base: CONDA_PYTHON@, below: Seq::empty() }]
        }),
{
    let dirs = dirs_for_demucs(cwd, roots);
    let local = vec!["tools", "demucs.exe"];
    assert(local.deep_view() == seq!["tools"@, "demucs.exe"@]);
    let portable = vec!["runtime", "python", "python.exe"];
    assert(portable.deep_view() == seq!["runtime"@, "python"@, "python.exe"@]);
    let mut places = places_below(&dirs, local);
    let mut more = places_below(&dirs, portable);
    let ghost a = candidates_view(places@);
    let ghost b = candidates_view(more@);
    places.append(&mut more);
    assert(candidates_view(places@) == a + b);
    push_place(&mut places, Candidate::at(CONDA_PYTHON));
    places
}

/// Where Demucs is, given what exists at its places.
pub fn locate_demucs(
    cwd: &Option<FilePath>,
    roots: &Vec<FilePath>,
    path_dirs: &Vec<FilePath>,
    found: &Vec<Found>,
) -> (place: DemucsPlace)
    ensures
        place@ == demucs_at(
            path_opt(*cwd),
            paths_view(roots@),
            paths_view(path_dirs@),
            found_view(found@),
        ),
{
    let dirs = dirs_for_demucs(cwd, roots);
    let local = vec!["tools", "demucs.exe"];
    assert(local.deep_view() == seq!["tools"@, "demucs.exe"@]);
    let portable = vec!["runtime", "python", "python.exe"];
    assert(portable.deep_view() == seq!["runtime"@, "python"@, "python.exe"@]);
    if let Some(p) = first_existing(&places_below(&dirs, local), found) {
        return DemucsPlace::Local(p);
    }
    if let Some(p) = first_existing(&places_below(&dirs, portable), found) {
        return DemucsPlace::Portable(p);
    }
    if let Some(p) = find_tool("demucs.exe", roots, path_dirs, found) {
        return DemucsPlace::Tool(p);
    }
    match lookup(found, &Candidate::at(CONDA_PYTHON)) {
        Some(_) => DemucsPlace::Conda,
        None => DemucsPlace::Python,
    }
}

/// The command that starts Demucs as a module of a Python.
pub open spec fn module_of(python: Seq<char>) -> Seq<Seq<char>> {
    seq![python, "-m"@, "demucs"@]
}

/// The command that starts Demucs. A tool that is not in a `tools` directory
/// is started by its plain name.
pub open spec fn demucs_start(place: DemucsView) -> Seq<Seq<char>> {
    match place {
        DemucsView::Local(p) => seq![p.text],
        DemucsView::Portable(p) => module_of(p.text),
        DemucsView::Tool(_) => seq!["demucs"@],
        DemucsView::Conda => module_of(CONDA_PYTHON@),
        DemucsView::Python => module_of("python"@),
    }
}

/// The command that starts Demucs, every program by its full path.
pub open spec fn demucs_start_by_path(place: DemucsView) -> Seq<Seq<char>> {
    match place {
        DemucsView::Tool(p) => seq![p.text],
        _ => demucs_start(place),
    }
}

/// The command that starts Demucs at a place.
fn start_command(place: &DemucsPlace, by_path: bool) -> (cmd: Vec<String>)
    ensures
        texts(cmd@) == (if by_path {
            demucs_start_by_path(place@)
        } else {
            demucs_start(place@)
        }),
{
    let cmd = match place {
        DemucsPlace::Local(p) => string_list(vec![p.text.as_str()]),
        DemucsPlace::Portable(p) => string_list(vec![p.text.as_str(), "-m", "demucs"]),
        DemucsPlace::Tool(p) => if by_path {
            string_list(vec![p.text.as_str()])
        } else {
            string_list(vec!["demucs"])
        },
        DemucsPlace::Conda => string_list(vec![CONDA_PYTHON, "-m", "demucs"]),
        DemucsPlace::Python => string_list(vec!["python", "-m", "demucs"]),
    };
    assert(texts(cmd@) == (if by_path {
        demucs_start_by_path(place@)
    } else {
        demucs_start(place@)
    }));
    cmd
}

/// The command that starts Demucs.
pub fn find_demucs(
    cwd: &Option<FilePath>,
    roots: &Vec<FilePath>,
    path_dirs: &Vec<FilePath>,
    found: &Vec<Found>,
) -> (cmd: Vec<String>)
    ensures
        texts(cmd@) == demucs_start(
            demucs_at(
                path_opt(*cwd),
                paths_view(roots@),
                paths_view(path_dirs@),
                found_view(found@),
            ),
        ),
{
    start_command(&locate_demucs(cwd, roots, path_dirs, found), false)
}

/// The command that starts Demucs, every program by its full path.
pub fn find_demucs_by_path(
    cwd: &Option<FilePath>,
    roots: &Vec<FilePath>,
    path_dirs: &Vec<FilePath>,
    found: &Vec<Found>,
) -> (cmd: Vec<String>)
    ensures
        texts(cmd@) == demucs_start_by_path(
            demucs_at(
                path_opt(*cwd),
                paths_view(roots@),
                paths_view(path_dirs@),
                found_view(found@),
            ),
        ),
{
    start_command(&locate_demucs(cwd, roots, path_dirs, found), true)
}

/// There is always a command to try, whatever exists.
pub proof fn law_demucs_command_not_empty(place: DemucsView)
    ensures
        demucs_start(place).len() > 0,
        demucs_start_by_path(place).len() > 0,
{
}

/// What the application says about its tools.
pub open spec fn tool_status(demucs: Seq<Seq<char>>, ncmdump: Option<Seq<char>>) -> Seq<char> {
    (if demucs[0] == "python"@ {
        "Demucs: 未发现 demucs.exe, 将尝试使用 python -m demucs"@
    } else {
        "Demucs: "@ + demucs[0]
    }) + (match ncmdump {
        Some(path) => "  |  ncmdump: "@ + path,
        None => "  |  ncmdump: 未找到 (NCM 无法自动转换)"@,
    })
}

/// What the application says about its tools.
pub fn build_tool_status(
    demucs: &Vec<String>,
    ncm_avail: bool,
    ncm_path: &Option<FilePath>,
) -> (text: String)
    requires
        demucs@.len() > 0,
        ncm_avail ==> *ncm_path is Some,
    ensures
        text@ == tool_status(
            texts(demucs@),
            if ncm_avail {
                Some(path_opt(*ncm_path)->0.text)
            } else {
                None
            },
        ),
{
    let first = demucs[0].as_str();
    assert(texts(demucs@)[0] == first@);
    let mut text: String = if same_text(first, "python") {
        "Demucs: 未发现 demucs.exe, 将尝试使用 python -m demucs".to_string()
    } else {
        let mut t = "Demucs: ".to_string();
        t.append(first);
        t
    };
    let mut tail: String = String::new();
    match ncm_path {
        Some(p) if ncm_avail => {
            tail = "  |  ncmdump: ".to_string();
            tail.append(p.text.as_str());
        },
        _ => {
            tail = "  |  ncmdump: 未找到 (NCM 无法自动转换)".to_string();
        },
    }
    text.append(tail.as_str());
    text
}

// ---------------------------------------------------------------------------
// The environment of a tool
// ---------------------------------------------------------------------------

/// The variables of an environment as values.
pub open spec fn vars_view(vars: Seq<(String, String)>) -> Seq<(Seq<char>, Seq<char>)> {
    vars.map_values(|v: (String, String)| (v.0@, v.1@))
}

/// The index of the first variable of that name, or -1.
pub open spec fn var_index(vars: Seq<(Seq<char>, Seq<char>)>, name: Seq<char>) -> int
    decreases vars.len(),
{
    if vars.len() == 0 {
        -1
    } else if vars[0].0 == name {
        0
    } else {
        let i = var_index(vars.skip(1), name);
        if i >= 0 {
            i + 1
        } else {
            -1
        }
    }
}

/// The index of the first variable of that name.
fn find_var(vars: &Vec<(String, String)>, name: &str) -> (at: Option<usize>)
    ensures
        match at {
            Some(i) => i < vars@.len() && var_index(vars_view(vars@), name@) == i && vars@[i as int].0@
                == name@,
            None => var_index(vars_view(vars@), name@) == -1,
        },
{
    let ghost all = vars_view(vars@);
    let mut i: usize = 0;
    assert(all.skip(0) == all);
    while i < vars.len()
        invariant
            all == vars_view(vars@),
            i <= vars@.len(),
            var_index(all, name@) == (if var_index(all.skip(i as int), name@) >= 0 {
                i + var_index(all.skip(i as int), name@)
            } else {
                -1
            }),
        decreases vars@.len() - i,
    {
        assert(all.skip(i as int)[0] == (vars@[i as int].0@, vars@[i as int].1@));
        if same_text(vars[i].0.as_str(), name) {
            return Some(i);
        }
        assert(all.skip(i as int).skip(1) == all.skip(i + 1));
        i = i + 1;
    }
    None
}

/// The environment with a variable set, unless it is set already.
pub open spec fn with_default_var(
    vars: Seq<(Seq<char>, Seq<char>)>,
    name: Seq<char>,
    value: Seq<char>,
) -> Seq<(Seq<char>, Seq<char>)> {
    if var_index(vars, name) >= 0 {
        vars
    } else {
        vars.push((name, value))
    }
}

/// Sets a variable, unless it is set already.
fn set_default_var(vars: &mut Vec<(String, String)>, name: &str, value: &str)
    ensures
        vars_view(final(vars)@) == with_default_var(vars_view(old(vars)@), name@, value@),
{
    if find_var(vars, name).is_none() {
        vars.push((name.to_owned(), value.to_owned()));
        assert(vars_view(vars@) == vars_view(old(vars)@).push((name@, value@)));
    }
}

/// The environment of a separator: Python reads and writes UTF-8 unless the
/// user chose otherwise.
pub open spec fn utf8_env(vars: Seq<(Seq<char>, Seq<char>)>) -> Seq<(Seq<char>, Seq<char>)> {
    with_default_var(
        with_default_var(vars, "PYTHONIOENCODING"@, "utf-8"@),
        "PYTHONUTF8"@,
        "1"@,
    )
}

/// Makes Python read and write UTF-8 unless the user chose otherwise.
pub fn add_utf8_vars(vars: &mut Vec<(String, String)>)
    ensures
        vars_view(final(vars)@) == utf8_env(vars_view(old(vars)@)),
{
    set_default_var(vars, "PYTHONIOENCODING", "utf-8");
    set_default_var(vars, "PYTHONUTF8", "1");
}

/// The directories that a Python brings its programs and libraries in. No
/// other program has any.
pub open spec fn runtime_places(command: PathView) -> Seq<CandidateView> {
    match (command.file_name(), command.parent) {
        (Some(name), Some(dir)) => if same_ignoring_ascii_case(name, "python.exe"@) {
            seq![
                CandidateView { base: dir, below: Seq::empty() },
                CandidateView { base: dir, below: seq!["Scripts"@] },
                CandidateView { base: dir, below: seq!["Library"@, "bin"@] },
            ]
        } else {
            Seq::empty()
        },
        _ => Seq::empty(),
    }
}

/// The directories that a Python brings its programs and libraries in.
pub fn python_runtime_places(command: &FilePath) -> (places: Vec<Candidate>)
    ensures
        candidates_view(places@) == runtime_places(command@),
{
    let mut places: Vec<Candidate> = Vec::new();
    if let Some(name) = command.file_name() {
        if let Some(dir) = &command.parent {
            if eq_ignore_ascii_case(name.as_str(), "python.exe") {
                places.push(Candidate::at(dir.as_str()));
                places.push(Candidate::in_dir(dir.as_str(), "Scripts"));
                places.push(Candidate::two_below(dir.as_str(), "Library", "bin"));
            }
        }
    }
    assert(candidates_view(places@) == runtime_places(command@));
    places
}

/// The environment with directories put in front of the search path.
pub open spec fn with_search_path(
    vars: Seq<(Seq<char>, Seq<char>)>,
    prefix: Seq<char>,
) -> Seq<(Seq<char>, Seq<char>)> {
    let i = var_index(vars, "PATH"@);
    if prefix.len() == 0 {
        vars
    } else if i < 0 {
        vars.push(("PATH"@, prefix))
    } else if vars[i].1.len() == 0 {
        vars.update(i, ("PATH"@, prefix))
    } else {
        vars.update(i, ("PATH"@, prefix + ";"@ + vars[i].1))
    }
}

/// Puts directories, joined into one text, in front of the search path.
pub fn add_python_runtime_paths(vars: &mut Vec<(String, String)>, prefix: &str)
    ensures
        vars_view(final(vars)@) == with_search_path(vars_view(old(vars)@), prefix@),
{
    if prefix.is_empty() {
        return;
    }
    match find_var(vars, "PATH") {
        Some(i) => {
            let mut value = prefix.to_owned();
            assert(vars_view(vars@)[i as int].1 == vars@[i as int].1@);
            if !vars[i].1.as_str().is_empty() {
                value.append(";");
                value.append(vars[i].1.as_str());
            }
            vars.set(i, ("PATH".to_string(), value));
            assert(vars_view(vars@) == with_search_path(vars_view(old(vars)@), prefix@));
        },
        None => {
            vars.push(("PATH".to_string(), prefix.to_owned()));
            assert(vars_view(vars@) == vars_view(old(vars)@).push(("PATH"@, prefix@)));
        },
    }
}

/// The encoding variables that a user has set are never overridden.
pub proof fn law_user_vars_kept(vars: Seq<(Seq<char>, Seq<char>)>, i: int)
    requires
        0 <= i < vars.len(),
    ensures
        utf8_env(vars).len() >= vars.len(),
        utf8_env(vars)[i] == vars[i],
{
}

} // verus!
