//! Which tools are used, and what is said about them.

use crate::laws::finding::{
    lemma_first_found, lemma_found_at, lies_at, lies_first, nothing_at, nothing_in,
};
use crate::letters::same_ignoring_ascii_case;
use crate::path::{paths_view, FilePath, PathView};
use crate::search::{candidates_view, Candidate, CandidateView, Found};
use crate::text::texts;
use crate::tools::{
    add_python_runtime_paths, add_utf8_vars, ancestry, below_each, build_tool_status,
    demucs_candidates, ffprobe_name, find_demucs, find_demucs_by_path, find_ffmpeg, find_ffprobe,
    find_tool, locate_demucs, place_beside, places_in_roots, push_tool_roots, python_runtime_places,
    tool_candidates, tool_places, tool_roots, var_index, vars_view, with_roots, DemucsPlace,
    ROOT_DEPTH,
};
use vstd::prelude::*;

verus! {

// ---------------------------------------------------------------------------
// The directories to search
// ---------------------------------------------------------------------------

/// A directory brings in itself and the three above it, as far as there are
/// any, the nearest first.
pub proof fn law_ancestry(dir: PathView)
    ensures
        ({
            let one = dir.dir();
            let two = one->0.dir();
            let three = two->0.dir();
            ancestry(dir, ROOT_DEPTH as nat) == (if one is None {
                seq![dir]
            } else if two is None {
                seq![dir, one->0]
            } else if three is None {
                seq![dir, one->0, two->0]
            } else {
                seq![dir, one->0, two->0, three->0]
            })
        }),
{
    reveal_with_fuel(ancestry, 5);
}

/// Directories are added one after the other behind those that are there, and
/// one that is there is not added again.
pub proof fn law_roots_added(roots: Seq<PathView>, more: Seq<PathView>, next: PathView)
    ensures
        with_roots(roots, seq![]) == roots,
        ({
            let before = with_roots(roots, more);
            with_roots(roots, more.push(next)) == (if exists|i: int|
                0 <= i < before.len() && (#[trigger] before[i]).parts == next.parts {
                before
            } else {
                before.push(next)
            })
        }),
{
    assert(more.push(next).drop_last() == more);
}

/// Adding the directories of one directory adds itself and the three above it.
pub proof fn law_tool_roots_pushed(dir: &FilePath)
    ensures
        forall|roots: &mut Vec<FilePath>| #[trigger]
            call_ensures(push_tool_roots, (roots, dir), ()) ==> paths_view((*final(roots))@)
                == with_roots(paths_view((*roots)@), ancestry(dir@, 4)),
{
}

/// The directories that are searched are those of the program and then those
/// of the working directory, as far as they are known.
pub proof fn law_tool_roots(
    program: &Option<FilePath>,
    working: &Option<FilePath>,
    roots: Vec<FilePath>,
)
    requires
        call_ensures(tool_roots, (program, working), roots),
    ensures
        ({
            let first = if *program is Some {
                with_roots(seq![], ancestry((*program)->0@, 4))
            } else {
                seq![]
            };
            paths_view(roots@) == (if *working is Some {
                with_roots(first, ancestry((*working)->0@, 4))
            } else {
                first
            })
        }),
{
}

// ---------------------------------------------------------------------------
// Finding a tool
// ---------------------------------------------------------------------------

/// A tool is looked for in each of the directories, first among its tools and
/// then in itself, and at last in each directory of the search path.
pub proof fn law_tool_candidates(
    name: &str,
    roots: &Vec<FilePath>,
    dirs: &Vec<FilePath>,
    places: Vec<Candidate>,
)
    requires
        call_ensures(tool_candidates, (name, roots, dirs), places),
    ensures
        looked_in(name@, roots@, dirs@, candidates_view(places@)),
{
    lemma_tool_places(name@, roots@, dirs@);
}

/// Whether a tool is looked for in those places: in each of the directories,
/// first among its tools and then in itself, and at last in each directory of
/// the search path.
pub open spec fn looked_in(
    name: Seq<char>,
    roots: Seq<FilePath>,
    dirs: Seq<FilePath>,
    places: Seq<CandidateView>,
) -> bool {
    &&& places.len() == 2 * roots.len() + dirs.len()
    &&& forall|i: int|
        0 <= i < roots.len() ==> {
            &&& places[2 * i] == (CandidateView {
                base: (#[trigger] roots[i]).text@,
                below: seq!["tools"@, name],
            })
            &&& places[2 * i + 1] == (CandidateView { base: roots[i].text@, below: seq![name] })
        }
    &&& forall|i: int|
        0 <= i < dirs.len() ==> places[2 * roots.len() + i] == (CandidateView {
            base: (#[trigger] dirs[i]).text@,
            below: seq![name],
        })
}

/// The places of a tool.
proof fn lemma_tool_places(name: Seq<char>, roots: Seq<FilePath>, dirs: Seq<FilePath>)
    ensures
        looked_in(
            name,
            roots,
            dirs,
            tool_places(name, paths_view(roots), paths_view(dirs)),
        ),
{
    lemma_places_in_roots(name, paths_view(roots));
    let places = tool_places(name, paths_view(roots), paths_view(dirs));
    assert forall|i: int| 0 <= i < roots.len() implies places[2 * i] == (CandidateView {
        base: (#[trigger] roots[i]).text@,
        below: seq!["tools"@, name],
    }) && places[2 * i + 1] == (CandidateView { base: roots[i].text@, below: seq![name] }) by {
        assert(paths_view(roots)[i] == roots[i]@);
    }
}

/// The places of a tool below directories.
proof fn lemma_places_in_roots(name: Seq<char>, roots: Seq<PathView>)
    ensures
        places_in_roots(name, roots).len() == 2 * roots.len(),
        forall|i: int|
            0 <= i < roots.len() ==> {
                &&& places_in_roots(name, roots)[2 * i] == (CandidateView {
                    base: (#[trigger] roots[i]).text,
                    below: seq!["tools"@, name],
                })
                &&& places_in_roots(name, roots)[2 * i + 1] == (CandidateView {
                    base: roots[i].text,
                    below: seq![name],
                })
            },
    decreases roots.len(),
{
    if roots.len() > 0 {
        lemma_places_in_roots(name, roots.drop_last());
        assert forall|i: int| 0 <= i < roots.len() - 1 implies #[trigger] roots[i]
            == roots.drop_last()[i] by {}
    }
}

/// A tool is what lies at the first of its places where there is anything.
pub proof fn law_find_tool(
    name: &str,
    roots: &Vec<FilePath>,
    dirs: &Vec<FilePath>,
    found: &Vec<Found>,
    places: Seq<CandidateView>,
    path: Option<FilePath>,
)
    requires
        call_ensures(find_tool, (name, roots, dirs, found), path),
        looked_in(name@, roots@, dirs@, places),
    ensures
        match path {
            Some(p) => lies_first(found@, places, p@),
            None => nothing_in(found@, places),
        },
{
    lemma_tool_places(name@, roots@, dirs@);
    lemma_same_places(name@, roots@, dirs@, places);
    lemma_first_found(places, found@);
}

/// There is only one list of places that a tool is looked for in.
proof fn lemma_same_places(
    name: Seq<char>,
    roots: Seq<FilePath>,
    dirs: Seq<FilePath>,
    places: Seq<CandidateView>,
)
    requires
        looked_in(name, roots, dirs, places),
    ensures
        places == tool_places(name, paths_view(roots), paths_view(dirs)),
{
    lemma_tool_places(name, roots, dirs);
    let wanted = tool_places(name, paths_view(roots), paths_view(dirs));
    assert forall|k: int| 0 <= k < places.len() implies places[k] == wanted[k] by {
        if k < 2 * roots.len() {
            let i = k / 2;
            let _ = roots[i];
            if k % 2 == 0 {
                assert(k == 2 * i);
            } else {
                assert(k == 2 * i + 1);
            }
        } else {
            let i = k - 2 * roots.len();
            let _ = dirs[i];
        }
    }
    assert(places == wanted);
}

/// FFmpeg is the tool `ffmpeg.exe`.
pub proof fn law_find_ffmpeg(
    roots: &Vec<FilePath>,
    dirs: &Vec<FilePath>,
    found: &Vec<Found>,
    places: Seq<CandidateView>,
    path: Option<FilePath>,
)
    requires
        call_ensures(find_ffmpeg, (roots, dirs, found), path),
        looked_in("ffmpeg.exe"@, roots@, dirs@, places),
    ensures
        match path {
            Some(p) => lies_first(found@, places, p@),
            None => nothing_in(found@, places),
        },
{
    lemma_same_places("ffmpeg.exe"@, roots@, dirs@, places);
    lemma_first_found(places, found@);
}

/// ffprobe has its name with and without the extension of programs, and what
/// lies beside a file lies in the directory of that.
pub proof fn law_beside(windows: bool, path: &FilePath, name: &str)
    ensures
        forall|out: &'static str| #[trigger]
            call_ensures(ffprobe_name, (windows,), out) ==> out@ == (if windows {
                "ffprobe.exe"@
            } else {
                "ffprobe"@
            }),
        forall|place: Candidate| #[trigger]
            call_ensures(place_beside, (path, name), place) ==> place@ == (CandidateView {
                base: if path.parent is Some {
                    path.parent->0@
                } else {
                    seq![]
                },
                below: seq![name@],
            }),
{
}

/// ffprobe is what lies beside FFmpeg under its name; where there is no FFmpeg
/// or nothing beside it, it is looked for as a tool of its own.
pub proof fn law_find_ffprobe(
    windows: bool,
    roots: &Vec<FilePath>,
    dirs: &Vec<FilePath>,
    found: &Vec<Found>,
    places: Seq<CandidateView>,
    ffmpeg: Option<FilePath>,
    path: Option<FilePath>,
)
    requires
        call_ensures(find_ffmpeg, (roots, dirs, found), ffmpeg),
        call_ensures(find_ffprobe, (windows, roots, dirs, found), path),
        looked_in(
            if windows {
                "ffprobe.exe"@
            } else {
                "ffprobe"@
            },
            roots@,
            dirs@,
            places,
        ),
    ensures
        ({
            let name = if windows {
                "ffprobe.exe"@
            } else {
                "ffprobe"@
            };
            let near = CandidateView {
                base: if ffmpeg->0.parent is Some {
                    ffmpeg->0.parent->0@
                } else {
                    seq![]
                },
                below: seq![name],
            };
            if ffmpeg is Some && !nothing_at(found@, near) {
                path is Some && lies_at(found@, near, path->0@)
            } else {
                match path {
                    Some(p) => lies_first(found@, places, p@),
                    None => nothing_in(found@, places),
                }
            }
        }),
{
    let name = if windows {
        "ffprobe.exe"@
    } else {
        "ffprobe"@
    };
    lemma_same_places(name, roots@, dirs@, places);
    lemma_first_found(places, found@);
    if ffmpeg is Some {
        let near = crate::tools::beside(ffmpeg->0@, name);
        lemma_found_at(found@, near);
    }
}

// ---------------------------------------------------------------------------
// Demucs
// ---------------------------------------------------------------------------

/// What lies below each of some directories under the same names.
pub open spec fn under_each(dirs: Seq<PathView>, names: Seq<Seq<char>>) -> Seq<CandidateView> {
    Seq::new(dirs.len(), |i: int| CandidateView { base: dirs[i].text, below: names })
}

/// The working directory, if it is known, and then the others.
pub open spec fn working_first(cwd: &Option<FilePath>, roots: &Vec<FilePath>) -> Seq<PathView> {
    if *cwd is Some {
        seq![(*cwd)->0@] + paths_view(roots@)
    } else {
        paths_view(roots@)
    }
}

/// Demucs is looked for as a program among the tools of each directory, as a
/// Python shipped along in each directory, and as Conda's Python.
pub proof fn law_demucs_candidates(
    cwd: &Option<FilePath>,
    roots: &Vec<FilePath>,
    places: Vec<Candidate>,
)
    requires
        call_ensures(demucs_candidates, (cwd, roots), places),
    ensures
        candidates_view(places@) == under_each(
            working_first(cwd, roots),
            seq!["tools"@, "demucs.exe"@],
        ) + under_each(
            working_first(cwd, roots),
            seq!["runtime"@, "python"@, "python.exe"@],
        ) + seq![CandidateView { base: r"D:\conda\python.exe"@, below: seq![] }],
{
    lemma_demucs_dirs(cwd, roots);
}

/// The directories in which Demucs is looked for, and the places in them.
proof fn lemma_demucs_dirs(cwd: &Option<FilePath>, roots: &Vec<FilePath>)
    ensures
        ({
            let dirs = crate::tools::demucs_dirs(
                crate::path::path_opt(*cwd),
                paths_view(roots@),
            );
            &&& dirs == working_first(cwd, roots)
            &&& forall|names: Seq<Seq<char>>| #[trigger]
                below_each(dirs, names) == under_each(dirs, names)
        }),
{
    let dirs = crate::tools::demucs_dirs(crate::path::path_opt(*cwd), paths_view(roots@));
    assert forall|names: Seq<Seq<char>>| #[trigger]
        below_each(dirs, names) == under_each(dirs, names) by {
        assert(below_each(dirs, names) =~= under_each(dirs, names));
    }
}

/// A program among the tools of a directory comes before a Python shipped
/// along, that before a tool elsewhere, that before Conda's Python, and that
/// before whatever Python there is.
pub proof fn law_locate_demucs(
    cwd: &Option<FilePath>,
    roots: &Vec<FilePath>,
    dirs: &Vec<FilePath>,
    found: &Vec<Found>,
    places: Seq<CandidateView>,
    place: DemucsPlace,
)
    requires
        call_ensures(locate_demucs, (cwd, roots, dirs, found), place),
        looked_in("demucs.exe"@, roots@, dirs@, places),
    ensures
        ({
            let first = working_first(cwd, roots);
            let local = under_each(first, seq!["tools"@, "demucs.exe"@]);
            let portable = under_each(first, seq!["runtime"@, "python"@, "python.exe"@]);
            let conda = CandidateView { base: r"D:\conda\python.exe"@, below: seq![] };
            match place {
                DemucsPlace::Local(p) => lies_first(found@, local, p@),
                DemucsPlace::Portable(p) => nothing_in(found@, local) && lies_first(
                    found@,
                    portable,
                    p@,
                ),
                DemucsPlace::Tool(p) => nothing_in(found@, local) && nothing_in(found@, portable)
                    && lies_first(found@, places, p@),
                DemucsPlace::Conda => nothing_in(found@, local) && nothing_in(found@, portable)
                    && nothing_in(found@, places) && !nothing_at(found@, conda),
                DemucsPlace::Python => nothing_in(found@, local) && nothing_in(found@, portable)
                    && nothing_in(found@, places) && nothing_at(found@, conda),
            }
        }),
{
    let first = working_first(cwd, roots);
    lemma_demucs_dirs(cwd, roots);
    lemma_first_found(under_each(first, seq!["tools"@, "demucs.exe"@]), found@);
    lemma_first_found(under_each(first, seq!["runtime"@, "python"@, "python.exe"@]), found@);
    lemma_same_places("demucs.exe"@, roots@, dirs@, places);
    lemma_first_found(places, found@);
    lemma_found_at(found@, CandidateView { base: r"D:\conda\python.exe"@, below: seq![] });
}

/// A program of its own is started by itself, a Python with the module, and a
/// tool that lies elsewhere by its plain name or, where every program is
/// started by its full path, by that.
pub proof fn law_demucs_started(
    cwd: &Option<FilePath>,
    roots: &Vec<FilePath>,
    dirs: &Vec<FilePath>,
    found: &Vec<Found>,
    place: DemucsPlace,
    cmd: Vec<String>,
    by_path: Vec<String>,
)
    requires
        call_ensures(locate_demucs, (cwd, roots, dirs, found), place),
        call_ensures(find_demucs, (cwd, roots, dirs, found), cmd),
        call_ensures(find_demucs_by_path, (cwd, roots, dirs, found), by_path),
    ensures
        match place {
            DemucsPlace::Local(p) => texts(cmd@) == seq![p.text@],
            DemucsPlace::Portable(p) => texts(cmd@) == seq![p.text@, "-m"@, "demucs"@],
            DemucsPlace::Tool(p) => texts(cmd@) == seq!["demucs"@],
            DemucsPlace::Conda => texts(cmd@) == seq![
                r"D:\conda\python.exe"@,
                "-m"@,
                "demucs"@,
            ],
            DemucsPlace::Python => texts(cmd@) == seq!["python"@, "-m"@, "demucs"@],
        },
        texts(by_path@) == (if place is Tool {
            seq![place->Tool_0.text@]
        } else {
            texts(cmd@)
        }),
{
}

/// What is said about the tools: how Demucs is started, or that it was not
/// found, and where ncmdump is, or that NCM files cannot be converted.
pub proof fn law_tool_status(
    demucs: &Vec<String>,
    available: bool,
    ncmdump: &Option<FilePath>,
    text: String,
)
    requires
        demucs@.len() > 0,
        available ==> *ncmdump is Some,
        call_ensures(build_tool_status, (demucs, available, ncmdump), text),
    ensures
        text@ == (if demucs@[0]@ == "python"@ {
            "Demucs: 未发现 demucs.exe, 将尝试使用 python -m demucs"@
        } else {
            "Demucs: "@ + demucs@[0]@
        }) + (if available {
            "  |  ncmdump: "@ + (*ncmdump)->0.text@
        } else {
            "  |  ncmdump: 未找到 (NCM 无法自动转换)"@
        }),
{
    assert(texts(demucs@)[0] == demucs@[0]@);
}

// ---------------------------------------------------------------------------
// The environment of a tool
// ---------------------------------------------------------------------------

/// Whether a variable of that name is set.
pub open spec fn is_set(vars: Seq<(Seq<char>, Seq<char>)>, name: Seq<char>) -> bool {
    exists|i: int| 0 <= i < vars.len() && (#[trigger] vars[i]).0 == name
}

/// The first variable of a name.
proof fn lemma_var_index(vars: Seq<(Seq<char>, Seq<char>)>, name: Seq<char>)
    ensures
        is_set(vars, name) <==> var_index(vars, name) >= 0,
        var_index(vars, name) >= 0 ==> var_index(vars, name) < vars.len() && vars[var_index(
            vars,
            name,
        )].0 == name && forall|j: int|
            0 <= j < var_index(vars, name) ==> (#[trigger] vars[j]).0 != name,
    decreases vars.len(),
{
    if vars.len() > 0 {
        let rest = vars.skip(1);
        lemma_var_index(rest, name);
        if vars[0].0 != name {
            let i = var_index(rest, name);
            if i >= 0 {
                assert(vars[i + 1] == rest[i]);
                assert forall|j: int| 0 <= j < i + 1 implies (#[trigger] vars[j]).0 != name by {
                    if j > 0 {
                        assert(vars[j] == rest[j - 1]);
                    }
                }
            } else {
                assert forall|j: int| 0 <= j < vars.len() implies (#[trigger] vars[j]).0
                    != name by {
                    if j > 0 {
                        assert(vars[j] == rest[j - 1]);
                    }
                }
            }
        }
    }
}

/// Python is made to write and read UTF-8 by two variables, each of which is
/// added at the end unless it is set.
pub proof fn law_utf8_vars(before: Seq<(Seq<char>, Seq<char>)>)
    ensures
        forall|vars: &mut Vec<(String, String)>| #[trigger]
            call_ensures(add_utf8_vars, (vars,), ()) && vars_view((*vars)@) == before
                ==> vars_view((*final(vars))@) == before + (if is_set(
                before,
                "PYTHONIOENCODING"@,
            ) {
                seq![]
            } else {
                seq![("PYTHONIOENCODING"@, "utf-8"@)]
            }) + (if is_set(before, "PYTHONUTF8"@) {
                seq![]
            } else {
                seq![("PYTHONUTF8"@, "1"@)]
            }),
{
    let one = crate::tools::with_default_var(before, "PYTHONIOENCODING"@, "utf-8"@);
    lemma_var_index(before, "PYTHONIOENCODING"@);
    lemma_var_index(before, "PYTHONUTF8"@);
    lemma_var_index(one, "PYTHONUTF8"@);
    reveal_strlit("PYTHONIOENCODING");
    reveal_strlit("PYTHONUTF8");
    assert("PYTHONIOENCODING"@.len() != "PYTHONUTF8"@.len());
    if !is_set(before, "PYTHONIOENCODING"@) {
        assert(is_set(one, "PYTHONUTF8"@) == is_set(before, "PYTHONUTF8"@)) by {
            if is_set(before, "PYTHONUTF8"@) {
                let i = choose|i: int|
                    0 <= i < before.len() && (#[trigger] before[i]).0 == "PYTHONUTF8"@;
                assert(one[i].0 == "PYTHONUTF8"@);
            }
            if is_set(one, "PYTHONUTF8"@) {
                let i = choose|i: int|
                    0 <= i < one.len() && (#[trigger] one[i]).0 == "PYTHONUTF8"@;
                assert(before[i].0 == "PYTHONUTF8"@);
            }
        }
    }
    assert(crate::tools::utf8_env(before) == before + (if is_set(before, "PYTHONIOENCODING"@) {
        seq![]
    } else {
        seq![("PYTHONIOENCODING"@, "utf-8"@)]
    }) + (if is_set(before, "PYTHONUTF8"@) {
        seq![]
    } else {
        seq![("PYTHONUTF8"@, "1"@)]
    }));
}

/// A Python brings its programs and libraries in its own directory, in its
/// scripts and in the binaries of its library; no other program brings any.
pub proof fn law_runtime_places(command: &FilePath, places: Vec<Candidate>)
    requires
        call_ensures(python_runtime_places, (command,), places),
    ensures
        candidates_view(places@) == (if command@.file_name() is Some && same_ignoring_ascii_case(
            command@.file_name()->0,
            "python.exe"@,
        ) && command.parent is Some {
            let dir = command.parent->0@;
            seq![
                CandidateView { base: dir, below: seq![] },
                CandidateView { base: dir, below: seq!["Scripts"@] },
                CandidateView { base: dir, below: seq!["Library"@, "bin"@] },
            ]
        } else {
            seq![]
        }),
{
}

/// Directories are put in front of the search path: of the first variable of
/// that name, with a semicolon between if it held anything, or of a new one.
/// Nothing else changes.
pub proof fn law_runtime_paths(before: Seq<(Seq<char>, Seq<char>)>, prefix: &str, k: int)
    requires
        is_set(before, "PATH"@) ==> 0 <= k < before.len() && before[k].0 == "PATH"@ && forall|
            j: int,
        |
            0 <= j < k ==> (#[trigger] before[j]).0 != "PATH"@,
    ensures
        forall|vars: &mut Vec<(String, String)>| #[trigger]
            call_ensures(add_python_runtime_paths, (vars, prefix), ()) && vars_view((*vars)@)
                == before ==> vars_view((*final(vars))@) == (if prefix@.len() == 0 {
                before
            } else if !is_set(before, "PATH"@) {
                before.push(("PATH"@, prefix@))
            } else if before[k].1.len() == 0 {
                before.update(k, ("PATH"@, prefix@))
            } else {
                before.update(k, ("PATH"@, prefix@ + seq![';'] + before[k].1))
            }),
{
    lemma_var_index(before, "PATH"@);
    reveal_strlit(";");
    assert(";"@ == seq![';']);
    if is_set(before, "PATH"@) {
        let i = var_index(before, "PATH"@);
        assert(i == k) by {
            let _ = before[i];
            let _ = before[k];
        }
    }
}

} // verus!
