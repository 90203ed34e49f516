use yyw::path::FilePath;
use yyw::search::{Candidate, Found};
use yyw::tools::{
    add_python_runtime_paths, add_utf8_vars, build_tool_status, demucs_candidates, ffprobe_name,
    find_demucs, find_demucs_by_path, find_ffmpeg, find_ffprobe, find_tool, place_beside,
    push_tool_roots, python_runtime_places, tool_candidates, tool_roots, CONDA_PYTHON,
};

fn path(text: &str) -> FilePath {
    FilePath::new(text.to_string())
}

fn dirs(list: &[&str]) -> Vec<FilePath> {
    list.iter().map(|t| path(t)).collect()
}

fn texts(list: &[FilePath]) -> Vec<String> {
    list.iter().map(|p| p.text.clone()).collect()
}

fn all_found(places: Vec<Candidate>, only: &[&str]) -> Vec<Found> {
    let mut out = Vec::new();
    for c in places {
        let mut p = std::path::PathBuf::from(&c.base);
        for name in &c.below {
            p.push(name);
        }
        let text = p.to_string_lossy().into_owned();
        if only.contains(&text.as_str()) {
            out.push(Found { candidate: c, path: path(&text) });
        }
    }
    out
}

#[test]
fn at_most_four_ancestors_and_none_twice() {
    let roots = tool_roots(&Some(path("/a/b/c/d/e")), &Some(path("/a/b/c")));
    assert_eq!(texts(&roots), ["/a/b/c/d/e", "/a/b/c/d", "/a/b/c", "/a/b", "/a", "/"]);
    let mut more = roots;
    push_tool_roots(&mut more, &path("/z"));
    assert_eq!(texts(&more)[6..], ["/z"]);
    assert_eq!(texts(&tool_roots(&None, &Some(path("x/y")))), ["x/y", "x", ""]);
    assert!(tool_roots(&None, &None).is_empty());
}

#[test]
fn the_same_root_brings_in_nothing_the_second_time() {
    for text in ["/a/b/c/d/e", "/a", "a/./b//c", "/", "../x", ""] {
        let mut roots = tool_roots(&Some(path("/a/b")), &Some(path("q")));
        let before = texts(&roots);
        push_tool_roots(&mut roots, &path(text));
        let once = texts(&roots);
        assert!(once.len() <= before.len() + 4, "{text}");
        assert_eq!(once[..before.len()], before, "{text}");
        push_tool_roots(&mut roots, &path(text));
        assert_eq!(texts(&roots), once, "{text}");
        for i in 0..roots.len() {
            assert!(roots[..i].iter().all(|r| !r.same(&roots[i])), "{text}");
        }
    }
}

#[test]
fn ancestors_are_those_of_std() {
    for text in ["/a/b/c/d/e", "a", "a/./b//c", "/", "..", "../x"] {
        let want: Vec<String> = std::path::Path::new(text)
            .ancestors()
            .take(4)
            .map(|p| p.to_string_lossy().into_owned())
            .collect();
        let mut roots = Vec::new();
        push_tool_roots(&mut roots, &path(text));
        assert_eq!(texts(&roots), want, "{text}");
        for root in &roots {
            assert!(root.same(&path(&root.text)), "{text}");
        }
    }
}

#[test]
fn tools_are_looked_for_in_order() {
    let roots = dirs(&["/app", "/cwd"]);
    let on_path = dirs(&["/bin"]);
    let places = tool_candidates("x.exe", &roots, &on_path);
    let spelled: Vec<(String, Vec<String>)> =
        places.iter().map(|c| (c.base.clone(), c.below.clone())).collect();
    assert_eq!(spelled[0], ("/app".to_string(), vec!["tools".to_string(), "x.exe".to_string()]));
    assert_eq!(spelled[1], ("/app".to_string(), vec!["x.exe".to_string()]));
    assert_eq!(spelled[4], ("/bin".to_string(), vec!["x.exe".to_string()]));
    assert_eq!(spelled.len(), 5);
    let found = all_found(places, &["/cwd/x.exe", "/bin/x.exe"]);
    assert_eq!(find_tool("x.exe", &roots, &on_path, &found).unwrap().text, "/cwd/x.exe");
    assert!(find_tool("y.exe", &roots, &on_path, &found).is_none());
}

#[test]
fn ffprobe_lies_beside_ffmpeg_or_elsewhere() {
    let roots = dirs(&["/app"]);
    let on_path = dirs(&["/bin"]);
    let mut places = tool_candidates("ffmpeg.exe", &roots, &on_path);
    places.append(&mut tool_candidates("ffprobe", &roots, &on_path));
    places.push(place_beside(&path("/app/tools/ffmpeg.exe"), "ffprobe"));
    let both = ["/app/tools/ffmpeg.exe", "/app/tools/ffprobe", "/bin/ffprobe"];
    let found = all_found(places, &both);
    assert_eq!(find_ffmpeg(&roots, &on_path, &found).unwrap().text, "/app/tools/ffmpeg.exe");
    assert_eq!(find_ffprobe(false, &roots, &on_path, &found).unwrap().text, "/app/tools/ffprobe");
    let far = all_found(tool_candidates("ffprobe", &roots, &on_path), &["/bin/ffprobe"]);
    assert_eq!(find_ffprobe(false, &roots, &on_path, &far).unwrap().text, "/bin/ffprobe");
    assert!(find_ffprobe(true, &roots, &on_path, &far).is_none());
    assert_eq!(ffprobe_name(true), "ffprobe.exe");
}

#[test]
fn demucs_is_looked_for_in_order() {
    let cwd = Some(path("/cwd"));
    let roots = dirs(&["/app"]);
    let on_path = dirs(&["/bin"]);
    let places = || {
        let mut all = demucs_candidates(&cwd, &roots);
        all.append(&mut tool_candidates("demucs.exe", &roots, &on_path));
        all
    };
    let run = |there: &[&str]| find_demucs(&cwd, &roots, &on_path, &all_found(places(), there));
    let by_path =
        |there: &[&str]| find_demucs_by_path(&cwd, &roots, &on_path, &all_found(places(), there));
    assert_eq!(run(&[]), ["python", "-m", "demucs"]);
    assert_eq!(run(&[CONDA_PYTHON]), [CONDA_PYTHON, "-m", "demucs"]);
    assert_eq!(run(&[CONDA_PYTHON, "/bin/demucs.exe"]), ["demucs"]);
    assert_eq!(by_path(&[CONDA_PYTHON, "/bin/demucs.exe"]), ["/bin/demucs.exe"]);
    let python = "/app/runtime/python/python.exe";
    assert_eq!(run(&["/bin/demucs.exe", python]), [python, "-m", "demucs"]);
    let local = "/app/tools/demucs.exe";
    assert_eq!(run(&[python, local]), [local]);
    assert_eq!(by_path(&[python, local, "/cwd/tools/demucs.exe"]), ["/cwd/tools/demucs.exe"]);
}

#[test]
fn tool_status_texts() {
    let python = vec!["python".to_string(), "-m".to_string(), "demucs".to_string()];
    assert_eq!(
        build_tool_status(&python, false, &None),
        "Demucs: 未发现 demucs.exe, 将尝试使用 python -m demucs  |  ncmdump: 未找到 (NCM 无法自动转换)"
    );
    assert_eq!(
        build_tool_status(&vec!["d.exe".to_string()], true, &Some(path("t/n.exe"))),
        "Demucs: d.exe  |  ncmdump: t/n.exe"
    );
}

#[test]
fn python_reads_and_writes_utf8_unless_told_otherwise() {
    let mut vars = vec![("PYTHONUTF8".to_string(), "0".to_string())];
    add_utf8_vars(&mut vars);
    assert_eq!(vars.len(), 2);
    assert_eq!(vars[0].1, "0");
    assert_eq!(vars[1], ("PYTHONIOENCODING".to_string(), "utf-8".to_string()));
}

#[test]
fn runtime_directories_of_python() {
    let places = python_runtime_places(&path("/conda/PYTHON.exe"));
    assert_eq!(places.len(), 3);
    assert_eq!(places[2].below, ["Library", "bin"]);
    assert_eq!(places[0].base, "/conda");
    assert!(python_runtime_places(&path("/conda/demucs.exe")).is_empty());
}

#[test]
fn search_path_is_extended_in_front() {
    let mut vars = vec![("PATH".to_string(), "/bin".to_string())];
    add_python_runtime_paths(&mut vars, "");
    assert_eq!(vars[0].1, "/bin");
    add_python_runtime_paths(&mut vars, "/conda");
    assert_eq!(vars[0].1, "/conda;/bin");
    let mut none = Vec::new();
    add_python_runtime_paths(&mut none, "/conda");
    assert_eq!(none, vec![("PATH".to_string(), "/conda".to_string())]);
    let mut empty = vec![("PATH".to_string(), String::new())];
    add_python_runtime_paths(&mut empty, "/conda");
    assert_eq!(empty[0].1, "/conda");
}
