use yyw::path::{split_name, FilePath, PathPart};
use yyw::search::{first_existing, lookup, Candidate, Found};

fn path(text: &str) -> FilePath {
    FilePath::new(text.to_string())
}

fn found(place: Candidate, at: &str) -> Found {
    Found { candidate: place, path: path(at) }
}

#[test]
fn parts_of_a_path() {
    let p = path("music/album/song.ncm");
    assert_eq!(p.parts.len(), 3);
    assert!(matches!(&p.parts[2], PathPart::Normal(n) if n == "song.ncm"));
    assert_eq!(p.parent.as_deref(), Some("music/album"));
    assert_eq!(p.name(), "song.ncm");
    assert_eq!(p.extension().as_deref(), Some("ncm"));
    assert_eq!(p.file_stem().as_deref(), Some("song"));
}

#[test]
fn paths_without_a_name() {
    assert_eq!(path("").parts.len(), 0);
    assert_eq!(path("").parent, None);
    assert!(path("..").file_name().is_none());
    assert_eq!(path("/").parent, None);
    assert_eq!(path("/").name(), "");
    assert!(!path("/").is_below());
    assert_eq!(path("song").parent.as_deref(), Some(""));
}

#[test]
fn names_split_at_the_last_dot() {
    assert_eq!(split_name("a.b.c"), ("a.b".to_string(), Some("c".to_string())));
    assert_eq!(split_name(".hidden"), (".hidden".to_string(), None));
    assert_eq!(split_name("plain"), ("plain".to_string(), None));
    assert_eq!(split_name("end."), ("end".to_string(), Some(String::new())));
}

#[test]
fn another_extension_is_that_of_std() {
    for text in ["music/song.ncm", "song", "a.b/c.d.e", ".hidden", "dir/song.ncm/", "/", "..", ""] {
        let want = std::path::Path::new(text).with_extension("flac");
        assert_eq!(path(text).with_extension("flac").text, want.to_string_lossy(), "{text}");
    }
}

#[test]
fn another_extension_keeps_stem_and_directory() {
    let p = path("music/song.live.ncm");
    let q = p.with_extension("flac");
    assert_eq!(q.extension().as_deref(), Some("flac"));
    assert_eq!(q.file_stem(), p.file_stem());
    assert!(q.same_parent(&p));
    assert_eq!(q.parent, p.parent);
    assert_eq!(q.above, p.above);
}

#[test]
fn the_ancestors_of_a_path() {
    for text in ["/a/b/c/d/e", "a", "a/./b//c", "/", "..", "../x", ""] {
        let want: Vec<String> = std::path::Path::new(text)
            .ancestors()
            .skip(1)
            .map(|p| p.to_string_lossy().into_owned())
            .collect();
        let p = path(text);
        let mut got: Vec<String> = p.parent.iter().cloned().collect();
        got.extend(p.above.iter().cloned());
        assert_eq!(got, want, "{text}");
    }
    let dir = path("/a/b/c").parent_path().unwrap();
    assert_eq!(dir.text, "/a/b");
    assert_eq!(dir.parent.as_deref(), Some("/a"));
    assert_eq!(dir.above, ["/"]);
    assert!(path("/").parent_path().is_none());
}

#[test]
fn sameness_goes_by_components() {
    assert!(path("a//b/./c").same(&path("a/b/c")));
    assert!(!path("a/b").same(&path("a/b/c")));
    assert!(path("a/b").same_parent(&path("a/c")));
    assert!(path("/").same_parent(&path("")));
    assert!(!path("a/b").same_parent(&path("b")));
    assert!(path("a/b").parent_is(&path("a")));
    assert!(!path("a/b").parent_is(&path("b")));
    assert!(path("b").parent_is(&path("")));
}

#[test]
fn search_stops_at_the_first_place() {
    let places = vec![
        Candidate::two_below("root", "tools", "x"),
        Candidate::in_dir("root", "x"),
        Candidate::at("x"),
    ];
    let there = vec![
        found(Candidate::at("x"), "x"),
        found(Candidate::in_dir("root", "x"), "root/x"),
    ];
    assert_eq!(first_existing(&places, &there).unwrap().text, "root/x");
    assert!(first_existing(&places, &Vec::new()).is_none());
    assert!(lookup(&there, &Candidate::at("y")).is_none());
    assert_eq!(lookup(&there, &Candidate::at("x")).unwrap().text, "x");
}

#[test]
fn places_are_told_apart() {
    assert!(Candidate::in_dir("a", "b").same(&Candidate::in_dir("a", "b").clone()));
    assert!(!Candidate::in_dir("a", "b").same(&Candidate::at("a")));
    assert!(!Candidate::in_dir("a", "b").same(&Candidate::in_dir("a", "c")));
    assert!(!Candidate::at("a").same(&Candidate::at("b")));
}

#[test]
fn plain_names_with_slashes_between_them() {
    let names = |p: &FilePath| -> Vec<String> {
        p.parts
            .iter()
            .map(|part| match part {
                PathPart::Normal(n) => n.clone(),
                _ => "?".to_string(),
            })
            .collect()
    };
    assert_eq!(names(&path("a/b/c/d")), ["a", "b", "c", "d"]);
    assert_eq!(path("a/b/c/d").parent.as_deref(), Some("a/b/c"));
    let rooted = path("/a/b");
    assert!(matches!(rooted.parts[0], PathPart::RootDir));
    assert_eq!(names(&rooted), ["?", "a", "b"]);
    assert_eq!(rooted.parent.as_deref(), Some("/a"));
    assert_eq!(path("/a").parent.as_deref(), Some("/"));
}

#[test]
fn the_directory_of_a_path() {
    let dir = path("a/b/c").parent_path().unwrap();
    assert_eq!(dir.text, "a/b");
    assert!(dir.same(&path("a/b")));
    assert_eq!(dir.parent.as_deref(), Some("a"));
    assert!(path("/").parent_path().is_none());
    assert_eq!(path("a").parent_path().unwrap().text, "");
}
