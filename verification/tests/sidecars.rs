use yyw::media::{AudioItem, AudioKind};
use yyw::path::FilePath;
use yyw::search::{Candidate, Found};
use yyw::sidecar::{
    after_cover_run, cover_candidates, cover_file_name, find_cover_file, find_lyrics_file,
    lyrics_candidates, media_candidates_for, related_source_for, CoverNext, CoverRun,
};

fn path(text: &str) -> FilePath {
    FilePath::new(text.to_string())
}

fn paths(list: &[&str]) -> Vec<FilePath> {
    list.iter().map(|t| path(t)).collect()
}

fn item(text: &str, audio: Option<&str>) -> AudioItem {
    AudioItem {
        path: path(text),
        status: String::new(),
        process_path: audio.map(path),
        kind: AudioKind::Ncm,
    }
}

fn texts(list: &[FilePath]) -> Vec<String> {
    list.iter().map(|p| p.text.clone()).collect()
}

#[test]
fn the_source_of_listed_audio_is_itself() {
    let items = vec![item("m/a.ncm", None), item("m/b.ncm", Some("m/b.flac"))];
    let got = related_source_for(&path("m//b.flac"), &items, true, &paths(&["m/x/m.flac"]));
    assert_eq!(got.text, "m/b.flac");
}

#[test]
fn the_source_of_a_stem_is_named_like_its_track() {
    let stem = path("out/htdemucs/song/vocals.wav");
    let items = vec![item("m/x.ncm", Some("m/x.mp3")), item("m/s.ncm", Some("m/song.flac"))];
    assert_eq!(related_source_for(&stem, &items, false, &Vec::new()).text, "m/song.flac");
    let walked = paths(&["m/song.ncm", "m/song.txt", "m/y/song.MP3", "m/z/song.flac"]);
    assert_eq!(related_source_for(&stem, &Vec::new(), true, &walked).text, "m/y/song.MP3");
    assert_eq!(related_source_for(&stem, &Vec::new(), true, &paths(&["m/song.ncm"])).text, "m/song.ncm");
    assert_eq!(related_source_for(&stem, &Vec::new(), false, &walked).text, stem.text);
    assert_eq!(related_source_for(&path("lone.wav"), &Vec::new(), true, &walked).text, "lone.wav");
}

#[test]
fn files_beside_which_to_look() {
    let p = path("o/t/v.wav");
    let all = media_candidates_for(&p, &path("m/t.mp3"), true);
    assert_eq!(texts(&all), ["o/t/v.wav", "m/t.mp3", "o/t/v.flac"]);
    assert_eq!(texts(&media_candidates_for(&p, &p, false)), ["o/t/v.wav"]);
    let flac = media_candidates_for(&p, &path("o/t/v.flac"), true);
    assert_eq!(texts(&flac), ["o/t/v.wav", "o/t/v.flac"]);
    let same = path("o/t/v.flac");
    assert_eq!(texts(&media_candidates_for(&same, &same, true)), ["o/t/v.flac"]);
}

#[test]
fn lyrics_files_in_order() {
    let bases = paths(&["o/t/v.wav", "m/t.mp3"]);
    let places = lyrics_candidates(&bases);
    assert_eq!(places.len(), 8);
    assert_eq!(places[0].base, "o/t/v.lrc");
    assert_eq!(places[2].base, "o/t");
    assert_eq!(places[2].below, ["lyrics.lrc"]);
    let there = vec![
        Found { candidate: Candidate::at("m/t.lrc"), path: path("m/t.lrc") },
        Found { candidate: Candidate::in_dir("o/t", "lyrics.txt"), path: path("o/t/lyrics.txt") },
    ];
    assert_eq!(find_lyrics_file(&bases, &there).unwrap().text, "o/t/lyrics.txt");
    assert!(find_lyrics_file(&bases, &Vec::new()).is_none());
}

#[test]
fn cover_files_in_order() {
    let bases = paths(&["m/t.mp3"]);
    let places = cover_candidates(&bases);
    assert_eq!(places.len(), 9);
    assert_eq!(places[8].below, ["folder.jpeg"]);
    let there = vec![
        Found { candidate: places[0].clone(), path: path("m/t") },
        Found { candidate: places[4].clone(), path: path("m/cover.jpg") },
    ];
    assert_eq!(find_cover_file(&bases, &there).unwrap().text, "m/cover.jpg");
    assert!(find_cover_file(&Vec::new(), &there).is_none());
    assert_eq!(cover_candidates(&paths(&["/"])).len(), 3);
}

#[test]
fn covers_inside_audio() {
    assert_eq!(cover_file_name(255), "yyw_cover_ff.png");
    assert_eq!(after_cover_run(CoverRun::NoAudio), CoverNext::Next);
    assert_eq!(after_cover_run(CoverRun::NotRun), CoverNext::GiveUp);
    let ran = |success, written| after_cover_run(CoverRun::Ran { success, written });
    assert_eq!(ran(true, true), CoverNext::Take);
    assert_eq!(ran(true, false), CoverNext::Next);
    assert_eq!(ran(false, true), CoverNext::Next);
}
