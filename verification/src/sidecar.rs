//! What belongs to a track beside its audio: its source, its lyrics and its
//! cover.

use crate::letters::{lowercase_of, to_lowercase};
use crate::media::{
    converted_exts, converted_list, ext_among, has_ext, input_exts, input_list, is_image,
    items_view, valid_image_ext, AudioItem, ItemView,
};
use crate::number::{hexadecimal, push_hex};
use crate::path::{is_extension, path_opt, paths_view, FilePath, PathView};
use crate::scan::{ext_or_empty, track_name_of, track_of};
use crate::search::{
    candidates_view, first_existing, first_found, found_at, found_view, lookup, Candidate,
    CandidateView, Found, FoundView,
};
use crate::text::{has_text, same_text};
use vstd::prelude::*;

verus! {

// ---------------------------------------------------------------------------
// The source of a track
// ---------------------------------------------------------------------------

/// The first audio of the items that is the path.
pub open spec fn listed_audio(items: Seq<ItemView>, path: PathView) -> Option<PathView>
    decreases items.len(),
{
    if items.len() == 0 {
        None
    } else {
        match items[0].process_path {
            Some(p) => if p.parts == path.parts {
                Some(p)
            } else {
                listed_audio(items.skip(1), path)
            },
            None => listed_audio(items.skip(1), path),
        }
    }
}

/// The first audio of the items with that stem.
pub open spec fn audio_named(items: Seq<ItemView>, stem: Seq<char>) -> Option<PathView>
    decreases items.len(),
{
    if items.len() == 0 {
        None
    } else {
        match items[0].process_path {
            Some(p) => if p.stem() == Some(stem) {
                Some(p)
            } else {
                audio_named(items.skip(1), stem)
            },
            None => audio_named(items.skip(1), stem),
        }
    }
}

/// How little a source file is wanted: audio first, NCM files last.
pub open spec fn source_rank(path: PathView) -> int {
    let ext = lowercase_of(ext_or_empty(path));
    if converted_list().contains(ext) {
        0
    } else if ext == "ncm"@ {
        2
    } else {
        1
    }
}

/// The source file with that stem: the most wanted one, and of those the
/// first.
pub open spec fn source_named(walked: Seq<PathView>, stem: Seq<char>) -> Option<PathView>
    decreases walked.len(),
{
    if walked.len() == 0 {
        None
    } else {
        let best = source_named(walked.drop_last(), stem);
        let p = walked.last();
        if !ext_among(p, input_list()) || p.stem() != Some(stem) {
            best
        } else {
            match best {
                Some(b) => if source_rank(p) < source_rank(b) {
                    Some(p)
                } else {
                    best
                },
                None => Some(p),
            }
        }
    }
}

/// The source that a file was made from: listed audio that is the file
/// itself, listed audio named like its directory, a source file named like
/// its directory, or else the file itself.
pub open spec fn source_for(
    path: PathView,
    items: Seq<ItemView>,
    source_exists: bool,
    walked: Seq<PathView>,
) -> PathView {
    match listed_audio(items, path) {
        Some(p) => p,
        None => match track_of(path) {
            Some(track) => match audio_named(items, track) {
                Some(p) => p,
                None => match source_named(walked, track) {
                    Some(p) => if source_exists {
                        p
                    } else {
                        path
                    },
                    None => path,
                },
            },
            None => path,
        },
    }
}

/// The first audio of the items that is the path.
fn find_listed(items: &Vec<AudioItem>, path: &FilePath) -> (hit: Option<FilePath>)
    ensures
        path_opt(hit) == listed_audio(items_view(items@), path@),
{
    let ghost all = items_view(items@);
    let mut i: usize = 0;
    assert(all.skip(0) == all);
    while i < items.len()
        invariant
            all == items_view(items@),
            i <= items@.len(),
            listed_audio(all, path@) == listed_audio(all.skip(i as int), path@),
        decreases items@.len() - i,
    {
        assert(all.skip(i as int)[0] == items@[i as int]@);
        if let Some(p) = &items[i].process_path {
            if p.same(path) {
                return Some(p.clone());
            }
        }
        assert(all.skip(i as int).skip(1) == all.skip(i + 1));
        i = i + 1;
    }
    None
}

/// Whether the stem of a path is the text.
fn stem_is(path: &FilePath, stem: &str) -> (yes: bool)
    ensures
        yes == (path@.stem() == Some(stem@)),
{
    match path.file_stem() {
        Some(s) => same_text(s.as_str(), stem),
        None => false,
    }
}

/// The first audio of the items with that stem.
fn find_named(items: &Vec<AudioItem>, stem: &str) -> (hit: Option<FilePath>)
    ensures
        path_opt(hit) == audio_named(items_view(items@), stem@),
{
    let ghost all = items_view(items@);
    let mut i: usize = 0;
    assert(all.skip(0) == all);
    while i < items.len()
        invariant
            all == items_view(items@),
            i <= items@.len(),
            audio_named(all, stem@) == audio_named(all.skip(i as int), stem@),
        decreases items@.len() - i,
    {
        assert(all.skip(i as int)[0] == items@[i as int]@);
        if let Some(p) = &items[i].process_path {
            if stem_is(p, stem) {
                return Some(p.clone());
            }
        }
        assert(all.skip(i as int).skip(1) == all.skip(i + 1));
        i = i + 1;
    }
    None
}

/// How little a source file is wanted.
fn rank(path: &FilePath) -> (r: u8)
    ensures
        r == source_rank(path@),
{
    let ext = match path.extension() {
        Some(e) => to_lowercase(e.as_str()),
        None => to_lowercase(String::new().as_str()),
    };
    let exts = converted_exts();
    if has_text(&exts, ext.as_str()) {
        0
    } else if same_text(ext.as_str(), "ncm") {
        2
    } else {
        1
    }
}

/// The source file with that stem.
fn find_source(walked: &Vec<FilePath>, stem: &str) -> (hit: Option<FilePath>)
    ensures
        path_opt(hit) == source_named(paths_view(walked@), stem@),
{
    let exts = input_exts();
    let ghost all = paths_view(walked@);
    let mut best: Option<usize> = None;
    assert(all.take(0) == Seq::<PathView>::empty());
    for i in 0..walked.len()
        invariant
            all == paths_view(walked@),
            exts.deep_view() == input_list(),
            match best {
                Some(b) => b < walked@.len() && source_named(all.take(i as int), stem@) == Some(
                    all[b as int],
                ),
                None => source_named(all.take(i as int), stem@) is None,
            },
    {
        assert(all.take(i + 1).drop_last() == all.take(i as int));
        assert(all.take(i + 1).last() == all[i as int]);
        if has_ext(&walked[i], &exts) && stem_is(&walked[i], stem) {
            match best {
                Some(b) => {
                    if rank(&walked[i]) < rank(&walked[b]) {
                        best = Some(i);
                    }
                },
                None => {
                    best = Some(i);
                },
            }
        }
    }
    assert(all.take(all.len() as int) == all);
    match best {
        Some(b) => Some(walked[b].clone()),
        None => None,
    }
}

/// The source that a file was made from, given the listed items and the files
/// below the source directory.
pub fn related_source_for(
    path: &FilePath,
    items: &Vec<AudioItem>,
    source_exists: bool,
    walked: &Vec<FilePath>,
) -> (source: FilePath)
    ensures
        source@ == source_for(path@, items_view(items@), source_exists, paths_view(walked@)),
{
    if let Some(p) = find_listed(items, path) {
        return p;
    }
    if let Some(track) = track_name_of(path) {
        if let Some(p) = find_named(items, track.as_str()) {
            return p;
        }
        if let Some(p) = find_source(walked, track.as_str()) {
            if source_exists {
                return p;
            }
        }
    }
    path.clone()
}

/// The source of listed audio is that audio.
pub proof fn law_listed_audio_is_its_source(
    items: Seq<ItemView>,
    k: int,
    source_exists: bool,
    walked: Seq<PathView>,
)
    requires
        0 <= k < items.len(),
        items[k].process_path is Some,
    ensures
        source_for(items[k].process_path->0, items, source_exists, walked).parts
            == (items[k].process_path->0).parts,
{
    lemma_listed(items, k);
}

/// The source file that is taken for a stem is an input file that carries its
/// name, and none that carries it is wanted more; one is taken whenever one carries it.
pub proof fn law_source_most_wanted(walked: Seq<PathView>, stem: Seq<char>)
    ensures
        match source_named(walked, stem) {
            Some(p) => walked.contains(p) && ext_among(p, input_list()) && p.stem() == Some(stem)
                && forall|i: int|
                0 <= i < walked.len() && ext_among(#[trigger] walked[i], input_list())
                    && walked[i].stem() == Some(stem) ==> source_rank(p) <= source_rank(walked[i]),
            None => forall|i: int|
                0 <= i < walked.len() ==> !(ext_among(#[trigger] walked[i], input_list())
                    && walked[i].stem() == Some(stem)),
        },
    decreases walked.len(),
{
    if walked.len() > 0 {
        let rest = walked.drop_last();
        law_source_most_wanted(rest, stem);
        assert(walked[walked.len() - 1] == walked.last());
        if let Some(b) = source_named(rest, stem) {
            let k = choose|k: int| 0 <= k < rest.len() && rest[k] == b;
            assert(walked[k] == b);
        }
        assert forall|i: int| 0 <= i < walked.len() - 1 implies walked[i] == #[trigger] rest[i] by {
        }
        assert forall|i: int|
            0 <= i < walked.len() && ext_among(#[trigger] walked[i], input_list())
                && walked[i].stem() == Some(stem) implies source_named(walked, stem) is Some
            && source_rank(source_named(walked, stem)->0) <= source_rank(walked[i]) by {
            if i < walked.len() - 1 {
                assert(walked[i] == rest[i]);
            }
        }
    }
}

/// Listed audio is found in the list.
proof fn lemma_listed(items: Seq<ItemView>, k: int)
    requires
        0 <= k < items.len(),
        items[k].process_path is Some,
    ensures
        listed_audio(items, items[k].process_path->0) matches Some(p) && p.parts == (
        items[k].process_path->0).parts,
    decreases items.len(),
{
    let path = items[k].process_path->0;
    let here = items[0].process_path matches Some(p) && p.parts == path.parts;
    if !here {
        assert(items.skip(1)[k - 1] == items[k]);
        lemma_listed(items.skip(1), k - 1);
    }
}

// ---------------------------------------------------------------------------
// Files beside a track
// ---------------------------------------------------------------------------

/// The files beside which lyrics and covers are looked for: the file, its
/// source, and the FLAC file of its name if there is one; none of them twice.
pub open spec fn bases_for(path: PathView, source: PathView, flac_exists: bool) -> Seq<PathView> {
    let flac = path.with_extension("flac"@);
    let first = if source.parts != path.parts {
        seq![path, source]
    } else {
        seq![path]
    };
    if flac_exists && flac.parts != path.parts && flac.parts != first.last().parts {
        first.push(flac)
    } else {
        first
    }
}

/// The files beside which lyrics and covers are looked for, given the source
/// of the file and whether the FLAC file of its name exists.
pub fn media_candidates_for(path: &FilePath, source: &FilePath, flac_exists: bool) -> (bases: Vec<
    FilePath,
>)
    ensures
        paths_view(bases@) == bases_for(path@, source@, flac_exists),
{
    let mut bases: Vec<FilePath> = Vec::new();
    let p = path.clone();
    bases.push(p);
    assert(paths_view(bases@) == seq![path@]);
    let other: bool = !source.same(path);
    if other {
        let s = source.clone();
        bases.push(s);
        assert(paths_view(bases@) == seq![path@, source@]);
    }
    proof {
        reveal_strlit("flac");
    }
    let flac = path.with_extension("flac");
    let ghost first = paths_view(bases@);
    if flac_exists && !flac.same(path) && !(other && flac.same(source)) {
        bases.push(flac);
        assert(paths_view(bases@) == first.push(flac@));
    }
    bases
}

/// No two neighbours among the bases are the same file, and the file itself
/// comes first.
pub proof fn law_bases(path: PathView, source: PathView, flac_exists: bool, i: int)
    ensures
        bases_for(path, source, flac_exists)[0] == path,
        0 <= i < bases_for(path, source, flac_exists).len() - 1 ==> bases_for(
            path,
            source,
            flac_exists,
        )[i].parts != bases_for(path, source, flac_exists)[i + 1].parts,
{
}

/// The places beside one file: those of its own name with other extensions,
/// then files of fixed names in its directory.
pub open spec fn places_beside(
    base: PathView,
    exts: Seq<Seq<char>>,
    names: Seq<Seq<char>>,
) -> Seq<CandidateView> {
    exts.map_values(
        |e: Seq<char>| CandidateView { base: base.with_extension(e).text, below: Seq::empty() },
    ) + match base.parent {
        Some(dir) => names.map_values(
            |n: Seq<char>| CandidateView { base: dir, below: seq![n] },
        ),
        None => Seq::empty(),
    }
}

/// The places beside each of the files.
pub open spec fn places_beside_all(
    bases: Seq<PathView>,
    exts: Seq<Seq<char>>,
    names: Seq<Seq<char>>,
) -> Seq<CandidateView>
    decreases bases.len(),
{
    if bases.len() == 0 {
        Seq::empty()
    } else {
        places_beside_all(bases.drop_last(), exts, names) + places_beside(
            bases.last(),
            exts,
            names,
        )
    }
}

/// Appends the places beside one file.
fn add_places_beside(
    places: &mut Vec<Candidate>,
    base: &FilePath,
    exts: &Vec<&'static str>,
    names: &Vec<&'static str>,
)
    requires
        forall|i: int| 0 <= i < exts@.len() ==> is_extension((#[trigger] exts@[i])@),
    ensures
        candidates_view(final(places)@) == candidates_view(old(places)@) + places_beside(
            base@,
            exts.deep_view(),
            names.deep_view(),
        ),
{
    let ghost start = candidates_view(places@);
    let ghost by_ext = exts.deep_view().map_values(
        |e: Seq<char>| CandidateView { base: base@.with_extension(e).text, below: Seq::empty() },
    );
    assert(start + by_ext.take(0) == start);
    for i in 0..exts.len()
        invariant
            forall|k: int| 0 <= k < exts@.len() ==> is_extension((#[trigger] exts@[k])@),
            by_ext == exts.deep_view().map_values(
                |e: Seq<char>|
                    CandidateView { base: base@.with_extension(e).text, below: Seq::empty() },
            ),
            candidates_view(places@) == start + by_ext.take(i as int),
    {
        assert(exts.deep_view()[i as int] == exts@[i as int]@);
        let place = Candidate::at(base.with_extension(exts[i]).text.as_str());
        let ghost before = candidates_view(places@);
        places.push(place);
        assert(candidates_view(places@) == before.push(place@));
        assert(by_ext.take(i + 1) == by_ext.take(i as int).push(by_ext[i as int]));
    }
    assert(exts.deep_view().len() == exts@.len());
    assert(by_ext.take(by_ext.len() as int) == by_ext);
    if let Some(dir) = &base.parent {
        let ghost by_name = names.deep_view().map_values(
            |n: Seq<char>| CandidateView { base: dir@, below: seq![n] },
        );
        let ghost mid = candidates_view(places@);
        assert(mid + by_name.take(0) == mid);
        for i in 0..names.len()
            invariant
                by_name == names.deep_view().map_values(
                    |n: Seq<char>| CandidateView { base: dir@, below: seq![n] },
                ),
                candidates_view(places@) == mid + by_name.take(i as int),
        {
            assert(names.deep_view()[i as int] == names@[i as int]@);
            let place = Candidate::in_dir(dir.as_str(), names[i]);
            let ghost before = candidates_view(places@);
            places.push(place);
            assert(candidates_view(places@) == before.push(place@));
            assert(by_name.take(i + 1) == by_name.take(i as int).push(by_name[i as int]));
        }
        assert(names.deep_view().len() == names@.len());
        assert(by_name.take(by_name.len() as int) == by_name);
        assert(base@.parent == Some(dir@));
    }
    assert(candidates_view(places@) == start + places_beside(
        base@,
        exts.deep_view(),
        names.deep_view(),
    ));
}

/// The places beside each of the files.
fn list_places_beside(
    bases: &Vec<FilePath>,
    exts: &Vec<&'static str>,
    names: &Vec<&'static str>,
) -> (places: Vec<Candidate>)
    requires
        forall|i: int| 0 <= i < exts@.len() ==> is_extension((#[trigger] exts@[i])@),
    ensures
        candidates_view(places@) == places_beside_all(
            paths_view(bases@),
            exts.deep_view(),
            names.deep_view(),
        ),
{
    let mut places: Vec<Candidate> = Vec::new();
    let ghost all = paths_view(bases@);
    assert(all.take(0) == Seq::<PathView>::empty());
    assert(candidates_view(places@) == Seq::<CandidateView>::empty());
    for i in 0..bases.len()
        invariant
            forall|k: int| 0 <= k < exts@.len() ==> is_extension((#[trigger] exts@[k])@),
            all == paths_view(bases@),
            candidates_view(places@) == places_beside_all(
                all.take(i as int),
                exts.deep_view(),
                names.deep_view(),
            ),
    {
        assert(all.take(i + 1).drop_last() == all.take(i as int));
        assert(all.take(i + 1).last() == bases@[i as int]@);
        add_places_beside(&mut places, &bases[i], exts, names);
    }
    assert(all.take(all.len() as int) == all);
    places
}

/// The places where lyrics are looked for.
pub open spec fn lyrics_places(bases: Seq<PathView>) -> Seq<CandidateView> {
    places_beside_all(bases, seq!["lrc"@, "txt"@], seq!["lyrics.lrc"@, "lyrics.txt"@])
}

/// The places where covers are looked for.
pub open spec fn cover_places(bases: Seq<PathView>) -> Seq<CandidateView> {
    places_beside_all(
        bases,
        seq!["png"@, "jpg"@, "jpeg"@],
        seq![
            "cover.png"@,
            "cover.jpg"@,
            "cover.jpeg"@,
            "folder.png"@,
            "folder.jpg"@,
            "folder.jpeg"@,
        ],
    )
}

/// The places where lyrics are looked for.
pub fn lyrics_candidates(bases: &Vec<FilePath>) -> (places: Vec<Candidate>)
    ensures
        candidates_view(places@) == lyrics_places(paths_view(bases@)),
{
    let exts = vec!["lrc", "txt"];
    assert(exts.deep_view() == seq!["lrc"@, "txt"@]);
    let names = vec!["lyrics.lrc", "lyrics.txt"];
    assert(names.deep_view() == seq!["lyrics.lrc"@, "lyrics.txt"@]);
    proof {
        reveal_strlit("lrc");
        reveal_strlit("txt");
    }
    list_places_beside(bases, &exts, &names)
}

/// The places where covers are looked for.
pub fn cover_candidates(bases: &Vec<FilePath>) -> (places: Vec<Candidate>)
    ensures
        candidates_view(places@) == cover_places(paths_view(bases@)),
{
    let exts = vec!["png", "jpg", "jpeg"];
    assert(exts.deep_view() == seq!["png"@, "jpg"@, "jpeg"@]);
    let names = vec![
        "cover.png",
        "cover.jpg",
        "cover.jpeg",
        "folder.png",
        "folder.jpg",
        "folder.jpeg",
    ];
    assert(names.deep_view() == seq![
        "cover.png"@,
        "cover.jpg"@,
        "cover.jpeg"@,
        "folder.png"@,
        "folder.jpg"@,
        "folder.jpeg"@,
    ]);
    proof {
        reveal_strlit("png");
        reveal_strlit("jpg");
        reveal_strlit("jpeg");
    }
    list_places_beside(bases, &exts, &names)
}

/// The lyrics file of a track, given what exists at the places of
/// `lyrics_candidates`.
pub fn find_lyrics_file(bases: &Vec<FilePath>, found: &Vec<Found>) -> (path: Option<FilePath>)
    ensures
        path_opt(path) == first_found(lyrics_places(paths_view(bases@)), found_view(found@)),
{
    first_existing(&lyrics_candidates(bases), found)
}

/// What was found at the first of the places that holds an image.
pub open spec fn first_image(places: Seq<CandidateView>, found: Seq<FoundView>) -> Option<PathView>
    decreases places.len(),
{
    if places.len() == 0 {
        None
    } else {
        match found_at(found, places[0]) {
            Some(p) => if is_image(p) {
                Some(p)
            } else {
                first_image(places.skip(1), found)
            },
            None => first_image(places.skip(1), found),
        }
    }
}

/// The cover file of a track, given what exists at the places of
/// `cover_candidates`.
pub fn find_cover_file(bases: &Vec<FilePath>, found: &Vec<Found>) -> (path: Option<FilePath>)
    ensures
        path_opt(path) == first_image(cover_places(paths_view(bases@)), found_view(found@)),
{
    let places = cover_candidates(bases);
    let ghost all = candidates_view(places@);
    let ghost seen = found_view(found@);
    let mut i: usize = 0;
    assert(all.skip(0) == all);
    while i < places.len()
        invariant
            all == candidates_view(places@),
            seen == found_view(found@),
            i <= places@.len(),
            first_image(cover_places(paths_view(bases@)), seen) == first_image(
                all.skip(i as int),
                seen,
            ),
        decreases places@.len() - i,
    {
        assert(all.skip(i as int)[0] == places@[i as int]@);
        if let Some(p) = lookup(found, &places[i]) {
            if valid_image_ext(p) {
                return Some(p.clone());
            }
        }
        assert(all.skip(i as int).skip(1) == all.skip(i + 1));
        i = i + 1;
    }
    None
}

/// A cover file is always an image.
pub proof fn law_cover_is_image(places: Seq<CandidateView>, found: Seq<FoundView>)
    ensures
        first_image(places, found) matches Some(p) ==> is_image(p),
    decreases places.len(),
{
    if places.len() > 0 {
        law_cover_is_image(places.skip(1), found);
    }
}

// ---------------------------------------------------------------------------
// The cover inside the audio
// ---------------------------------------------------------------------------

/// The name of the file that a cover is extracted to, by a hash of the path
/// of its audio.
pub fn cover_file_name(hash: u64) -> (name: String)
    ensures
        name@ == "yyw_cover_"@ + hexadecimal(hash as nat) + ".png"@,
{
    let mut name = "yyw_cover_".to_string();
    push_hex(&mut name, hash);
    name.append(".png");
    name
}

/// What a run of FFmpeg that extracts a cover was.
#[derive(Debug, Clone, Copy, PartialEq, Eq, Structural)]
pub enum CoverRun {
    /// The audio does not exist, so FFmpeg was not run on it.
    NoAudio,
    /// FFmpeg could not be run.
    NotRun,
    /// It ran, and the cover is or is not there.
    Ran { success: bool, written: bool },
}

/// What to do after such a run.
#[derive(Debug, Clone, Copy, PartialEq, Eq, Structural)]
pub enum CoverNext {
    /// The cover is there.
    Take,
    /// Try the next audio file.
    Next,
    /// There is no cover.
    GiveUp,
}

/// What to do after a run of FFmpeg that extracts a cover.
pub fn after_cover_run(run: CoverRun) -> (next: CoverNext)
    ensures
        next == (match run {
            CoverRun::NoAudio => CoverNext::Next,
            CoverRun::NotRun => CoverNext::GiveUp,
            CoverRun::Ran { success, written } => if success && written {
                CoverNext::Take
            } else {
                CoverNext::Next
            },
        }),
{
    match run {
        CoverRun::NoAudio => CoverNext::Next,
        CoverRun::NotRun => CoverNext::GiveUp,
        CoverRun::Ran { success, written } => if success && written {
            CoverNext::Take
        } else {
            CoverNext::Next
        },
    }
}

} // verus!
