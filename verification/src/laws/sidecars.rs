//! What belongs to a track: its source, its lyrics and its cover.

use crate::laws::finding::{
    lemma_first_found, lemma_found_at, lies_at, lies_first, nothing_at, nothing_in,
};
use crate::laws::scanning::{is_audio, is_input, lemma_lists};
use crate::laws::texts::lemma_last_run_together;
use crate::letters::lowercase_of;
use crate::media::{ext_among, has_ext, input_list, items_view, valid_image_ext, AudioItem};
use crate::number::hexadecimal;
use crate::path::{paths_view, FilePath, PartView, PathView};
use crate::scan::track_name_of;
use crate::search::{candidates_view, found_at, found_view, Candidate, CandidateView, Found};
use crate::sidecar::{
    after_cover_run, audio_named, cover_candidates, cover_file_name, cover_places, find_cover_file,
    find_lyrics_file, first_image, listed_audio, lyrics_candidates, media_candidates_for,
    places_beside, places_beside_all, related_source_for, source_named, source_rank, CoverNext,
    CoverRun,
};
use vstd::prelude::*;

verus! {

// ---------------------------------------------------------------------------
// The source of a track
// ---------------------------------------------------------------------------

/// A file has the name of a track if it lies in a directory that has a name:
/// that name.
pub proof fn law_track_name(path: &FilePath, track: Option<String>)
    requires
        call_ensures(track_name_of, (path,), track),
    ensures
        ({
            let parts = path@.parts;
            let n = parts.len();
            let below = n >= 2 && !(parts[n - 1] is Prefix) && !(parts[n - 1] is RootDir);
            &&& below && parts[n - 2] is Normal ==> track is Some && PartView::Normal(track->0@)
                == parts[n - 2]
            &&& !below || !(parts[n - 2] is Normal) ==> track is None
        }),
{
    let parts = path@.parts;
    if parts.len() >= 2 {
        assert(parts.drop_last().last() == parts[parts.len() - 2]);
    }
}

/// The first of the items whose audio is as asked for.
pub open spec fn first_audio(
    items: Seq<AudioItem>,
    asked: spec_fn(PathView) -> bool,
    k: int,
) -> bool {
    &&& 0 <= k < items.len()
    &&& items[k].process_path is Some
    &&& asked(items[k].process_path->0@)
    &&& no_audio(items.take(k), asked)
}

/// Whether no item has audio as asked for.
pub open spec fn no_audio(items: Seq<AudioItem>, asked: spec_fn(PathView) -> bool) -> bool {
    forall|i: int|
        0 <= i < items.len() ==> (#[trigger] items[i]).process_path is None || !asked(
            items[i].process_path->0@,
        )
}

/// Whether a walked file is a source of that name: it is one that is scanned
/// for, and its name without the extension is that.
pub open spec fn source_called(path: PathView, name: Seq<char>) -> bool {
    is_input(path) && path.stem() == Some(name)
}

/// Whether that is the walked file that a track of that name is taken from:
/// the first that is audio, or else the first.
pub open spec fn source_at(walked: Seq<FilePath>, name: Seq<char>, k: int) -> bool {
    &&& 0 <= k < walked.len()
    &&& source_called(walked[k]@, name)
    &&& if is_audio(walked[k]@) {
        forall|i: int|
            0 <= i < k ==> !(source_called((#[trigger] walked[i])@, name) && is_audio(walked[i]@))
    } else {
        forall|i: int|
            0 <= i < walked.len() && source_called((#[trigger] walked[i])@, name) ==> i >= k
                && !is_audio(walked[i]@)
    }
}

/// The source of a file is: itself if it is listed audio; else the listed audio
/// with the name of its track; else the walked source of that name, audio
/// rather than an NCM file; else the file itself.
pub proof fn law_related_source(
    path: &FilePath,
    items: &Vec<AudioItem>,
    exists_dir: bool,
    walked: &Vec<FilePath>,
    track: Option<String>,
    source: FilePath,
    k: int,
)
    requires
        call_ensures(related_source_for, (path, items, exists_dir, walked), source),
        call_ensures(track_name_of, (path,), track),
    ensures
        ({
            let same = |p: PathView| p.parts == path@.parts;
            let named = |p: PathView| p.stem() == Some(track->0@);
            &&& first_audio(items@, same, k) ==> source@ == items@[k].process_path->0@
            &&& no_audio(items@, same) ==> {
                &&& track is None ==> source@ == path@
                &&& track is Some && first_audio(items@, named, k) ==> source@
                    == items@[k].process_path->0@
                &&& track is Some && no_audio(items@, named) ==> {
                    &&& !exists_dir ==> source@ == path@
                    &&& exists_dir && source_at(walked@, track->0@, k) ==> source@ == walked@[k]@
                    &&& (forall|i: int|
                        0 <= i < walked@.len() ==> !source_called(
                            (#[trigger] walked@[i])@,
                            track->0@,
                        )) ==> source@ == path@
                }
            }
        }),
{
    let same = |p: PathView| p.parts == path@.parts;
    let named = |p: PathView| p.stem() == Some(track->0@);
    lemma_listed_audio(items@, path@, k);
    if track is Some {
        lemma_audio_named(items@, track->0@, k);
        lemma_source_named(walked@, track->0@, k);
    }
}

/// Listed audio is found in the list.
proof fn lemma_listed_audio(items: Seq<AudioItem>, path: PathView, k: int)
    ensures
        ({
            let same = |p: PathView| p.parts == path.parts;
            let out = listed_audio(items_view(items), path);
            &&& first_audio(items, same, k) ==> out == Some(items[k].process_path->0@)
            &&& no_audio(items, same) ==> out is None
        }),
    decreases items.len(),
{
    let same = |p: PathView| p.parts == path.parts;
    if items.len() > 0 {
        let rest = items.skip(1);
        assert(items_view(rest) == items_view(items).skip(1));
        assert(items_view(items)[0] == items[0]@);
        lemma_listed_audio(rest, path, k - 1);
        if first_audio(items, same, k) && k > 0 {
            assert(items.take(k)[0] == items[0]);
            assert(rest[k - 1] == items[k]);
            assert forall|i: int| 0 <= i < k - 1 implies (
            #[trigger] rest.take(k - 1)[i]).process_path is None || !same(
                rest.take(k - 1)[i].process_path->0@,
            ) by {
                assert(items.take(k)[i + 1] == rest.take(k - 1)[i]);
            }
        }
        if no_audio(items, same) {
            assert forall|i: int| 0 <= i < rest.len() implies (#[trigger] rest[i]).process_path
                is None || !same(rest[i].process_path->0@) by {
                assert(items[i + 1] == rest[i]);
            }
            let _ = items[0];
        }
    }
}

/// Listed audio of a name is found in the list.
proof fn lemma_audio_named(items: Seq<AudioItem>, name: Seq<char>, k: int)
    ensures
        ({
            let named = |p: PathView| p.stem() == Some(name);
            let out = audio_named(items_view(items), name);
            &&& first_audio(items, named, k) ==> out == Some(items[k].process_path->0@)
            &&& no_audio(items, named) ==> out is None
        }),
    decreases items.len(),
{
    let named = |p: PathView| p.stem() == Some(name);
    if items.len() > 0 {
        let rest = items.skip(1);
        assert(items_view(rest) == items_view(items).skip(1));
        assert(items_view(items)[0] == items[0]@);
        lemma_audio_named(rest, name, k - 1);
        if first_audio(items, named, k) && k > 0 {
            assert(items.take(k)[0] == items[0]);
            assert(rest[k - 1] == items[k]);
            assert forall|i: int| 0 <= i < k - 1 implies (
            #[trigger] rest.take(k - 1)[i]).process_path is None || !named(
                rest.take(k - 1)[i].process_path->0@,
            ) by {
                assert(items.take(k)[i + 1] == rest.take(k - 1)[i]);
            }
        }
        if no_audio(items, named) {
            assert forall|i: int| 0 <= i < rest.len() implies (#[trigger] rest[i]).process_path
                is None || !named(rest[i].process_path->0@) by {
                assert(items[i + 1] == rest[i]);
            }
            let _ = items[0];
        }
    }
}

/// Of the files that are scanned for, audio is wanted more than NCM files.
proof fn lemma_rank(path: PathView)
    ensures
        ext_among(path, input_list()) == is_input(path),
        is_input(path) ==> source_rank(path) == (if is_audio(path) {
            0int
        } else {
            2
        }),
{
    lemma_lists(path);
}

/// The walked source of a name.
proof fn lemma_source_named(walked: Seq<FilePath>, name: Seq<char>, k: int)
    ensures
        ({
            let out = source_named(paths_view(walked), name);
            &&& source_at(walked, name, k) ==> out == Some(walked[k]@)
            &&& (forall|i: int|
                0 <= i < walked.len() ==> !source_called((#[trigger] walked[i])@, name))
                ==> out is None
        }),
    decreases walked.len(),
{
    if walked.len() > 0 {
        let rest = walked.drop_last();
        let last = walked.last()@;
        assert(walked[walked.len() - 1]@ == last);
        assert(paths_view(rest) == paths_view(walked).drop_last());
        assert(paths_view(walked).last() == last);
        lemma_rank(last);
        assert forall|i: int| 0 <= i < rest.len() implies #[trigger] rest[i] == walked[i] by {}
        lemma_best(rest, name);
        lemma_source_named(rest, name, k);
        if source_at(walked, name, k) {
            lemma_rank(walked[k]@);
            if k < rest.len() {
                assert(source_at(rest, name, k));
            } else if is_audio(last) {
                let best = source_named(paths_view(rest), name);
                if best is Some {
                    let m = choose|m: int|
                        0 <= m < rest.len() && (#[trigger] rest[m])@ == best->0 && source_called(
                            rest[m]@,
                            name,
                        );
                    assert(walked[m] == rest[m]);
                    lemma_rank(walked[m]@);
                }
            } else {
                assert forall|i: int| 0 <= i < rest.len() implies !source_called(
                    (#[trigger] rest[i])@,
                    name,
                ) by {
                    assert(walked[i] == rest[i]);
                }
            }
        }
        if forall|i: int|
            0 <= i < walked.len() ==> !source_called((#[trigger] walked[i])@, name) {
            assert forall|i: int| 0 <= i < rest.len() implies !source_called(
                (#[trigger] rest[i])@,
                name,
            ) by {
                assert(walked[i] == rest[i]);
            }
        }
    }
}

/// A source that is taken is one of the walked files of that name.
proof fn lemma_best(walked: Seq<FilePath>, name: Seq<char>)
    ensures
        source_named(paths_view(walked), name) is Some ==> exists|m: int|
            0 <= m < walked.len() && (#[trigger] walked[m])@ == source_named(
                paths_view(walked),
                name,
            )->0 && source_called(walked[m]@, name),
    decreases walked.len(),
{
    if walked.len() > 0 {
        let rest = walked.drop_last();
        assert(paths_view(rest) == paths_view(walked).drop_last());
        assert(paths_view(walked).last() == walked.last()@);
        lemma_rank(walked.last()@);
        lemma_best(rest, name);
        if source_named(paths_view(walked), name) is Some {
            if source_named(paths_view(walked), name) == Some(walked.last()@) && source_called(
                walked.last()@,
                name,
            ) {
                assert(walked[walked.len() - 1] == walked.last());
            } else {
                let m = choose|m: int|
                    0 <= m < rest.len() && (#[trigger] rest[m])@ == source_named(
                        paths_view(rest),
                        name,
                    )->0 && source_called(rest[m]@, name);
                assert(walked[m] == rest[m]);
            }
        }
    }
}

// ---------------------------------------------------------------------------
// Files beside a track
// ---------------------------------------------------------------------------

/// Lyrics and covers are looked for beside the file, beside its source if that
/// is another, and beside the FLAC file of its name if there is one that is
/// neither.
pub proof fn law_media_candidates(
    path: &FilePath,
    source: &FilePath,
    flac_exists: bool,
    flac: FilePath,
    bases: Vec<FilePath>,
)
    requires
        call_ensures(media_candidates_for, (path, source, flac_exists), bases),
        flac@ == path@.with_extension("flac"@),
    ensures
        paths_view(bases@) == seq![path@] + (if source@.parts == path@.parts {
            seq![]
        } else {
            seq![source@]
        }) + (if flac_exists && flac@.parts != path@.parts && flac@.parts != source@.parts {
            seq![flac@]
        } else {
            seq![]
        }),
{
}

/// Lyrics are looked for beside each file in turn: under its name, and then
/// under their own in its directory.
pub proof fn law_lyrics_places(bases: &Vec<FilePath>, places: Vec<Candidate>)
    requires
        call_ensures(lyrics_candidates, (bases,), places),
    ensures
        candidates_view(places@) == bases@.map_values(|b: FilePath| lyrics_beside(b)).flatten(),
{
    lemma_all_beside(
        bases@,
        seq!["lrc"@, "txt"@],
        seq!["lyrics.lrc"@, "lyrics.txt"@],
        |b: FilePath| lyrics_beside(b),
    );
}

/// The places of lyrics beside one file.
pub open spec fn lyrics_beside(base: FilePath) -> Seq<CandidateView> {
    seq![renamed(base, "lrc"@), renamed(base, "txt"@)] + (if base.parent is Some {
        seq![inside(base, "lyrics.lrc"@), inside(base, "lyrics.txt"@)]
    } else {
        seq![]
    })
}

/// The place of a file with another extension.
pub open spec fn renamed(base: FilePath, ext: Seq<char>) -> CandidateView {
    CandidateView { base: base@.with_extension(ext).text, below: seq![] }
}

/// The place of a file of that name in the directory of another.
pub open spec fn inside(base: FilePath, name: Seq<char>) -> CandidateView {
    CandidateView { base: base.parent->0@, below: seq![name] }
}

/// Covers are looked for beside each file in turn: under its name, and then
/// under the usual names in its directory.
pub proof fn law_cover_places(bases: &Vec<FilePath>, places: Vec<Candidate>)
    requires
        call_ensures(cover_candidates, (bases,), places),
    ensures
        candidates_view(places@) == bases@.map_values(|b: FilePath| covers_beside(b)).flatten(),
{
    lemma_covers(bases@);
}

/// The places of covers beside one file.
pub open spec fn covers_beside(base: FilePath) -> Seq<CandidateView> {
    seq![renamed(base, "png"@), renamed(base, "jpg"@), renamed(base, "jpeg"@)] + (
    if base.parent is Some {
        seq![
            inside(base, "cover.png"@),
            inside(base, "cover.jpg"@),
            inside(base, "cover.jpeg"@),
            inside(base, "folder.png"@),
            inside(base, "folder.jpg"@),
            inside(base, "folder.jpeg"@),
        ]
    } else {
        seq![]
    })
}

/// The places of covers.
proof fn lemma_covers(bases: Seq<FilePath>)
    ensures
        cover_places(paths_view(bases)) == bases.map_values(
            |b: FilePath| covers_beside(b),
        ).flatten(),
{
    lemma_all_beside(
        bases,
        seq!["png"@, "jpg"@, "jpeg"@],
        seq![
            "cover.png"@,
            "cover.jpg"@,
            "cover.jpeg"@,
            "folder.png"@,
            "folder.jpg"@,
            "folder.jpeg"@,
        ],
        |b: FilePath| covers_beside(b),
    );
}

/// The places beside files are those beside each.
proof fn lemma_all_beside(
    bases: Seq<FilePath>,
    exts: Seq<Seq<char>>,
    names: Seq<Seq<char>>,
    one: spec_fn(FilePath) -> Seq<CandidateView>,
)
    requires
        forall|b: FilePath| #[trigger] one(b) =~= places_beside(b@, exts, names),
    ensures
        places_beside_all(paths_view(bases), exts, names) == bases.map_values(one).flatten(),
    decreases bases.len(),
{
    let lists = bases.map_values(one);
    if bases.len() == 0 {
        assert(lists.len() == 0);
    } else {
        let rest = bases.drop_last();
        lemma_all_beside(rest, exts, names, one);
        assert(paths_view(rest) == paths_view(bases).drop_last());
        assert(rest.map_values(one) == lists.drop_last());
        assert(lists.last() == one(bases.last()));
        assert(paths_view(bases).last() == bases.last()@);
        lemma_last_run_together(lists);
    }
}

/// The lyrics of a track are what lies at the first of their places where there
/// is anything.
pub proof fn law_find_lyrics(
    bases: &Vec<FilePath>,
    found: &Vec<Found>,
    places: Vec<Candidate>,
    path: Option<FilePath>,
)
    requires
        call_ensures(lyrics_candidates, (bases,), places),
        call_ensures(find_lyrics_file, (bases, found), path),
    ensures
        match path {
            Some(p) => lies_first(found@, candidates_view(places@), p@),
            None => nothing_in(found@, candidates_view(places@)),
        },
{
    lemma_first_found(candidates_view(places@), found@);
}

/// Whether a file is a picture of a kind that is shown.
pub open spec fn is_picture(path: PathView) -> bool {
    path.extension() is Some && ({
        let ext = lowercase_of(path.extension()->0);
        ext == "png"@ || ext == "jpg"@ || ext == "jpeg"@
    })
}

/// A file can be shown exactly if its extension is, in lower case, that of a
/// PNG or a JPEG file.
pub proof fn law_valid_image(path: &FilePath, yes: bool)
    requires
        call_ensures(valid_image_ext, (path,), yes),
    ensures
        yes <==> is_picture(path@),
{
    lemma_image(path@);
}

/// The extensions of pictures.
proof fn lemma_image(path: PathView)
    ensures
        crate::media::is_image(path) == is_picture(path),
{
    let exts = seq!["png"@, "jpg"@, "jpeg"@];
    if let Some(e) = path.extension() {
        let ext = lowercase_of(e);
        assert(exts[0] == "png"@ && exts[1] == "jpg"@ && exts[2] == "jpeg"@);
        if exts.contains(ext) {
            let i = choose|i: int| 0 <= i < exts.len() && exts[i] == ext;
            assert(i == 0 || i == 1 || i == 2);
        }
    }
}

/// A file has one of the extensions exactly if its own is, in lower case, one
/// of them.
pub proof fn law_has_ext(path: &FilePath, exts: &Vec<&'static str>, yes: bool)
    requires
        call_ensures(has_ext, (path, exts), yes),
    ensures
        yes <==> path@.extension() is Some && exists|i: int|
            0 <= i < exts@.len() && (#[trigger] exts@[i])@ == lowercase_of(path@.extension()->0),
{
    let list = exts.deep_view();
    assert(list.len() == exts@.len());
    assert forall|i: int| 0 <= i < list.len() implies #[trigger] list[i] == exts@[i]@ by {}
    if path@.extension() is Some {
        let ext = lowercase_of(path@.extension()->0);
        if list.contains(ext) {
            let i = choose|i: int| 0 <= i < list.len() && list[i] == ext;
            assert(exts@[i]@ == ext);
        }
        if exists|i: int| 0 <= i < exts@.len() && (#[trigger] exts@[i])@ == ext {
            let i = choose|i: int| 0 <= i < exts@.len() && (#[trigger] exts@[i])@ == ext;
            assert(list[i] == ext);
        }
    }
}

/// Whether there is nothing to show at a place.
pub open spec fn no_picture_at(found: Seq<Found>, place: CandidateView) -> bool {
    nothing_at(found, place) || exists|p: PathView| #[trigger]
        lies_at(found, place, p) && !is_picture(p)
}

/// The cover of a track is the picture at the first of its places that holds
/// one; what lies at a place and is no picture is passed over.
pub proof fn law_find_cover(
    bases: &Vec<FilePath>,
    found: &Vec<Found>,
    places: Vec<Candidate>,
    path: Option<FilePath>,
)
    requires
        call_ensures(cover_candidates, (bases,), places),
        call_ensures(find_cover_file, (bases, found), path),
    ensures
        match path {
            Some(p) => is_picture(p@) && exists|i: int|
                #![trigger places@[i]]
                0 <= i < places@.len() && lies_at(found@, places@[i]@, p@) && forall|j: int|
                    0 <= j < i ==> no_picture_at(found@, (#[trigger] places@[j])@),
            None => forall|j: int|
                0 <= j < places@.len() ==> no_picture_at(found@, (#[trigger] places@[j])@),
        },
{
    let all = candidates_view(places@);
    assert forall|i: int| 0 <= i < all.len() implies #[trigger] all[i] == places@[i]@ by {}
    lemma_first_image(all, found@);
    match path {
        Some(p) => {
            let i = choose|i: int|
                #![trigger all[i]]
                0 <= i < all.len() && lies_at(found@, all[i], p@) && forall|j: int|
                    0 <= j < i ==> no_picture_at(found@, #[trigger] all[j]);
            assert(places@[i]@ == all[i]);
            assert forall|j: int| 0 <= j < i implies no_picture_at(
                found@,
                (#[trigger] places@[j])@,
            ) by {
                assert(all[j] == places@[j]@);
            }
        },
        None => {
            assert forall|j: int| 0 <= j < places@.len() implies no_picture_at(
                found@,
                (#[trigger] places@[j])@,
            ) by {
                assert(all[j] == places@[j]@);
            }
        },
    }
}

/// The first picture that lies at a place.
proof fn lemma_first_image(places: Seq<CandidateView>, found: Seq<Found>)
    ensures
        match first_image(places, found_view(found)) {
            Some(p) => is_picture(p) && exists|i: int|
                #![trigger places[i]]
                0 <= i < places.len() && lies_at(found, places[i], p) && forall|j: int|
                    0 <= j < i ==> no_picture_at(found, #[trigger] places[j]),
            None => forall|j: int|
                0 <= j < places.len() ==> no_picture_at(found, #[trigger] places[j]),
        },
    decreases places.len(),
{
    let view = found_view(found);
    if places.len() > 0 {
        let rest = places.skip(1);
        lemma_first_image(rest, found);
        lemma_found_at(found, places[0]);
        let here = found_at(view, places[0]);
        if here is Some {
            lemma_image(here->0);
        }
        if here is Some && is_picture(here->0) {
            assert(lies_at(found, places[0], here->0));
        } else {
            assert(no_picture_at(found, places[0]));
            match first_image(rest, view) {
                Some(p) => {
                    let k = choose|k: int|
                        #![trigger rest[k]]
                        0 <= k < rest.len() && lies_at(found, rest[k], p) && forall|j: int|
                            0 <= j < k ==> no_picture_at(found, #[trigger] rest[j]);
                    assert(places[k + 1] == rest[k]);
                    assert forall|j: int| 0 <= j < k + 1 implies no_picture_at(
                        found,
                        #[trigger] places[j],
                    ) by {
                        if j > 0 {
                            assert(places[j] == rest[j - 1]);
                        }
                    }
                },
                None => {
                    assert forall|j: int| 0 <= j < places.len() implies no_picture_at(
                        found,
                        #[trigger] places[j],
                    ) by {
                        if j > 0 {
                            assert(places[j] == rest[j - 1]);
                        }
                    }
                },
            }
        }
    }
}

// ---------------------------------------------------------------------------
// The cover inside the audio
// ---------------------------------------------------------------------------

/// A cover is written to a PNG file whose name holds the hash of its audio.
pub proof fn law_cover_file_name(hash: u64, name: String)
    requires
        call_ensures(cover_file_name, (hash,), name),
    ensures
        name@ == "yyw_cover_"@ + hexadecimal(hash as nat) + ".png"@,
{
}

/// A cover is taken once it was written by a run that succeeded; without
/// FFmpeg there is none, and else the next file is tried.
pub proof fn law_after_cover_run(run: CoverRun, next: CoverNext)
    requires
        call_ensures(after_cover_run, (run,), next),
    ensures
        next == CoverNext::Take <==> run == (CoverRun::Ran { success: true, written: true }),
        next == CoverNext::GiveUp <==> run == CoverRun::NotRun,
{
}

} // verus!
