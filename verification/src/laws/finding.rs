//! Where files and tools are found.

use crate::convert::{
    convert_ncm_streaming, convert_ncm_sync, dumped_candidates, output_places, streamed_candidates,
    DumpRun, Exit,
};
use crate::number::{decimal, signed_decimal};
use crate::path::{FilePath, PathView};
use crate::search::{
    candidates_view, first_existing, first_found, found_at, found_view, law_first_found, lookup,
    Candidate, CandidateView, Found,
};
use crate::text::lossy_text;
use vstd::prelude::*;

verus! {

// ---------------------------------------------------------------------------
// Looking in places
// ---------------------------------------------------------------------------

/// Whether nothing was found at a place.
pub open spec fn nothing_at(found: Seq<Found>, place: CandidateView) -> bool {
    forall|k: int| 0 <= k < found.len() ==> (#[trigger] found[k]).candidate@ != place
}

/// Whether that path is what was found at a place, or the first of it.
pub open spec fn lies_at(found: Seq<Found>, place: CandidateView, path: PathView) -> bool {
    exists|k: int|
        #![trigger found[k]]
        0 <= k < found.len() && found[k].candidate@ == place && found[k].path@ == path && forall|
            j: int,
        |
            0 <= j < k ==> (#[trigger] found[j]).candidate@ != place
}

/// Whether that path is what was found at the first of the places where there
/// is anything.
pub open spec fn lies_first(found: Seq<Found>, places: Seq<CandidateView>, path: PathView) -> bool {
    exists|i: int|
        #![trigger places[i]]
        0 <= i < places.len() && lies_at(found, places[i], path) && forall|j: int|
            0 <= j < i ==> nothing_at(found, #[trigger] places[j])
}

/// Whether nothing was found at any of the places.
pub open spec fn nothing_in(found: Seq<Found>, places: Seq<CandidateView>) -> bool {
    forall|i: int| 0 <= i < places.len() ==> nothing_at(found, #[trigger] places[i])
}

/// What is at a place is what was found there first.
pub proof fn lemma_found_at(found: Seq<Found>, place: CandidateView)
    ensures
        match found_at(found_view(found), place) {
            Some(p) => lies_at(found, place, p) && !nothing_at(found, place),
            None => nothing_at(found, place) && forall|p: PathView| !#[trigger] lies_at(
                found,
                place,
                p,
            ),
        },
    decreases found.len(),
{
    let view = found_view(found);
    if found.len() > 0 {
        let rest = found.skip(1);
        assert(found_view(rest) == view.skip(1));
        assert(view[0] == found[0]@);
        lemma_found_at(rest, place);
        if found[0].candidate@ == place {
            assert(lies_at(found, place, found[0].path@));
        } else {
            match found_at(view, place) {
                Some(p) => {
                    let k = choose|k: int|
                        #![trigger rest[k]]
                        0 <= k < rest.len() && rest[k].candidate@ == place && rest[k].path@ == p
                            && forall|j: int|
                            0 <= j < k ==> (#[trigger] rest[j]).candidate@ != place;
                    assert(found[k + 1] == rest[k]);
                    assert forall|j: int| 0 <= j < k + 1 implies (#[trigger] found[j]).candidate@
                        != place by {
                        if j > 0 {
                            assert(found[j] == rest[j - 1]);
                        }
                    }
                },
                None => {
                    assert forall|k: int| 0 <= k < found.len() implies (
                    #[trigger] found[k]).candidate@ != place by {
                        if k > 0 {
                            assert(found[k] == rest[k - 1]);
                        }
                    }
                },
            }
        }
    }
}

/// What is found first is what lies at the first place where there is
/// anything.
pub proof fn lemma_first_found(places: Seq<CandidateView>, found: Seq<Found>)
    ensures
        match first_found(places, found_view(found)) {
            Some(p) => lies_first(found, places, p),
            None => nothing_in(found, places),
        },
{
    let view = found_view(found);
    law_first_found(places, view);
    match first_found(places, view) {
        Some(p) => {
            let i = choose|i: int|
                #![trigger places[i]]
                0 <= i < places.len() && found_at(view, places[i]) == Some(p) && forall|j: int|
                    0 <= j < i ==> found_at(view, #[trigger] places[j]) is None;
            lemma_found_at(found, places[i]);
            assert forall|j: int| 0 <= j < i implies nothing_at(found, #[trigger] places[j]) by {
                lemma_found_at(found, places[j]);
            }
        },
        None => {
            assert forall|i: int| 0 <= i < places.len() implies nothing_at(
                found,
                #[trigger] places[i],
            ) by {
                lemma_found_at(found, places[i]);
            }
        },
    }
}

/// Looking in one place gives what was found there first, and nothing exactly
/// if nothing was.
pub proof fn law_lookup(found: &Vec<Found>, place: &Candidate, path: Option<&FilePath>)
    requires
        call_ensures(lookup, (found, place), path),
    ensures
        match path {
            Some(p) => lies_at(found@, place@, p@),
            None => nothing_at(found@, place@),
        },
{
    lemma_found_at(found@, place@);
}

/// Looking in several places stops at the first where there is anything.
pub proof fn law_first_existing(places: &Vec<Candidate>, found: &Vec<Found>, path: Option<FilePath>)
    requires
        call_ensures(first_existing, (places, found), path),
    ensures
        match path {
            Some(p) => lies_first(found@, candidates_view(places@), p@),
            None => nothing_in(found@, candidates_view(places@)),
        },
{
    lemma_first_found(candidates_view(places@), found@);
}

/// A place is made of what it is made of.
pub proof fn law_places_made(base: &str, dir: &str, name: &str)
    ensures
        forall|place: Candidate| #[trigger]
            call_ensures(Candidate::at, (base,), place) ==> place@.base == base@
                && place@.below.len() == 0,
        forall|place: Candidate| #[trigger]
            call_ensures(Candidate::in_dir, (base, name), place) ==> place@.base == base@
                && place@.below == seq![name@],
        forall|place: Candidate| #[trigger]
            call_ensures(Candidate::two_below, (base, dir, name), place) ==> place@.base == base@
                && place@.below == seq![dir@, name@],
{
}

// ---------------------------------------------------------------------------
// What ncmdump left
// ---------------------------------------------------------------------------

/// The file below a directory that has the name of another file, but that
/// extension.
pub open spec fn dumped_as(out_dir: Seq<char>, ncm: PathView, ext: Seq<char>) -> CandidateView {
    CandidateView {
        base: out_dir,
        below: seq![
            (if ncm.stem() is Some {
                ncm.stem()->0
            } else {
                seq![]
            }) + seq!['.'] + ext,
        ],
    }
}

/// After a plain run a FLAC file of the same name is looked for, and then an
/// MP3 file.
pub proof fn law_dumped_candidates(ncm: &FilePath, out_dir: &str, places: Vec<Candidate>)
    requires
        call_ensures(dumped_candidates, (ncm, out_dir), places),
    ensures
        candidates_view(places@) == seq![
            dumped_as(out_dir@, ncm@, "flac"@),
            dumped_as(out_dir@, ncm@, "mp3"@),
        ],
{
    lemma_output_places(out_dir@, ncm@);
}

/// After a run whose output was shown, audio of nine kinds is looked for.
pub proof fn law_streamed_candidates(ncm: &FilePath, out_dir: &str, places: Vec<Candidate>)
    requires
        call_ensures(streamed_candidates, (ncm, out_dir), places),
    ensures
        candidates_view(places@) == audio_places(out_dir@, ncm@),
{
    lemma_output_places(out_dir@, ncm@);
}

/// The places of audio of the nine kinds, FLAC and MP3 first.
pub open spec fn audio_places(out_dir: Seq<char>, ncm: PathView) -> Seq<CandidateView> {
    seq![
        dumped_as(out_dir, ncm, "flac"@),
        dumped_as(out_dir, ncm, "mp3"@),
        dumped_as(out_dir, ncm, "wav"@),
        dumped_as(out_dir, ncm, "m4a"@),
        dumped_as(out_dir, ncm, "aac"@),
        dumped_as(out_dir, ncm, "ogg"@),
        dumped_as(out_dir, ncm, "wma"@),
        dumped_as(out_dir, ncm, "aiff"@),
        dumped_as(out_dir, ncm, "aif"@),
    ]
}

/// The places that are looked in after a run.
proof fn lemma_output_places(out_dir: Seq<char>, ncm: PathView)
    ensures
        output_places(out_dir, ncm, crate::convert::dumped_list()) == seq![
            dumped_as(out_dir, ncm, "flac"@),
            dumped_as(out_dir, ncm, "mp3"@),
        ],
        output_places(out_dir, ncm, crate::media::converted_list()) == audio_places(out_dir, ncm),
{
    reveal_strlit(".");
    assert("."@ == seq!['.']);
}

/// What a plain run amounts to: the file that it left, or why there is none.
pub proof fn law_converted(
    run: &DumpRun,
    ncm: &FilePath,
    out_dir: &str,
    found: &Vec<Found>,
    result: Result<FilePath, String>,
)
    requires
        call_ensures(convert_ncm_sync, (run, ncm, out_dir, found), result),
    ensures
        match *run {
            DumpRun::NotStarted(e) => result is Err && result->Err_0@ == "ncmdump 启动失败: "@
                + e@,
            DumpRun::Failed(e) => result is Err && result->Err_0@ == "ncmdump 返回错误: "@
                + lossy_text(e@),
            DumpRun::Finished => match result {
                Ok(path) => {
                    let flac = dumped_as(out_dir@, ncm@, "flac"@);
                    let mp3 = dumped_as(out_dir@, ncm@, "mp3"@);
                    lies_at(found@, flac, path@) || (nothing_at(found@, flac) && lies_at(
                        found@,
                        mp3,
                        path@,
                    ))
                },
                Err(e) => {
                    &&& nothing_at(found@, dumped_as(out_dir@, ncm@, "flac"@))
                    &&& nothing_at(found@, dumped_as(out_dir@, ncm@, "mp3"@))
                    &&& e@ == "ncmdump 未生成输出文件"@
                },
            },
        },
{
    lemma_output_places(out_dir@, ncm@);
    let places = seq![dumped_as(out_dir@, ncm@, "flac"@), dumped_as(out_dir@, ncm@, "mp3"@)];
    lemma_first_found(places, found@);
    if *run is Finished {
        match result {
            Ok(path) => {
                let i = choose|i: int|
                    #![trigger places[i]]
                    0 <= i < places.len() && lies_at(found@, places[i], path@) && forall|j: int|
                        0 <= j < i ==> nothing_at(found@, #[trigger] places[j]);
                if i == 1 {
                    assert(nothing_at(found@, places[0]));
                }
            },
            Err(e) => {
                assert(nothing_at(found@, places[0]));
                assert(nothing_at(found@, places[1]));
            },
        }
    }
}

/// What a run whose output was shown amounts to: the file that it left, or why
/// there is none.
pub proof fn law_streamed(
    run: &Result<Exit, String>,
    ncm: &FilePath,
    out_dir: &str,
    found: &Vec<Found>,
    result: Result<FilePath, String>,
)
    requires
        call_ensures(convert_ncm_streaming, (run, ncm, out_dir, found), result),
    ensures
        match *run {
            Err(e) => result is Err && result->Err_0@ == e@,
            Ok(exit) => if !exit.success {
                &&& result is Err
                &&& result->Err_0@ == "ncmdump 返回错误码 "@ + (match exit.code {
                    Some(code) => if code < 0 {
                        seq!['-'] + decimal((-code) as nat)
                    } else {
                        decimal(code as nat)
                    },
                    None => seq!['-', '1'],
                })
            } else {
                match result {
                    Ok(path) => lies_first(found@, audio_places(out_dir@, ncm@), path@),
                    Err(e) => nothing_in(found@, audio_places(out_dir@, ncm@)) && e@
                        == "ncmdump 未生成输出文件"@,
                }
            },
        },
{
    lemma_output_places(out_dir@, ncm@);
    lemma_first_found(audio_places(out_dir@, ncm@), found@);
    if run is Ok {
        let exit = run->Ok_0;
        let code = crate::convert::code_or_minus_one(exit);
        lemma_code_text(code);
    }
}

/// The text of an exit code.
proof fn lemma_code_text(code: int)
    ensures
        signed_decimal(code) == (if code < 0 {
            seq!['-'] + decimal((-code) as nat)
        } else {
            decimal(code as nat)
        }),
        signed_decimal(-1) == seq!['-', '1'],
{
    assert(signed_decimal(-1) == seq!['-', '1']);
}

} // verus!
