//! Turning NCM files into audio with ncmdump: what its run and the files it
//! left amount to.

use crate::media::{converted_exts, converted_list};
use crate::number::{signed_decimal, signed_text};
use crate::path::{FilePath, PathView};
use crate::search::{
    candidates_view, first_existing, first_found, found_view, Candidate, CandidateView, Found,
    FoundView,
};
use crate::text::{decode_lossy, lossy_text};
use vstd::prelude::*;

verus! {

/// How a program ended.
#[derive(Debug, Clone, Copy)]
pub struct Exit {
    pub success: bool,
    /// Its exit code, if it was not ended by a signal.
    pub code: Option<i32>,
}

/// The exit code, -1 where there is none.
pub open spec fn code_or_minus_one(exit: Exit) -> int {
    match exit.code {
        Some(c) => c as int,
        None => -1,
    }
}

/// The text of the exit code, -1 where there is none.
pub fn code_text(exit: &Exit) -> (text: String)
    ensures
        text@ == signed_decimal(code_or_minus_one(*exit)),
{
    let code: i32 = match exit.code {
        Some(c) => c,
        None => -1,
    };
    signed_text(code)
}

/// What a run of ncmdump was.
#[derive(Debug)]
pub enum DumpRun {
    /// It could not be started, for the given reason.
    NotStarted(String),
    /// It failed and wrote this to its error output.
    Failed(Vec<u8>),
    Finished,
}

/// The stem of an NCM file, or nothing.
pub open spec fn stem_or_empty(path: PathView) -> Seq<char> {
    match path.stem() {
        Some(s) => s,
        None => Seq::empty(),
    }
}

/// The places in `out_dir` where ncmdump leaves its output, one for each
/// extension.
pub open spec fn output_places(
    out_dir: Seq<char>,
    ncm: PathView,
    exts: Seq<Seq<char>>,
) -> Seq<CandidateView> {
    exts.map_values(
        |e: Seq<char>|
            CandidateView { base: out_dir, below: seq![stem_or_empty(ncm) + "."@ + e] },
    )
}

/// The extensions looked for after a plain run.
pub open spec fn dumped_list() -> Seq<Seq<char>> {
    seq!["flac"@, "mp3"@]
}

/// The places in `out_dir` where ncmdump leaves its output.
fn places_of_output(out_dir: &str, ncm: &FilePath, exts: &Vec<&'static str>) -> (places: Vec<
    Candidate,
>)
    ensures
        candidates_view(places@) == output_places(out_dir@, ncm@, exts.deep_view()),
{
    let stem = match ncm.file_stem() {
        Some(s) => s,
        None => String::new(),
    };
    let mut places: Vec<Candidate> = Vec::new();
    let ghost all = output_places(out_dir@, ncm@, exts.deep_view());
    assert(all.take(0) == Seq::<CandidateView>::empty());
    for i in 0..exts.len()
        invariant
            stem@ == stem_or_empty(ncm@),
            all == output_places(out_dir@, ncm@, exts.deep_view()),
            candidates_view(places@) == all.take(i as int),
    {
        assert(exts.deep_view()[i as int] == exts@[i as int]@);
        let mut name = stem.clone();
        name.append(".");
        name.append(exts[i]);
        let place = Candidate::in_dir(out_dir, name.as_str());
        let ghost before = candidates_view(places@);
        places.push(place);
        assert(candidates_view(places@) == before.push(place@));
        assert(all.take(i + 1) == all.take(i as int).push(all[i as int]));
    }
    assert(all.take(all.len() as int) == all);
    places
}

/// The places to look in after a plain run of ncmdump.
pub fn dumped_candidates(ncm: &FilePath, out_dir: &str) -> (places: Vec<Candidate>)
    ensures
        candidates_view(places@) == output_places(out_dir@, ncm@, dumped_list()),
{
    let exts = vec!["flac", "mp3"];
    assert(exts.deep_view() == dumped_list());
    places_of_output(out_dir, ncm, &exts)
}

/// The places to look in after a run of ncmdump whose output was shown.
pub fn streamed_candidates(ncm: &FilePath, out_dir: &str) -> (places: Vec<Candidate>)
    ensures
        candidates_view(places@) == output_places(out_dir@, ncm@, converted_list()),
{
    let exts = converted_exts();
    places_of_output(out_dir, ncm, &exts)
}

/// A conversion as a value: the converted file or why there is none.
pub open spec fn conversion_view(r: Result<FilePath, String>) -> Result<PathView, Seq<char>> {
    match r {
        Ok(p) => Ok(p@),
        Err(e) => Err(e@),
    }
}

/// What a finished run left: the first of the places that holds a file.
pub open spec fn left_behind(
    places: Seq<CandidateView>,
    found: Seq<FoundView>,
) -> Result<PathView, Seq<char>> {
    match first_found(places, found) {
        Some(p) => Ok(p),
        None => Err("ncmdump 未生成输出文件"@),
    }
}

/// What a plain run of ncmdump amounts to, given what exists at the places of
/// `dumped_candidates`.
pub fn convert_ncm_sync(run: &DumpRun, ncm: &FilePath, out_dir: &str, found: &Vec<Found>) -> (r:
    Result<FilePath, String>)
    ensures
        conversion_view(r) == (match *run {
            DumpRun::NotStarted(e) => Err("ncmdump 启动失败: "@ + e@),
            DumpRun::Failed(e) => Err("ncmdump 返回错误: "@ + lossy_text(e@)),
            DumpRun::Finished => left_behind(
                output_places(out_dir@, ncm@, dumped_list()),
                found_view(found@),
            ),
        }),
{
    match run {
        DumpRun::NotStarted(e) => {
            let mut text = "ncmdump 启动失败: ".to_string();
            text.append(e.as_str());
            Err(text)
        },
        DumpRun::Failed(e) => {
            let mut text = "ncmdump 返回错误: ".to_string();
            text.append(decode_lossy(e.as_slice()).as_str());
            Err(text)
        },
        DumpRun::Finished => {
            match first_existing(&dumped_candidates(ncm, out_dir), found) {
                Some(p) => Ok(p),
                None => Err("ncmdump 未生成输出文件".to_string()),
            }
        },
    }
}

/// What a run of ncmdump whose output was shown amounts to, given what exists
/// at the places of `streamed_candidates`. The run is the program's end, or
/// why it could not be run.
pub fn convert_ncm_streaming(
    run: &Result<Exit, String>,
    ncm: &FilePath,
    out_dir: &str,
    found: &Vec<Found>,
) -> (r: Result<FilePath, String>)
    ensures
        conversion_view(r) == (match *run {
            Err(e) => Err(e@),
            Ok(exit) => if exit.success {
                left_behind(
                    output_places(out_dir@, ncm@, converted_list()),
                    found_view(found@),
                )
            } else {
                Err("ncmdump 返回错误码 "@ + signed_decimal(code_or_minus_one(exit)))
            },
        }),
{
    match run {
        Err(e) => Err(e.clone()),
        Ok(exit) => {
            if !exit.success {
                let mut text = "ncmdump 返回错误码 ".to_string();
                text.append(code_text(exit).as_str());
                return Err(text);
            }
            match first_existing(&streamed_candidates(ncm, out_dir), found) {
                Some(p) => Ok(p),
                None => Err("ncmdump 未生成输出文件".to_string()),
            }
        },
    }
}

} // verus!
