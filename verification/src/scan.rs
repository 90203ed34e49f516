//! Scanning the source directory for audio and the output directory for
//! stems.

use crate::letters::{
    lowercase_of, same_ignoring_ascii_case, to_lowercase, to_uppercase, uppercase_of,
};
use crate::media::{
    converted_exts, converted_list, ext_among, has_ext, input_exts, input_list, items_view,
    law_known_extension, lemma_converted_extensions, stem_exts, stem_list, stems_view, AudioItem, AudioKind, ItemView, StemItem, StemView,
};
use crate::number::{decimal, push_decimal};
use crate::order::{
    indices, key_le, key_of, keys_of, law_sorted_indices, sorted_indices, stable_order, text_le,
    text_not_above,
};
use crate::path::{law_with_extension, path_opt, paths_view, FilePath, PartView, PathPart, PathView};
use crate::search::{
    candidates_view, found_at, found_view, lookup, Candidate, CandidateView, Found, FoundView,
};
use crate::text::{chars_of, same_text, text_opt};
use vstd::prelude::*;

verus! {

// ---------------------------------------------------------------------------
// Choosing and ordering files
// ---------------------------------------------------------------------------

/// The files whose extension is one of the list, in their order.
pub open spec fn files_with(files: Seq<PathView>, exts: Seq<Seq<char>>) -> Seq<PathView>
    decreases files.len(),
{
    if files.len() == 0 {
        Seq::empty()
    } else if ext_among(files.last(), exts) {
        files_with(files.drop_last(), exts).push(files.last())
    } else {
        files_with(files.drop_last(), exts)
    }
}

/// The files whose extension is one of the list, in their order.
fn pick_files(files: &Vec<FilePath>, exts: &Vec<&'static str>) -> (out: Vec<FilePath>)
    ensures
        paths_view(out@) == files_with(paths_view(files@), exts.deep_view()),
{
    let mut out: Vec<FilePath> = Vec::new();
    let ghost all = paths_view(files@);
    assert(all.take(0) == Seq::<PathView>::empty());
    assert(paths_view(out@) == Seq::<PathView>::empty());
    for i in 0..files.len()
        invariant
            all == paths_view(files@),
            paths_view(out@) == files_with(all.take(i as int), exts.deep_view()),
    {
        assert(all.take(i + 1).drop_last() == all.take(i as int));
        assert(all.take(i + 1).last() == files@[i as int]@);
        if has_ext(&files[i], exts) {
            let p = files[i].clone();
            let ghost before = paths_view(out@);
            out.push(p);
            assert(paths_view(out@) == before.push(p@));
        }
    }
    assert(all.take(all.len() as int) == all);
    out
}

/// The key by which an input file is ordered: its name, in lower case if case
/// is to be ignored.
pub open spec fn name_key(path: PathView, fold_case: bool) -> Seq<Seq<char>> {
    seq![
        if fold_case {
            lowercase_of(path.name())
        } else {
            path.name()
        },
    ]
}

/// The keys of a list of files.
pub open spec fn name_keys(files: Seq<PathView>, fold_case: bool) -> Seq<Seq<Seq<char>>> {
    files.map_values(|p: PathView| name_key(p, fold_case))
}

/// The input files below a directory in the order in which they are shown:
/// by name, files of the same name as they were walked.
pub open spec fn input_files(walked: Seq<PathView>, fold_case: bool) -> Seq<PathView> {
    let files = files_with(walked, input_list());
    sorted_indices(name_keys(files, fold_case), files.len()).map_values(|i: int| files[i])
}

/// The input files below a directory in the order in which they are shown.
fn sorted_inputs(walked: &Vec<FilePath>, fold_case: bool) -> (out: Vec<FilePath>)
    ensures
        paths_view(out@) == input_files(paths_view(walked@), fold_case),
{
    let exts = input_exts();
    let files = pick_files(walked, &exts);
    let ghost all = paths_view(files@);
    let mut keys: Vec<Vec<Vec<char>>> = Vec::new();
    let ghost wanted = name_keys(all, fold_case);
    for i in 0..files.len()
        invariant
            all == paths_view(files@),
            wanted == name_keys(all, fold_case),
            keys@.len() == i,
            forall|j: int| 0 <= j < i ==> key_of((#[trigger] keys@[j])@) == wanted[j],
    {
        let name = files[i].name();
        let part = if fold_case {
            chars_of(to_lowercase(name.as_str()).as_str())
        } else {
            chars_of(name.as_str())
        };
        let mut key: Vec<Vec<char>> = Vec::new();
        key.push(part);
        assert(key_of(key@) == name_key(files@[i as int]@, fold_case));
        keys.push(key);
    }
    assert(keys_of(keys@) == wanted);
    let order = stable_order(&keys);
    let mut out: Vec<FilePath> = Vec::new();
    let ghost result = sorted_indices(wanted, all.len()).map_values(|i: int| all[i]);
    assert(result.take(0) == Seq::<PathView>::empty());
    for k in 0..order.len()
        invariant
            all == paths_view(files@),
            order@.len() == files@.len(),
            forall|k: int| 0 <= k < order@.len() ==> (#[trigger] order@[k]) < files@.len(),
            indices(order@) == sorted_indices(wanted, all.len()),
            result == sorted_indices(wanted, all.len()).map_values(|i: int| all[i]),
            paths_view(out@) == result.take(k as int),
    {
        let p = files[order[k]].clone();
        assert(indices(order@)[k as int] == order@[k as int]);
        assert(result[k as int] == p@);
        let ghost before = paths_view(out@);
        out.push(p);
        assert(paths_view(out@) == before.push(p@));
        assert(result.take(k + 1) == result.take(k as int).push(result[k as int]));
    }
    assert(indices(order@).len() == order@.len());
    assert(result.take(result.len() as int) == result);
    out
}

// ---------------------------------------------------------------------------
// NCM files
// ---------------------------------------------------------------------------

/// The place of the file that a file would be converted to.
pub open spec fn sibling_place(ncm: PathView, ext: Seq<char>) -> CandidateView {
    CandidateView { base: ncm.with_extension(ext).text, below: Seq::empty() }
}

/// The places where converted audio may lie beside an NCM file.
pub open spec fn sibling_places(ncm: PathView) -> Seq<CandidateView> {
    converted_list().map_values(|e: Seq<char>| sibling_place(ncm, e))
}

/// The first of the extensions under which there is a file beside `ncm`.
pub open spec fn sibling_ext(
    ncm: PathView,
    exts: Seq<Seq<char>>,
    found: Seq<FoundView>,
) -> Option<Seq<char>>
    decreases exts.len(),
{
    if exts.len() == 0 {
        None
    } else if found_at(found, sibling_place(ncm, exts[0])) is Some {
        Some(exts[0])
    } else {
        sibling_ext(ncm, exts.skip(1), found)
    }
}

/// Whether `path` is separable audio of the same name as `ncm`.
pub open spec fn is_counterpart(path: PathView, ncm: PathView) -> bool {
    ext_among(path, converted_list()) && path.stem() == Some(
        match ncm.stem() {
            Some(s) => s,
            None => Seq::empty(),
        },
    )
}

/// The extension of a path, or nothing.
pub open spec fn ext_or_empty(path: PathView) -> Seq<char> {
    match path.extension() {
        Some(e) => e,
        None => Seq::empty(),
    }
}

/// Whether `a` is to be taken rather than `b` for `ncm`: a file of the same
/// directory before one of another, then the lower extension.
pub open spec fn preferred(a: PathView, b: PathView, ncm: PathView) -> bool {
    let near_a = a.parent_parts() == ncm.parent_parts();
    let near_b = b.parent_parts() == ncm.parent_parts();
    if near_a == near_b {
        !text_le(ext_or_empty(b), ext_or_empty(a))
    } else {
        near_a
    }
}

/// The counterpart of `ncm` among the files: the most preferred one, and of
/// those the first.
pub open spec fn counterpart(files: Seq<PathView>, ncm: PathView) -> Option<PathView>
    decreases files.len(),
{
    if files.len() == 0 {
        None
    } else {
        let best = counterpart(files.drop_last(), ncm);
        let p = files.last();
        if !is_counterpart(p, ncm) {
            best
        } else {
            match best {
                Some(b) => if preferred(p, b, ncm) {
                    Some(p)
                } else {
                    best
                },
                None => Some(p),
            }
        }
    }
}

/// What an NCM file is listed as: with the audio beside it, or else with its
/// counterpart below the source directory, or else as waiting.
pub open spec fn ncm_item(
    ncm: PathView,
    walked: Seq<PathView>,
    found: Seq<FoundView>,
) -> ItemView {
    match sibling_ext(ncm, converted_list(), found) {
        Some(ext) => ItemView {
            path: ncm,
            status: "已找到 "@ + uppercase_of(ext),
            process_path: Some(ncm.with_extension(ext)),
            kind: AudioKind::Ncm,
        },
        None => match counterpart(walked, ncm) {
            Some(p) => ItemView {
                path: ncm,
                status: "已找到 "@ + uppercase_of(ext_or_empty(p)),
                process_path: Some(p),
                kind: AudioKind::Ncm,
            },
            None => ItemView {
                path: ncm,
                status: "NCM: 等待外部转换"@,
                process_path: None,
                kind: AudioKind::Ncm,
            },
        },
    }
}

/// The extension of a path, or nothing.
fn ext_text(path: &FilePath) -> (ext: String)
    ensures
        ext@ == ext_or_empty(path@),
{
    match path.extension() {
        Some(e) => e,
        None => String::new(),
    }
}

/// The status of an NCM file for which audio of that extension was found.
fn found_status(ext: &str) -> (status: String)
    ensures
        status@ == "已找到 "@ + uppercase_of(ext@),
{
    let mut status = "已找到 ".to_string();
    status.append(to_uppercase(ext).as_str());
    status
}

/// The places where converted audio may lie beside an NCM file.
pub fn ncm_candidates(ncm: &FilePath) -> (places: Vec<Candidate>)
    ensures
        candidates_view(places@) == sibling_places(ncm@),
{
    let exts = converted_exts();
    let mut places: Vec<Candidate> = Vec::new();
    let ghost all = sibling_places(ncm@);
    assert(all.take(0) == Seq::<CandidateView>::empty());
    for i in 0..exts.len()
        invariant
            exts.deep_view() == converted_list(),
            exts@.len() == all.len(),
            all == sibling_places(ncm@),
            candidates_view(places@) == all.take(i as int),
    {
        assert(exts.deep_view()[i as int] == exts@[i as int]@);
        proof {
            lemma_converted_extensions();
        }
        let place = Candidate::at(ncm.with_extension(exts[i]).text.as_str());
        let ghost before = candidates_view(places@);
        places.push(place);
        assert(candidates_view(places@) == before.push(place@));
        assert(all.take(i + 1) == all.take(i as int).push(all[i as int]));
    }
    assert(all.take(all.len() as int) == all);
    places
}

/// The audio beside an NCM file with its extension, if there is any.
fn find_sibling(ncm: &FilePath, found: &Vec<Found>) -> (hit: Option<(FilePath, String)>)
    ensures
        match sibling_ext(ncm@, converted_list(), found_view(found@)) {
            Some(ext) => hit matches Some(h) && h.0@ == ncm@.with_extension(ext) && h.1@ == ext,
            None => hit is None,
        },
{
    let exts = converted_exts();
    let ghost all = converted_list();
    let ghost seen = found_view(found@);
    let mut i: usize = 0;
    assert(all.skip(0) == all);
    while i < exts.len()
        invariant
            all == converted_list(),
            exts.deep_view() == all,
            exts@.len() == all.len(),
            seen == found_view(found@),
            i <= exts@.len(),
            sibling_ext(ncm@, converted_list(), seen) == sibling_ext(ncm@, all.skip(i as int), seen),
        decreases exts@.len() - i,
    {
        assert(exts.deep_view()[i as int] == exts@[i as int]@);
        assert(all.skip(i as int)[0] == all[i as int]);
        proof {
            lemma_converted_extensions();
        }
        let path = ncm.with_extension(exts[i]);
        if lookup(found, &Candidate::at(path.text.as_str())).is_some() {
            return Some((path, exts[i].to_owned()));
        }
        assert(all.skip(i as int).skip(1) == all.skip(i + 1));
        i = i + 1;
    }
    None
}

/// Whether `a` is to be taken rather than `b` for `ncm`.
fn prefer(a: &FilePath, b: &FilePath, ncm: &FilePath) -> (yes: bool)
    ensures
        yes == preferred(a@, b@, ncm@),
{
    let near_a: bool = a.same_parent(ncm);
    let near_b: bool = b.same_parent(ncm);
    if near_a == near_b {
        let x = chars_of(ext_text(a).as_str());
        let y = chars_of(ext_text(b).as_str());
        !text_not_above(&y, &x)
    } else {
        near_a
    }
}

/// Whether `path` is separable audio with the given stem.
fn audio_with_stem(path: &FilePath, stem: &str, exts: &Vec<&'static str>) -> (yes: bool)
    ensures
        yes == (ext_among(path@, exts.deep_view()) && path@.stem() == Some(stem@)),
{
    if !has_ext(path, exts) {
        return false;
    }
    match path.file_stem() {
        Some(s) => same_text(s.as_str(), stem),
        None => false,
    }
}

/// The counterpart of `ncm` among the files.
fn find_counterpart(files: &Vec<FilePath>, ncm: &FilePath) -> (hit: Option<FilePath>)
    ensures
        path_opt(hit) == counterpart(paths_view(files@), ncm@),
{
    let exts = converted_exts();
    let stem = match ncm.file_stem() {
        Some(s) => s,
        None => String::new(),
    };
    let ghost all = paths_view(files@);
    let mut best: Option<usize> = None;
    assert(all.take(0) == Seq::<PathView>::empty());
    for i in 0..files.len()
        invariant
            all == paths_view(files@),
            exts.deep_view() == converted_list(),
            Some(stem@) == Some(
                match ncm@.stem() {
                    Some(s) => s,
                    None => Seq::empty(),
                },
            ),
            match best {
                Some(b) => b < files@.len() && counterpart(all.take(i as int), ncm@) == Some(
                    all[b as int],
                ),
                None => counterpart(all.take(i as int), ncm@) is None,
            },
    {
        assert(all.take(i + 1).drop_last() == all.take(i as int));
        assert(all.take(i + 1).last() == all[i as int]);
        if audio_with_stem(&files[i], stem.as_str(), &exts) {
            match best {
                Some(b) => {
                    if prefer(&files[i], &files[b], ncm) {
                        best = Some(i);
                    }
                },
                None => {
                    best = Some(i);
                },
            }
        }
    }
    assert(all.take(all.len() as int) == all);
    match best {
        Some(b) => Some(files[b].clone()),
        None => None,
    }
}

/// What an NCM file is listed as, given the files below the source directory
/// and what exists at the places of `ncm_candidates`.
pub fn make_ncm_item(ncm: &FilePath, walked: &Vec<FilePath>, found: &Vec<Found>) -> (item:
    AudioItem)
    ensures
        item@ == ncm_item(ncm@, paths_view(walked@), found_view(found@)),
{
    if let Some((path, ext)) = find_sibling(ncm, found) {
        return AudioItem {
            path: ncm.clone(),
            status: found_status(ext.as_str()),
            process_path: Some(path),
            kind: AudioKind::Ncm,
        };
    }
    match find_counterpart(walked, ncm) {
        Some(path) => {
            let ext = ext_text(&path);
            AudioItem {
                path: ncm.clone(),
                status: found_status(ext.as_str()),
                process_path: Some(path),
                kind: AudioKind::Ncm,
            }
        },
        None => AudioItem {
            path: ncm.clone(),
            status: "NCM: 等待外部转换".to_string(),
            process_path: None,
            kind: AudioKind::Ncm,
        },
    }
}

/// The counterpart is one of the files and carries the name; no other file
/// that carries it is preferred, and there is one whenever a file carries it.
pub proof fn law_counterpart(files: Seq<PathView>, ncm: PathView)
    ensures
        match counterpart(files, ncm) {
            Some(p) => files.contains(p) && is_counterpart(p, ncm) && forall|i: int|
                0 <= i < files.len() && is_counterpart(#[trigger] files[i], ncm) ==> !preferred(
                    files[i],
                    p,
                    ncm,
                ),
            None => forall|i: int|
                0 <= i < files.len() ==> !is_counterpart(#[trigger] files[i], ncm),
        },
    decreases files.len(),
{
    if files.len() > 0 {
        let rest = files.drop_last();
        let p = files.last();
        law_counterpart(rest, ncm);
        match counterpart(rest, ncm) {
            Some(b) => {
                let k = choose|k: int| 0 <= k < rest.len() && rest[k] == b;
                assert(files[k] == b);
                crate::order::law_text_order_total(ext_or_empty(b), ext_or_empty(p));
                crate::order::law_text_order_total(ext_or_empty(p), ext_or_empty(p));
                assert forall|i: int|
                    0 <= i < files.len() && is_counterpart(
                        #[trigger] files[i],
                        ncm,
                    ) implies !preferred(files[i], counterpart(files, ncm)->0, ncm) by {
                    if i < rest.len() {
                        assert(files[i] == rest[i]);
                        let x = ext_or_empty(files[i]);
                        if text_le(ext_or_empty(p), ext_or_empty(b)) && text_le(
                            ext_or_empty(b),
                            x,
                        ) {
                            crate::order::law_text_order_transitive(
                                ext_or_empty(p),
                                ext_or_empty(b),
                                x,
                            );
                        }
                    }
                }
            },
            None => {
                crate::order::law_text_order_total(ext_or_empty(p), ext_or_empty(p));
                assert forall|i: int|
                    0 <= i < files.len() && is_counterpart(
                        #[trigger] files[i],
                        ncm,
                    ) implies i == files.len() - 1 by {
                    if i < rest.len() {
                        assert(files[i] == rest[i]);
                    }
                }
            },
        }
        assert(files[files.len() - 1] == p);
    }
}

/// An NCM file for which there is audio beside it is ready, and what is
/// separated then is audio of the same name in the same directory.
pub proof fn law_audio_beside_ncm_is_used(
    ncm: PathView,
    walked: Seq<PathView>,
    found: Seq<FoundView>,
    ext: Seq<char>,
)
    requires
        ncm.file_name() matches Some(n) && n.len() > 0,
        converted_list().contains(ext),
        found_at(found, sibling_place(ncm, ext)) is Some,
    ensures
        ncm_item(ncm, walked, found).process_path matches Some(p) && p.stem() == ncm.stem()
            && p.parent_parts() == ncm.parent_parts(),
{
    let exts = converted_list();
    let k = choose|k: int| 0 <= k < exts.len() && exts[k] == ext;
    lemma_sibling(ncm, exts, found, k);
    let e = sibling_ext(ncm, exts, found)->0;
    lemma_converted_extensions();
    law_with_extension(ncm, e);
}

/// If there is a file under one of the extensions, one of them is taken.
proof fn lemma_sibling(ncm: PathView, exts: Seq<Seq<char>>, found: Seq<FoundView>, k: int)
    requires
        0 <= k < exts.len(),
        found_at(found, sibling_place(ncm, exts[k])) is Some,
    ensures
        sibling_ext(ncm, exts, found) matches Some(e) && exts.contains(e),
    decreases exts.len(),
{
    if found_at(found, sibling_place(ncm, exts[0])) is None {
        let rest = exts.skip(1);
        assert(rest[k - 1] == exts[k]);
        lemma_sibling(ncm, rest, found, k - 1);
        let e = sibling_ext(ncm, rest, found)->0;
        let m = choose|m: int| 0 <= m < rest.len() && rest[m] == e;
        assert(exts[m + 1] == e);
    } else {
        assert(exts[0] == sibling_ext(ncm, exts, found)->0);
    }
}

// ---------------------------------------------------------------------------
// The input list
// ---------------------------------------------------------------------------

/// Whether a file is listed as an NCM file.
pub open spec fn is_ncm(path: PathView, fold_case: bool) -> bool {
    path.extension() matches Some(e) && (if fold_case {
        lowercase_of(e)
    } else {
        e
    }) == "ncm"@
}

/// What a file is listed as.
pub open spec fn listed(
    path: PathView,
    walked: Seq<PathView>,
    found: Seq<FoundView>,
    fold_case: bool,
) -> ItemView {
    if is_ncm(path, fold_case) {
        ncm_item(path, walked, found)
    } else {
        ItemView {
            path,
            status: "待处理"@,
            process_path: Some(path),
            kind: AudioKind::Normal,
        }
    }
}

/// The list of the input files below a directory.
pub open spec fn input_items(
    walked: Seq<PathView>,
    found: Seq<FoundView>,
    fold_case: bool,
) -> Seq<ItemView> {
    input_files(walked, fold_case).map_values(|p: PathView| listed(p, walked, found, fold_case))
}

/// Whether a file is listed as an NCM file.
pub fn is_ncm_file(path: &FilePath, fold_case: bool) -> (yes: bool)
    ensures
        yes == is_ncm(path@, fold_case),
{
    match path.extension() {
        Some(e) => if fold_case {
            same_text(to_lowercase(e.as_str()).as_str(), "ncm")
        } else {
            same_text(e.as_str(), "ncm")
        },
        None => false,
    }
}

/// The list of the input files below a directory.
fn list_inputs(walked: &Vec<FilePath>, found: &Vec<Found>, fold_case: bool) -> (items: Vec<
    AudioItem,
>)
    ensures
        items_view(items@) == input_items(paths_view(walked@), found_view(found@), fold_case),
{
    let files = sorted_inputs(walked, fold_case);
    let mut items: Vec<AudioItem> = Vec::new();
    let ghost all = input_items(paths_view(walked@), found_view(found@), fold_case);
    assert(all.take(0) == Seq::<ItemView>::empty());
    for i in 0..files.len()
        invariant
            paths_view(files@) == input_files(paths_view(walked@), fold_case),
            all == input_items(paths_view(walked@), found_view(found@), fold_case),
            items_view(items@) == all.take(i as int),
    {
        assert(paths_view(files@)[i as int] == files@[i as int]@);
        let item = if is_ncm_file(&files[i], fold_case) {
            make_ncm_item(&files[i], walked, found)
        } else {
            AudioItem {
                path: files[i].clone(),
                status: "待处理".to_string(),
                process_path: Some(files[i].clone()),
                kind: AudioKind::Normal,
            }
        };
        assert(item@ == all[i as int]);
        let ghost before = items_view(items@);
        items.push(item);
        assert(items_view(items@) == before.push(item@));
        assert(all.take(i + 1) == all.take(i as int).push(all[i as int]));
    }
    assert(paths_view(files@).len() == files@.len());
    assert(all.take(all.len() as int) == all);
    items
}

/// Lists the input files below the source directory, given the files below it
/// and what exists at the places of `ncm_candidates` for those that are NCM
/// files. Only the extension `ncm` in lower case makes an NCM file. A
/// directory that does not exist has no files.
pub fn scan_inputs(
    source_exists: bool,
    walked: &Vec<FilePath>,
    found: &Vec<Found>,
    items: &mut Vec<AudioItem>,
) -> (count: usize)
    ensures
        items_view(final(items)@) == (if source_exists {
            input_items(paths_view(walked@), found_view(found@), false)
        } else {
            Seq::empty()
        }),
        count == final(items)@.len(),
{
    if !source_exists {
        *items = Vec::new();
        assert(items_view(items@) == Seq::<ItemView>::empty());
        return 0;
    }
    *items = list_inputs(walked, found, false);
    items.len()
}

/// How many of the items can be separated.
pub open spec fn ready_count(items: Seq<ItemView>) -> nat
    decreases items.len(),
{
    if items.len() == 0 {
        0
    } else {
        ready_count(items.drop_last()) + if items.last().process_path is Some {
            1nat
        } else {
            0nat
        }
    }
}

/// How many of the items can be separated.
fn count_ready(items: &Vec<AudioItem>) -> (n: usize)
    ensures
        n == ready_count(items_view(items@)),
{
    let ghost all = items_view(items@);
    let mut n: usize = 0;
    assert(all.take(0) == Seq::<ItemView>::empty());
    for i in 0..items.len()
        invariant
            all == items_view(items@),
            n <= i,
            n == ready_count(all.take(i as int)),
    {
        assert(all.take(i + 1).drop_last() == all.take(i as int));
        assert(all.take(i + 1).last() == items@[i as int]@);
        if items[i].can_separate() {
            n = n + 1;
        }
    }
    assert(all.take(all.len() as int) == all);
    n
}

/// What the window says after a scan.
pub open spec fn scan_status(items: Seq<ItemView>) -> Seq<char> {
    "已扫描 "@ + decimal(items.len()) + " 个文件, "@ + decimal(ready_count(items))
        + " 个可分离"@
}

/// Lists the input files for the window, which ignores the case of names and
/// extensions, and says what it shows.
pub fn scan_for_window(
    source_exists: bool,
    walked: &Vec<FilePath>,
    found: &Vec<Found>,
) -> (shown: (Vec<AudioItem>, String))
    ensures
        items_view(shown.0@) == (if source_exists {
            input_items(paths_view(walked@), found_view(found@), true)
        } else {
            Seq::empty()
        }),
        shown.1@ == (if source_exists {
            scan_status(items_view(shown.0@))
        } else {
            "音频目录不存在"@
        }),
{
    if !source_exists {
        let none: Vec<AudioItem> = Vec::new();
        assert(items_view(none@) == Seq::<ItemView>::empty());
        return (none, "音频目录不存在".to_string());
    }
    let items = list_inputs(walked, found, true);
    let mut status = "已扫描 ".to_string();
    push_decimal(&mut status, items.len() as u64);
    status.append(" 个文件, ");
    let ready: usize = count_ready(&items);
    push_decimal(&mut status, ready as u64);
    status.append(" 个可分离");
    assert(items_view(items@).len() == items@.len());
    (items, status)
}

/// A scan lists every input file once and nothing else, whatever its order.
pub proof fn law_scan_lists_inputs(
    walked: Seq<PathView>,
    found: Seq<FoundView>,
    fold_case: bool,
)
    ensures
        input_items(walked, found, fold_case).len() == files_with(walked, input_list()).len(),
        forall|i: int|
            #![trigger files_with(walked, input_list())[i]]
            0 <= i < files_with(walked, input_list()).len() ==> exists|k: int|
                0 <= k < input_items(walked, found, fold_case).len() && #[trigger] input_items(
                    walked,
                    found,
                    fold_case,
                )[k].path == files_with(walked, input_list())[i],
{
    let files = files_with(walked, input_list());
    let keys = name_keys(files, fold_case);
    let order = sorted_indices(keys, files.len());
    law_sorted_indices(keys, files.len());
    let items = input_items(walked, found, fold_case);
    assert forall|i: int| #![trigger files[i]] 0 <= i < files.len() implies exists|k: int|
        0 <= k < items.len() && #[trigger] items[k].path == files[i] by {
        assert(order.contains(i));
        let k = choose|k: int| 0 <= k < order.len() && order[k] == i;
        assert(items[k].path == files[i]);
    }
}

/// A file with one of the extensions is among those with them.
proof fn lemma_files_with(files: Seq<PathView>, exts: Seq<Seq<char>>, k: int)
    requires
        0 <= k < files.len(),
        ext_among(files[k], exts),
    ensures
        files_with(files, exts).contains(files[k]),
    decreases files.len(),
{
    let out = files_with(files, exts);
    if k == files.len() - 1 {
        assert(out[out.len() - 1] == files[k]);
    } else {
        let rest = files.drop_last();
        lemma_files_with(rest, exts, k);
        let m = choose|m: int|
            0 <= m < files_with(rest, exts).len() && files_with(rest, exts)[m] == files[k];
        assert(out[m] == files[k]);
    }
}

/// A scan lists every file that has one of the extensions.
pub proof fn lemma_scan_holds(
    walked: Seq<PathView>,
    found: Seq<FoundView>,
    fold_case: bool,
    k: int,
)
    requires
        0 <= k < walked.len(),
        ext_among(walked[k], input_list()),
    ensures
        exists|i: int|
            0 <= i < input_items(walked, found, fold_case).len() && (#[trigger] input_items(
                walked,
                found,
                fold_case,
            )[i]).path == walked[k],
{
    lemma_files_with(walked, input_list(), k);
    law_scan_lists_inputs(walked, found, fold_case);
    let files = files_with(walked, input_list());
    let m = choose|m: int| 0 <= m < files.len() && files[m] == walked[k];
    assert(files[m] == walked[k]);
}

/// A scan lists every file whose extension is, but for the case of its
/// letters, one of those that are scanned for.
pub proof fn law_scan_finds(
    walked: Seq<PathView>,
    found: Seq<FoundView>,
    fold_case: bool,
    k: int,
    ext: Seq<char>,
)
    requires
        0 <= k < walked.len(),
        input_list().contains(ext),
        walked[k].extension() matches Some(e) && same_ignoring_ascii_case(e, ext),
    ensures
        exists|i: int|
            0 <= i < input_items(walked, found, fold_case).len() && (#[trigger] input_items(
                walked,
                found,
                fold_case,
            )[i]).path == walked[k],
{
    law_known_extension(walked[k], ext);
    lemma_scan_holds(walked, found, fold_case, k);
}

/// A scan lists the input files by name.
pub proof fn law_inputs_in_order(
    walked: Seq<PathView>,
    found: Seq<FoundView>,
    fold_case: bool,
    i: int,
    j: int,
)
    requires
        0 <= i < j < input_items(walked, found, fold_case).len(),
    ensures
        key_le(
            name_key(input_items(walked, found, fold_case)[i].path, fold_case),
            name_key(input_items(walked, found, fold_case)[j].path, fold_case),
        ),
{
    let files = files_with(walked, input_list());
    let keys = name_keys(files, fold_case);
    let order = sorted_indices(keys, files.len());
    law_sorted_indices(keys, files.len());
    assert(key_le(keys[order[i]], keys[order[j]]));
    assert(0 <= order[i] < files.len() && 0 <= order[j] < files.len());
}

/// Every listed item that is not an NCM file can be separated as it stands.
pub proof fn law_normal_items_ready(
    walked: Seq<PathView>,
    found: Seq<FoundView>,
    fold_case: bool,
    k: int,
)
    requires
        0 <= k < input_items(walked, found, fold_case).len(),
    ensures
        ({
            let item = input_items(walked, found, fold_case)[k];
            item.kind == AudioKind::Normal ==> item.process_path == Some(item.path)
        }),
{
}

// ---------------------------------------------------------------------------
// The stem list
// ---------------------------------------------------------------------------

/// The name of the directory that a path lies in.
pub open spec fn track_of(path: PathView) -> Option<Seq<char>> {
    match path.parent_parts() {
        Some(parts) => if parts.len() > 0 {
            match parts.last() {
                PartView::Normal(s) => Some(s),
                _ => None,
            }
        } else {
            None
        },
        None => None,
    }
}

/// The name of the directory that a path lies in.
pub fn track_name_of(path: &FilePath) -> (name: Option<String>)
    ensures
        text_opt(name) == track_of(path@),
{
    if !path.is_below() {
        return None;
    }
    let n: usize = path.parts.len();
    assert(path@.parts.len() == n);
    if n < 2 {
        return None;
    }
    assert(path@.parts.drop_last().last() == path.parts@[n - 2]@);
    match &path.parts[n - 2] {
        PathPart::Normal(s) => Some(s.clone()),
        _ => None,
    }
}

/// The stem that a file of the output directory is.
pub open spec fn stem_for(path: PathView) -> StemView {
    StemView {
        path,
        track_name: match track_of(path) {
            Some(t) => t,
            None => Seq::empty(),
        },
        stem_name: match path.stem() {
            Some(s) => s,
            None => Seq::empty(),
        },
    }
}

/// The key by which a stem is ordered: its track, then its own name, both in
/// lower case.
pub open spec fn stem_key(stem: StemView) -> Seq<Seq<char>> {
    seq![lowercase_of(stem.track_name), lowercase_of(stem.stem_name)]
}

/// The stems below the output directory, in order.
pub open spec fn stem_items(walked: Seq<PathView>) -> Seq<StemView> {
    let stems = files_with(walked, stem_list()).map_values(|p: PathView| stem_for(p));
    let keys = stems.map_values(|s: StemView| stem_key(s));
    sorted_indices(keys, stems.len()).map_values(|i: int| stems[i])
}

/// The stem that a file of the output directory is.
fn make_stem(path: &FilePath) -> (stem: StemItem)
    ensures
        stem@ == stem_for(path@),
{
    StemItem {
        path: path.clone(),
        track_name: match track_name_of(path) {
            Some(t) => t,
            None => String::new(),
        },
        stem_name: match path.file_stem() {
            Some(s) => s,
            None => String::new(),
        },
    }
}

/// Lists the stems below the output directory.
fn list_stems(walked: &Vec<FilePath>) -> (out: Vec<StemItem>)
    ensures
        stems_view(out@) == stem_items(paths_view(walked@)),
{
    let exts = stem_exts();
    let files = pick_files(walked, &exts);
    let ghost all = files_with(paths_view(walked@), stem_list()).map_values(
        |p: PathView| stem_for(p),
    );
    let ghost wanted = all.map_values(|s: StemView| stem_key(s));
    let mut stems: Vec<StemItem> = Vec::new();
    let mut keys: Vec<Vec<Vec<char>>> = Vec::new();
    assert(paths_view(files@).len() == files@.len());
    for i in 0..files.len()
        invariant
            all.len() == files@.len(),
            forall|j: int| 0 <= j < all.len() ==> all[j] == stem_for(#[trigger] files@[j]@),
            wanted == all.map_values(|s: StemView| stem_key(s)),
            stems@.len() == i,
            keys@.len() == i,
            forall|j: int| 0 <= j < i ==> (#[trigger] stems@[j])@ == all[j],
            forall|j: int| 0 <= j < i ==> key_of((#[trigger] keys@[j])@) == wanted[j],
    {
        let stem = make_stem(&files[i]);
        let mut key: Vec<Vec<char>> = Vec::new();
        key.push(chars_of(to_lowercase(stem.track_name.as_str()).as_str()));
        key.push(chars_of(to_lowercase(stem.stem_name.as_str()).as_str()));
        assert(key_of(key@) == stem_key(stem@));
        stems.push(stem);
        keys.push(key);
    }
    assert(keys_of(keys@) == wanted);
    let order = stable_order(&keys);
    let mut out: Vec<StemItem> = Vec::new();
    let ghost result = sorted_indices(wanted, all.len()).map_values(|i: int| all[i]);
    assert(result.take(0) == Seq::<StemView>::empty());
    for k in 0..order.len()
        invariant
            all.len() == stems@.len(),
            order@.len() == stems@.len(),
            forall|j: int| 0 <= j < stems@.len() ==> (#[trigger] stems@[j])@ == all[j],
            forall|k: int| 0 <= k < order@.len() ==> (#[trigger] order@[k]) < stems@.len(),
            indices(order@) == sorted_indices(wanted, all.len()),
            result == sorted_indices(wanted, all.len()).map_values(|i: int| all[i]),
            stems_view(out@) == result.take(k as int),
    {
        let s = stems[order[k]].clone();
        assert(indices(order@)[k as int] == order@[k as int]);
        assert(result[k as int] == s@);
        let ghost before = stems_view(out@);
        out.push(s);
        assert(stems_view(out@) == before.push(s@));
        assert(result.take(k + 1) == result.take(k as int).push(result[k as int]));
    }
    assert(indices(order@).len() == order@.len());
    assert(result.take(result.len() as int) == result);
    out
}

/// Lists the stems below the output directory and keeps the selection if it
/// still is one. A directory that does not exist has no stems.
pub fn scan_stems(output_exists: bool, walked: &Vec<FilePath>, selected: Option<usize>) -> (shown: (
    Vec<StemItem>,
    Option<usize>,
))
    ensures
        stems_view(shown.0@) == (if output_exists {
            stem_items(paths_view(walked@))
        } else {
            Seq::empty()
        }),
        shown.1 == (match selected {
            Some(i) => if i < shown.0@.len() {
                Some(i)
            } else {
                None
            },
            None => None,
        }),
{
    if !output_exists {
        let none: Vec<StemItem> = Vec::new();
        assert(stems_view(none@) == Seq::<StemView>::empty());
        return (none, None);
    }
    let stems = list_stems(walked);
    let kept = match selected {
        Some(i) => if i < stems.len() {
            Some(i)
        } else {
            None
        },
        None => None,
    };
    (stems, kept)
}

/// Stems are listed by track, and those of one track by name.
pub proof fn law_stems_in_order(walked: Seq<PathView>, i: int, j: int)
    requires
        0 <= i < j < stem_items(walked).len(),
    ensures
        key_le(stem_key(stem_items(walked)[i]), stem_key(stem_items(walked)[j])),
{
    let stems = files_with(walked, stem_list()).map_values(|p: PathView| stem_for(p));
    let keys = stems.map_values(|s: StemView| stem_key(s));
    let order = sorted_indices(keys, stems.len());
    law_sorted_indices(keys, stems.len());
    assert(key_le(keys[order[i]], keys[order[j]]));
    assert(0 <= order[i] < stems.len() && 0 <= order[j] < stems.len());
}

// ---------------------------------------------------------------------------
// Stamping metadata
// ---------------------------------------------------------------------------

/// Whether a file of the output directory gets the metadata of its source: a
/// WAV file that does not lie in the output directory itself.
pub open spec fn is_stamped(path: PathView, output_dir: PathView) -> bool {
    path.extension() == Some("wav"@) && path.parent_parts() is Some && path.parent_parts() != Some(
        output_dir.parts,
    )
}

/// The files of the output directory that get the metadata of their source.
pub open spec fn stamped_files(walked: Seq<PathView>, output_dir: PathView) -> Seq<PathView>
    decreases walked.len(),
{
    if walked.len() == 0 {
        Seq::empty()
    } else if is_stamped(walked.last(), output_dir) {
        stamped_files(walked.drop_last(), output_dir).push(walked.last())
    } else {
        stamped_files(walked.drop_last(), output_dir)
    }
}

/// The files of the output directory that get the metadata of their source.
pub fn files_to_stamp(walked: &Vec<FilePath>, output_dir: &FilePath) -> (out: Vec<FilePath>)
    ensures
        paths_view(out@) == stamped_files(paths_view(walked@), output_dir@),
{
    let mut out: Vec<FilePath> = Vec::new();
    let ghost all = paths_view(walked@);
    assert(all.take(0) == Seq::<PathView>::empty());
    assert(paths_view(out@) == Seq::<PathView>::empty());
    for i in 0..walked.len()
        invariant
            all == paths_view(walked@),
            paths_view(out@) == stamped_files(all.take(i as int), output_dir@),
    {
        assert(all.take(i + 1).drop_last() == all.take(i as int));
        assert(all.take(i + 1).last() == walked@[i as int]@);
        let wav: bool = match walked[i].extension() {
            Some(e) => same_text(e.as_str(), "wav"),
            None => false,
        };
        if wav && walked[i].is_below() && !walked[i].parent_is(output_dir) {
            let p = walked[i].clone();
            let ghost before = paths_view(out@);
            out.push(p);
            assert(paths_view(out@) == before.push(p@));
        }
    }
    assert(all.take(all.len() as int) == all);
    out
}

/// How many of the stems were written with the metadata of their source.
pub open spec fn written(stems: Seq<Option<PathView>>) -> nat
    decreases stems.len(),
{
    if stems.len() == 0 {
        0
    } else {
        written(stems.drop_last()) + if stems.last() is Some {
            1nat
        } else {
            0nat
        }
    }
}

/// The results of `transfer_metadata` as values.
pub open spec fn outputs_view(list: Seq<Option<FilePath>>) -> Seq<Option<PathView>> {
    list.map_values(|p: Option<FilePath>| path_opt(p))
}

/// How many stems got the metadata of their source, given what
/// `transfer_metadata` gave for each of `files_to_stamp`.
pub fn stamp_metadata_for_source(outputs: &Vec<Option<FilePath>>) -> (count: usize)
    ensures
        count == written(outputs_view(outputs@)),
{
    let ghost all = outputs_view(outputs@);
    let mut count: usize = 0;
    assert(all.take(0) == Seq::<Option<PathView>>::empty());
    for i in 0..outputs.len()
        invariant
            all == outputs_view(outputs@),
            count <= i,
            count == written(all.take(i as int)),
    {
        assert(all.take(i + 1).drop_last() == all.take(i as int));
        assert(all.take(i + 1).last() == path_opt(outputs@[i as int]));
        if outputs[i].is_some() {
            count = count + 1;
        }
    }
    assert(all.take(all.len() as int) == all);
    count
}

} // verus!
