//! Scanning: which files are listed, as what, and in which order; which stems
//! are listed, and which files get the metadata of their source.

use crate::letters::{lowercase_of, uppercase_of};
use crate::media::{converted_list, ext_among, input_list, stem_list, AudioKind, ItemView};
use crate::number::decimal;
use crate::order::{
    key_le, law_sorted_indices, law_text_order_total, law_text_order_transitive, sorted_indices,
    text_le,
};
use crate::path::{PartView, PathView};
use crate::scan::{
    counterpart, ext_or_empty, files_with, input_items, is_counterpart, law_counterpart, name_keys,
    ncm_item, preferred, ready_count, scan_status, sibling_ext, sibling_place, stamped_files,
    stem_for, stem_items, stem_key, written,
};
use crate::search::{found_at, CandidateView, FoundView};
use vstd::prelude::*;

verus! {

// ---------------------------------------------------------------------------
// The order of texts
// ---------------------------------------------------------------------------

/// Texts are ordered as in a dictionary: the first character in which two
/// differ decides, by its code point, and a beginning comes before the whole.
pub proof fn law_dictionary_order(a: Seq<char>, b: Seq<char>, i: int)
    requires
        0 <= i <= a.len(),
        i <= b.len(),
        a.take(i) == b.take(i),
    ensures
        i == a.len() ==> text_le(a, b),
        i < a.len() && i == b.len() ==> !text_le(a, b),
        i < a.len() && i < b.len() && (a[i] as int) < (b[i] as int) ==> text_le(a, b) && !text_le(
            b,
            a,
        ),
    decreases i,
{
    if i > 0 {
        assert(a[0] == a.take(i)[0] && b[0] == b.take(i)[0]);
        assert(a.skip(1).take(i - 1) == a.take(i).skip(1));
        assert(b.skip(1).take(i - 1) == b.take(i).skip(1));
        law_dictionary_order(a.skip(1), b.skip(1), i - 1);
    }
}

/// Keys are ordered by the first part in which two of the same length differ.
pub proof fn law_key_order(a: Seq<Seq<char>>, b: Seq<Seq<char>>, i: int)
    requires
        a.len() == b.len(),
        0 <= i < a.len(),
        a.take(i) == b.take(i),
        a[i] != b[i],
    ensures
        key_le(a, b) <==> text_le(a[i], b[i]),
    decreases i,
{
    if i > 0 {
        assert(a[0] == a.take(i)[0] && b[0] == b.take(i)[0]);
        assert(a.skip(1).take(i - 1) == a.take(i).skip(1));
        assert(b.skip(1).take(i - 1) == b.take(i).skip(1));
        law_key_order(a.skip(1), b.skip(1), i - 1);
    }
}

// ---------------------------------------------------------------------------
// Input files
// ---------------------------------------------------------------------------

/// Whether a file is one that is scanned for: its extension is, in lower case,
/// that of NCM files or of audio.
pub open spec fn is_input(path: PathView) -> bool {
    path.extension() matches Some(e) && ({
        let ext = lowercase_of(e);
        ext == "flac"@ || ext == "mp3"@ || ext == "wav"@ || ext == "m4a"@ || ext == "aac"@ || ext
            == "ogg"@ || ext == "wma"@ || ext == "aiff"@ || ext == "aif"@ || ext == "ncm"@
    })
}

/// Whether a file is audio that can be separated.
pub open spec fn is_audio(path: PathView) -> bool {
    path.extension() matches Some(e) && ({
        let ext = lowercase_of(e);
        ext == "flac"@ || ext == "mp3"@ || ext == "wav"@ || ext == "m4a"@ || ext == "aac"@ || ext
            == "ogg"@ || ext == "wma"@ || ext == "aiff"@ || ext == "aif"@
    })
}

/// Whether a file is audio of the kinds that separators write.
pub open spec fn is_stem(path: PathView) -> bool {
    path.extension() matches Some(e) && ({
        let ext = lowercase_of(e);
        ext == "wav"@ || ext == "mp3"@ || ext == "flac"@ || ext == "m4a"@ || ext == "aac"@ || ext
            == "ogg"@ || ext == "wma"@
    })
}

/// The files of a list of extensions are those that carry one.
proof fn lemma_filtered(
    files: Seq<PathView>,
    exts: Seq<Seq<char>>,
    wanted: spec_fn(PathView) -> bool,
)
    requires
        forall|p: PathView| #[trigger] ext_among(p, exts) == wanted(p),
    ensures
        files_with(files, exts) == files.filter(wanted),
    decreases files.len(),
{
    reveal(Seq::filter);
    if files.len() > 0 {
        lemma_filtered(files.drop_last(), exts, wanted);
        assert(ext_among(files.last(), exts) == wanted(files.last()));
    }
}

/// The extensions of the lists are those that are written out.
pub proof fn lemma_lists(path: PathView)
    ensures
        ext_among(path, input_list()) == is_input(path),
        ext_among(path, converted_list()) == is_audio(path),
        ext_among(path, stem_list()) == is_stem(path),
{
    if let Some(e) = path.extension() {
        let ext = lowercase_of(e);
        let inputs = input_list();
        let audio = converted_list();
        let stems = stem_list();
        assert(inputs.contains(ext) == is_input(path)) by {
            assert(inputs[0] == "flac"@ && inputs[1] == "mp3"@ && inputs[2] == "wav"@ && inputs[3]
                == "m4a"@ && inputs[4] == "aac"@ && inputs[5] == "ogg"@ && inputs[6] == "wma"@
                && inputs[7] == "aiff"@ && inputs[8] == "aif"@ && inputs[9] == "ncm"@);
        }
        assert(audio.contains(ext) == is_audio(path)) by {
            assert(audio[0] == "flac"@ && audio[1] == "mp3"@ && audio[2] == "wav"@ && audio[3]
                == "m4a"@ && audio[4] == "aac"@ && audio[5] == "ogg"@ && audio[6] == "wma"@
                && audio[7] == "aiff"@ && audio[8] == "aif"@);
        }
        assert(stems.contains(ext) == is_stem(path)) by {
            assert(stems[0] == "wav"@ && stems[1] == "mp3"@ && stems[2] == "flac"@ && stems[3]
                == "m4a"@ && stems[4] == "aac"@ && stems[5] == "ogg"@ && stems[6] == "wma"@);
        }
    }
}

/// A scan lists each walked file that is NCM or audio, as often as it was
/// walked, and no other; by name, the case of letters aside if that is to be
/// ignored, and files of one name as they were walked.
pub proof fn law_scan_lists(walked: Seq<PathView>, found: Seq<FoundView>, fold_case: bool)
    ensures
        ({
            let files = walked.filter(|p: PathView| is_input(p));
            let items = input_items(walked, found, fold_case);
            let name = |p: PathView|
                if fold_case {
                    lowercase_of(p.name())
                } else {
                    p.name()
                };
            exists|order: Seq<int>| #[trigger]
                order.no_duplicates() && order.len() == files.len() && items.len() == files.len()
                    && (forall|k: int|
                    #![trigger order[k]]
                    #![trigger items[k]]
                    0 <= k < items.len() ==> 0 <= order[k] < files.len() && items[k].path
                        == files[order[k]]) && (forall|k: int, l: int|
                    #![trigger order[k], order[l]]
                    0 <= k < l < items.len() ==> text_le(
                        name(files[order[k]]),
                        name(files[order[l]]),
                    ) && (name(files[order[k]]) == name(files[order[l]]) ==> order[k] < order[l]))
        }),
{
    let wanted = |p: PathView| is_input(p);
    assert forall|p: PathView| #[trigger] ext_among(p, input_list()) == wanted(p) by {
        lemma_lists(p);
    }
    lemma_filtered(walked, input_list(), wanted);
    let files = walked.filter(wanted);
    let items = input_items(walked, found, fold_case);
    let keys = name_keys(files, fold_case);
    let order = sorted_indices(keys, files.len());
    law_sorted_indices(keys, files.len());
    let name = |p: PathView|
        if fold_case {
            lowercase_of(p.name())
        } else {
            p.name()
        };
    assert(order.no_duplicates());
    assert forall|k: int| 0 <= k < items.len() implies 0 <= #[trigger] order[k] < files.len()
        && items[k].path == files[order[k]] by {}
    assert forall|k: int, l: int|
        #![trigger order[k], order[l]]
        0 <= k < l < items.len() implies text_le(name(files[order[k]]), name(files[order[l]])) && (
    name(files[order[k]]) == name(files[order[l]]) ==> order[k] < order[l]) by {
        let a = keys[order[k]];
        let b = keys[order[l]];
        assert(key_le(a, b));
        assert(a == seq![name(files[order[k]])] && b == seq![name(files[order[l]])]);
        law_text_order_total(a[0], b[0]);
        if a[0] != b[0] {
            assert(a.take(0) == b.take(0));
            law_key_order(a, b, 0);
        }
    }
}

/// A scan lists a walked file exactly if its extension is, in lower case, one
/// of the ten that are written out here.
pub proof fn law_scan_lists_exactly(
    walked: Seq<PathView>,
    found: Seq<FoundView>,
    fold_case: bool,
    path: PathView,
)
    ensures
        (exists|i: int|
            0 <= i < input_items(walked, found, fold_case).len() && (#[trigger] input_items(
                walked,
                found,
                fold_case,
            )[i]).path == path) <==> walked.contains(path) && is_input(path),
{
    let items = input_items(walked, found, fold_case);
    let wanted = |p: PathView| is_input(p);
    let files = walked.filter(wanted);
    law_scan_lists(walked, found, fold_case);
    let order = choose|order: Seq<int>| #[trigger]
        order.no_duplicates() && order.len() == files.len() && items.len() == files.len() && (
        forall|k: int|
            #![trigger order[k]]
            #![trigger items[k]]
            0 <= k < items.len() ==> 0 <= order[k] < files.len() && items[k].path
                == files[order[k]]);
    broadcast use vstd::seq_lib::group_filter_ensures;
    if exists|i: int| 0 <= i < items.len() && (#[trigger] items[i]).path == path {
        let i = choose|i: int| 0 <= i < items.len() && (#[trigger] items[i]).path == path;
        assert(files[order[i]] == path);
        assert(files.contains(path));
        assert(wanted(files[order[i]]));
        walked.lemma_filter_contains_rev(wanted, path);
    }
    if walked.contains(path) && is_input(path) {
        let k = choose|k: int| 0 <= k < walked.len() && walked[k] == path;
        assert(wanted(walked[k]));
        let e = path.extension()->0;
        assert(input_list().contains(lowercase_of(e))) by {
            lemma_lists(path);
        }
        assert(ext_among(path, input_list()));
        crate::scan::lemma_scan_holds(walked, found, fold_case, k);
    }
}

/// Whether something was found at the path that is a file's with another
/// extension.
pub open spec fn lies_beside(ncm: PathView, ext: Seq<char>, found: Seq<FoundView>) -> bool {
    exists|i: int|
        0 <= i < found.len() && (#[trigger] found[i]).candidate.base == ncm.with_extension(ext).text
            && found[i].candidate.below.len() == 0
}

/// Something was found at a place exactly if it is in the list.
proof fn lemma_found_at(found: Seq<FoundView>, place: CandidateView)
    ensures
        found_at(found, place) is Some <==> exists|i: int|
            0 <= i < found.len() && (#[trigger] found[i]).candidate == place,
    decreases found.len(),
{
    if found.len() > 0 {
        let rest = found.skip(1);
        lemma_found_at(rest, place);
        if found[0].candidate != place {
            if exists|i: int| 0 <= i < found.len() && (#[trigger] found[i]).candidate == place {
                let i = choose|i: int|
                    0 <= i < found.len() && (#[trigger] found[i]).candidate == place;
                assert(rest[i - 1].candidate == place);
            }
            if exists|i: int| 0 <= i < rest.len() && (#[trigger] rest[i]).candidate == place {
                let i = choose|i: int| 0 <= i < rest.len() && (#[trigger] rest[i]).candidate
                    == place;
                assert(found[i + 1].candidate == place);
            }
        }
    }
}

/// A sibling was found exactly if it lies beside the file.
proof fn lemma_beside(ncm: PathView, ext: Seq<char>, found: Seq<FoundView>)
    ensures
        found_at(found, sibling_place(ncm, ext)) is Some <==> lies_beside(ncm, ext, found),
{
    let place = sibling_place(ncm, ext);
    lemma_found_at(found, place);
    if lies_beside(ncm, ext, found) {
        let i = choose|i: int|
            0 <= i < found.len() && (#[trigger] found[i]).candidate.base == ncm.with_extension(
                ext,
            ).text && found[i].candidate.below.len() == 0;
        assert(found[i].candidate.below == place.below);
        assert(found[i].candidate == place);
    }
}

/// The first of the extensions under which something was found.
proof fn lemma_first_sibling(
    ncm: PathView,
    exts: Seq<Seq<char>>,
    found: Seq<FoundView>,
    k: int,
)
    requires
        0 <= k < exts.len(),
        lies_beside(ncm, exts[k], found),
        forall|j: int| 0 <= j < k ==> !lies_beside(ncm, #[trigger] exts[j], found),
    ensures
        sibling_ext(ncm, exts, found) == Some(exts[k]),
    decreases exts.len(),
{
    lemma_beside(ncm, exts[0], found);
    if k > 0 {
        let rest = exts.skip(1);
        assert(!lies_beside(ncm, exts[0], found));
        assert forall|j: int| 0 <= j < k - 1 implies !lies_beside(
            ncm,
            #[trigger] rest[j],
            found,
        ) by {
            assert(rest[j] == exts[j + 1]);
        }
        lemma_first_sibling(ncm, rest, found, k - 1);
    }
}

/// None of the extensions is taken if nothing was found under any.
proof fn lemma_no_sibling(ncm: PathView, exts: Seq<Seq<char>>, found: Seq<FoundView>)
    requires
        forall|j: int| 0 <= j < exts.len() ==> !lies_beside(ncm, #[trigger] exts[j], found),
    ensures
        sibling_ext(ncm, exts, found) is None,
    decreases exts.len(),
{
    if exts.len() > 0 {
        lemma_beside(ncm, exts[0], found);
        assert(!lies_beside(ncm, exts[0], found));
        let rest = exts.skip(1);
        assert forall|j: int| 0 <= j < rest.len() implies !lies_beside(
            ncm,
            #[trigger] rest[j],
            found,
        ) by {
            assert(rest[j] == exts[j + 1]);
        }
        lemma_no_sibling(ncm, rest, found);
    }
}

/// What a listed file is listed as: an NCM file, which is one by its extension
/// alone, as such, and every other as audio that waits to be separated as it
/// stands.
pub proof fn law_listed_as(
    walked: Seq<PathView>,
    found: Seq<FoundView>,
    fold_case: bool,
    k: int,
)
    requires
        0 <= k < input_items(walked, found, fold_case).len(),
    ensures
        ({
            let item = input_items(walked, found, fold_case)[k];
            let ncm = item.path.extension() matches Some(e) && (e == "ncm"@ || (fold_case
                && lowercase_of(e) == "ncm"@));
            &&& item.kind == (if ncm {
                AudioKind::Ncm
            } else {
                AudioKind::Normal
            })
            &&& !ncm ==> item.status == "待处理"@ && item.process_path == Some(item.path)
            &&& ncm ==> item == ncm_item(item.path, walked, found)
        }),
{
    reveal_strlit("ncm");
    assert(lowercase_of("ncm"@) == "ncm"@);
}

/// An NCM file is matched with the audio beside it: that of its name with the
/// first extension, in the order that is written out here, under which there
/// is something. Its status says which, and it is what is separated.
pub proof fn law_ncm_matched_beside(
    ncm: PathView,
    walked: Seq<PathView>,
    found: Seq<FoundView>,
    k: int,
)
    requires
        ({
            let exts = seq![
                "flac"@,
                "mp3"@,
                "wav"@,
                "m4a"@,
                "aac"@,
                "ogg"@,
                "wma"@,
                "aiff"@,
                "aif"@,
            ];
            &&& 0 <= k < exts.len()
            &&& lies_beside(ncm, exts[k], found)
            &&& forall|j: int| 0 <= j < k ==> !lies_beside(ncm, #[trigger] exts[j], found)
        }),
    ensures
        ({
            let exts = seq![
                "flac"@,
                "mp3"@,
                "wav"@,
                "m4a"@,
                "aac"@,
                "ogg"@,
                "wma"@,
                "aiff"@,
                "aif"@,
            ];
            let item = ncm_item(ncm, walked, found);
            &&& item.path == ncm
            &&& item.kind == AudioKind::Ncm
            &&& item.process_path == Some(ncm.with_extension(exts[k]))
            &&& item.status == "已找到 "@ + uppercase_of(exts[k])
        }),
{
    let exts = seq!["flac"@, "mp3"@, "wav"@, "m4a"@, "aac"@, "ogg"@, "wma"@, "aiff"@, "aif"@];
    assert(converted_list() == exts);
    lemma_first_sibling(ncm, exts, found, k);
}

/// Whether audio of the name of an NCM file is one that is preferred to another:
/// one of its own directory to one of another directory, and otherwise the one
/// whose extension comes first.
pub open spec fn comes_before(a: PathView, b: PathView, ncm: PathView) -> bool {
    let ext_a = match a.extension() {
        Some(e) => e,
        None => Seq::empty(),
    };
    let ext_b = match b.extension() {
        Some(e) => e,
        None => Seq::empty(),
    };
    let near_a = a.parent_parts() == ncm.parent_parts();
    let near_b = b.parent_parts() == ncm.parent_parts();
    (near_a && !near_b) || (near_a == near_b && text_le(ext_a, ext_b) && ext_a != ext_b)
}

/// An NCM file with no audio beside it is matched with audio of its name among
/// the walked files: one to which no other is preferred. If there is none, it
/// waits to be converted.
pub proof fn law_ncm_matched_elsewhere(
    ncm: PathView,
    walked: Seq<PathView>,
    found: Seq<FoundView>,
)
    requires
        ncm.stem() is Some,
        ({
            let exts = seq![
                "flac"@,
                "mp3"@,
                "wav"@,
                "m4a"@,
                "aac"@,
                "ogg"@,
                "wma"@,
                "aiff"@,
                "aif"@,
            ];
            forall|j: int| 0 <= j < exts.len() ==> !lies_beside(ncm, #[trigger] exts[j], found)
        }),
    ensures
        ({
            let item = ncm_item(ncm, walked, found);
            let named = |p: PathView| is_audio(p) && p.stem() == ncm.stem();
            &&& item.path == ncm
            &&& item.kind == AudioKind::Ncm
            &&& match item.process_path {
                Some(p) => {
                    &&& walked.contains(p)
                    &&& named(p)
                    &&& forall|i: int|
                        0 <= i < walked.len() && named(#[trigger] walked[i]) ==> !comes_before(
                            walked[i],
                            p,
                            ncm,
                        )
                    &&& item.status == "已找到 "@ + uppercase_of(p.extension()->0)
                },
                None => {
                    &&& forall|i: int| 0 <= i < walked.len() ==> !named(#[trigger] walked[i])
                    &&& item.status == "NCM: 等待外部转换"@
                },
            }
        }),
{
    let exts = seq!["flac"@, "mp3"@, "wav"@, "m4a"@, "aac"@, "ogg"@, "wma"@, "aiff"@, "aif"@];
    assert(converted_list() == exts);
    lemma_no_sibling(ncm, exts, found);
    law_counterpart(walked, ncm);
    let named = |p: PathView| is_audio(p) && p.stem() == ncm.stem();
    assert forall|i: int| 0 <= i < walked.len() implies named(#[trigger] walked[i])
        == crate::scan::is_counterpart(walked[i], ncm) by {
        lemma_lists(walked[i]);
    }
    if let Some(p) = counterpart(walked, ncm) {
        lemma_lists(p);
        assert forall|i: int| 0 <= i < walked.len() && named(#[trigger] walked[i]) implies
            !comes_before(walked[i], p, ncm) by {
            law_text_order_total(
                crate::scan::ext_or_empty(walked[i]),
                crate::scan::ext_or_empty(p),
            );
        }
    }
}

/// Of audio that is equally preferred, the first that was walked is taken.
pub proof fn law_ncm_matched_first(
    ncm: PathView,
    walked: Seq<PathView>,
    found: Seq<FoundView>,
)
    requires
        ncm.stem() is Some,
        ({
            let exts = seq![
                "flac"@,
                "mp3"@,
                "wav"@,
                "m4a"@,
                "aac"@,
                "ogg"@,
                "wma"@,
                "aiff"@,
                "aif"@,
            ];
            forall|j: int| 0 <= j < exts.len() ==> !lies_beside(ncm, #[trigger] exts[j], found)
        }),
    ensures
        ncm_item(ncm, walked, found).process_path matches Some(p) ==> exists|k: int|
            #![trigger walked[k]]
            0 <= k < walked.len() && walked[k] == p && forall|j: int|
                0 <= j < k && is_audio(#[trigger] walked[j]) && walked[j].stem() == ncm.stem()
                    ==> comes_before(p, walked[j], ncm),
{
    let exts = seq!["flac"@, "mp3"@, "wav"@, "m4a"@, "aac"@, "ogg"@, "wma"@, "aiff"@, "aif"@];
    assert(converted_list() == exts);
    lemma_no_sibling(ncm, exts, found);
    lemma_first_counterpart(walked, ncm);
    if let Some(p) = counterpart(walked, ncm) {
        let k = choose|k: int|
            #![trigger walked[k]]
            0 <= k < walked.len() && walked[k] == p && forall|j: int|
                0 <= j < k && is_counterpart(#[trigger] walked[j], ncm) ==> preferred(
                    p,
                    walked[j],
                    ncm,
                );
        assert forall|j: int|
            0 <= j < k && is_audio(#[trigger] walked[j]) && walked[j].stem()
                == ncm.stem() implies comes_before(p, walked[j], ncm) by {
            lemma_lists(walked[j]);
            law_text_order_total(ext_or_empty(p), ext_or_empty(walked[j]));
        }
    }
}

/// The counterpart is preferred to every one before it.
proof fn lemma_first_counterpart(files: Seq<PathView>, ncm: PathView)
    ensures
        counterpart(files, ncm) matches Some(p) ==> exists|k: int|
            #![trigger files[k]]
            0 <= k < files.len() && files[k] == p && forall|j: int|
                0 <= j < k && is_counterpart(#[trigger] files[j], ncm) ==> preferred(
                    p,
                    files[j],
                    ncm,
                ),
    decreases files.len(),
{
    if files.len() > 0 {
        let rest = files.drop_last();
        let last = files.last();
        lemma_first_counterpart(rest, ncm);
        law_counterpart(rest, ncm);
        if let Some(p) = counterpart(files, ncm) {
            if is_counterpart(last, ncm) && (counterpart(rest, ncm) is None || preferred(
                last,
                counterpart(rest, ncm)->0,
                ncm,
            )) {
                assert(files[files.len() - 1] == p);
                assert forall|j: int|
                    0 <= j < files.len() - 1 && is_counterpart(
                        #[trigger] files[j],
                        ncm,
                    ) implies preferred(p, files[j], ncm) by {
                    assert(rest[j] == files[j]);
                    lemma_preferred(p, counterpart(rest, ncm)->0, files[j], ncm);
                }
            } else {
                let k = choose|k: int|
                    #![trigger rest[k]]
                    0 <= k < rest.len() && rest[k] == p && forall|j: int|
                        0 <= j < k && is_counterpart(#[trigger] rest[j], ncm) ==> preferred(
                            p,
                            rest[j],
                            ncm,
                        );
                assert(files[k] == p);
                assert forall|j: int|
                    0 <= j < k && is_counterpart(#[trigger] files[j], ncm) implies preferred(
                    p,
                    files[j],
                    ncm,
                ) by {
                    assert(rest[j] == files[j]);
                }
            }
        }
    }
}

/// What is preferred to a file is preferred to what is not preferred to it.
proof fn lemma_preferred(a: PathView, b: PathView, c: PathView, ncm: PathView)
    requires
        preferred(a, b, ncm),
        !preferred(c, b, ncm),
    ensures
        preferred(a, c, ncm),
{
    let x = ext_or_empty(a);
    let y = ext_or_empty(b);
    let z = ext_or_empty(c);
    law_text_order_total(x, y);
    law_text_order_total(y, z);
    law_text_order_total(x, z);
    if text_le(y, z) && text_le(z, x) {
        law_text_order_transitive(y, z, x);
    }
}

/// What the window says after a scan: how many files are listed, and how many
/// of them have audio to separate.
pub proof fn law_scan_status(items: Seq<ItemView>)
    ensures
        scan_status(items) == "已扫描 "@ + decimal(items.len()) + " 个文件, "@ + decimal(
            items.filter(|i: ItemView| i.process_path is Some).len(),
        ) + " 个可分离"@,
{
    lemma_ready_count(items);
}

/// How many items are ready is how many have audio.
pub proof fn lemma_ready_count(items: Seq<ItemView>)
    ensures
        ready_count(items) == items.filter(|i: ItemView| i.process_path is Some).len(),
    decreases items.len(),
{
    reveal(Seq::filter);
    if items.len() > 0 {
        lemma_ready_count(items.drop_last());
    }
}

// ---------------------------------------------------------------------------
// Stems
// ---------------------------------------------------------------------------

/// The stems that are listed are the walked files of audio that separators
/// write, as often as they were walked and no other: each under the name of its
/// directory and its own without the extension, by those two names whatever the
/// case of their letters, and otherwise as they were walked.
pub proof fn law_stems_listed(walked: Seq<PathView>)
    ensures
        ({
            let files = walked.filter(|p: PathView| is_stem(p));
            let stems = stem_items(walked);
            exists|order: Seq<int>| #[trigger]
                order.no_duplicates() && order.len() == files.len() && stems.len() == files.len()
                    && (forall|k: int|
                    #![trigger order[k]]
                    #![trigger stems[k]]
                    0 <= k < stems.len() ==> 0 <= order[k] < files.len() && stems[k].path
                        == files[order[k]]) && (forall|k: int, l: int|
                    #![trigger stems[k], stems[l]]
                    0 <= k < l < stems.len() ==> ({
                        let (a, b) = (stems[k], stems[l]);
                        let (s, t) = (lowercase_of(a.track_name), lowercase_of(b.track_name));
                        let (x, y) = (lowercase_of(a.stem_name), lowercase_of(b.stem_name));
                        &&& text_le(s, t)
                        &&& s == t ==> text_le(x, y)
                        &&& s == t && x == y ==> order[k] < order[l]
                    }))
        }),
        forall|k: int|
            0 <= k < stem_items(walked).len() ==> ({
                let stem = #[trigger] stem_items(walked)[k];
                let path = stem.path;
                let n = path.parts.len();
                &&& stem.stem_name == (match path.stem() {
                    Some(s) => s,
                    None => Seq::empty(),
                })
                &&& path.file_name() is Some ==> stem.track_name == (if n >= 2 {
                    match path.parts[n - 2] {
                        PartView::Normal(s) => s,
                        _ => Seq::empty(),
                    }
                } else {
                    Seq::empty()
                })
            }),
{
    let wanted = |p: PathView| is_stem(p);
    assert forall|p: PathView| #[trigger] ext_among(p, stem_list()) == wanted(p) by {
        lemma_lists(p);
    }
    lemma_filtered(walked, stem_list(), wanted);
    let files = walked.filter(wanted);
    let all = files.map_values(|p: PathView| stem_for(p));
    let keys = all.map_values(|s: crate::media::StemView| stem_key(s));
    let order = sorted_indices(keys, all.len());
    law_sorted_indices(keys, all.len());
    let stems = stem_items(walked);
    assert(order.no_duplicates());
    assert forall|k: int| 0 <= k < stems.len() implies 0 <= #[trigger] order[k] < files.len()
        && stems[k].path == files[order[k]] by {}
    assert forall|k: int, l: int|
        #![trigger stems[k], stems[l]]
        0 <= k < l < stems.len() implies ({
        let (a, b) = (stems[k], stems[l]);
        let (s, t) = (lowercase_of(a.track_name), lowercase_of(b.track_name));
        let (x, y) = (lowercase_of(a.stem_name), lowercase_of(b.stem_name));
        &&& text_le(s, t)
        &&& s == t ==> text_le(x, y)
        &&& s == t && x == y ==> order[k] < order[l]
    }) by {
        let a = keys[order[k]];
        let b = keys[order[l]];
        assert(key_le(a, b));
        assert(a == stem_key(stems[k]) && b == stem_key(stems[l]));
        law_text_order_total(a[0], b[0]);
        law_text_order_total(a[1], b[1]);
        if a[0] != b[0] {
            assert(a.take(0) == b.take(0));
            law_key_order(a, b, 0);
        } else if a[1] != b[1] {
            assert(a.take(1) == b.take(1));
            law_key_order(a, b, 1);
        } else {
            assert(a == b);
        }
    }
    assert forall|k: int| 0 <= k < stems.len() implies ({
        let stem = #[trigger] stems[k];
        let path = stem.path;
        let n = path.parts.len();
        &&& stem.stem_name == (match path.stem() {
            Some(s) => s,
            None => Seq::empty(),
        })
        &&& path.file_name() is Some ==> stem.track_name == (if n >= 2 {
            match path.parts[n - 2] {
                PartView::Normal(s) => s,
                _ => Seq::empty(),
            }
        } else {
            Seq::empty()
        })
    }) by {
        let p = files[order[k]];
        assert(stems[k] == stem_for(p));
        if p.parts.len() >= 2 {
            assert(p.parts.drop_last().last() == p.parts[p.parts.len() - 2]);
        }
    }
}

// ---------------------------------------------------------------------------
// Metadata
// ---------------------------------------------------------------------------

/// The files that get the metadata of their source are the WAV files that lie
/// below the output directory but not in it, in the order in which they were
/// walked.
pub proof fn law_files_stamped(walked: Seq<PathView>, output_dir: PathView)
    ensures
        stamped_files(walked, output_dir) == walked.filter(
            |p: PathView|
                p.extension() == Some("wav"@) && p.parent_parts() is Some && p.parent_parts()->0
                    != output_dir.parts,
        ),
    decreases walked.len(),
{
    reveal(Seq::filter);
    if walked.len() > 0 {
        law_files_stamped(walked.drop_last(), output_dir);
    }
}

/// As many stems got their metadata as were written.
pub proof fn law_stamped_count(stems: Seq<Option<PathView>>)
    ensures
        written(stems) == stems.filter(|s: Option<PathView>| s is Some).len(),
    decreases stems.len(),
{
    reveal(Seq::filter);
    if stems.len() > 0 {
        law_stamped_count(stems.drop_last());
    }
}

} // verus!
