//! What the application works on: audio files and the stems made of them.

use crate::letters::{
    is_ascii_text, law_ascii_case, lowercase_of, same_ignoring_ascii_case, to_lowercase,
};
use crate::path::{copy_path_opt, is_extension, path_opt, FilePath, PathView};
use crate::text::has_text;
use vstd::prelude::*;

verus! {

/// Whether a file is audio as it stands or has to be converted first.
#[derive(Debug, Clone, Copy, PartialEq, Eq, Structural)]
pub enum AudioKind {
    Normal,
    Ncm,
}

/// An audio file of the source directory.
#[derive(Debug)]
pub struct AudioItem {
    pub path: FilePath,
    pub status: String,
    /// The file to separate: the file itself, or what it was converted to.
    pub process_path: Option<FilePath>,
    pub kind: AudioKind,
}

/// An audio file as a value.
pub struct ItemView {
    pub path: PathView,
    pub status: Seq<char>,
    pub process_path: Option<PathView>,
    pub kind: AudioKind,
}

impl View for AudioItem {
    type V = ItemView;

    open spec fn view(&self) -> ItemView {
        ItemView {
            path: self.path@,
            status: self.status@,
            process_path: path_opt(self.process_path),
            kind: self.kind,
        }
    }
}

/// The items of a list as values.
pub open spec fn items_view(items: Seq<AudioItem>) -> Seq<ItemView> {
    items.map_values(|i: AudioItem| i@)
}

impl Clone for AudioItem {
    fn clone(&self) -> (item: AudioItem)
        ensures
            item@ == self@,
    {
        AudioItem {
            path: self.path.clone(),
            status: self.status.clone(),
            process_path: copy_path_opt(&self.process_path),
            kind: self.kind,
        }
    }
}

impl AudioItem {
    /// Whether there is a file to separate.
    pub fn can_separate(&self) -> (yes: bool)
        ensures
            yes == (self@.process_path is Some),
    {
        self.process_path.is_some()
    }
}

/// A separated stem.
#[derive(Debug)]
pub struct StemItem {
    pub path: FilePath,
    pub track_name: String,
    pub stem_name: String,
}

/// A separated stem as a value.
pub struct StemView {
    pub path: PathView,
    pub track_name: Seq<char>,
    pub stem_name: Seq<char>,
}

impl View for StemItem {
    type V = StemView;

    open spec fn view(&self) -> StemView {
        StemView {
            path: self.path@,
            track_name: self.track_name@,
            stem_name: self.stem_name@,
        }
    }
}

/// The stems of a list as values.
pub open spec fn stems_view(stems: Seq<StemItem>) -> Seq<StemView> {
    stems.map_values(|s: StemItem| s@)
}

impl Clone for StemItem {
    fn clone(&self) -> (stem: StemItem)
        ensures
            stem@ == self@,
    {
        StemItem {
            path: self.path.clone(),
            track_name: self.track_name.clone(),
            stem_name: self.stem_name.clone(),
        }
    }
}

/// The extensions of audio that can be separated, the preferred ones first.
pub open spec fn converted_list() -> Seq<Seq<char>> {
    seq!["flac"@, "mp3"@, "wav"@, "m4a"@, "aac"@, "ogg"@, "wma"@, "aiff"@, "aif"@]
}

/// The extensions of the files that are scanned for.
pub open spec fn input_list() -> Seq<Seq<char>> {
    seq!["flac"@, "mp3"@, "wav"@, "m4a"@, "aac"@, "ogg"@, "wma"@, "aiff"@, "aif"@, "ncm"@]
}

/// The extensions of stems.
pub open spec fn stem_list() -> Seq<Seq<char>> {
    seq!["wav"@, "mp3"@, "flac"@, "m4a"@, "aac"@, "ogg"@, "wma"@]
}

/// The extensions of audio that can be separated, the preferred ones first.
pub fn converted_exts() -> (exts: Vec<&'static str>)
    ensures
        exts.deep_view() == converted_list(),
{
    let exts = vec!["flac", "mp3", "wav", "m4a", "aac", "ogg", "wma", "aiff", "aif"];
    assert(exts.deep_view() == converted_list());
    exts
}

/// The extensions of audio are ones that a file can have, with no dot in them.
pub proof fn lemma_converted_extensions()
    ensures
        forall|i: int|
            0 <= i < converted_list().len() ==> is_extension(#[trigger] converted_list()[i])
                && !converted_list()[i].contains('.'),
{
    reveal_strlit("flac");
    reveal_strlit("mp3");
    reveal_strlit("wav");
    reveal_strlit("m4a");
    reveal_strlit("aac");
    reveal_strlit("ogg");
    reveal_strlit("wma");
    reveal_strlit("aiff");
    reveal_strlit("aif");
}

/// The extensions of the files that are scanned for.
pub fn input_exts() -> (exts: Vec<&'static str>)
    ensures
        exts.deep_view() == input_list(),
{
    let exts = vec!["flac", "mp3", "wav", "m4a", "aac", "ogg", "wma", "aiff", "aif", "ncm"];
    assert(exts.deep_view() == input_list());
    exts
}

/// The extensions of stems.
pub fn stem_exts() -> (exts: Vec<&'static str>)
    ensures
        exts.deep_view() == stem_list(),
{
    let exts = vec!["wav", "mp3", "flac", "m4a", "aac", "ogg", "wma"];
    assert(exts.deep_view() == stem_list());
    exts
}

/// Whether the extension of a path, in lower case, is one of the list.
pub open spec fn ext_among(path: PathView, exts: Seq<Seq<char>>) -> bool {
    path.extension() matches Some(e) && exts.contains(lowercase_of(e))
}

/// Whether the extension of a path, in lower case, is one of the list.
pub fn has_ext(path: &FilePath, exts: &Vec<&'static str>) -> (yes: bool)
    ensures
        yes == ext_among(path@, exts.deep_view()),
{
    match path.extension() {
        Some(e) => has_text(exts, to_lowercase(e.as_str()).as_str()),
        None => false,
    }
}

/// Whether the file is an image of a kind that can be shown.
pub open spec fn is_image(path: PathView) -> bool {
    ext_among(path, seq!["png"@, "jpg"@, "jpeg"@])
}

/// Whether the file is an image of a kind that can be shown.
pub fn valid_image_ext(path: &FilePath) -> (yes: bool)
    ensures
        yes == is_image(path@),
{
    let exts = vec!["png", "jpg", "jpeg"];
    assert(exts.deep_view() == seq!["png"@, "jpg"@, "jpeg"@]);
    has_ext(path, &exts)
}

/// Everything that can be separated is scanned for.
pub proof fn law_converted_is_input(ext: Seq<char>)
    requires
        converted_list().contains(ext),
    ensures
        input_list().contains(ext),
{
    let i = choose|i: int| 0 <= i < converted_list().len() && converted_list()[i] == ext;
    assert(input_list()[i] == converted_list()[i]);
}

/// The extensions that are scanned for are in lower case.
proof fn lemma_inputs_lowercase()
    ensures
        forall|i: int|
            0 <= i < input_list().len() ==> is_ascii_text(#[trigger] input_list()[i])
                && lowercase_of(input_list()[i]) == input_list()[i],
{
    reveal_strlit("flac");
    reveal_strlit("mp3");
    reveal_strlit("wav");
    reveal_strlit("m4a");
    reveal_strlit("aac");
    reveal_strlit("ogg");
    reveal_strlit("wma");
    reveal_strlit("aiff");
    reveal_strlit("aif");
    reveal_strlit("ncm");
    assert forall|i: int| 0 <= i < input_list().len() implies is_ascii_text(
        #[trigger] input_list()[i],
    ) && lowercase_of(input_list()[i]) == input_list()[i] by {
        assert(lowercase_of(input_list()[i]) == input_list()[i]);
    }
}

/// A file whose extension is, but for the case of its letters, one of those
/// that are scanned for is scanned for.
pub proof fn law_known_extension(path: PathView, ext: Seq<char>)
    requires
        input_list().contains(ext),
        path.extension() matches Some(e) && same_ignoring_ascii_case(e, ext),
    ensures
        ext_among(path, input_list()),
{
    lemma_inputs_lowercase();
    let i = choose|i: int| 0 <= i < input_list().len() && input_list()[i] == ext;
    law_ascii_case(path.extension()->0, ext);
    assert(input_list()[i] == lowercase_of(path.extension()->0));
}

/// A copy of the items with the given indices, in that order.
pub fn pick_items(items: &Vec<AudioItem>, indices: &Vec<usize>) -> (out: Vec<AudioItem>)
    requires
        forall|k: int| 0 <= k < indices@.len() ==> (#[trigger] indices@[k]) < items@.len(),
    ensures
        items_view(out@) == indices@.map_values(|i: usize| items_view(items@)[i as int]),
{
    let mut out: Vec<AudioItem> = Vec::new();
    let ghost all = indices@.map_values(|i: usize| items_view(items@)[i as int]);
    for k in 0..indices.len()
        invariant
            forall|k: int| 0 <= k < indices@.len() ==> (#[trigger] indices@[k]) < items@.len(),
            all == indices@.map_values(|i: usize| items_view(items@)[i as int]),
            items_view(out@) == all.take(k as int),
    {
        let item = items[indices[k]].clone();
        let ghost before = items_view(out@);
        out.push(item);
        assert(items_view(out@) == before.push(item@));
        assert(all.take(k + 1) == all.take(k as int).push(all[k as int]));
    }
    assert(all.take(all.len() as int) == all);
    out
}

} // verus!
