//! File paths as plain values: the text of a path, the texts of its ancestors
//! and the components that decide which paths are the same.

use crate::pattern::{join_of, occurs_at};
use crate::text::{chars_of, copy_opt, copy_texts, same_text, string_of, text_opt, texts};
use vstd::prelude::*;
use vstd::slice::slice_subrange;

verus! {

/// One component of a path.
#[derive(Debug)]
pub enum PathPart {
    /// A drive or share, as on Windows, in one spelling for all that are the
    /// same.
    Prefix(String),
    RootDir,
    CurDir,
    ParentDir,
    /// A name.
    Normal(String),
}

/// A component with its text as a sequence.
pub enum PartView {
    Prefix(Seq<char>),
    RootDir,
    CurDir,
    ParentDir,
    Normal(Seq<char>),
}

impl View for PathPart {
    type V = PartView;

    open spec fn view(&self) -> PartView {
        match self {
            PathPart::Prefix(s) => PartView::Prefix(s@),
            PathPart::RootDir => PartView::RootDir,
            PathPart::CurDir => PartView::CurDir,
            PathPart::ParentDir => PartView::ParentDir,
            PathPart::Normal(s) => PartView::Normal(s@),
        }
    }
}

/// A path: its text, the text of its parent if it has one, the texts of those
/// above the parent, the nearest first, and its components.
#[derive(Debug)]
pub struct FilePath {
    pub text: String,
    pub parent: Option<String>,
    pub above: Vec<String>,
    pub parts: Vec<PathPart>,
}

/// A path with its texts as sequences.
pub struct PathView {
    pub text: Seq<char>,
    pub parent: Option<Seq<char>>,
    pub above: Seq<Seq<char>>,
    pub parts: Seq<PartView>,
}

/// The components of a path as values.
pub open spec fn parts_view(parts: Seq<PathPart>) -> Seq<PartView> {
    parts.map_values(|p: PathPart| p@)
}

impl View for FilePath {
    type V = PathView;

    open spec fn view(&self) -> PathView {
        PathView {
            text: self.text@,
            parent: text_opt(self.parent),
            above: texts(self.above@),
            parts: parts_view(self.parts@),
        }
    }
}

/// The paths of a list as values.
pub open spec fn paths_view(list: Seq<FilePath>) -> Seq<PathView> {
    list.map_values(|p: FilePath| p@)
}

/// An optional path as a value.
pub open spec fn path_opt(p: Option<FilePath>) -> Option<PathView> {
    match p {
        Some(q) => Some(q@),
        None => None,
    }
}

/// The index of the last `c` in `s`, or -1.
pub open spec fn last_position(s: Seq<char>, c: char) -> int
    decreases s.len(),
{
    if s.len() == 0 {
        -1
    } else if s.last() == c {
        s.len() - 1
    } else {
        last_position(s.drop_last(), c)
    }
}

/// The extension of a file name: what follows its last dot, unless that dot
/// is its first character.
pub open spec fn ext_of(name: Seq<char>) -> Option<Seq<char>> {
    let dot = last_position(name, '.');
    if dot > 0 {
        Some(name.skip(dot + 1))
    } else {
        None
    }
}

/// A file name without its extension and the dot before it.
pub open spec fn stem_of(name: Seq<char>) -> Seq<char> {
    let dot = last_position(name, '.');
    if dot > 0 {
        name.take(dot)
    } else {
        name
    }
}

/// The index of the last occurrence of `pat` in `s`, or -1.
pub open spec fn find_last(s: Seq<char>, pat: Seq<char>) -> int
    decreases s.len(),
{
    if s.len() < pat.len() {
        -1
    } else if occurs_at(s, pat, s.len() - pat.len()) {
        s.len() - pat.len()
    } else if s.len() == 0 {
        -1
    } else {
        find_last(s.drop_last(), pat)
    }
}

/// Whether a text can be the extension of a file: there is something of it,
/// and nothing that separates components.
pub open spec fn is_extension(ext: Seq<char>) -> bool {
    ext.len() > 0 && !ext.contains('/') && !ext.contains('\\')
}

impl PathView {
    /// The name of the file: the last component, if that is a name.
    pub open spec fn file_name(self) -> Option<Seq<char>> {
        if self.parts.len() > 0 {
            match self.parts.last() {
                PartView::Normal(s) => Some(s),
                _ => None,
            }
        } else {
            None
        }
    }

    /// The name of the file, or nothing.
    pub open spec fn name(self) -> Seq<char> {
        match self.file_name() {
            Some(n) => n,
            None => Seq::empty(),
        }
    }

    /// The extension of the file name.
    pub open spec fn extension(self) -> Option<Seq<char>> {
        match self.file_name() {
            Some(n) => ext_of(n),
            None => None,
        }
    }

    /// The file name without its extension.
    pub open spec fn stem(self) -> Option<Seq<char>> {
        match self.file_name() {
            Some(n) => Some(stem_of(n)),
            None => None,
        }
    }

    /// The components of the parent. A root and a drive have none.
    pub open spec fn parent_parts(self) -> Option<Seq<PartView>> {
        if self.parts.len() == 0 {
            None
        } else {
            match self.parts.last() {
                PartView::Prefix(_) => None,
                PartView::RootDir => None,
                _ => Some(self.parts.drop_last()),
            }
        }
    }

    /// The texts of the ancestors, the nearest first.
    pub open spec fn ancestors(self) -> Seq<Seq<char>> {
        match self.parent {
            Some(p) => seq![p] + self.above,
            None => Seq::empty(),
        }
    }

    /// The directory that the path lies in, if it lies in one: its text is that
    /// of the parent, its ancestors are those above the parent, and it has all
    /// components but the last.
    pub open spec fn dir(self) -> Option<PathView> {
        match self.parent {
            Some(p) => Some(
                PathView {
                    text: p,
                    parent: if self.above.len() > 0 {
                        Some(self.above[0])
                    } else {
                        None
                    },
                    above: if self.above.len() > 0 {
                        self.above.skip(1)
                    } else {
                        self.above
                    },
                    parts: if self.parts.len() > 0 {
                        self.parts.drop_last()
                    } else {
                        self.parts
                    },
                },
            ),
            None => None,
        }
    }

    /// The path with another extension: the new extension takes the place of
    /// the old one, or is added. A path without a file name stays as it is.
    pub open spec fn with_extension(self, ext: Seq<char>) -> PathView {
        match self.file_name() {
            Some(n) => {
                let at = find_last(self.text, n);
                let new_name = stem_of(n) + "."@ + ext;
                PathView {
                    text: (if at >= 0 {
                        self.text.take(at)
                    } else {
                        Seq::empty()
                    }) + new_name,
                    parent: self.parent,
                    above: self.above,
                    parts: self.parts.drop_last().push(PartView::Normal(new_name)),
                }
            },
            None => self,
        }
    }
}

/// What every path that the standard library takes apart consists of: its
/// names are not empty, and are not the special names of directories.
pub open spec fn plain_names(parts: Seq<PartView>) -> bool {
    forall|i: int|
        0 <= i < parts.len() ==> match #[trigger] parts[i] {
            PartView::Normal(s) => s.len() > 0 && s != "."@ && s != ".."@,
            _ => true,
        }
}

/// Whether a text is one name on every machine: it is not empty, is no special
/// name of a directory, and holds nothing that separates components or ends a
/// prefix anywhere.
pub open spec fn is_plain(s: Seq<char>) -> bool {
    s.len() > 0 && s != "."@ && s != ".."@ && !s.contains('/') && !s.contains('\\')
        && !s.contains(':')
}

/// Whether every text of a list is a plain name.
pub open spec fn all_plain(names: Seq<Seq<char>>) -> bool {
    forall|i: int| 0 <= i < names.len() ==> is_plain(#[trigger] names[i])
}

/// Names as components.
pub open spec fn name_parts(names: Seq<Seq<char>>) -> Seq<PartView> {
    names.map_values(|n: Seq<char>| PartView::Normal(n))
}

/// Names with slashes between them.
pub open spec fn slashed(names: Seq<Seq<char>>) -> Seq<char> {
    join_of(names, "/"@)
}

/// Whether the components are those of a text that spells the same path on
/// every machine: plain names with slashes between them, behind a slash or
/// not. Nothing is said of other texts.
pub open spec fn parts_agree(text: Seq<char>, parts: Seq<PartView>) -> bool {
    &&& forall|names: Seq<Seq<char>>| #[trigger]
        all_plain(names) && text == slashed(names) ==> parts == name_parts(names)
    &&& forall|names: Seq<Seq<char>>| #[trigger]
        all_plain(names) && text == "/"@ + slashed(names) ==> parts == seq![PartView::RootDir]
            + name_parts(names)
}

/// Whether the parent is that of a text that spells the same path on every
/// machine: all names but the last, and none where there is no name. Nothing
/// is said of other texts.
pub open spec fn parent_agrees(text: Seq<char>, parent: Option<Seq<char>>) -> bool {
    &&& forall|names: Seq<Seq<char>>| #[trigger]
        all_plain(names) && text == slashed(names) ==> parent == (if names.len() > 0 {
            Some(slashed(names.drop_last()))
        } else {
            None
        })
    &&& forall|names: Seq<Seq<char>>| #[trigger]
        all_plain(names) && text == "/"@ + slashed(names) ==> parent == (if names.len() > 0 {
            Some("/"@ + slashed(names.drop_last()))
        } else {
            None
        })
}

/// Calls `Path::components` and copies each component; a prefix is spelled by
/// its kind, so that two spellings of one drive are the same. Which characters
/// separate components, and whether there are prefixes, depends on the
/// machine. What holds on every machine is claimed: names are not empty and
/// are neither `.` nor `..`, and plain names with slashes between them, behind
/// a slash or not, are the components. How other texts are taken apart is
/// left unsaid.
#[verifier::external_body]
fn split_path(text: &str) -> (parts: Vec<PathPart>)
    ensures
        plain_names(parts_view(parts@)),
        parts_agree(text@, parts_view(parts@)),
{
    let mut parts = Vec::new();
    for c in std::path::Path::new(text).components() {
        parts.push(match c {
            std::path::Component::Prefix(p) => PathPart::Prefix(format!("{:?}", p.kind())),
            std::path::Component::RootDir => PathPart::RootDir,
            std::path::Component::CurDir => PathPart::CurDir,
            std::path::Component::ParentDir => PathPart::ParentDir,
            std::path::Component::Normal(s) => PathPart::Normal(s.to_string_lossy().into_owned()),
        });
    }
    parts
}

/// Calls `Path::parent`. What separates the final component from the rest
/// depends on the machine. What holds on every machine is claimed: the parent
/// is a proper prefix of the text, and that of plain names with slashes
/// between them, behind a slash or not, is all but the last. What the parent
/// of another text is, is left unsaid.
#[verifier::external_body]
fn parent_of(text: &str) -> (parent: Option<String>)
    ensures
        parent matches Some(p) ==> p@.len() < text@.len() && text@.take(p@.len() as int) == p@,
        parent_agrees(text@, text_opt(parent)),
{
    std::path::Path::new(text).parent().map(|p| p.to_string_lossy().into_owned())
}

/// What is known of the parent of a text: it is a proper prefix of it, and
/// that of plain names.
pub open spec fn parent_known(text: Seq<char>, parent: Option<Seq<char>>) -> bool {
    &&& parent matches Some(p) ==> p.len() < text.len() && text.take(p.len() as int) == p
    &&& parent_agrees(text, parent)
}

/// The text below the `i`th ancestor.
pub open spec fn below(text: Seq<char>, ancestors: Seq<Seq<char>>, i: int) -> Seq<char> {
    if i == 0 {
        text
    } else {
        ancestors[i - 1]
    }
}

/// Whether each of the ancestors is known as the parent of the one below it,
/// the first as that of the text, and the last to have none.
pub open spec fn ancestors_known(text: Seq<char>, ancestors: Seq<Seq<char>>) -> bool {
    forall|i: int|
        0 <= i <= ancestors.len() ==> parent_known(
            #[trigger] below(text, ancestors, i),
            if i < ancestors.len() {
                Some(ancestors[i])
            } else {
                None
            },
        )
}

/// The ancestors of the path that a text spells, the nearest first.
fn ancestors_of(text: &str) -> (list: Vec<String>)
    ensures
        ancestors_known(text@, texts(list@)),
{
    let mut list: Vec<String> = Vec::new();
    let mut next = parent_of(text);
    let ghost mut last = text@;
    while next.is_some()
        invariant
            last == below(text@, texts(list@), list@.len() as int),
            forall|i: int|
                0 <= i < list@.len() ==> parent_known(
                    #[trigger] below(text@, texts(list@), i),
                    Some(texts(list@)[i]),
                ),
            parent_known(last, text_opt(next)),
        decreases last.len(),
    {
        if let Some(dir) = next {
            let ghost before = texts(list@);
            next = parent_of(dir.as_str());
            list.push(dir);
            assert(texts(list@) == before.push(dir@));
            assert forall|i: int| 0 <= i <= before.len() implies #[trigger] below(
                text@,
                texts(list@),
                i,
            ) == below(text@, before, i) by {}
            proof {
                last = dir@;
            }
        }
    }
    list
}

impl Clone for FilePath {
    fn clone(&self) -> (path: FilePath)
        ensures
            path@ == self@,
    {
        FilePath {
            text: self.text.clone(),
            parent: copy_opt(&self.parent),
            above: copy_texts(&self.above),
            parts: copy_parts(&self.parts, self.parts.len()),
        }
    }
}

impl FilePath {
    /// The path that `text` spells on this machine.
    pub fn new(text: String) -> (path: FilePath)
        ensures
            path@.text == text@,
            plain_names(path@.parts),
            parts_agree(text@, path@.parts),
            parent_agrees(text@, path@.parent),
            path@.parent matches Some(p) ==> p.len() < text@.len() && text@.take(p.len() as int)
                == p,
            ancestors_known(text@, path@.ancestors()),
            path@.parent is None ==> path@.above.len() == 0,
    {
        let parts = split_path(text.as_str());
        let mut above = ancestors_of(text.as_str());
        let ghost all = texts(above@);
        let parent = if above.len() > 0 {
            Some(above.remove(0))
        } else {
            None
        };
        let path = FilePath { text, parent, above, parts };
        assert(path@.ancestors() == all);
        assert(below(text@, all, 0) == text@);
        path
    }

    /// The directory that the path lies in, if it lies in one: the path of its
    /// parent, with all components but the last.
    pub fn parent_path(&self) -> (dir: Option<FilePath>)
        ensures
            path_opt(dir) == self@.dir(),
    {
        match &self.parent {
            Some(text) => {
                let n: usize = if self.parts.len() > 0 {
                    self.parts.len() - 1
                } else {
                    0
                };
                let mut above = copy_texts(&self.above);
                let parent = if above.len() > 0 {
                    Some(above.remove(0))
                } else {
                    None
                };
                let parts = copy_parts(&self.parts, n);
                let dir = FilePath { text: text.clone(), parent, above, parts };
                assert(dir@.parts == self@.dir()->0.parts);
                assert(dir@.above == self@.dir()->0.above);
                Some(dir)
            },
            None => None,
        }
    }

    /// The name of the file, if the path ends in a name.
    pub fn file_name(&self) -> (name: Option<&String>)
        ensures
            match name {
                Some(n) => self@.file_name() == Some(n@),
                None => self@.file_name() is None,
            },
    {
        if self.parts.len() == 0 {
            return None;
        }
        assert(self@.parts.last() == self.parts@.last()@);
        match &self.parts[self.parts.len() - 1] {
            PathPart::Normal(s) => Some(s),
            _ => None,
        }
    }

    /// The name of the file, or nothing.
    pub fn name(&self) -> (name: String)
        ensures
            name@ == self@.name(),
    {
        match self.file_name() {
            Some(n) => n.clone(),
            None => String::new(),
        }
    }

    /// The extension of the file name.
    pub fn extension(&self) -> (ext: Option<String>)
        ensures
            text_opt(ext) == self@.extension(),
    {
        match self.file_name() {
            Some(n) => split_name(n.as_str()).1,
            None => None,
        }
    }

    /// The file name without its extension.
    pub fn file_stem(&self) -> (stem: Option<String>)
        ensures
            text_opt(stem) == self@.stem(),
    {
        match self.file_name() {
            Some(n) => Some(split_name(n.as_str()).0),
            None => None,
        }
    }

    /// The path with another extension.
    pub fn with_extension(&self, ext: &str) -> (path: FilePath)
        requires
            is_extension(ext@),
        ensures
            path@ == self@.with_extension(ext@),
    {
        match self.file_name() {
            Some(n) => {
                let mut new_name = split_name(n.as_str()).0;
                new_name.append(".");
                new_name.append(ext);
                let mut text = head_before(self.text.as_str(), n.as_str());
                text.append(new_name.as_str());
                let mut parts = copy_parts(&self.parts, self.parts.len() - 1);
                let ghost kept = parts_view(parts@);
                assert(kept == self@.parts.drop_last());
                parts.push(PathPart::Normal(new_name));
                assert(parts_view(parts@) == kept.push(PartView::Normal(new_name@)));
                FilePath {
                    text,
                    parent: copy_opt(&self.parent),
                    above: copy_texts(&self.above),
                    parts,
                }
            },
            None => self.clone(),
        }
    }

    /// Whether two paths are the same, component by component.
    pub fn same(&self, other: &FilePath) -> (yes: bool)
        ensures
            yes == (self@.parts == other@.parts),
    {
        assert(self@.parts.len() == self.parts@.len());
        assert(other@.parts.len() == other.parts@.len());
        self.parts.len() == other.parts.len() && same_parts(
            &self.parts,
            &other.parts,
            self.parts.len(),
        )
    }

    /// Whether two paths have the same parent, or both have none.
    pub fn same_parent(&self, other: &FilePath) -> (yes: bool)
        ensures
            yes == (self@.parent_parts() == other@.parent_parts()),
    {
        let a: bool = has_parent(&self.parts);
        let b: bool = has_parent(&other.parts);
        if !a || !b {
            return a == b;
        }
        let n: usize = self.parts.len();
        assert(self@.parts.drop_last() == self@.parts.take(n - 1));
        assert(other@.parts.drop_last() == other@.parts.take(other.parts@.len() - 1));
        if n != other.parts.len() {
            assert(self@.parts.drop_last().len() != other@.parts.drop_last().len());
            return false;
        }
        same_parts(&self.parts, &other.parts, n - 1)
    }

    /// Whether the parent of this path is `dir`.
    pub fn parent_is(&self, dir: &FilePath) -> (yes: bool)
        ensures
            yes == (self@.parent_parts() == Some(dir@.parts)),
    {
        assert(dir@.parts.len() == dir.parts@.len());
        if !has_parent(&self.parts) || self.parts.len() - 1 != dir.parts.len() {
            return false;
        }
        assert(self@.parts.drop_last() == self@.parts.take(dir.parts@.len() as int));
        assert(dir@.parts == dir@.parts.take(dir.parts@.len() as int));
        same_parts(&self.parts, &dir.parts, dir.parts.len())
    }

    /// Whether the path has a parent.
    pub fn is_below(&self) -> (yes: bool)
        ensures
            yes == (self@.parent_parts() is Some),
    {
        has_parent(&self.parts)
    }
}

/// Whether a path of these components has a parent.
fn has_parent(parts: &Vec<PathPart>) -> (yes: bool)
    ensures
        yes == (parts@.len() > 0 && !(parts@.last() is Prefix) && !(parts@.last() is RootDir)),
        yes ==> parts@.len() > 0,
{
    if parts.len() == 0 {
        return false;
    }
    match &parts[parts.len() - 1] {
        PathPart::Prefix(_) => false,
        PathPart::RootDir => false,
        _ => true,
    }
}

/// Whether two components are the same.
fn same_part(a: &PathPart, b: &PathPart) -> (yes: bool)
    ensures
        yes == (a@ == b@),
{
    match (a, b) {
        (PathPart::Prefix(x), PathPart::Prefix(y)) => same_text(x.as_str(), y.as_str()),
        (PathPart::RootDir, PathPart::RootDir) => true,
        (PathPart::CurDir, PathPart::CurDir) => true,
        (PathPart::ParentDir, PathPart::ParentDir) => true,
        (PathPart::Normal(x), PathPart::Normal(y)) => same_text(x.as_str(), y.as_str()),
        _ => false,
    }
}

/// Whether the first `n` components are the same.
fn same_parts(a: &Vec<PathPart>, b: &Vec<PathPart>, n: usize) -> (yes: bool)
    requires
        n <= a@.len(),
        n <= b@.len(),
    ensures
        yes == (parts_view(a@).take(n as int) == parts_view(b@).take(n as int)),
        n == a@.len() && n == b@.len() ==> yes == (parts_view(a@) == parts_view(b@)),
{
    let ghost x = parts_view(a@).take(n as int);
    let ghost y = parts_view(b@).take(n as int);
    proof {
        if n == a@.len() && n == b@.len() {
            assert(x == parts_view(a@) && y == parts_view(b@));
        }
    }
    for i in 0..n
        invariant
            n <= a@.len(),
            n <= b@.len(),
            x == parts_view(a@).take(n as int),
            y == parts_view(b@).take(n as int),
            n == a@.len() && n == b@.len() ==> x == parts_view(a@) && y == parts_view(b@),
            forall|j: int| 0 <= j < i ==> x[j] == y[j],
    {
        if !same_part(&a[i], &b[i]) {
            assert(x[i as int] != y[i as int]);
            return false;
        }
    }
    assert(x == y);
    true
}

/// A copy of the first `n` components.
fn copy_parts(parts: &Vec<PathPart>, n: usize) -> (out: Vec<PathPart>)
    requires
        n <= parts@.len(),
    ensures
        parts_view(out@) == parts_view(parts@).take(n as int),
        n == parts@.len() ==> parts_view(out@) == parts_view(parts@),
{
    let mut out: Vec<PathPart> = Vec::new();
    for i in 0..n
        invariant
            n <= parts@.len(),
            parts_view(out@) == parts_view(parts@).take(i as int),
    {
        let part = match &parts[i] {
            PathPart::Prefix(s) => PathPart::Prefix(s.clone()),
            PathPart::RootDir => PathPart::RootDir,
            PathPart::CurDir => PathPart::CurDir,
            PathPart::ParentDir => PathPart::ParentDir,
            PathPart::Normal(s) => PathPart::Normal(s.clone()),
        };
        let ghost before = parts_view(out@);
        out.push(part);
        assert(parts_view(out@) == before.push(part@));
        assert(parts_view(parts@).take(i + 1) == parts_view(parts@).take(i as int).push(
            parts@[i as int]@,
        ));
    }
    assert(parts_view(parts@).take(parts@.len() as int) == parts_view(parts@));
    out
}

/// The stem and the extension of a file name.
pub fn split_name(name: &str) -> (halves: (String, Option<String>))
    ensures
        halves.0@ == stem_of(name@),
        text_opt(halves.1) == ext_of(name@),
{
    let v = chars_of(name);
    let mut k: usize = v.len();
    assert(v@.take(k as int) == v@);
    while k > 0 && v[k - 1] != '.'
        invariant
            v@ == name@,
            k <= v@.len(),
            last_position(name@, '.') == last_position(v@.take(k as int), '.'),
        decreases k,
    {
        assert(v@.take(k as int).drop_last() == v@.take(k - 1));
        k = k - 1;
    }
    assert(last_position(name@, '.') == k - 1);
    if k > 1 {
        let stem = string_of(slice_subrange(v.as_slice(), 0, k - 1));
        let ext = string_of(slice_subrange(v.as_slice(), k, v.len()));
        assert(v@.subrange(0, k - 1) == v@.take(k - 1));
        assert(v@.subrange(k as int, v@.len() as int) == v@.skip(k as int));
        (stem, Some(ext))
    } else {
        (string_of(v.as_slice()), None)
    }
}

/// What stands in `text` before the last occurrence of `name`.
fn head_before(text: &str, name: &str) -> (head: String)
    ensures
        head@ == (if find_last(text@, name@) >= 0 {
            text@.take(find_last(text@, name@))
        } else {
            Seq::empty()
        }),
{
    let v = chars_of(text);
    let p = chars_of(name);
    let mut k: usize = v.len();
    assert(v@.take(k as int) == v@);
    loop
        invariant
            v@ == text@,
            p@ == name@,
            k <= v@.len(),
            find_last(text@, name@) == find_last(v@.take(k as int), name@),
        decreases k,
    {
        if k < p.len() {
            return String::new();
        }
        let at: usize = k - p.len();
        let piece = slice_subrange(v.as_slice(), at, k);
        let ghost s = v@.take(k as int);
        assert(s.subrange(at as int, at + p@.len()) == v@.subrange(at as int, k as int));
        if same_chars(piece, p.as_slice()) {
            assert(s.take(at as int) == text@.take(at as int));
            assert(v@.subrange(0, at as int) == text@.take(at as int));
            return string_of(slice_subrange(v.as_slice(), 0, at));
        }
        if k == 0 {
            return String::new();
        }
        assert(s.drop_last() == v@.take(k - 1));
        k = k - 1;
    }
}

/// Whether two runs of characters are the same.
fn same_chars(a: &[char], b: &[char]) -> (yes: bool)
    ensures
        yes == (a@ == b@),
{
    if a.len() != b.len() {
        return false;
    }
    for i in 0..a.len()
        invariant
            a@.len() == b@.len(),
            forall|j: int| 0 <= j < i ==> a@[j] == b@[j],
    {
        if a[i] != b[i] {
            return false;
        }
    }
    assert(a@ == b@);
    true
}

/// A copy of an optional path.
pub fn copy_path_opt(p: &Option<FilePath>) -> (out: Option<FilePath>)
    ensures
        path_opt(out) == path_opt(*p),
{
    match p {
        Some(q) => Some(q.clone()),
        None => None,
    }
}

/// The last dot of a text with an extension is the one before it.
proof fn lemma_last_dot(stem: Seq<char>, ext: Seq<char>)
    requires
        !ext.contains('.'),
    ensures
        last_position(stem + seq!['.'] + ext, '.') == stem.len(),
    decreases ext.len(),
{
    let name = stem + seq!['.'] + ext;
    if ext.len() == 0 {
        assert(name.last() == '.');
    } else {
        let shorter = ext.drop_last();
        assert(ext[ext.len() - 1] != '.');
        assert forall|i: int| 0 <= i < shorter.len() implies shorter[i] != '.' by {
            assert(ext[i] != '.');
        }
        lemma_last_dot(stem, shorter);
        assert(name.drop_last() == stem + seq!['.'] + shorter);
        assert(name.last() == ext.last());
    }
}

/// A path with another extension lies in the same directory, keeps its stem
/// and has that extension.
pub proof fn law_with_extension(path: PathView, ext: Seq<char>)
    requires
        path.file_name() matches Some(n) && n.len() > 0,
        is_extension(ext),
        !ext.contains('.'),
    ensures
        path.with_extension(ext).extension() == Some(ext),
        path.with_extension(ext).stem() == path.stem(),
        path.with_extension(ext).parent_parts() == path.parent_parts(),
        path.with_extension(ext).parent == path.parent,
        path.with_extension(ext).above == path.above,
{
    let n = path.file_name()->0;
    let stem = stem_of(n);
    let changed = path.with_extension(ext);
    let name = stem + "."@ + ext;
    reveal_strlit(".");
    assert("."@ == seq!['.']);
    lemma_last_dot(stem, ext);
    lemma_last_position(n, '.');
    assert(stem.len() > 0);
    assert(changed.parts.last() == PartView::Normal(name));
    assert(name.skip((stem.len() + 1) as int) == ext);
    assert(name.take(stem.len() as int) == stem);
    assert(changed.parts.drop_last() == path.parts.drop_last());
}

/// The last position of a character lies within the text.
proof fn lemma_last_position(s: Seq<char>, c: char)
    ensures
        -1 <= last_position(s, c) < s.len(),
    decreases s.len(),
{
    if s.len() > 0 && s.last() != c {
        lemma_last_position(s.drop_last(), c);
    }
}

} // verus!
