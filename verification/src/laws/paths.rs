//! What a path is made of.

use crate::path::{
    all_plain, ancestors_known, below, copy_path_opt, ext_of, find_last, is_extension, is_plain,
    last_position, name_parts, parent_known, path_opt, slashed, split_name, stem_of, FilePath,
    PartView, PathView,
};
use crate::pattern::{join_of, occurs_at};
use crate::text::{text_opt, texts};
use vstd::prelude::*;

verus! {

// ---------------------------------------------------------------------------
// File names
// ---------------------------------------------------------------------------

/// What stands behind the last dot of a file name is its extension, and what
/// stands before it its stem, if there is anything before it.
pub proof fn law_name_split(stem: Seq<char>, ext: Seq<char>)
    requires
        stem.len() > 0,
        !ext.contains('.'),
    ensures
        ext_of(stem + seq!['.'] + ext) == Some(ext),
        stem_of(stem + seq!['.'] + ext) == stem,
{
    let name = stem + seq!['.'] + ext;
    assert forall|i: int| stem.len() < i < name.len() implies name[i] != '.' by {
        assert(name[i] == ext[i - stem.len() - 1]);
        assert(ext.contains(ext[i - stem.len() - 1]));
    }
    lemma_last(name, '.', stem.len() as int);
    assert(name.skip((stem.len() + 1) as int) == ext);
    assert(name.take(stem.len() as int) == stem);
}

/// A file name without a dot behind its first character has no extension, and
/// is its own stem.
pub proof fn law_name_whole(name: Seq<char>)
    requires
        forall|i: int| 0 < i < name.len() ==> #[trigger] name[i] != '.',
    ensures
        ext_of(name) is None,
        stem_of(name) == name,
{
    if name.len() > 0 && name[0] == '.' {
        lemma_last(name, '.', 0);
    } else {
        lemma_none(name, '.');
    }
}

/// The last place of a character.
proof fn lemma_last(s: Seq<char>, c: char, at: int)
    requires
        0 <= at < s.len(),
        s[at] == c,
        forall|i: int| at < i < s.len() ==> s[i] != c,
    ensures
        last_position(s, c) == at,
    decreases s.len(),
{
    if at < s.len() - 1 {
        assert(s.last() != c);
        lemma_last(s.drop_last(), c, at);
    }
}

/// A character that is not there has no place.
proof fn lemma_none(s: Seq<char>, c: char)
    requires
        forall|i: int| 0 <= i < s.len() ==> s[i] != c,
    ensures
        last_position(s, c) == -1,
    decreases s.len(),
{
    if s.len() > 0 {
        assert(s.last() != c);
        lemma_none(s.drop_last(), c);
    }
}

/// A file name is split into its stem and its extension.
pub proof fn law_split_name(name: &str, halves: (String, Option<String>))
    requires
        call_ensures(split_name, (name,), halves),
    ensures
        halves.0@ == stem_of(name@),
        text_opt(halves.1) == ext_of(name@),
        halves.1 is Some ==> name@ == halves.0@ + seq!['.'] + halves.1->0@,
        halves.1 is None ==> name@ == halves.0@,
{
    let at = last_position(name@, '.');
    lemma_bounds(name@, '.');
    if at > 0 {
        assert(name@ == name@.take(at) + seq!['.'] + name@.skip(at + 1));
    }
}

/// The last place of a character holds it.
proof fn lemma_bounds(s: Seq<char>, c: char)
    ensures
        -1 <= last_position(s, c) < s.len(),
        last_position(s, c) >= 0 ==> s[last_position(s, c)] == c,
    decreases s.len(),
{
    if s.len() > 0 && s.last() != c {
        lemma_bounds(s.drop_last(), c);
    }
}

// ---------------------------------------------------------------------------
// Paths
// ---------------------------------------------------------------------------

/// A path has a file name if its last component is a name: that name, of which
/// its extension and its stem are parts.
pub proof fn law_path_names(
    path: &FilePath,
    name: Option<&String>,
    or_empty: String,
    ext: Option<String>,
    stem: Option<String>,
)
    requires
        call_ensures(FilePath::file_name, (path,), name),
        call_ensures(FilePath::name, (path,), or_empty),
        call_ensures(FilePath::extension, (path,), ext),
        call_ensures(FilePath::file_stem, (path,), stem),
    ensures
        ({
            let parts = path@.parts;
            &&& name is Some <==> parts.len() > 0 && parts[parts.len() - 1] is Normal
            &&& name is Some ==> parts[parts.len() - 1] == PartView::Normal(name->0@)
        }),
        name is Some ==> or_empty@ == name->0@ && text_opt(ext) == ext_of(name->0@) && stem is Some
            && stem->0@ == stem_of(name->0@),
        name is None ==> or_empty@.len() == 0 && ext is None && stem is None,
{
}

/// A path with another extension differs in its file name alone, and in that
/// behind the stem alone.
pub proof fn law_path_renamed(
    path: &FilePath,
    ext: &str,
    out: FilePath,
    head: Seq<char>,
    name: Seq<char>,
)
    requires
        is_extension(ext@),
        call_ensures(FilePath::with_extension, (path, ext), out),
        path@.file_name() == Some(name),
        path.text@ == head + name,
    ensures
        out.text@ == head + stem_of(name) + seq!['.'] + ext@,
        out@.parts == path@.parts.drop_last().push(
            PartView::Normal(stem_of(name) + seq!['.'] + ext@),
        ),
        out@.parent == path@.parent,
        out@.above == path@.above,
{
    reveal_strlit(".");
    assert("."@ == seq!['.']);
    let text = head + name;
    assert(text.subrange(head.len() as int, text.len() as int) == name);
    assert(occurs_at(text, name, text.len() - name.len()));
    assert(find_last(text, name) == head.len());
    assert(text.take(head.len() as int) == head);
    assert(head + (stem_of(name) + seq!['.'] + ext@) == head + stem_of(name) + seq!['.'] + ext@);
}

/// What stands behind the last place of the file name in the text of a path,
/// such as a slash, is left out when the extension changes.
pub proof fn law_path_renamed_inside(
    path: &FilePath,
    ext: &str,
    out: FilePath,
    name: Seq<char>,
    at: int,
)
    requires
        is_extension(ext@),
        call_ensures(FilePath::with_extension, (path, ext), out),
        path@.file_name() == Some(name),
        0 <= at,
        at + name.len() <= path.text@.len(),
        path.text@.subrange(at, at + name.len()) == name,
        forall|i: int|
            at < i && i + name.len() <= path.text@.len() ==> #[trigger] path.text@.subrange(
                i,
                i + name.len(),
            ) != name,
    ensures
        out.text@ == path.text@.take(at) + stem_of(name) + seq!['.'] + ext@,
{
    reveal_strlit(".");
    assert("."@ == seq!['.']);
    lemma_find_last(path.text@, name, at);
    assert(path.text@.take(at) + (stem_of(name) + seq!['.'] + ext@) == path.text@.take(at)
        + stem_of(name) + seq!['.'] + ext@);
}

/// The last place of a text in another.
proof fn lemma_find_last(s: Seq<char>, pat: Seq<char>, at: int)
    requires
        0 <= at,
        at + pat.len() <= s.len(),
        s.subrange(at, at + pat.len()) == pat,
        forall|i: int|
            at < i && i + pat.len() <= s.len() ==> #[trigger] s.subrange(i, i + pat.len()) != pat,
    ensures
        find_last(s, pat) == at,
    decreases s.len(),
{
    let end = s.len() - pat.len();
    if at < end {
        assert(s.subrange(end, end + pat.len()) != pat);
        assert(!occurs_at(s, pat, end));
        let t = s.drop_last();
        assert(t.subrange(at, at + pat.len()) == s.subrange(at, at + pat.len()));
        assert forall|i: int| at < i && i + pat.len() <= t.len() implies #[trigger] t.subrange(
            i,
            i + pat.len(),
        ) != pat by {
            assert(t.subrange(i, i + pat.len()) == s.subrange(i, i + pat.len()));
        }
        lemma_find_last(t, pat, at);
    } else {
        assert(occurs_at(s, pat, end));
    }
}

/// A path without a file name cannot be given an extension.
pub proof fn law_nothing_renamed(path: &FilePath, ext: &str, out: FilePath)
    requires
        is_extension(ext@),
        call_ensures(FilePath::with_extension, (path, ext), out),
        path@.file_name() is None,
    ensures
        out@ == path@,
{
}

/// Two paths are the same exactly if they have the same components. They have
/// the same parent if all but the last are the same, or both have none; the
/// parent of a path is a directory if that has all components but the last. A
/// root and a prefix lie in no directory, and neither does nothing.
pub proof fn law_paths_compared(
    a: &FilePath,
    b: &FilePath,
    same: bool,
    siblings: bool,
    inside: bool,
    below: bool,
)
    requires
        call_ensures(FilePath::same, (a, b), same),
        call_ensures(FilePath::same_parent, (a, b), siblings),
        call_ensures(FilePath::parent_is, (a, b), inside),
        call_ensures(FilePath::is_below, (a,), below),
    ensures
        ({
            let lies = |p: PathView|
                p.parts.len() > 0 && !(p.parts[p.parts.len() - 1] is RootDir) && !(p.parts[
                p.parts.len() - 1] is Prefix);
            &&& same <==> a@.parts == b@.parts
            &&& below <==> lies(a@)
            &&& siblings <==> (lies(a@) <==> lies(b@)) && (lies(a@) ==> a@.parts.drop_last()
                == b@.parts.drop_last())
            &&& inside <==> lies(a@) && a@.parts.drop_last() == b@.parts
        }),
{
}

/// The directory that a path lies in has its text, all components but the last,
/// and lies in what lies above.
pub proof fn law_parent_path(path: &FilePath, dir: Option<FilePath>)
    requires
        call_ensures(FilePath::parent_path, (path,), dir),
    ensures
        dir is Some <==> path.parent is Some,
        dir is Some ==> {
            &&& dir->0.text@ == path.parent->0@
            &&& path@.parts.len() > 0 ==> dir->0@.parts == path@.parts.drop_last()
            &&& dir->0.parent is Some <==> path.above@.len() > 0
            &&& path.above@.len() > 0 ==> dir->0.parent->0@ == path.above@[0]@ && texts(
                dir->0.above@,
            ) == texts(path.above@).skip(1)
        },
{
    assert(path@.above.len() == path.above@.len());
}

/// A copy of a path is the same path.
pub proof fn law_path_copied(path: &Option<FilePath>, out: Option<FilePath>)
    requires
        call_ensures(copy_path_opt, (path,), out),
    ensures
        path_opt(out) == path_opt(*path),
{
}

/// Names with slashes between them, behind a slash or not, are read as those
/// names: the path has them as components, and its parent is all of them but
/// the last.
pub proof fn law_path_read(text: String, names: Seq<Seq<char>>, path: FilePath)
    requires
        call_ensures(FilePath::new, (text,), path),
        forall|i: int|
            0 <= i < names.len() ==> {
                let n = #[trigger] names[i];
                n.len() > 0 && n != seq!['.'] && n != seq!['.', '.'] && !n.contains('/')
                    && !n.contains('\\') && !n.contains(':')
            },
    ensures
        path.text@ == text@,
        text@ == join_of(names, seq!['/']) ==> ({
            &&& path@.parts == names.map_values(|n: Seq<char>| PartView::Normal(n))
            &&& names.len() == 0 ==> path.parent is None
            &&& names.len() > 0 ==> path.parent is Some && path.parent->0@ == join_of(
                names.drop_last(),
                seq!['/'],
            )
        }),
        text@ == seq!['/'] + join_of(names, seq!['/']) ==> ({
            &&& path@.parts == seq![PartView::RootDir] + names.map_values(
                |n: Seq<char>| PartView::Normal(n),
            )
            &&& names.len() == 0 ==> path.parent is None
            &&& names.len() > 0 ==> path.parent is Some && path.parent->0@ == seq!['/'] + join_of(
                names.drop_last(),
                seq!['/'],
            )
        }),
{
    reveal_strlit("/");
    assert("/"@ == seq!['/']);
    reveal_strlit(".");
    assert("."@ == seq!['.']);
    reveal_strlit("..");
    assert(".."@ == seq!['.', '.']);
    assert(all_plain(names));
    assert(slashed(names) == join_of(names, seq!['/']));
    assert(name_parts(names) == names.map_values(|n: Seq<char>| PartView::Normal(n)));
    assert(path@.parent == text_opt(path.parent));
}

/// Above a path of names lie all its beginnings, the longest first.
pub proof fn law_path_above(text: String, names: Seq<Seq<char>>, path: FilePath, i: int)
    requires
        call_ensures(FilePath::new, (text,), path),
        forall|k: int|
            0 <= k < names.len() ==> {
                let n = #[trigger] names[k];
                n.len() > 0 && n != seq!['.'] && n != seq!['.', '.'] && !n.contains('/')
                    && !n.contains('\\') && !n.contains(':')
            },
        names.len() > 0,
        text@ == join_of(names, seq!['/']),
        0 <= i < names.len() - 1,
    ensures
        path.above@.len() == names.len() - 1,
        path.above@[i]@ == join_of(names.take(names.len() - 2 - i), seq!['/']),
{
    reveal_strlit("/");
    assert("/"@ == seq!['/']);
    reveal_strlit(".");
    assert("."@ == seq!['.']);
    reveal_strlit("..");
    assert(".."@ == seq!['.', '.']);
    assert(all_plain(names));
    assert(slashed(names) == join_of(names, seq!['/']));
    let all = path@.ancestors();
    lemma_ancestors(text@, names, all, names.len() as int);
    lemma_ancestors(text@, names, all, i + 2);
    assert(path@.parent is Some) by {
        if path@.parent is None {
            assert(all.len() == 0);
        }
    }
    assert(all[i + 1] == path@.above[i]);
    assert(path@.above[i] == path.above@[i]@);
}

/// The ancestors of a path of names.
proof fn lemma_ancestors(
    text: Seq<char>,
    names: Seq<Seq<char>>,
    ancestors: Seq<Seq<char>>,
    i: int,
)
    requires
        all_plain(names),
        text == slashed(names),
        ancestors_known(text, ancestors),
        0 <= i <= names.len(),
    ensures
        ancestors.len() >= i,
        below(text, ancestors, i) == slashed(names.take(names.len() - i)),
        i == names.len() ==> ancestors.len() == i,
    decreases i,
{
    assert(names.take(names.len() as int) == names);
    if i > 0 {
        lemma_ancestors(text, names, ancestors, i - 1);
        let longer = names.take(names.len() - (i - 1));
        lemma_plain_take(names, names.len() - (i - 1));
        assert(below(text, ancestors, i - 1) == slashed(longer));
        assert(longer.drop_last() == names.take(names.len() - i));
    }
    if i == names.len() {
        let none = names.take(0);
        lemma_plain_take(names, 0);
        assert(below(text, ancestors, i) == slashed(none));
        if ancestors.len() > i {
            assert(parent_known(below(text, ancestors, i), Some(ancestors[i])));
        }
    }
}

/// The first of plain names are plain.
proof fn lemma_plain_take(names: Seq<Seq<char>>, n: int)
    requires
        all_plain(names),
        0 <= n <= names.len(),
    ensures
        all_plain(names.take(n)),
{
    assert forall|i: int| 0 <= i < n implies is_plain(#[trigger] names.take(n)[i]) by {
        assert(names[i] == names.take(n)[i]);
    }
}

} // verus!
