//! The icon file of the program: pictures of several sizes in one ICO file.

use crate::config::string_list;
use crate::pattern::{replace, replace_of};
use crate::picture::{decoded, scaled_png, scaled_to_png};
use crate::text::texts;
use vstd::prelude::*;

verus! {

/// A picture of an icon: a square of that many pixels, as a PNG file.
#[derive(Debug)]
pub struct Picture {
    pub size: u32,
    pub png: Vec<u8>,
}

/// A picture of an icon as a value.
pub struct PictureView {
    pub size: nat,
    pub png: Seq<u8>,
}

impl View for Picture {
    type V = PictureView;

    open spec fn view(&self) -> PictureView {
        PictureView { size: self.size as nat, png: self.png@ }
    }
}

/// The pictures of a list as values.
pub open spec fn pictures_view(list: Seq<Picture>) -> Seq<PictureView> {
    list.map_values(|p: Picture| p@)
}

/// A number in two bytes, the lower one first.
pub open spec fn two_bytes(n: nat) -> Seq<u8> {
    seq![(n % 256) as u8, (n / 256 % 256) as u8]
}

/// A number in four bytes, the lowest one first.
pub open spec fn four_bytes(n: nat) -> Seq<u8> {
    seq![
        (n % 256) as u8,
        (n / 256 % 256) as u8,
        (n / 65536 % 256) as u8,
        (n / 16777216 % 256) as u8,
    ]
}

/// The number that stands in four bytes at a place.
pub open spec fn four_bytes_at(file: Seq<u8>, at: int) -> nat {
    (file[at] + 256 * file[at + 1] + 65536 * file[at + 2] + 16777216 * file[at + 3]) as nat
}

/// The data of the pictures, one after the other.
pub open spec fn picture_data(list: Seq<PictureView>) -> Seq<u8>
    decreases list.len(),
{
    if list.len() == 0 {
        Seq::empty()
    } else {
        picture_data(list.drop_last()) + list.last().png
    }
}

/// Where the data of the picture with that index begins: behind the header,
/// the directory and the data of the pictures before it.
pub open spec fn data_start(list: Seq<PictureView>, k: int) -> nat {
    6 + 16 * list.len() + picture_data(list.take(k)).len()
}

/// The side of a picture in one byte: 256 pixels are written as 0.
pub open spec fn side(size: nat) -> u8 {
    if size == 256 {
        0
    } else {
        size as u8
    }
}

/// The directory entry of the picture with that index: its sides, no palette,
/// one plane of 32 bits, its length and its place.
pub open spec fn directory_entry(list: Seq<PictureView>, k: int) -> Seq<u8> {
    seq![side(list[k].size), side(list[k].size), 0u8, 0u8] + two_bytes(1) + two_bytes(32)
        + four_bytes(list[k].png.len()) + four_bytes(data_start(list, k))
}

/// The first entries of the directory.
pub open spec fn directory(list: Seq<PictureView>, n: nat) -> Seq<u8>
    decreases n,
{
    if n == 0 {
        Seq::empty()
    } else {
        directory(list, (n - 1) as nat) + directory_entry(list, n - 1)
    }
}

/// The icon file of the pictures.
pub open spec fn icon_file(list: Seq<PictureView>) -> Seq<u8> {
    two_bytes(0) + two_bytes(1) + two_bytes(list.len()) + directory(list, list.len())
        + picture_data(list)
}

/// Whether the pictures fit into an icon file.
pub open spec fn fits(list: Seq<PictureView>) -> bool {
    &&& list.len() <= 0xffff
    &&& icon_file(list).len() <= 0xffff_ffff
    &&& forall|k: int| 0 <= k < list.len() ==> (#[trigger] list[k]).size <= 256
}

/// Appends a number in two bytes.
fn push_two_bytes(out: &mut Vec<u8>, n: u16)
    ensures
        final(out)@ == old(out)@ + two_bytes(n as nat),
{
    out.push((n % 256) as u8);
    out.push((n / 256) as u8);
    assert(out@ == old(out)@ + two_bytes(n as nat));
}

/// Appends a number in four bytes.
fn push_four_bytes(out: &mut Vec<u8>, n: u32)
    ensures
        final(out)@ == old(out)@ + four_bytes(n as nat),
{
    out.push((n % 256) as u8);
    out.push((n / 256 % 256) as u8);
    out.push((n / 65536 % 256) as u8);
    out.push((n / 16777216) as u8);
    assert(out@ == old(out)@ + four_bytes(n as nat));
}

/// Appends bytes.
fn push_bytes(out: &mut Vec<u8>, bytes: &Vec<u8>)
    ensures
        final(out)@ == old(out)@ + bytes@,
{
    let ghost start = out@;
    for i in 0..bytes.len()
        invariant
            out@ == start + bytes@.take(i as int),
    {
        out.push(bytes[i]);
        assert(bytes@.take(i + 1) == bytes@.take(i as int).push(bytes@[i as int]));
    }
    assert(bytes@.take(bytes@.len() as int) == bytes@);
}

/// The directory has sixteen bytes for each entry.
pub proof fn lemma_directory_len(list: Seq<PictureView>, n: nat)
    ensures
        directory(list, n).len() == 16 * n,
    decreases n,
{
    if n > 0 {
        lemma_directory_len(list, (n - 1) as nat);
    }
}

/// The data of some of the pictures is no longer than that of all, and that
/// of the next one follows it.
pub proof fn lemma_data(list: Seq<PictureView>, k: int)
    requires
        0 <= k < list.len(),
    ensures
        picture_data(list.take(k + 1)) == picture_data(list.take(k)) + list[k].png,
        picture_data(list.take(k)).len() + list[k].png.len() <= picture_data(list).len(),
        picture_data(list).subrange(
            picture_data(list.take(k)).len() as int,
            (picture_data(list.take(k)).len() + list[k].png.len()) as int,
        ) == list[k].png,
    decreases list.len(),
{
    assert(list.take(k + 1).drop_last() == list.take(k));
    assert(list.take(k + 1).last() == list[k]);
    if k == list.len() - 1 {
        assert(list.take(k + 1) == list);
        assert(picture_data(list).subrange(
            picture_data(list.take(k)).len() as int,
            (picture_data(list.take(k)).len() + list[k].png.len()) as int,
        ) == list[k].png);
    } else {
        let rest = list.drop_last();
        lemma_data(rest, k);
        assert(rest.take(k) == list.take(k));
        assert(rest[k] == list[k]);
        let at = picture_data(list.take(k)).len() as int;
        let end = at + list[k].png.len();
        assert(picture_data(list).subrange(at, end) == picture_data(rest).subrange(at, end));
    }
}

/// The icon file of the pictures.
pub fn write_ico(list: &Vec<Picture>) -> (file: Vec<u8>)
    requires
        fits(pictures_view(list@)),
    ensures
        file@ == icon_file(pictures_view(list@)),
{
    let ghost all = pictures_view(list@);
    let n: usize = list.len();
    assert(all.len() == n);
    proof {
        lemma_directory_len(all, all.len());
    }
    let mut file: Vec<u8> = Vec::new();
    push_two_bytes(&mut file, 0);
    push_two_bytes(&mut file, 1);
    push_two_bytes(&mut file, n as u16);
    let ghost head = two_bytes(0) + two_bytes(1) + two_bytes(n as nat);
    assert(file@ == head);
    let mut offset: u32 = 6 + (n as u32) * 16;
    assert(all.take(0) == Seq::<PictureView>::empty());
    assert(head + directory(all, 0) == head);
    for k in 0..n
        invariant
            n == list@.len(),
            all == pictures_view(list@),
            fits(all),
            icon_file(all).len() == 6 + 16 * n + picture_data(all).len(),
            offset == data_start(all, k as int),
            file@ == head + directory(all, k as nat),
    {
        proof {
            lemma_data(all, k as int);
            assert(all[k as int] == list@[k as int]@);
        }
        let ghost before = file@;
        let size: u32 = list[k].size;
        let len: u32 = list[k].png.len() as u32;
        let b: u8 = if size == 256 {
            0
        } else {
            size as u8
        };
        file.push(b);
        file.push(b);
        file.push(0);
        file.push(0);
        push_two_bytes(&mut file, 1);
        push_two_bytes(&mut file, 32);
        push_four_bytes(&mut file, len);
        push_four_bytes(&mut file, offset);
        assert(file@ == before + directory_entry(all, k as int));
        assert(file@ == head + (directory(all, k as nat) + directory_entry(all, k as int)));
        offset = offset + len;
    }
    let ghost front = file@;
    assert(front + picture_data(all.take(0)) == front);
    for k in 0..n
        invariant
            n == list@.len(),
            all == pictures_view(list@),
            file@ == front + picture_data(all.take(k as int)),
    {
        proof {
            lemma_data(all, k as int);
        }
        push_bytes(&mut file, &list[k].png);
        assert(file@ == front + (picture_data(all.take(k as int)) + all[k as int].png));
    }
    assert(all.take(n as int) == all);
    file
}

/// Four bytes hold every number that fits into them.
pub proof fn lemma_four_bytes(n: nat)
    requires
        n <= 0xffff_ffff,
    ensures
        four_bytes_at(four_bytes(n), 0) == n,
{
    let a = n / 256;
    let b = n / 65536;
    let c = n / 16777216;
    assert(n == 256 * a + n % 256);
    assert(a == 256 * b + a % 256);
    assert(b == 256 * c + b % 256);
}

/// The entry of a picture stands in the directory at its place.
pub proof fn lemma_entry(list: Seq<PictureView>, n: nat, k: int)
    requires
        0 <= k < n,
    ensures
        directory(list, n).subrange(16 * k, 16 * k + 16) == directory_entry(list, k),
    decreases n,
{
    lemma_directory_len(list, n);
    lemma_directory_len(list, (n - 1) as nat);
    if k == n - 1 {
        assert(directory(list, n).subrange(16 * k, 16 * k + 16) == directory_entry(list, k));
    } else {
        lemma_entry(list, (n - 1) as nat, k);
        assert(directory(list, n).subrange(16 * k, 16 * k + 16) == directory(
            list,
            (n - 1) as nat,
        ).subrange(16 * k, 16 * k + 16));
    }
}

/// Whoever reads an icon file finds each picture again: where its directory
/// entry says, and as long as it says, stands its PNG file.
pub proof fn law_pictures_found(list: Seq<PictureView>, k: int)
    requires
        fits(list),
        0 <= k < list.len(),
    ensures
        ({
            let file = icon_file(list);
            let len = four_bytes_at(file, 6 + 16 * k + 8);
            let at = four_bytes_at(file, 6 + 16 * k + 12);
            &&& at + len <= file.len()
            &&& file.subrange(at as int, (at + len) as int) == list[k].png
        }),
{
    let file = icon_file(list);
    let head = two_bytes(0) + two_bytes(1) + two_bytes(list.len());
    let dir = directory(list, list.len());
    let entry = directory_entry(list, k);
    lemma_directory_len(list, list.len());
    lemma_entry(list, list.len(), k);
    lemma_data(list, k);
    assert(file.subrange(6 + 16 * k, 6 + 16 * k + 16) == entry) by {
        assert(file.subrange(6 + 16 * k, 6 + 16 * k + 16) == dir.subrange(16 * k, 16 * k + 16));
    }
    assert forall|i: int| 0 <= i < 16 implies file[6 + 16 * k + i] == entry[i] by {
        assert(file.subrange(6 + 16 * k, 6 + 16 * k + 16)[i] == file[6 + 16 * k + i]);
    }
    let len = list[k].png.len();
    let at = data_start(list, k);
    lemma_four_bytes(len);
    lemma_four_bytes(at);
    assert(four_bytes_at(file, 6 + 16 * k + 8) == len) by {
        assert(entry[8] == four_bytes(len)[0]);
        assert(entry[9] == four_bytes(len)[1]);
        assert(entry[10] == four_bytes(len)[2]);
        assert(entry[11] == four_bytes(len)[3]);
        assert(file[6 + 16 * k + 8] == entry[8]);
        assert(file[6 + 16 * k + 9] == entry[9]);
        assert(file[6 + 16 * k + 10] == entry[10]);
        assert(file[6 + 16 * k + 11] == entry[11]);
    }
    assert(four_bytes_at(file, 6 + 16 * k + 12) == at) by {
        assert(entry[12] == four_bytes(at)[0]);
        assert(entry[13] == four_bytes(at)[1]);
        assert(entry[14] == four_bytes(at)[2]);
        assert(entry[15] == four_bytes(at)[3]);
        assert(file[6 + 16 * k + 12] == entry[12]);
        assert(file[6 + 16 * k + 13] == entry[13]);
        assert(file[6 + 16 * k + 14] == entry[14]);
        assert(file[6 + 16 * k + 15] == entry[15]);
    }
    let start = 6 + 16 * list.len();
    let data = picture_data(list);
    assert(file.subrange(at as int, (at + len) as int) == data.subrange(at - start, at + len - start));
}

// ---------------------------------------------------------------------------
// Making the icon of the program
// ---------------------------------------------------------------------------

/// The sizes of the pictures in the icon of the program.
pub open spec fn size_list() -> Seq<u32> {
    seq![16u32, 32u32, 48u32, 256u32]
}

/// The sizes of the pictures in the icon of the program.
pub fn icon_sizes() -> (sizes: Vec<u32>)
    ensures
        sizes@ == size_list(),
{
    vec![16, 32, 48, 256]
}

/// Whether the pictures fit into an icon file.
pub fn fits_in_icon(list: &Vec<Picture>) -> (yes: bool)
    ensures
        yes == fits(pictures_view(list@)),
{
    let ghost all = pictures_view(list@);
    let n: usize = list.len();
    assert(all.len() == n);
    proof {
        lemma_directory_len(all, all.len());
    }
    if n > 0xffff {
        return false;
    }
    let most: u64 = 0xffff_ffff;
    let mut len: u64 = 6 + 16 * (n as u64);
    assert(all.take(0) == Seq::<PictureView>::empty());
    for k in 0..n
        invariant
            n == list@.len(),
            n <= 0xffff,
            most == 0xffff_ffff,
            all == pictures_view(list@),
            icon_file(all).len() == 6 + 16 * n + picture_data(all).len(),
            len == data_start(all, k as int),
            len <= most,
            forall|j: int| 0 <= j < k ==> (#[trigger] all[j]).size <= 256,
    {
        assert(all[k as int] == list@[k as int]@);
        if list[k].size > 256 {
            assert(all[k as int].size > 256);
            return false;
        }
        proof {
            lemma_data(all, k as int);
        }
        if list[k].png.len() as u64 > most - len {
            return false;
        }
        len = len + list[k].png.len() as u64;
    }
    assert(all.take(n as int) == all);
    true
}

/// Whether the pictures are those of a PNG file, scaled to each of the sizes of
/// the icon.
pub open spec fn pictures_of(bytes: Seq<u8>, list: Seq<PictureView>) -> bool {
    &&& list.len() == size_list().len()
    &&& forall|k: int|
        0 <= k < list.len() ==> (#[trigger] list[k]).size == size_list()[k] && scaled_to_png(
            bytes,
            size_list()[k],
            list[k].png,
        )
}

/// The icon file of the program, made of a PNG file: it holds that picture
/// scaled to each of the sizes. There is none exactly if the bytes are not a
/// PNG file that can be read, or the pictures do not fit into an icon file.
pub fn ico_from_png(bytes: &[u8]) -> (file: Option<Vec<u8>>)
    ensures
        match file {
            Some(f) => exists|list: Seq<PictureView>| #[trigger]
                pictures_of(bytes@, list) && fits(list) && f@ == icon_file(list),
            None => decoded(bytes@, "png"@) is None || exists|list: Seq<PictureView>| #[trigger]
                pictures_of(bytes@, list) && !fits(list),
        },
        file is Some ==> decoded(bytes@, "png"@) is Some,
{
    let sizes = icon_sizes();
    let mut list: Vec<Picture> = Vec::new();
    for k in 0..sizes.len()
        invariant
            sizes@ == size_list(),
            list@.len() == k,
            k > 0 ==> decoded(bytes@, "png"@) is Some,
            forall|j: int|
                0 <= j < k ==> (#[trigger] list@[j]).size == size_list()[j] && scaled_to_png(
                    bytes@,
                    size_list()[j],
                    list@[j].png@,
                ),
    {
        let size: u32 = sizes[k];
        assert(1 <= size <= 256);
        match scaled_png(bytes, size) {
            Some(png) => list.push(Picture { size, png }),
            None => return None,
        }
    }
    let ghost all = pictures_view(list@);
    assert(pictures_of(bytes@, all)) by {
        assert forall|k: int| 0 <= k < all.len() implies (#[trigger] all[k]).size == size_list()[k]
            && scaled_to_png(bytes@, size_list()[k], all[k].png) by {
            assert(all[k] == list@[k]@);
        }
    }
    if fits_in_icon(&list) {
        Some(write_ico(&list))
    } else {
        None
    }
}

/// Whoever reads the icon of the program finds, for each of its sizes, a PNG
/// file of a picture that fills that size.
pub proof fn law_icon_holds_pictures(bytes: Seq<u8>, list: Seq<PictureView>, k: int)
    requires
        pictures_of(bytes, list),
        fits(list),
        0 <= k < list.len(),
    ensures
        ({
            let file = icon_file(list);
            let len = four_bytes_at(file, 6 + 16 * k + 8);
            let at = four_bytes_at(file, 6 + 16 * k + 12);
            let png = file.subrange(at as int, (at + len) as int);
            decoded(png, "png"@) matches Some(p) && p.fills(size_list()[k] as nat)
        }),
{
    law_pictures_found(list, k);
    assert(scaled_to_png(bytes, size_list()[k], list[k].png));
}

/// The script that has the resource compiler take in the icon file.
pub fn resource_script(icon: &str) -> (script: String)
    ensures
        script@ == "1 ICON \""@ + replace_of(icon@, "\\"@, "/"@) + "\"\n"@,
{
    proof {
        reveal_strlit("\\");
    }
    let mut script = "1 ICON \"".to_string();
    script.append(replace(icon, "\\", "/").as_str());
    script.append("\"\n");
    script
}

/// The arguments of the resource compiler that make `res` of the script `rc`.
pub fn windres_args(rc: &str, res: &str) -> (args: Vec<String>)
    ensures
        texts(args@) == seq!["-i"@, rc@, "-O"@, "res"@, "-o"@, res@],
{
    let args = string_list(vec!["-i", rc, "-O", "res", "-o", res]);
    assert(texts(args@) == seq!["-i"@, rc@, "-O"@, "res"@, "-o"@, res@]);
    args
}

} // verus!
