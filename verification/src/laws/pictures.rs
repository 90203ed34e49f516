//! What is in the icons, and which pictures are shown.

use crate::icon::{
    directory, fits, fits_in_icon, four_bytes_at, ico_from_png, icon_file, icon_sizes,
    law_icon_holds_pictures, law_pictures_found, lemma_data, lemma_directory_len, lemma_entry,
    lemma_four_bytes, picture_data, pictures_of, pictures_view, resource_script, size_list,
    windres_args, write_ico, Picture, PictureView,
};
use crate::laws::texts::lemma_last_run_together;
use crate::pattern::{find, lemma_find, occurs_at, replace_of};
use crate::picture::{
    decoded, load_color_image, load_png_icon, may_scale_to, pixels_opt, recognised, CoverFile,
    Pixels,
};
use crate::text::texts;
use vstd::prelude::*;

verus! {

// ---------------------------------------------------------------------------
// The icon file
// ---------------------------------------------------------------------------

/// The data of pictures, one after the other.
pub open spec fn pngs(list: Seq<PictureView>) -> Seq<u8> {
    list.map_values(|p: PictureView| p.png).flatten()
}

/// Pictures fit into an icon file exactly if there are not too many to count,
/// none is larger than 256 pixels, and all bytes of the file can be counted in
/// 32 bits.
pub proof fn law_fits(list: &Vec<Picture>, yes: bool)
    requires
        call_ensures(fits_in_icon, (list,), yes),
    ensures
        yes <==> list@.len() <= 65535 && (forall|k: int|
            0 <= k < list@.len() ==> (#[trigger] list@[k]).size <= 256) && 6 + 16 * list@.len()
            + pngs(pictures_view(list@)).len() < 4294967296,
{
    let all = pictures_view(list@);
    assert(all.len() == list@.len());
    lemma_sizes(all);
    assert forall|k: int| 0 <= k < all.len() implies #[trigger] all[k] == list@[k]@ by {}
    if forall|k: int| 0 <= k < all.len() ==> (#[trigger] all[k]).size <= 256 {
        assert forall|k: int| 0 <= k < list@.len() implies (#[trigger] list@[k]).size <= 256 by {
            assert(all[k].size <= 256);
        }
    }
    if forall|k: int| 0 <= k < list@.len() ==> (#[trigger] list@[k]).size <= 256 {
        assert forall|k: int| 0 <= k < all.len() implies (#[trigger] all[k]).size <= 256 by {
            assert(list@[k].size <= 256);
        }
    }
}

/// The directory has sixteen bytes for each picture, and the data is that of
/// all pictures.
proof fn lemma_sizes(list: Seq<PictureView>)
    ensures
        directory(list, list.len()).len() == 16 * list.len(),
        picture_data(list) == pngs(list),
{
    lemma_directory_len(list, list.len());
    lemma_data_run_together(list);
}

/// The data of pictures is run together.
proof fn lemma_data_run_together(list: Seq<PictureView>)
    ensures
        picture_data(list) == pngs(list),
    decreases list.len(),
{
    let png = |p: PictureView| p.png;
    let all = list.map_values(png);
    if list.len() == 0 {
        assert(all.flatten() == Seq::<u8>::empty());
    } else {
        lemma_data_run_together(list.drop_last());
        assert(list.drop_last().map_values(png) == all.drop_last());
        assert(all.last() == list.last().png);
        lemma_last_run_together(all);
    }
}

/// The number that four bytes of a file hold, the lowest first.
pub open spec fn number_at(file: Seq<u8>, at: int) -> int {
    file[at] + 256 * file[at + 1] + 65536 * file[at + 2] + 16777216 * file[at + 3]
}

/// An icon file says that it is one, and how many pictures it has. The entry of
/// each tells its sides, 256 as 0, one plane of 32 bits and no palette, how
/// long its data is and where it stands; and there it stands. The data of all
/// pictures is what follows the entries.
pub proof fn law_icon_written(list: &Vec<Picture>, file: Vec<u8>, k: int)
    requires
        call_ensures(fits_in_icon, (list,), true),
        call_ensures(write_ico, (list,), file),
    ensures
        file@.len() >= 6 + 16 * list@.len(),
        file@[0] == 0 && file@[1] == 0 && file@[2] == 1 && file@[3] == 0,
        file@[4] + 256 * file@[5] == list@.len(),
        file@.skip((6 + 16 * list@.len()) as int) == pngs(pictures_view(list@)),
        0 <= k < list@.len() ==> ({
            let entry = 6 + 16 * k;
            let size = list@[k].size;
            let len = number_at(file@, entry + 8);
            let at = number_at(file@, entry + 12);
            &&& file@[entry] == (if size == 256 {
                0
            } else {
                size as int
            })
            &&& file@[entry + 1] == file@[entry]
            &&& file@[entry + 2] == 0 && file@[entry + 3] == 0
            &&& file@[entry + 4] == 1 && file@[entry + 5] == 0
            &&& file@[entry + 6] == 32 && file@[entry + 7] == 0
            &&& len == list@[k].png@.len()
            &&& at >= 6 + 16 * list@.len()
            &&& at + len <= file@.len()
            &&& file@.subrange(at, at + len) == list@[k].png@
        }),
{
    let all = pictures_view(list@);
    assert(all.len() == list@.len());
    assert(fits(all));
    lemma_sizes(all);
    let n = all.len();
    assert(file@ == icon_file(all));
    assert(file@.skip((6 + 16 * n) as int) == picture_data(all));
    lemma_count(n);
    if 0 <= k < n {
        assert(all[k] == list@[k]@);
        law_pictures_found(all, k);
        lemma_entry_at(all, k);
        assert(all[k].size <= 256);
    }
}

/// Two bytes hold every count that fits into them.
proof fn lemma_count(n: nat)
    requires
        n <= 65535,
    ensures
        ((n % 256) as u8) + 256 * ((n / 256 % 256) as u8) == n,
{
}

/// The bytes of an entry.
proof fn lemma_entry_at(list: Seq<PictureView>, k: int)
    requires
        fits(list),
        0 <= k < list.len(),
    ensures
        ({
            let file = icon_file(list);
            let entry = 6 + 16 * k;
            let size = list[k].size;
            &&& file[entry] == (if size == 256 {
                0
            } else {
                size as int
            })
            &&& file[entry + 1] == file[entry]
            &&& file[entry + 2] == 0 && file[entry + 3] == 0
            &&& file[entry + 4] == 1 && file[entry + 5] == 0
            &&& file[entry + 6] == 32 && file[entry + 7] == 0
            &&& four_bytes_at(file, entry + 8) == list[k].png.len()
            &&& four_bytes_at(file, entry + 12) >= 6 + 16 * list.len()
        }),
{
    let file = icon_file(list);
    let dir = directory(list, list.len());
    let wanted = crate::icon::directory_entry(list, k);
    lemma_sizes(list);
    lemma_entry(list, list.len(), k);
    assert forall|i: int| 0 <= i < 16 implies file[6 + 16 * k + i] == #[trigger] wanted[i] by {
        assert(dir.subrange(16 * k, 16 * k + 16)[i] == dir[16 * k + i]);
        assert(file[6 + 16 * k + i] == dir[16 * k + i]);
    }
    let len = list[k].png.len();
    let at = crate::icon::data_start(list, k);
    lemma_data(list, k);
    lemma_four_bytes(len);
    lemma_four_bytes(at);
    assert(wanted[0] == crate::icon::side(list[k].size));
    assert(wanted[1] == crate::icon::side(list[k].size));
    assert(wanted[2] == 0 && wanted[3] == 0);
    assert(wanted[4] == 1 && wanted[5] == 0 && wanted[6] == 32 && wanted[7] == 0);
    let a = crate::icon::four_bytes(len);
    let b = crate::icon::four_bytes(at);
    assert(wanted[8] == a[0] && wanted[9] == a[1] && wanted[10] == a[2] && wanted[11] == a[3]);
    assert(wanted[12] == b[0] && wanted[13] == b[1] && wanted[14] == b[2] && wanted[15] == b[3]);
    assert(list[k].size <= 256);
}

/// The icon of the program has four pictures, of 16, 32, 48 and 256 pixels:
/// each is a PNG file of a picture that fills its size. There is one only for
/// bytes that can be read as a PNG file.
pub proof fn law_icon_of_program(bytes: &[u8], file: Vec<u8>, k: int)
    requires
        call_ensures(ico_from_png, (bytes,), Some(file)),
        0 <= k < 4,
    ensures
        decoded(bytes@, "png"@) is Some,
        file@[4] == 4 && file@[5] == 0,
        ({
            let size = seq![16int, 32, 48, 256][k];
            let len = number_at(file@, 6 + 16 * k + 8);
            let at = number_at(file@, 6 + 16 * k + 12);
            let picture = decoded(file@.subrange(at, at + len), "png"@);
            &&& file@[6 + 16 * k] == size % 256
            &&& at + len <= file@.len()
            &&& picture is Some
            &&& 1 <= (picture->0).width <= size && 1 <= (picture->0).height <= size
            &&& (picture->0).width == size || (picture->0).height == size
        }),
{
    let list = choose|list: Seq<PictureView>| #[trigger]
        pictures_of(bytes@, list) && fits(list) && file@ == icon_file(list);
    lemma_program_header(list);
    lemma_program_picture(bytes@, list, k);
}

/// The header of the icon of the program.
proof fn lemma_program_header(list: Seq<PictureView>)
    requires
        list.len() == 4,
    ensures
        icon_file(list)[4] == 4 && icon_file(list)[5] == 0,
{
    assert(crate::icon::two_bytes(4) == seq![4u8, 0u8]);
}

/// A picture of the icon of the program.
proof fn lemma_program_picture(bytes: Seq<u8>, list: Seq<PictureView>, k: int)
    requires
        pictures_of(bytes, list),
        fits(list),
        0 <= k < 4,
    ensures
        ({
            let file = icon_file(list);
            let size = seq![16int, 32, 48, 256][k];
            let len = number_at(file, 6 + 16 * k + 8);
            let at = number_at(file, 6 + 16 * k + 12);
            let picture = decoded(file.subrange(at, at + len), "png"@);
            &&& file[6 + 16 * k] == size % 256
            &&& at + len <= file.len()
            &&& picture is Some
            &&& 1 <= (picture->0).width <= size && 1 <= (picture->0).height <= size
            &&& (picture->0).width == size || (picture->0).height == size
        }),
{
    let file = icon_file(list);
    law_icon_holds_pictures(bytes, list, k);
    law_pictures_found(list, k);
    assert(list[k].size == size_list()[k]);
    lemma_side_at(list, k);
    assert(four_bytes_at(file, 6 + 16 * k + 8) == number_at(file, 6 + 16 * k + 8));
    assert(four_bytes_at(file, 6 + 16 * k + 12) == number_at(file, 6 + 16 * k + 12));
    assert(size_list()[k] == seq![16int, 32, 48, 256][k]);
}

/// The first byte of an entry.
proof fn lemma_side_at(list: Seq<PictureView>, k: int)
    requires
        fits(list),
        0 <= k < list.len(),
    ensures
        icon_file(list)[6 + 16 * k] == list[k].size % 256,
{
    lemma_entry_at(list, k);
    assert(list[k].size <= 256);
}

/// Bytes that can be read as a PNG file make an icon, unless their pictures in
/// the four sizes are too long for one.
pub proof fn law_no_icon(bytes: &[u8])
    requires
        call_ensures(ico_from_png, (bytes,), None),
        decoded(bytes@, "png"@) is Some,
    ensures
        exists|list: Seq<PictureView>| #[trigger]
            pictures_of(bytes@, list) && list.len() == 4 && 6 + 16 * 4 + pngs(list).len()
                >= 4294967296,
{
    let list = choose|list: Seq<PictureView>| #[trigger]
        pictures_of(bytes@, list) && !fits(list);
    lemma_sizes(list);
    assert(list.len() == 4);
    assert forall|k: int| 0 <= k < list.len() implies (#[trigger] list[k]).size <= 256 by {
        assert(list[k].size == size_list()[k]);
    }
    assert(pngs(list).len() == picture_data(list).len());
}

/// The sizes are those four, in that order.
pub proof fn law_icon_sizes(sizes: Vec<u32>)
    requires
        call_ensures(icon_sizes, (), sizes),
    ensures
        sizes@ == seq![16u32, 32, 48, 256],
{
}

/// The script names the icon file with slashes for its backslashes.
pub proof fn law_resource_script(icon: &str, script: String)
    requires
        call_ensures(resource_script, (icon,), script),
    ensures
        script@ == "1 ICON \""@ + icon@.map_values(
            |c: char|
                if c == '\\' {
                    '/'
                } else {
                    c
                },
        ) + "\"\n"@,
{
    lemma_slashes(icon@);
}

/// Replacing backslashes goes through a text character by character.
proof fn lemma_slashes(s: Seq<char>)
    ensures
        replace_of(s, "\\"@, "/"@) == s.map_values(
            |c: char|
                if c == '\\' {
                    '/'
                } else {
                    c
                },
        ),
    decreases s.len(),
{
    let pat = "\\"@;
    let with = "/"@;
    reveal_strlit("\\");
    reveal_strlit("/");
    assert(pat == seq!['\\']);
    assert(with == seq!['/']);
    let one = |c: char|
        if c == '\\' {
            '/'
        } else {
            c
        };
    if s.len() == 0 {
        assert(find(s, pat) is None);
        assert(s.map_values(one) == s);
    } else {
        let rest = s.skip(1);
        lemma_slashes(rest);
        assert(s.map_values(one) == seq![one(s[0])] + rest.map_values(one));
        if s[0] == '\\' {
            assert(s.subrange(0, 1) == pat);
            assert(occurs_at(s, pat, 0));
            assert(find(s, pat) == Some(0nat));
            assert(replace_of(s, pat, with) == s.take(0) + with + replace_of(rest, pat, with));
        } else {
            assert(s.subrange(0, 1)[0] == s[0]);
            assert(!occurs_at(s, pat, 0));
            match find(rest, pat) {
                Some(i) => {
                    lemma_find(rest, pat);
                    assert(find(s, pat) == Some(i + 1));
                    assert(s.take((i + 1) as int) == seq![s[0]] + rest.take(i as int));
                    assert(s.skip((i + 2) as int) == rest.skip((i + 1) as int));
                    assert(replace_of(s, pat, with) == seq![s[0]] + replace_of(rest, pat, with));
                },
                None => {
                    assert(s == seq![s[0]] + rest);
                },
            }
        }
    }
}

/// The resource compiler reads the script and writes the resource.
pub proof fn law_windres_args(rc: &str, res: &str, args: Vec<String>)
    requires
        call_ensures(windres_args, (rc, res), args),
    ensures
        texts(args@) == seq!["-i"@, rc@, "-O"@, "res"@, "-o"@, res@],
{
}

// ---------------------------------------------------------------------------
// The pictures of the window
// ---------------------------------------------------------------------------

/// The cover that is shown is what the bytes of its file hold as a file of its
/// extension; a file that could not be read or has no extension shows none.
pub proof fn law_cover_shown(cover: &CoverFile, picture: Option<Pixels>)
    requires
        call_ensures(load_color_image, (cover,), picture),
    ensures
        cover.bytes is Some && cover.path@.extension() is Some ==> pixels_opt(picture) == decoded(
            cover.bytes->0@,
            cover.path@.extension()->0,
        ),
        cover.bytes is None || cover.path@.extension() is None ==> picture is None,
        picture is Some ==> picture->0.rgba@.len() == 4 * (picture->0.width * picture->0.height),
{
    if picture is Some {
        let p = picture->0;
        assert(p@.complete());
        assert((p.width as nat) * (p.height as nat) == p.width * p.height);
    }
}

/// The icon of the window fills 64 pixels; there is one exactly if the bytes
/// hold a picture.
pub proof fn law_window_icon(bytes: &[u8], picture: Option<Pixels>)
    requires
        call_ensures(load_png_icon, (bytes,), picture),
    ensures
        picture is Some <==> recognised(bytes@),
        picture is Some ==> may_scale_to(bytes@, 64, picture->0@) && 1 <= picture->0.width <= 64
            && 1 <= picture->0.height <= 64 && (picture->0.width == 64 || picture->0.height == 64),
{
}

} // verus!
