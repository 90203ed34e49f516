use yyw::icon::{fits_in_icon, icon_sizes, resource_script, windres_args, write_ico, Picture};

fn number(file: &[u8], at: usize) -> usize {
    u32::from_le_bytes([file[at], file[at + 1], file[at + 2], file[at + 3]]) as usize
}

#[test]
fn bytes_of_an_icon_file() {
    let file = write_ico(&vec![Picture { size: 16, png: vec![9, 8, 7] }]);
    let want: Vec<u8> = vec![
        0, 0, 1, 0, 1, 0, 16, 16, 0, 0, 1, 0, 32, 0, 3, 0, 0, 0, 22, 0, 0, 0, 9, 8, 7,
    ];
    assert_eq!(file, want);
}

#[test]
fn each_picture_is_found_again() {
    let pngs = [vec![1u8; 300], Vec::new(), vec![2u8; 70000]];
    let list = vec![
        Picture { size: 48, png: pngs[0].clone() },
        Picture { size: 32, png: pngs[1].clone() },
        Picture { size: 256, png: pngs[2].clone() },
    ];
    let file = write_ico(&list);
    for (k, png) in pngs.iter().enumerate() {
        let entry = 6 + 16 * k;
        let len = number(&file, entry + 8);
        let at = number(&file, entry + 12);
        assert_eq!(&file[at..at + len], png.as_slice());
    }
    assert_eq!(file[6 + 32], 0);
    assert_eq!(file[6], 48);
}

#[test]
fn an_icon_without_pictures() {
    assert_eq!(write_ico(&Vec::new()), vec![0, 0, 1, 0, 0, 0]);
}

#[test]
fn what_fits_into_an_icon() {
    assert_eq!(icon_sizes(), [16, 32, 48, 256]);
    assert!(fits_in_icon(&vec![Picture { size: 256, png: vec![1] }]));
    assert!(!fits_in_icon(&vec![Picture { size: 257, png: vec![1] }]));
    let many: Vec<Picture> = (0..65536).map(|_| Picture { size: 1, png: Vec::new() }).collect();
    assert!(!fits_in_icon(&many));
}

#[test]
fn texts_for_the_resource_compiler() {
    assert_eq!(resource_script(r"C:\out\yyw.ico"), "1 ICON \"C:/out/yyw.ico\"\n");
    assert_eq!(windres_args("a.rc", "a.res"), ["-i", "a.rc", "-O", "res", "-o", "a.res"]);
}
