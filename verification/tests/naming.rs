use kcomprs::naming::{
    file_stem, may_write, output_file_name, palette_file_name, push_decimal, Existing,
};

#[test]
fn output_name_of_a_lossless_job() {
    assert_eq!(output_file_name("photo.jpg", 100, 15, 0), "photo.kcp100n15.png");
}

#[test]
fn output_name_of_a_lossy_job() {
    assert_eq!(output_file_name("photo.png", 50, 8, 90), "photo.kcp50n8.jpeg");
    assert_eq!(output_file_name("photo.png", 50, 8, 1), "photo.kcp50n8.jpeg");
}

#[test]
fn palette_name_of_a_job() {
    assert_eq!(palette_file_name("photo.jpg", 100, 15), "photo.kcp100n15.palette.png");
}

#[test]
fn stem_drops_the_last_extension_only() {
    assert_eq!(file_stem("archive.tar.gz"), "archive.tar");
    assert_eq!(file_stem("photo.jpg"), "photo");
    assert_eq!(file_stem("photo."), "photo");
    assert_eq!(file_stem("a.b.c.d"), "a.b.c");
}

#[test]
fn stem_of_a_name_without_extension_is_the_name() {
    assert_eq!(file_stem("photo"), "photo");
    assert_eq!(file_stem(".hidden"), ".hidden");
    assert_eq!(file_stem(""), "");
    assert_eq!(output_file_name("photo", 1, 2, 0), "photo.kcp1n2.png");
    assert_eq!(output_file_name(".hidden", 1, 2, 0), ".hidden.kcp1n2.png");
}

#[test]
fn stem_of_a_hidden_file_with_extension() {
    assert_eq!(file_stem(".hidden.png"), ".hidden");
    assert_eq!(file_stem("..png"), ".");
}

#[test]
fn stem_counts_characters_not_bytes() {
    assert_eq!(file_stem("höhe.überblick.png"), "höhe.überblick");
    assert_eq!(output_file_name("写真.jpeg", 100, 15, 0), "写真.kcp100n15.png");
}

#[test]
fn numbers_are_written_in_decimal() {
    assert_eq!(push_decimal(String::from("x"), 0), "x0");
    assert_eq!(push_decimal(String::new(), 7), "7");
    assert_eq!(push_decimal(String::new(), 10), "10");
    assert_eq!(push_decimal(String::new(), 1234567890), "1234567890");
    assert_eq!(push_decimal(String::new(), usize::MAX), usize::MAX.to_string());
    assert_eq!(output_file_name("a.png", 0, 0, 0), "a.kcp0n0.png");
}

#[test]
fn existing_output_is_skipped_without_overwrite() {
    assert!(!may_write(Existing::File, false));
    assert!(!may_write(Existing::Other, false));
}

#[test]
fn existing_file_is_replaced_with_overwrite() {
    assert!(may_write(Existing::File, true));
}

#[test]
fn existing_directory_is_never_replaced() {
    assert!(!may_write(Existing::Other, true));
}

#[test]
fn missing_output_is_written() {
    assert!(may_write(Existing::Nothing, false));
    assert!(may_write(Existing::Nothing, true));
}
