use qq_bot::image::{
    checked_is_image, choose_image, compute_md5sum, get_all_md5, image_file_path, image_group_dir,
    is_image, IMAGE_DIR,
};

#[test]
fn recognises_signatures() {
    assert!(is_image(&[0x47, 0x49, 0x46]));
    assert!(is_image(&[0xFF, 0xD8, 0xFF, 0x00]));
    assert!(is_image(&[0x89, 0x50, 0x4E, 0x47, 0x0D, 0x0A, 0x1A, 0x0A, 1]));
    assert!(!is_image(&[0x89, 0x50, 0x4E, 0x47, 0x0D, 0x0A, 0x1A, 0x0B]));
    assert!(!is_image(b"not an image"));
}

#[test]
fn check_on_short_buffers() {
    assert_eq!(checked_is_image(&[]), None);
    assert_eq!(checked_is_image(&[0x47, 0x49]), None);
    assert_eq!(checked_is_image(&[0x47, 0x49, 0x46]), Some(true));
    assert_eq!(checked_is_image(&[0xFF, 0xD8, 0xFF]), Some(true));
    assert_eq!(checked_is_image(&[1, 2, 3, 4, 5, 6, 7]), None);
    assert_eq!(checked_is_image(&[1, 2, 3, 4, 5, 6, 7, 8]), Some(false));
}

#[test]
fn md5_in_lowercase_hex() {
    assert_eq!(compute_md5sum(b""), "d41d8cd98f00b204e9800998ecf8427e");
    assert_eq!(compute_md5sum(b"abc"), "900150983cd24fb0d6963f7d28e17f72");
    assert_eq!(compute_md5sum(b"abc"), format!("{:x}", md5::compute(b"abc")));
}

#[test]
fn names_before_first_dot() {
    let names = vec!["abc.image".to_string(), "noext".to_string(), "a.b.c".to_string(), ".x".to_string()];
    assert_eq!(get_all_md5(&names), vec!["abc".to_string(), "a".to_string(), "".to_string()]);
    assert!(get_all_md5(&vec![]).is_empty());
}

#[test]
fn paths_of_the_store() {
    assert_eq!(IMAGE_DIR, "images");
    assert_eq!(image_group_dir(123), "images/123");
    assert_eq!(image_group_dir(-5), "images/-5");
    assert_eq!(image_file_path(123, "abc"), "images/123/abc.image");
}

#[test]
fn chooses_one_of_the_names() {
    let names = vec!["a".to_string(), "b".to_string()];
    for _ in 0..20 {
        let p = choose_image(7, &names);
        assert!(p == "images/7/a.image" || p == "images/7/b.image");
    }
}
