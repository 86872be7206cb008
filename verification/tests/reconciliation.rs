//! The directory reconciler, the filename convention, the image directory
//! helpers, and the text utilities they rest on.
use stargazer::catalog::{Catalog, Image};
use stargazer::images::{generate_html, generate_image_url, ImageDirectory};
use stargazer::reconcile::{file_name_part, parse_image_filename};
use stargazer::text::{i64_to_string, parse_i64, str_eq_check, u64_to_string};

fn image_row(path: &str, command_id: i64) -> Image {
    Image {
        name: String::from("row"),
        path: String::from(path),
        web_path: format!("/assets/images/{}", file_name_part(path)),
        command_id,
    }
}

#[test]
fn filename_convention_parses_and_rejects() {
    assert_eq!(
        parse_image_filename("1700000000-42-Mars_Zenith.jpg"),
        Some((1700000000, 42, String::from("Mars_Zenith")))
    );
    assert_eq!(parse_image_filename("not-a-valid-name.jpg"), None);
    assert_eq!(parse_image_filename("plain.jpg"), None);
    assert_eq!(parse_image_filename("12-x-Name.jpg"), None);
    assert_eq!(parse_image_filename("x-12-Name.jpg"), None);
    assert_eq!(parse_image_filename("1-2-Name"), Some((1, 2, String::from("Name"))));
    assert_eq!(parse_image_filename("1-2-Name.tar.gz"), Some((1, 2, String::from("Name"))));
}

#[test]
fn reconcile_prunes_stale_rows_and_adopts_orphans() {
    let mut cat = Catalog::new();
    cat.images.push(image_row("./assets/images/1-1-Old.jpg", 1));
    let files = vec![String::from("./assets/images/1700000000-42-Mars_Zenith.jpg")];
    cat.check_images(&files, true);
    assert_eq!(cat.images.len(), 1);
    assert_eq!(cat.images[0].path, "./assets/images/1700000000-42-Mars_Zenith.jpg");
    assert_eq!(cat.images[0].web_path, "/assets/images/1700000000-42-Mars_Zenith.jpg");
    assert_eq!(cat.images[0].name, "Mars_Zenith");
    assert_eq!(cat.images[0].command_id, 42);
}

#[test]
fn reconcile_without_adoption_only_prunes() {
    let mut cat = Catalog::new();
    cat.images.push(image_row("./assets/images/1-1-Kept.jpg", 1));
    cat.images.push(image_row("./assets/images/2-2-Gone.jpg", 2));
    let files = vec![
        String::from("./assets/images/1-1-Kept.jpg"),
        String::from("./assets/images/9-9-Orphan.jpg"),
    ];
    cat.check_images(&files, false);
    assert_eq!(cat.images.len(), 1);
    assert_eq!(cat.images[0].path, "./assets/images/1-1-Kept.jpg");
}

#[test]
fn reconcile_skips_unparseable_orphans_silently() {
    let mut cat = Catalog::new();
    let files = vec![
        String::from("./assets/images/random-photo.jpg"),
        String::from("./assets/images/also not valid.png"),
    ];
    cat.check_images(&files, true);
    assert_eq!(cat.images.len(), 0);
}

#[test]
fn reconcile_twice_changes_nothing_more() {
    let mut cat = Catalog::new();
    cat.images.push(image_row("./assets/images/1-1-Old.jpg", 1));
    cat.images.push(image_row("./assets/images/5-7-Kept.jpg", 7));
    let files = vec![
        String::from("./assets/images/5-7-Kept.jpg"),
        String::from("./assets/images/1700000000-42-Mars_Zenith.jpg"),
        String::from("./assets/images/strange name.jpg"),
    ];
    cat.check_images(&files, true);
    let after_first: Vec<(String, String, String, i64)> = cat
        .images
        .iter()
        .map(|im| {
            (
                im.name.clone(),
                im.path.clone(),
                im.web_path.clone(),
                im.command_id,
            )
        })
        .collect();
    cat.check_images(&files, true);
    let after_second: Vec<(String, String, String, i64)> = cat
        .images
        .iter()
        .map(|im| {
            (
                im.name.clone(),
                im.path.clone(),
                im.web_path.clone(),
                im.command_id,
            )
        })
        .collect();
    assert_eq!(after_first, after_second);
    assert_eq!(cat.images.len(), 2);
}

#[test]
fn unregister_removes_row_by_path() {
    let mut cat = Catalog::new();
    cat.images.push(image_row("./assets/images/1-1-A.jpg", 1));
    cat.images.push(image_row("./assets/images/2-2-B.jpg", 2));
    cat.unregister_image("./assets/images/1-1-A.jpg");
    assert_eq!(cat.images.len(), 1);
    assert_eq!(cat.images[0].path, "./assets/images/2-2-B.jpg");
    cat.unregister_image("./assets/images/no-such.jpg");
    assert_eq!(cat.images.len(), 1);
}

#[test]
fn register_image_rejects_duplicate_paths() {
    let mut cat = Catalog::new();
    assert!(cat
        .register_image("A", "./assets/images/1-1-A.jpg", "/assets/images/1-1-A.jpg", 1)
        .is_ok());
    assert!(cat
        .register_image("B", "./assets/images/1-1-A.jpg", "/assets/images/other.jpg", 2)
        .is_err());
    assert!(cat
        .register_image("C", "./assets/images/other.jpg", "/assets/images/1-1-A.jpg", 3)
        .is_err());
    assert_eq!(cat.images.len(), 1);
}

#[test]
fn find_images_filters_by_extension() {
    let dir = ImageDirectory::new(
        String::from("./assets/images"),
        vec![String::from("jpg"), String::from("png")],
    );
    let entries = vec![
        String::from("a.jpg"),
        String::from("notes.txt"),
        String::from("b.png"),
        String::from("noext"),
        String::from(".hidden"),
        String::from("c.JPG"),
    ];
    let found = dir.find_images(&entries);
    assert_eq!(
        found,
        vec![
            String::from("./assets/images/a.jpg"),
            String::from("./assets/images/b.png"),
        ]
    );
}

#[test]
fn default_directory_recognises_the_six_extensions() {
    let dir = ImageDirectory::default();
    assert_eq!(dir.path, "./assets/images");
    let entries = vec![
        String::from("a.png"),
        String::from("b.jpg"),
        String::from("c.jpeg"),
        String::from("d.webp"),
        String::from("e.gif"),
        String::from("f.svg"),
        String::from("g.bmp"),
    ];
    assert_eq!(dir.find_images(&entries).len(), 6);
}

#[test]
fn gallery_markup_lists_images_in_order() {
    let url = generate_image_url("./assets/images/1-2-M.jpg");
    assert_eq!(url, "/assets/images/1-2-M.jpg");
    let html = generate_html(vec![
        String::from("./assets/images/a.jpg"),
        String::from("./assets/images/b.png"),
    ]);
    assert_eq!(
        html,
        "<img src=\"/assets/images/a.jpg\" />\n<img src=\"/assets/images/b.png\" />\n"
    );
}

#[test]
fn image_listing_is_paginated_with_defaults() {
    let mut cat = Catalog::new();
    for i in 0..12i64 {
        cat.register_image(
            "row",
            &format!("./assets/images/{}-1-row.jpg", i),
            &format!("/assets/images/{}-1-row.jpg", i),
            i,
        )
        .expect("register");
    }
    assert_eq!(cat.get_image_count(), 12);
    let first = cat.get_image_info(0, 0);
    assert_eq!(first.len(), 10);
    assert_eq!(first[0].path, "./assets/images/0-1-row.jpg");
    let second = cat.get_image_info(2, 10);
    assert_eq!(second.len(), 2);
    assert_eq!(second[1].path, "./assets/images/11-1-row.jpg");
    let beyond = cat.get_image_info(5, 10);
    assert_eq!(beyond.len(), 0);
    let last = cat.get_last_image().expect("last");
    assert_eq!(last.path, "./assets/images/11-1-row.jpg");
    assert_eq!(cat.get_image_list().len(), 12);
}

#[test]
fn decimal_rendering_and_parsing() {
    assert_eq!(u64_to_string(0), "0");
    assert_eq!(u64_to_string(1700000000), "1700000000");
    assert_eq!(i64_to_string(-42), "-42");
    assert_eq!(i64_to_string(i64::MIN), "-9223372036854775808");
    assert_eq!(parse_i64("42"), Some(42));
    assert_eq!(parse_i64("0042"), Some(42));
    assert_eq!(parse_i64(""), None);
    assert_eq!(parse_i64("12a"), None);
    assert_eq!(parse_i64("-5"), None);
    assert_eq!(parse_i64("9223372036854775807"), Some(i64::MAX));
    assert_eq!(parse_i64("9223372036854775808"), None);
    assert!(str_eq_check("abc", "abc"));
    assert!(!str_eq_check("abc", "abd"));
    assert!(!str_eq_check("abc", "ab"));
}

#[test]
fn file_name_part_takes_the_last_segment() {
    assert_eq!(file_name_part("./assets/images/a.jpg"), "a.jpg");
    assert_eq!(file_name_part("a.jpg"), "a.jpg");
    assert_eq!(file_name_part("/x/y/z"), "z");
}
