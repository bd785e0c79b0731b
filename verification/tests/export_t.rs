use pickpicpack::utils::{archive_entry_names, file_timestamp, random_gray, OUTPUT_NAME};

fn names(v: &[&str]) -> Vec<String> {
    v.iter().map(|s| s.to_string()).collect()
}

#[test]
fn entry_names_are_prefixed_in_order() {
    let r = archive_entry_names(&names(&["a.png", "b.png", "c.png"]));
    assert_eq!(r, vec!["1_a.png", "2_b.png", "3_c.png"]);
}

#[test]
fn entry_names_pad_to_total_width() {
    let files: Vec<String> = (0..12).map(|i| format!("f{}.png", i)).collect();
    let r = archive_entry_names(&files);
    assert_eq!(r.len(), 12);
    assert_eq!(r[0], "01_f0.png");
    assert_eq!(r[9], "10_f9.png");
    assert_eq!(r[11], "12_f11.png");
}

#[test]
fn entry_names_single_file() {
    let r = archive_entry_names(&names(&["only.jpg"]));
    assert_eq!(r, vec!["1_only.jpg"]);
}

#[test]
fn entry_names_empty() {
    let r = archive_entry_names(&Vec::new());
    assert!(r.is_empty());
}

#[test]
fn entry_names_keep_count() {
    let files: Vec<String> = (0..101).map(|i| format!("{}.png", i)).collect();
    let r = archive_entry_names(&files);
    assert_eq!(r.len(), files.len());
    assert!(r[0].starts_with("001_"));
    assert!(r[100].starts_with("101_"));
}

#[test]
fn timestamp_names_the_app() {
    let t = file_timestamp();
    assert!(t.starts_with("PickPicPack_"));
    assert!(t.len() > "PickPicPack_".len());
    assert_eq!(OUTPUT_NAME, "PickPicPack");
}

#[test]
fn timestamp_is_numeric_after_prefix() {
    let t = file_timestamp();
    let rest = &t["PickPicPack_".len()..];
    assert!(rest.chars().all(|c| c.is_ascii_digit() || c == '-' || c == '_'));
}

#[test]
fn random_gray_stays_in_range() {
    for _ in 0..100 {
        let c = random_gray();
        assert!((60..200).contains(&c.r));
        assert_eq!(c.g, c.r / 4);
        assert_eq!(c.b, 0);
        assert_eq!(c.a, 128);
    }
}
