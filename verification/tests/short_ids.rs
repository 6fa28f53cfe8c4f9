use srm::shortid::{allocate_batch_ids, generate_short_id, make_trash_id};
use srm::types::FileType;

#[test]
fn short_id_is_tag_plus_hash_prefix() {
    // md5("hello") = 5d41402abc4b2a76b9719d911017c592
    let id = generate_short_id("hello", FileType::File, &vec![]);
    assert_eq!(id, "f5d4140");
    let id = generate_short_id("hello", FileType::Dir, &vec![]);
    assert_eq!(id, "d5d4140");
    let id = generate_short_id("hello", FileType::Symlink, &vec![]);
    assert_eq!(id, "l5d4140");
}

#[test]
fn short_id_matches_the_hash_the_crate_computes() {
    let hex = format!("{:x}", md5::compute("report.pdf_123456789".as_bytes()));
    let expected = format!("f{}", &hex[..6]);
    let id = generate_short_id("report.pdf_123456789", FileType::File, &vec![]);
    assert_eq!(id, expected);
}

#[test]
fn collisions_append_numeric_suffixes() {
    let existing = vec!["f5d4140".to_string()];
    let id = generate_short_id("hello", FileType::File, &existing);
    assert_eq!(id, "f5d4140_1");

    let existing = vec!["f5d4140".to_string(), "f5d4140_1".to_string()];
    let id = generate_short_id("hello", FileType::File, &existing);
    assert_eq!(id, "f5d4140_1_2");
}

#[test]
fn batch_ids_are_pairwise_distinct_even_on_full_hash_collision() {
    // The same name hashes identically every time; a batch of five still
    // gets five distinct identifiers.
    let items = vec![
        ("a".to_string(), FileType::File),
        ("a".to_string(), FileType::File),
        ("a".to_string(), FileType::File),
        ("a".to_string(), FileType::File),
        ("a".to_string(), FileType::File),
    ];
    let ids = allocate_batch_ids(&items, &vec![]);
    assert_eq!(ids.len(), 5);
    for i in 0..ids.len() {
        for j in 0..ids.len() {
            if i != j {
                assert_ne!(ids[i], ids[j]);
            }
        }
    }
    // md5("a") = 0cc175b9c0f1b6a831c399e269772661
    assert_eq!(ids[0], "f0cc175");
    assert_eq!(ids[1], "f0cc175_1");
}

#[test]
fn batch_ids_avoid_preexisting_ones() {
    let items = vec![("a".to_string(), FileType::File)];
    let existing = vec!["f0cc175".to_string()];
    let ids = allocate_batch_ids(&items, &existing);
    assert_eq!(ids[0], "f0cc175_1");
}

#[test]
fn trash_id_is_name_and_salt() {
    assert_eq!(make_trash_id("report.pdf", 123456789), "report.pdf_123456789");
    assert_eq!(make_trash_id("x", 0), "x_0");
    assert_eq!(
        make_trash_id("y", u128::MAX),
        "y_340282366920938463463374607431768211455"
    );
}

#[test]
fn allocation_is_deterministic_for_a_fixed_input() {
    let existing = vec!["f5d4140".to_string()];
    let a = generate_short_id("hello", FileType::File, &existing);
    let b = generate_short_id("hello", FileType::File, &existing);
    assert_eq!(a, b);
}
