use asset_describer::asset::{extract_uuid_from_preview_filename, hyphenated, UUID_LENGTH};

const ID: u128 = 0xa1a2a3a4_b1b2_c1c2_d1d2_d3d4d5d6d7d8;

#[test]
fn preview_name_yields_the_asset_id() {
    assert_eq!(
        extract_uuid_from_preview_filename("a1a2a3a4-b1b2-c1c2-d1d2-d3d4d5d6d7d8-preview.jpeg"),
        Some(ID)
    );
    assert_eq!(
        extract_uuid_from_preview_filename("a1a2a3a4-b1b2-c1c2-d1d2-d3d4d5d6d7d8-thumbnail.webp"),
        Some(ID)
    );
}

#[test]
fn bare_uuid_is_a_name_too() {
    assert_eq!(UUID_LENGTH, 36);
    assert_eq!(extract_uuid_from_preview_filename("a1a2a3a4-b1b2-c1c2-d1d2-d3d4d5d6d7d8"), Some(ID));
    assert_eq!(
        extract_uuid_from_preview_filename("00000000-0000-0000-0000-000000000000"),
        Some(0)
    );
}

#[test]
fn upper_case_digits_are_read() {
    assert_eq!(
        extract_uuid_from_preview_filename("A1A2A3A4-B1B2-C1C2-D1D2-D3D4D5D6D7D8-preview.jpeg"),
        Some(ID)
    );
}

#[test]
fn short_names_yield_nothing() {
    assert_eq!(extract_uuid_from_preview_filename(""), None);
    assert_eq!(extract_uuid_from_preview_filename("unknown"), None);
    assert_eq!(extract_uuid_from_preview_filename("a1a2a3a4-b1b2-c1c2-d1d2-d3d4d5d6d7d"), None);
}

#[test]
fn names_that_do_not_start_with_a_uuid_yield_nothing() {
    assert_eq!(
        extract_uuid_from_preview_filename("preview-a1a2a3a4-b1b2-c1c2-d1d2-d3d4d5d6d7d8.jpeg"),
        None
    );
    assert_eq!(
        extract_uuid_from_preview_filename("a1a2a3a4b1b2c1c2d1d2d3d4d5d6d7d8-preview.jpeg"),
        None
    );
    assert_eq!(
        extract_uuid_from_preview_filename("g1a2a3a4-b1b2-c1c2-d1d2-d3d4d5d6d7d8-preview.jpeg"),
        None
    );
    assert_eq!(
        extract_uuid_from_preview_filename("a1a2a3a4_b1b2_c1c2_d1d2_d3d4d5d6d7d8-preview.jpeg"),
        None
    );
}

#[test]
fn names_with_wide_characters_yield_nothing() {
    assert_eq!(
        extract_uuid_from_preview_filename("\u{e9}1a2a3a4-b1b2-c1c2-d1d2-d3d4d5d6d7d8-preview.jpeg"),
        None
    );
    assert_eq!(
        extract_uuid_from_preview_filename("\u{1f600}\u{1f600}\u{1f600}\u{1f600}\u{1f600}\u{1f600}\u{1f600}\u{1f600}\u{1f600}"),
        None
    );
}

#[test]
fn hyphenated_writes_groups_of_lower_case_digits() {
    assert_eq!(hyphenated(ID), "a1a2a3a4-b1b2-c1c2-d1d2-d3d4d5d6d7d8");
    assert_eq!(hyphenated(0), "00000000-0000-0000-0000-000000000000");
    assert_eq!(hyphenated(u128::MAX), "ffffffff-ffff-ffff-ffff-ffffffffffff");
    assert_eq!(hyphenated(0xABC), "00000000-0000-0000-0000-000000000abc");
    assert_eq!(
        hyphenated(0x0123_4567_89ab_cdef_fedc_ba98_7654_3210),
        "01234567-89ab-cdef-fedc-ba9876543210"
    );
}

#[test]
fn hyphenated_agrees_with_the_uuid_crate() {
    let mut id: u128 = 0x9e37_79b9_7f4a_7c15_f39c_c060_5ced_c835;
    for _ in 0..2000 {
        assert_eq!(hyphenated(id), uuid::Uuid::from_u128(id).to_string());
        id = id.wrapping_mul(0x2360_ed05_1fc6_5da4_4385_df64_9fcc_f645).wrapping_add(0x5851_f42d_4c95_7f2d);
    }
    for bit in 0..128 {
        let id = 1u128 << bit;
        assert_eq!(hyphenated(id), uuid::Uuid::from_u128(id).to_string());
    }
}

#[test]
fn written_ids_are_read_back() {
    for id in [0u128, 1, ID, u128::MAX, 0x0123_4567_89ab_cdef_fedc_ba98_7654_3210] {
        let name = format!("{}-preview.jpeg", hyphenated(id));
        assert_eq!(extract_uuid_from_preview_filename(&name), Some(id));
    }
}
