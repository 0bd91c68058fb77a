use rustserver::codepage::{convert_to_cctweaked, get_cctweaked_equivalent, get_unicode_equivalent, CCTweakedError};

#[test]
fn printable_ascii_maps_to_itself() {
    for b in 0x20u8..=0x7e {
        assert_eq!(get_cctweaked_equivalent(b as char), Some(b));
    }
}

#[test]
fn glyph_table_entries() {
    assert_eq!(get_cctweaked_equivalent('\u{263a}'), Some(0x01));
    assert_eq!(get_cctweaked_equivalent('\u{266c}'), Some(0x0f));
    assert_eq!(get_cctweaked_equivalent('\u{25bc}'), Some(0x1f));
    assert_eq!(get_cctweaked_equivalent('\u{2592}'), Some(0x7f));
    assert_eq!(get_cctweaked_equivalent('\u{1fb00}'), Some(0x81));
    assert_eq!(get_cctweaked_equivalent('\u{1fb0e}'), Some(0x8f));
    assert_eq!(get_cctweaked_equivalent('\u{1fb0f}'), Some(0x90));
    assert_eq!(get_cctweaked_equivalent('\u{258c}'), Some(0x95));
    assert_eq!(get_cctweaked_equivalent('\u{1fb14}'), Some(0x96));
    assert_eq!(get_cctweaked_equivalent('\u{1fb1d}'), Some(0x9f));
    assert_eq!(get_cctweaked_equivalent('\u{2593}'), Some(0xa0));
    assert_eq!(get_cctweaked_equivalent('\u{2588}'), Some(0xa7));
    assert_eq!(get_cctweaked_equivalent('\u{ad}'), Some(0xad));
    assert_eq!(get_cctweaked_equivalent('\u{e9}'), Some(0xe9));
    assert_eq!(get_cctweaked_equivalent('\u{ff}'), Some(0xff));
}

#[test]
fn pilcrow_is_written_as_0x14() {
    assert_eq!(get_cctweaked_equivalent('\u{b6}'), Some(0x14));
    assert_eq!(get_unicode_equivalent(0x14), Some('\u{b6}'));
    assert_eq!(get_unicode_equivalent(0xb6), Some('\u{b6}'));
}

#[test]
fn characters_outside_the_code_page() {
    assert_eq!(get_cctweaked_equivalent('\n'), None);
    assert_eq!(get_cctweaked_equivalent('\t'), None);
    assert_eq!(get_cctweaked_equivalent('\u{0}'), None);
    assert_eq!(get_cctweaked_equivalent('\u{a0}'), None);
    assert_eq!(get_cctweaked_equivalent('\u{a7}'), None);
    assert_eq!(get_cctweaked_equivalent('\u{2603}'), None);
    assert_eq!(get_cctweaked_equivalent('\u{1fb1e}'), None);
    assert_eq!(get_cctweaked_equivalent('\u{100}'), None);
}

#[test]
fn unassigned_bytes_have_no_glyph() {
    for b in [0x00u8, 0x09, 0x0a, 0x0d, 0x80] {
        assert_eq!(get_unicode_equivalent(b), None);
    }
}

#[test]
fn decode_then_encode_gives_the_byte_back() {
    for b in (0x20u8..=0x7e).chain(0xa1u8..=0xff) {
        if b == 0xb6 {
            continue;
        }
        let c = get_unicode_equivalent(b).unwrap();
        assert_eq!(get_cctweaked_equivalent(c), Some(b), "byte {:#x}", b);
    }
}

#[test]
fn every_assigned_byte_decodes_to_an_encodable_glyph() {
    for b in 0u8..=0xff {
        if let Some(c) = get_unicode_equivalent(b) {
            let back = get_cctweaked_equivalent(c).unwrap();
            assert_eq!(get_unicode_equivalent(back), Some(c));
        }
    }
}

#[test]
fn convert_text() {
    assert_eq!(convert_to_cctweaked("Hi!").unwrap(), vec![0x48, 0x69, 0x21]);
    assert_eq!(convert_to_cctweaked("").unwrap(), Vec::<u8>::new());
    assert_eq!(
        convert_to_cctweaked("\u{263a}caf\u{e9}\u{2588}").unwrap(),
        vec![0x01, 0x63, 0x61, 0x66, 0xe9, 0xa7]
    );
}

#[test]
fn convert_text_reports_first_bad_character() {
    assert_eq!(
        convert_to_cctweaked("a\u{2603}b\u{2602}"),
        Err(CCTweakedError::InvalidCharacter('\u{2603}'))
    );
    assert_eq!(convert_to_cctweaked("line\n"), Err(CCTweakedError::InvalidCharacter('\n')));
}

#[test]
fn encoded_text_decodes_back() {
    let text = "\u{2592}Z \u{1fb05}\u{258c}\u{fc}";
    let bytes = convert_to_cctweaked(text).unwrap();
    let back: String = bytes.iter().map(|b| get_unicode_equivalent(*b).unwrap()).collect();
    assert_eq!(back, text);
}
