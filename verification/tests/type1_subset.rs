use dpx::charstrings::{add_seac_components, charstring_capacity, SeacOutcome};
use dpx::encoding::{
    build_encoding, charset_string, encoding_format, CodeRange, DropReason, DroppedCode, EncodingPlan, Supplement,
};
use dpx::fontfile::{fontfile_layout, fontfile_size_estimate, FontFileLayout, FontFileParts};
use dpx::type1::{
    ascent_probes, basefont_setup, cap_height_probes, descent_probes, descriptor_flags, first_glyph_in_font,
    font_file_setup, is_basefont, metrics_char_range, subset_font_name, CharRange, Type1OpenError,
};

#[test]
fn base_fonts() {
    assert!(is_basefont(b"Times-Roman"));
    assert!(is_basefont(b"ZapfDingbats"));
    assert!(is_basefont(b"Courier-BoldOblique"));
    assert!(!is_basefont(b"Times"));
    assert!(!is_basefont(b"times-roman"));
    assert!(!is_basefont(b"cmr10"));
    let setup = basefont_setup(b"Helvetica").unwrap();
    assert_eq!(setup.fontname, b"Helvetica".to_vec());
    assert_eq!((setup.subtype, setup.flags), (0, Some(5)));
    assert!(basefont_setup(b"cmr10").is_none());
}

#[test]
fn font_file_setups() {
    let s = font_file_setup(Some(b"CMR10")).ok().unwrap();
    assert_eq!(s.fontname, b"CMR10".to_vec());
    assert_eq!((s.subtype, s.flags), (0, None));
    assert_eq!(font_file_setup(None).err(), Some(Type1OpenError::FailedToRead));
}

#[test]
fn descriptor_flag_values() {
    assert_eq!(descriptor_flags(false, false, false, None), 4);
    assert_eq!(descriptor_flags(false, false, false, Some(b"CMR10")), 6);
    assert_eq!(descriptor_flags(false, false, false, Some(b"CMSansSerif")), 4);
    assert_eq!(descriptor_flags(true, true, true, Some(b"LMRomanCaps10")), 1 + 2 + 4 + 64 + (1 << 17) + (1 << 18));
    assert_eq!(descriptor_flags(false, false, true, Some(b"SansCaps")), 1 + 4 + (1 << 17));
}

#[test]
fn metric_probes() {
    let names: Vec<Vec<u8>> = cap_height_probes();
    assert_eq!(names, vec![b"H".to_vec(), b"P".to_vec(), b"Pi".to_vec(), b"Rho".to_vec()]);
    assert_eq!(descent_probes(), vec![b"p".to_vec(), b"q".to_vec(), b"mu".to_vec(), b"eta".to_vec()]);
    assert_eq!(ascent_probes(), vec![b"b".to_vec(), b"h".to_vec(), b"lambda".to_vec()]);
    assert_eq!(first_glyph_in_font(&[-1, 300, 12, 4], 100), Some(2));
    assert_eq!(first_glyph_in_font(&[0], 1), Some(0));
    assert_eq!(first_glyph_in_font(&[-1, 100], 100), None);
    assert_eq!(first_glyph_in_font(&[], 100), None);
}

#[test]
fn subset_names() {
    assert_eq!(subset_font_name(b"ABCDEF", b"CMR10"), b"ABCDEF+CMR10".to_vec());
    assert_eq!(subset_font_name(b"AB", b"CMR10"), b"    AB+CMR10".to_vec());
    assert_eq!(subset_font_name(b"ABCDEFG", b"X"), b"ABCDEFG+X".to_vec());
}

fn used_of(codes: &[usize]) -> Vec<bool> {
    let mut u = vec![false; 256];
    for &c in codes {
        u[c] = true;
    }
    u
}

#[test]
fn char_ranges() {
    assert_eq!(metrics_char_range(&used_of(&[65, 66]), 1), CharRange::Placeholder);
    assert_eq!(metrics_char_range(&used_of(&[]), 5), CharRange::NoneUsed);
    assert_eq!(metrics_char_range(&used_of(&[65, 66, 200]), 5), CharRange::Codes { first: 65, last: 200 });
    assert_eq!(metrics_char_range(&used_of(&[0, 255]), 3), CharRange::Codes { first: 0, last: 255 });
    assert_eq!(metrics_char_range(&used_of(&[7]), 2), CharRange::Codes { first: 7, last: 7 });
}

fn name(s: &str) -> Option<Vec<u8>> {
    Some(s.as_bytes().to_vec())
}

/// A small font: glyph names A, B, C for codes 65..67, D for 70, A again for
/// 72, `.notdef` for 80, `zz` (not in the font) for 81; glyph ids are the
/// code minus 60 for names in the font.
fn sample() -> (Vec<bool>, Vec<Option<Vec<u8>>>, Vec<i32>) {
    let mut glyphs: Vec<Option<Vec<u8>>> = vec![None; 256];
    let mut gids = vec![-1i32; 256];
    for (c, n) in [(65, "A"), (66, "B"), (67, "C"), (70, "D"), (72, "A")] {
        glyphs[c] = name(n);
        gids[c] = c as i32 - 60;
    }
    gids[72] = 5;
    glyphs[80] = name(".notdef");
    gids[80] = 0;
    glyphs[81] = name("zz");
    gids[81] = -1;
    (used_of(&[65, 66, 67, 70, 72, 80, 81]), glyphs, gids)
}

#[test]
fn encoding_of_sample_font() {
    let (used, glyphs, gids) = sample();
    let plan: EncodingPlan = build_encoding(&used, &glyphs, &gids, 0, 50);
    assert_eq!(plan.gid_map, vec![0, 5, 6, 7, 10]);
    assert_eq!(plan.charset_codes, vec![65, 66, 67, 70]);
    assert_eq!(plan.ranges, vec![CodeRange { first: 65, n_left: 2 }, CodeRange { first: 70, n_left: 0 }]);
    assert_eq!(plan.supplements, vec![Supplement { code: 65, source: 72 }]);
    assert_eq!(
        plan.dropped,
        vec![
            DroppedCode { code: 80, reason: DropReason::MappedToNotdef },
            DroppedCode { code: 81, reason: DropReason::MissingGlyph },
        ]
    );
    assert_eq!(plan.used, used_of(&[65, 66, 67, 70, 72]));
    assert_eq!(encoding_format(plan.supplements.len()), 0x81);
    assert_eq!(charset_string(&plan.charset_codes, &glyphs), b"/A/B/C/D".to_vec());
}

#[test]
fn ranges_decode_to_charset() {
    let (used, glyphs, gids) = sample();
    let plan = build_encoding(&used, &glyphs, &gids, 0, 50);
    let mut decoded = Vec::new();
    for r in &plan.ranges {
        for i in 0..=r.n_left {
            decoded.push(r.first + i);
        }
    }
    assert_eq!(decoded, plan.charset_codes);
}

#[test]
fn encoding_of_all_codes() {
    let used = vec![true; 256];
    let glyphs: Vec<Option<Vec<u8>>> = (0..256).map(|c| name(&format!("g{}", c))).collect();
    let gids: Vec<i32> = (0..256).map(|c| c + 1).collect();
    let plan = build_encoding(&used, &glyphs, &gids, 0, 300);
    assert_eq!(plan.ranges, vec![CodeRange { first: 0, n_left: 255 }]);
    assert_eq!(plan.charset_codes.len(), 256);
    assert_eq!(plan.gid_map.len(), 257);
    assert!(plan.supplements.is_empty());
    assert_eq!(encoding_format(0), 1);
}

#[test]
fn encoding_of_alternate_codes() {
    let used: Vec<bool> = (0..256).map(|c| c % 2 == 0).collect();
    let glyphs: Vec<Option<Vec<u8>>> = (0..256).map(|c| name(&format!("g{}", c))).collect();
    let gids: Vec<i32> = (0..256).map(|c| c + 1).collect();
    let plan = build_encoding(&used, &glyphs, &gids, 0, 300);
    assert_eq!(plan.ranges.len(), 128);
    assert!(plan.ranges.iter().all(|r| r.n_left == 0));
}

#[test]
fn encoding_without_used_codes() {
    let (_, glyphs, gids) = sample();
    let plan = build_encoding(&vec![false; 256], &glyphs, &gids, 3, 50);
    assert_eq!(plan.gid_map, vec![3]);
    assert!(plan.charset_codes.is_empty() && plan.ranges.is_empty() && plan.dropped.is_empty());
    assert_eq!(charset_string(&plan.charset_codes, &glyphs), Vec::<u8>::new());
}

#[test]
fn seac_components() {
    let mut map = vec![0u16, 5, 6];
    assert_eq!(add_seac_components(&mut map, -1, 5), SeacOutcome::MissingAccent);
    assert_eq!(add_seac_components(&mut map, 5, -1), SeacOutcome::MissingBase);
    assert_eq!(map, vec![0, 5, 6]);
    assert_eq!(
        add_seac_components(&mut map, 9, 6),
        SeacOutcome::Added { accent_added: true, base_added: false }
    );
    assert_eq!(map, vec![0, 5, 6, 9]);
    assert_eq!(
        add_seac_components(&mut map, 11, 11),
        SeacOutcome::Added { accent_added: true, base_added: false }
    );
    assert_eq!(
        add_seac_components(&mut map, 12, 13),
        SeacOutcome::Added { accent_added: true, base_added: true }
    );
    assert_eq!(map, vec![0, 5, 6, 9, 11, 12, 13]);
}

#[test]
fn charstring_buffer_growth() {
    assert_eq!(charstring_capacity(0, 0), 131072);
    assert_eq!(charstring_capacity(65535, 131072), 131072);
    assert_eq!(charstring_capacity(65536, 131072), 262144);
}

#[test]
fn fontfile_layout_and_estimate() {
    let parts = FontFileParts {
        header: 4,
        name_index: 20,
        top_dict_index: 40,
        string_index: 100,
        gsubr_index: 2,
        encoding: 2 + 2 * 2 + 1 + 3,
        charset: 1 + 2 * 4,
        charstrings: 1000,
        private_dict: 30,
    };
    let l = fontfile_layout(&parts, true);
    assert_eq!(
        l,
        FontFileLayout {
            top_dict_offset: 24,
            encoding_offset: 166,
            charset_offset: 176,
            charstrings_offset: 185,
            private_offset: Some(1185),
            length: 1215,
        }
    );
    assert_eq!(fontfile_size_estimate(&parts, 2, 1, 4), 1215);
    assert_eq!(fontfile_layout(&parts, false).private_offset, None);
    let no_private = FontFileParts { private_dict: 0, ..parts };
    assert_eq!(fontfile_layout(&no_private, true).private_offset, None);
}

use dpx::charstrings::{convert_glyph_step, convert_subset, start_subset, CharsetEntry, GlyphSubset, SeacComponents};

fn seac(accent_code: u8, accent_gid: i32, base_code: u8, base_gid: i32) -> Option<SeacComponents> {
    Some(SeacComponents { accent_code, accent_gid, base_code, base_gid })
}

#[test]
fn converting_a_subset_pulls_in_seac_components() {
    let (used, glyphs, gids) = sample();
    let plan = build_encoding(&used, &glyphs, &gids, 0, 50);
    let start = start_subset(&plan);
    assert_eq!(start.gid_map, vec![0, 5, 6, 7, 10]);
    assert_eq!(
        start.charset,
        vec![CharsetEntry::Code(65), CharsetEntry::Code(66), CharsetEntry::Code(67), CharsetEntry::Code(70)]
    );
    assert!(start.width_recorded.is_empty());
    // Glyph 6 is an accented glyph built from glyphs 20 (accent) and 5
    // (base, already in the subset); glyph 20 itself uses seac with 21 and
    // 22; glyph 7 names a missing accent.
    let mut table: Vec<Option<SeacComponents>> = vec![None; 50];
    table[6] = seac(0xc1, 20, 0x41, 5);
    table[20] = seac(0xc2, 21, 0x42, 22);
    table[7] = seac(0xc3, -1, 0x43, 5);
    let done: GlyphSubset = convert_subset(start, &table);
    assert_eq!(done.gid_map, vec![0, 5, 6, 7, 10, 20, 21, 22]);
    assert_eq!(done.charset.len() + 1, done.gid_map.len());
    assert_eq!(
        &done.charset[4..],
        &[CharsetEntry::SeacComponent(0xc1), CharsetEntry::SeacComponent(0xc2), CharsetEntry::SeacComponent(0x42)]
    );
    assert_eq!(done.width_recorded, vec![true, true, true, false, true, true, true, true]);
    let mut sorted = done.gid_map.clone();
    sorted.sort();
    sorted.dedup();
    assert_eq!(sorted.len(), done.gid_map.len());
}

#[test]
fn conversion_steps_one_glyph_at_a_time() {
    let mut subset = GlyphSubset { gid_map: vec![0, 3], charset: vec![CharsetEntry::Code(65)], width_recorded: vec![] };
    convert_glyph_step(&mut subset, None);
    assert_eq!(subset.width_recorded, vec![true]);
    convert_glyph_step(&mut subset, seac(0xc1, 4, 0x41, 3));
    assert_eq!(subset.gid_map, vec![0, 3, 4]);
    assert_eq!(subset.charset, vec![CharsetEntry::Code(65), CharsetEntry::SeacComponent(0xc1)]);
    assert_eq!(subset.width_recorded, vec![true, true]);
    convert_glyph_step(&mut subset, seac(0xc1, 4, 0x41, -1));
    assert_eq!(subset.gid_map, vec![0, 3, 4]);
    assert_eq!(subset.width_recorded, vec![true, true, false]);
}

#[test]
fn subset_glyphs_are_distinct_for_one_to_one_names() {
    let used = vec![true; 256];
    let glyphs: Vec<Option<Vec<u8>>> = (0..256).map(|c| name(&format!("g{}", c % 40))).collect();
    let gids: Vec<i32> = (0..256).map(|c| (c % 40) + 1).collect();
    let plan = build_encoding(&used, &glyphs, &gids, 0, 60);
    assert_eq!(plan.gid_map.len(), 41);
    assert_eq!(plan.supplements.len(), 256 - 40);
    let mut sorted = plan.gid_map.clone();
    sorted.sort();
    sorted.dedup();
    assert_eq!(sorted.len(), plan.gid_map.len());
    // Every supplement points at the first code with the same name.
    assert!(plan.supplements.iter().all(|s| s.code as usize == s.source as usize % 40));
}
