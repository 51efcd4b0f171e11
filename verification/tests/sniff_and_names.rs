use dpx::names::{dfont_file_name, dpx_tmpdir, ensuresuffix, temp_file_template};
use dpx::settings::{dpx_delete_old_cache, dpx_file_apply_filter, dpx_file_set_verbose, DpxFileSettings};
use dpx::sniff::{
    check_stream_is_dfont, check_stream_is_opentype, check_stream_is_truetype, check_stream_is_type1,
    PrematureEnd,
};

fn pfb_header(marker: u8, segment_type: u8, text: &[u8]) -> Vec<u8> {
    let mut v = vec![marker, segment_type, 0x10, 0x00, 0x00, 0x00];
    v.extend_from_slice(text);
    while v.len() < 21 {
        v.push(b' ');
    }
    v
}

#[test]
fn truetype_signatures() {
    assert!(check_stream_is_truetype(b"true\x00\x0b"));
    assert!(check_stream_is_truetype(&[0, 1, 0, 0, 0, 0x10]));
    assert!(check_stream_is_truetype(b"ttcf"));
    assert!(!check_stream_is_truetype(b"OTTO"));
    assert!(!check_stream_is_truetype(b"tru"));
    assert!(!check_stream_is_truetype(b""));
}

#[test]
fn opentype_signature() {
    assert!(check_stream_is_opentype(b"OTTO\x00\x0a"));
    assert!(!check_stream_is_opentype(b"OTT"));
    assert!(!check_stream_is_opentype(b"true"));
}

#[test]
fn type1_pfb_signatures() {
    assert!(check_stream_is_type1(&pfb_header(0x80, 1, b"%!PS-AdobeFont-1.0: CMR10")));
    assert!(check_stream_is_type1(&pfb_header(0x80, 3, b"%!FontType1-1.0: X")));
    assert!(check_stream_is_type1(&pfb_header(0x80, 0, b"%!PS-Other")));
    // Not a segment marker, bad segment type, wrong text, too short.
    assert!(!check_stream_is_type1(&pfb_header(0x81, 1, b"%!PS-AdobeFont")));
    assert!(!check_stream_is_type1(&pfb_header(0x80, 4, b"%!PS-AdobeFont")));
    assert!(!check_stream_is_type1(&pfb_header(0x80, 0x90, b"%!PS-AdobeFont")));
    assert!(!check_stream_is_type1(&pfb_header(0x80, 1, b"%%Font")));
    let short = pfb_header(0x80, 1, b"%!PS-AdobeFont");
    assert!(!check_stream_is_type1(&short[..20]));
    // A PFA file (plain text) is not taken for a PFB font.
    assert!(!check_stream_is_type1(b"%!PS-AdobeFont-1.0: CMR10 003.002"));
}

#[test]
fn signatures_are_exclusive_on_samples() {
    let samples: Vec<Vec<u8>> = vec![
        b"true0000".to_vec(),
        b"OTTO0000".to_vec(),
        b"ttcf0000".to_vec(),
        pfb_header(0x80, 1, b"%!PS-AdobeFont"),
    ];
    for s in &samples {
        let n = [check_stream_is_truetype(s), check_stream_is_opentype(s), check_stream_is_type1(s)]
            .iter()
            .filter(|b| **b)
            .count();
        assert_eq!(n, 1);
    }
}

fn put_u32(v: &mut Vec<u8>, at: usize, x: u32) {
    v[at..at + 4].copy_from_slice(&x.to_be_bytes());
}

fn put_u16(v: &mut Vec<u8>, at: usize, x: u16) {
    v[at..at + 2].copy_from_slice(&x.to_be_bytes());
}

/// A resource fork whose map starts at 0x100 and whose type list (at map
/// offset 0x1c) holds the given types.
fn resource_fork(types: &[&[u8; 4]]) -> Vec<u8> {
    let map = 0x100usize;
    let mut v = vec![0u8; map + 0x1e + 8 * types.len()];
    put_u32(&mut v, 0, 0x100);
    put_u32(&mut v, 4, map as u32);
    put_u16(&mut v, map + 0x18, 0x1c);
    put_u16(&mut v, map + 0x1c, (types.len() as u16).wrapping_sub(1));
    for (i, t) in types.iter().enumerate() {
        v[map + 0x1e + 8 * i..map + 0x1e + 8 * i + 4].copy_from_slice(&t[..]);
    }
    v
}

#[test]
fn dfont_with_sfnt_resource() {
    assert_eq!(check_stream_is_dfont(&resource_fork(&[b"sfnt"])), Ok(true));
    assert_eq!(check_stream_is_dfont(&resource_fork(&[b"FOND", b"NFNT", b"sfnt"])), Ok(true));
}

#[test]
fn dfont_without_sfnt_resource() {
    let v = resource_fork(&[b"FOND", b"NFNT"]);
    assert_eq!(check_stream_is_dfont(&v), Ok(false));
}

#[test]
fn dfont_truncated_stream() {
    assert_eq!(check_stream_is_dfont(b"abc"), Err(PrematureEnd));
    assert_eq!(check_stream_is_dfont(&[0, 0, 1, 0, 0, 0, 0x10, 0]), Err(PrematureEnd));
    let mut v = resource_fork(&[b"FOND"]);
    let n = v.len();
    v.truncate(n - 2);
    assert_eq!(check_stream_is_dfont(&v), Err(PrematureEnd));
}

#[test]
fn dfont_decision_survives_more_bytes() {
    let mut v = resource_fork(&[b"sfnt"]);
    assert_eq!(check_stream_is_dfont(&v), Ok(true));
    v.extend_from_slice(&[0xff; 64]);
    assert_eq!(check_stream_is_dfont(&v), Ok(true));
}

#[test]
fn ensuresuffix_rules() {
    assert_eq!(ensuresuffix(b"cmr10", b".otf"), b"cmr10.otf".to_vec());
    assert_eq!(ensuresuffix(b"cmr10.pfb", b".otf"), b"cmr10.pfb".to_vec());
    assert_eq!(ensuresuffix(b"dir.d/cmr10", b".otf"), b"dir.d/cmr10".to_vec());
    assert_eq!(ensuresuffix(b"cmr10", b""), b"cmr10".to_vec());
    let once = ensuresuffix(b"lmroman", b".otf");
    assert_eq!(ensuresuffix(&once, b".otf"), once);
}

#[test]
fn dfont_names() {
    assert_eq!(dfont_file_name(b"Helvetica.ttf"), b"Helvetica.ttf/rsrc".to_vec());
    assert_eq!(dfont_file_name(b"Helvetica.dfont"), b"Helvetica.dfont".to_vec());
    assert_eq!(dfont_file_name(b"abcdef"), b"abcdef".to_vec());
    assert_eq!(dfont_file_name(b"abcdefg"), b"abcdefg/rsrc".to_vec());
}

#[test]
fn tmpdir_rules() {
    assert_eq!(dpx_tmpdir(None), b"/tmp".to_vec());
    assert_eq!(dpx_tmpdir(Some(b"/var/tmp///")), b"/var/tmp".to_vec());
    assert_eq!(dpx_tmpdir(Some(b"///")), b"/".to_vec());
    assert_eq!(dpx_tmpdir(Some(b"")), b"".to_vec());
    let once = dpx_tmpdir(Some(b"/x/"));
    assert_eq!(dpx_tmpdir(Some(&once)), once);
}

#[test]
fn temp_template() {
    assert_eq!(temp_file_template(b"/tmp"), b"/tmp/dvipdfmx.XXXXXX".to_vec());
}

#[test]
fn settings_and_cache() {
    let mut s = DpxFileSettings::new();
    assert_eq!((s.verbose, s.keep_cache), (0, 0));
    assert!(s.removes_temp_file(0));
    s.keep_cache = 1;
    assert!(!s.removes_temp_file(0));
    assert!(s.removes_temp_file(1));
    dpx_file_set_verbose(&mut s, 3);
    assert_eq!((s.verbose, s.keep_cache), (3, 1));
    dpx_delete_old_cache(&mut s, 7);
    assert_eq!(s.keep_cache, 1);
    dpx_delete_old_cache(&mut s, -2);
    assert_eq!(s.keep_cache, -1);
    assert!(s.removes_temp_file(0));
    assert_eq!(s.verbose, 3);
}

#[test]
fn filter_is_defused() {
    assert_eq!(dpx_file_apply_filter(b"convert %i %o", b"a.eps", b"a.pdf", 5), -1);
}
