use roextract::headers::{
    bytes_contains, bytes_search, extension_by_name, extract_bytes, extraction_would_fail, find_header,
    find_header_kind, find_header_would_fail, headers_for_mode, mode_name, plan_extraction, Header,
};

fn mode(i: u8) -> String {
    mode_name(i)
}

#[test]
fn bytes_search_finds_first_window() {
    assert_eq!(bytes_search(b"xxOggSyyOggS".to_vec(), b"OggS"), Some(2));
}

#[test]
fn bytes_search_at_start_and_end() {
    assert_eq!(bytes_search(b"PNGabc".to_vec(), b"PNG"), Some(0));
    assert_eq!(bytes_search(b"abcPNG".to_vec(), b"PNG"), Some(3));
}

#[test]
fn bytes_search_missing_or_longer_needle() {
    assert_eq!(bytes_search(b"abcdef".to_vec(), b"xyz"), None);
    assert_eq!(bytes_search(b"ab".to_vec(), b"abc"), None);
    assert_eq!(bytes_search(Vec::new(), b"a"), None);
}

#[test]
fn bytes_contains_matches_search() {
    assert!(bytes_contains(b"hello <roblox! world", b"<roblox!"));
    assert!(!bytes_contains(b"hello world", b"<roblox!"));
    assert!(!bytes_contains(b"KT", b"KTX"));
}

#[test]
fn mode_names_are_the_categories() {
    assert_eq!(mode(0), "Music");
    assert_eq!(mode(1), "Sounds");
    assert_eq!(mode(2), "Images");
    assert_eq!(mode(3), "KTX files");
    assert_eq!(mode(4), "RBXM files");
}

#[test]
fn headers_of_each_category() {
    assert_eq!(headers_for_mode(&mode(1)), vec![Header::OggS, Header::Id3]);
    assert_eq!(headers_for_mode(&mode(2)), vec![Header::Png, Header::Webp]);
    assert_eq!(headers_for_mode(&mode(3)), vec![Header::Ktx, Header::Blank]);
    assert_eq!(headers_for_mode(&mode(4)), vec![Header::Roblox, Header::Blank]);
    assert!(headers_for_mode(&mode(0)).is_empty());
    assert!(headers_for_mode(&"sounds".to_string()).is_empty());
}

#[test]
fn header_bytes_names_and_offsets() {
    assert_eq!(Header::OggS.bytes(), b"OggS".to_vec());
    assert_eq!(Header::Roblox.bytes(), b"<roblox!".to_vec());
    assert_eq!(Header::Id3.name(), "ID3");
    assert_eq!(Header::Webp.name(), "WEBP");
    assert_eq!(Header::Png.offset(), 1);
    assert_eq!(Header::Ktx.offset(), 1);
    assert_eq!(Header::Webp.offset(), 8);
    assert_eq!(Header::OggS.offset(), 0);
    assert!(Header::Blank.bytes().is_empty());
}

#[test]
fn find_header_takes_category_order() {
    // ID3 comes first in the file, but OggS is listed first for sounds.
    let bytes = b"ID3 .... OggS ....".to_vec();
    assert_eq!(find_header(mode(1), bytes), "OggS");
    assert_eq!(find_header(mode(1), b"xxID3yy".to_vec()), "ID3");
}

#[test]
fn find_header_images_and_rbxm() {
    assert_eq!(find_header(mode(2), b"\x89PNG\r\n".to_vec()), "PNG");
    assert_eq!(find_header(mode(2), b"RIFF\x00\x00\x00\x00WEBPVP8".to_vec()), "WEBP");
    assert_eq!(find_header(mode(4), b"<roblox!\x89\xff".to_vec()), "<roblox!");
}

#[test]
fn find_header_without_match_is_invalid() {
    assert_eq!(find_header(mode(1), b"nothing here".to_vec()), "INVALID");
    assert_eq!(find_header(mode(0), b"OggS".to_vec()), "INVALID");
    assert_eq!(find_header(mode(2), Vec::new()), "INVALID");
    assert_eq!(find_header_kind(&mode(1), b"abc"), None);
}

#[test]
fn find_header_reaching_blank_header_fails() {
    assert!(find_header_would_fail(&mode(3), b"no texture"));
    assert!(find_header_would_fail(&mode(4), b"no model"));
    assert!(!find_header_would_fail(&mode(3), b"\xabKTX 11"));
    assert!(!find_header_would_fail(&mode(1), b"no sound"));
    assert!(!find_header_would_fail(&mode(0), b""));
}

#[test]
fn extract_bytes_png_starts_one_before_header() {
    let bytes = vec![0u8, 0, 0x89, b'P', b'N', b'G', 1, 2];
    assert_eq!(extract_bytes("PNG".to_string(), bytes), vec![0x89, b'P', b'N', b'G', 1, 2]);
}

#[test]
fn extract_bytes_webp_starts_eight_before_header() {
    let bytes = b"junkRIFF\x10\x00\x00\x00WEBPVP8 ".to_vec();
    assert_eq!(extract_bytes("WEBP".to_string(), bytes), b"RIFF\x10\x00\x00\x00WEBPVP8 ".to_vec());
}

#[test]
fn extract_bytes_without_offset_starts_at_header() {
    assert_eq!(extract_bytes("OggS".to_string(), b"cacheOggSdata".to_vec()), b"OggSdata".to_vec());
}

#[test]
fn extract_bytes_missing_header_keeps_everything() {
    assert_eq!(extract_bytes("OggS".to_string(), b"plain".to_vec()), b"plain".to_vec());
}

#[test]
fn extensions_by_header_name() {
    assert_eq!(extension_by_name(&"OggS".to_string()), Some(".ogg".to_string()));
    assert_eq!(extension_by_name(&"ID3".to_string()), Some(".mp3".to_string()));
    assert_eq!(extension_by_name(&"PNG".to_string()), Some(".png".to_string()));
    assert_eq!(extension_by_name(&"WEBP".to_string()), Some(".webp".to_string()));
    assert_eq!(extension_by_name(&"KTX".to_string()), Some(".ktx".to_string()));
    assert_eq!(extension_by_name(&"<roblox!".to_string()), Some(".rbxm".to_string()));
    assert_eq!(extension_by_name(&"INVALID".to_string()), None);
}

#[test]
fn extraction_fails_when_header_is_closer_than_its_offset() {
    assert!(extraction_would_fail(&mode(2), &b"PNGdata".to_vec()));
    assert!(!extraction_would_fail(&mode(2), &b"\x89PNGdata".to_vec()));
    assert!(extraction_would_fail(&mode(3), &b"nothing".to_vec()));
    assert!(!extraction_would_fail(&mode(0), &b"anything".to_vec()));
}

#[test]
fn plan_extraction_adds_header_extension() {
    let (dest, bytes) = plan_extraction(mode(1), b"xxOggSdata".to_vec(), "/tmp/a".to_string(), true);
    assert_eq!(dest, "/tmp/a.ogg");
    assert_eq!(bytes, b"OggSdata".to_vec());
    let (dest, bytes) = plan_extraction(mode(1), b"xxID3tag".to_vec(), "/tmp/b".to_string(), true);
    assert_eq!(dest, "/tmp/b.mp3");
    assert_eq!(bytes, b"ID3tag".to_vec());
}

#[test]
fn plan_extraction_music_keeps_bytes_and_adds_ogg() {
    let (dest, bytes) = plan_extraction(mode(0), b"raw music".to_vec(), "/out/Music/x".to_string(), true);
    assert_eq!(dest, "/out/Music/x.ogg");
    assert_eq!(bytes, b"raw music".to_vec());
}

#[test]
fn plan_extraction_without_extension_keeps_destination() {
    let (dest, bytes) = plan_extraction(mode(2), b"..\x89PNG!".to_vec(), "/out/img".to_string(), false);
    assert_eq!(dest, "/out/img");
    assert_eq!(bytes, b"\x89PNG!".to_vec());
}
