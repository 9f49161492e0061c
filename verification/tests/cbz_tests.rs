use baegun_core::cbz::{
    exceeds_compression_ratio, inspect_image, should_ignore, unsafe_raw_name,
    validate_observed_limits, ComicPage, MAX_COMPRESSION_RATIO, MAX_ENTRY_BYTES,
    MAX_TOTAL_EXPANDED_BYTES,
};
use baegun_core::comic_info::{apply_comic_info_pages, parse_comic_info, parse_usize};
use baegun_core::natural::natural_path_cmp;
use std::cmp::Ordering;

#[test]
fn natural_sort_orders_numbers_and_nested_components() {
    let mut paths = vec![
        "chapter10/1.png",
        "chapter2/10.png",
        "chapter2/2.png",
        "chapter2/1.png",
    ];
    paths.sort_by(|left, right| natural_path_cmp(left, right));
    assert_eq!(
        paths,
        vec![
            "chapter2/1.png",
            "chapter2/2.png",
            "chapter2/10.png",
            "chapter10/1.png"
        ]
    );
}

#[test]
fn natural_sort_has_deterministic_case_ties() {
    assert_eq!(natural_path_cmp("Page1.png", "page1.png"), Ordering::Less);
    assert_eq!(natural_path_cmp("page1.png", "page01.png"), Ordering::Less);
}

#[test]
fn comic_info_parses_metadata_direction_and_cover() {
    let xml = br#"<ComicInfo><Title>A &amp; B</Title><Writer>A Writer</Writer><Publisher>A Press</Publisher><Summary><![CDATA[One < two]]></Summary><LanguageISO>ja</LanguageISO><Manga>YesAndRightToLeft</Manga><Pages><Page Image="0" Type="Story"/><Page Image="1" Type="FrontCover"/></Pages></ComicInfo>"#;
    let parsed = parse_comic_info(xml).expect("ComicInfo should parse");
    assert_eq!(parsed.metadata.title.as_deref(), Some("A & B"));
    assert_eq!(parsed.metadata.author.as_deref(), Some("A Writer"));
    assert_eq!(parsed.metadata.description.as_deref(), Some("One < two"));
    assert_eq!(parsed.metadata.language.as_deref(), Some("ja"));
    assert!(parsed.right_to_left);
    assert!(parsed.pages[1].front_cover);
}

#[test]
fn comic_info_plain_manga_is_ltr_and_deleted_cover_is_remapped() {
    let xml = br#"<ComicInfo><Manga>Yes</Manga><Pages><Page Image="0" Type="Story, Deleted"/><Page Image="1" Type="Story"/><Page Image="2" Type="Story; FrontCover"/></Pages></ComicInfo>"#;
    let parsed = parse_comic_info(xml).expect("ComicInfo should parse");
    assert!(!parsed.right_to_left);
    assert!(parsed.pages[0].deleted);
    assert!(parsed.pages[2].front_cover);

    let pages = (0..3).map(dummy_page).collect();
    let (pages, cover) = apply_comic_info_pages(pages, &parsed.pages);
    assert_eq!(pages.len(), 2);
    assert_eq!(pages[0].bytes, vec![1]);
    assert_eq!(pages[1].bytes, vec![2]);
    assert_eq!(cover, 1);
}

#[test]
fn comic_info_decodes_declared_windows_1252() {
    let mut xml =
        br#"<?xml version="1.0" encoding="windows-1252"?><ComicInfo><Title>Caf"#.to_vec();
    xml.push(0xe9);
    xml.extend_from_slice(b"</Title></ComicInfo>");
    let parsed = parse_comic_info(&xml).expect("declared legacy encoding should parse");
    assert_eq!(parsed.metadata.title.as_deref(), Some("Caf\u{e9}"));
}

#[test]
fn comic_info_rejects_doctype() {
    let xml = br#"<!DOCTYPE ComicInfo SYSTEM "https://example.com/comic.dtd"><ComicInfo/>"#;
    let error = parse_comic_info(xml).expect_err("DTD must be rejected");
    assert!(error.message.contains("DTD"));
}

#[test]
fn image_sniffing_does_not_trust_extension() {
    let malformed = b"not really a png";
    assert!(inspect_image(malformed).is_err());
}

#[test]
fn signature_bearing_malformed_images_fail_decoder_validation() {
    let fake_jpeg = [
        0xff, 0xd8, 0xff, 0xc0, 0x00, 0x0b, 0x08, 0x00, 0x01, 0x00, 0x01, 0x01, 0x01, 0x11,
        0x00, 0xff, 0xd9,
    ];
    assert!(inspect_image(&fake_jpeg).is_err());

    let mut invalid_png = b"\x89PNG\r\n\x1a\n".to_vec();
    let mut ihdr = Vec::new();
    ihdr.extend_from_slice(&1_u32.to_be_bytes());
    ihdr.extend_from_slice(&1_u32.to_be_bytes());
    ihdr.extend_from_slice(&[8, 0, 0, 0, 0]);
    append_png_chunk(&mut invalid_png, b"IHDR", &ihdr);
    append_png_chunk(&mut invalid_png, b"IDAT", b"not zlib data");
    append_png_chunk(&mut invalid_png, b"IEND", &[]);
    assert!(inspect_image(&invalid_png).is_err());
}

#[test]
fn observed_compression_ratio_uses_exact_boundary() {
    validate_observed_limits("page", MAX_COMPRESSION_RATIO, MAX_COMPRESSION_RATIO, 1)
        .expect("exact ratio limit should be accepted");
    let error = validate_observed_limits(
        "page",
        MAX_COMPRESSION_RATIO + 1,
        MAX_COMPRESSION_RATIO + 1,
        1,
    )
    .expect_err("one byte over ratio limit should fail");
    assert!(error.message.contains("compression-ratio"));

    let error = validate_observed_limits("page", MAX_ENTRY_BYTES + 1, 1, u64::MAX)
        .expect_err("actual per-entry bytes must be bounded");
    assert!(error.message.contains("expanded limit"));
    let error = validate_observed_limits("page", 1, MAX_TOTAL_EXPANDED_BYTES + 1, u64::MAX)
        .expect_err("actual cumulative bytes must be bounded");
    assert!(error.message.contains("total expanded limit"));
}

#[test]
fn natural_order_is_antisymmetric_and_ties_only_equal_paths() {
    let paths = ["a/2.png", "a/10.png", "A/2.png", "a/02.png", "b/1.png", "a/2.png"];
    for left in paths {
        for right in paths {
            let forward = natural_path_cmp(left, right);
            assert_eq!(forward, natural_path_cmp(right, left).reverse());
            assert_eq!(forward == Ordering::Equal, left == right);
        }
    }
}

#[test]
fn compression_ratio_rejects_expansion_from_nothing() {
    assert!(exceeds_compression_ratio(1, 0));
    assert!(!exceeds_compression_ratio(0, 0));
    assert!(!exceeds_compression_ratio(1000, 1));
    assert!(exceeds_compression_ratio(1001, 1));
}

#[test]
fn unsafe_entry_names_are_recognised() {
    assert!(unsafe_raw_name("/etc/passwd"));
    assert!(unsafe_raw_name("C:\\pages\\1.png"));
    assert!(unsafe_raw_name("pages/../../1.png"));
    assert!(unsafe_raw_name("pages\\..\\1.png"));
    assert!(!unsafe_raw_name("pages/1.png"));
}

#[test]
fn clutter_entries_are_ignored() {
    assert!(should_ignore("__MACOSX/pages/1.png"));
    assert!(should_ignore("pages/._1.png"));
    assert!(should_ignore("pages/thumbs.DB"));
    assert!(!should_ignore("pages/1.png"));
}

#[test]
fn page_image_indices_parse_like_usize() {
    assert_eq!(parse_usize("12"), Some(12));
    assert_eq!(parse_usize("+7"), Some(7));
    assert_eq!(parse_usize("+"), None);
    assert_eq!(parse_usize("-1"), None);
    assert_eq!(parse_usize(""), None);
    assert_eq!(parse_usize("99999999999999999999999"), None);
}

#[test]
fn deleted_cover_falls_back_to_first_page() {
    let xml = br#"<ComicInfo><Pages><Page Image="0" Type="FrontCover Deleted"/></Pages></ComicInfo>"#;
    let parsed = parse_comic_info(xml).expect("ComicInfo should parse");
    let pages: Vec<ComicPage> = (0..2).map(dummy_page).collect();
    let (pages, cover) = apply_comic_info_pages(pages, &parsed.pages);
    assert_eq!(pages.len(), 1);
    assert_eq!(pages[0].bytes, vec![1]);
    assert_eq!(cover, 0);
}

fn dummy_page(index: u8) -> ComicPage {
    ComicPage {
        source_index: usize::from(index),
        source_path: format!("{index}.png"),
        media_type: "image/png",
        extension: "png",
        width: 1,
        height: 1,
        bytes: vec![index],
    }
}

fn append_png_chunk(output: &mut Vec<u8>, kind: &[u8; 4], data: &[u8]) {
    output.extend_from_slice(&(data.len() as u32).to_be_bytes());
    output.extend_from_slice(kind);
    output.extend_from_slice(data);
    let mut crc = crc32fast::Hasher::new();
    crc.update(kind);
    crc.update(data);
    output.extend_from_slice(&crc.finalize().to_be_bytes());
}

#[test]
fn natural_order_is_transitive_on_samples() {
    let paths = [
        "a/2.png", "a/10.png", "A/2.png", "a/02.png", "b/1.png", "a/x.png", "a/X1.png", "a",
        "a/1/2.png", "10", "9", "09", "page.png",
    ];
    for a in paths {
        for b in paths {
            for c in paths {
                if natural_path_cmp(a, b) == Ordering::Less && natural_path_cmp(b, c) == Ordering::Less {
                    assert_eq!(natural_path_cmp(a, c), Ordering::Less, "{a} < {b} < {c}");
                }
            }
        }
    }
}
