use baegun_core::cache::hash_source_bytes;
use baegun_core::cbz::{
    account_chunk, load_cbz, check_archive_size, check_expanded_size, classify_entries, keeps_bytes,
    map_entry_error, map_named_entry_error, normalized_relative_path, observed_read_limit,
    pixel_count, reject_comic_mode, source_title, validate_entry_type, validate_image_limits,
    ArchiveEntry, ComicAssembly, EntryDescriptor, EntryKind, MAX_ARCHIVE_ENTRIES,
    MAX_COMIC_INFO_BYTES, MAX_ENTRY_BYTES,
};
use baegun_core::errors::ErrorKind;
use baegun_core::models::{ConvertConfig, OcrBackend, PageProgressionDirection, TableFormat};

fn comic_config() -> ConvertConfig {
    ConvertConfig {
        input_pdf: "input/My Comic.cbz".to_string(),
        output_epub: "out.epub".to_string(),
        api_key: None,
        provider: OcrBackend::Mistral,
        model: "mistral-ocr-latest".to_string(),
        title: None,
        author: None,
        language: "en".to_string(),
        publisher: None,
        table_format: TableFormat::Html,
        extract_header: true,
        extract_footer: true,
        include_images: true,
        comic_mode: false,
        cache_dir: "cache".to_string(),
        no_cache: false,
        validate: false,
        epubcheck_bin: "epubcheck".to_string(),
        keep_remote_file: false,
        fail_on_warn: false,
        debug_dir: None,
        quiet: true,
        verbose: false,
    }
}

fn gray_png(width: u32, height: u32) -> Vec<u8> {
    let mut out = Vec::new();
    {
        let mut encoder = png::Encoder::new(&mut out, width, height);
        encoder.set_color(png::ColorType::Grayscale);
        encoder.set_depth(png::BitDepth::Eight);
        let mut writer = encoder.write_header().expect("header");
        let data = vec![128_u8; (width * height) as usize];
        writer.write_image_data(&data).expect("data");
    }
    out
}

fn entry(name: &str, size: u64) -> ArchiveEntry {
    ArchiveEntry {
        raw_name: name.to_string(),
        enclosed_name: Some(name.to_string()),
        unix_mode: Some(0o100644),
        is_dir: false,
        size,
        compressed_size: size,
    }
}

fn descriptor(index: usize, path: &str, kind: EntryKind, size: u64) -> EntryDescriptor {
    EntryDescriptor {
        index,
        path: path.to_string(),
        kind,
        declared_size: size,
        compressed_size: size,
    }
}

#[test]
fn entries_are_classified_in_directory_order() {
    let mut dir = entry("pages/", 0);
    dir.is_dir = true;
    let entries = vec![
        Ok(dir),
        Ok(entry("pages/2.png", 10)),
        Ok(entry("ComicInfo.xml", 5)),
        Ok(entry("__MACOSX/._2.png", 3)),
    ];
    let descriptors = classify_entries(&entries).expect("archive is acceptable");
    let kinds: Vec<_> = descriptors.iter().map(|d| (d.index, d.path.clone(), d.kind)).collect();
    assert_eq!(
        kinds,
        vec![
            (1, "pages/2.png".to_string(), EntryKind::ImageCandidate),
            (2, "ComicInfo.xml".to_string(), EntryKind::ComicInfo),
            (3, "__MACOSX/._2.png".to_string(), EntryKind::Ignored),
        ]
    );
}

#[test]
fn classification_rejects_unsafe_and_duplicate_entries() {
    let error = classify_entries(&vec![Ok(entry("../evil.png", 1))]).unwrap_err();
    assert_eq!(error.kind, ErrorKind::BadArgs);
    assert_eq!(error.message, "Unsafe CBZ entry path '../evil.png'.");

    let error = classify_entries(&vec![Ok(entry("ComicInfo.xml", 1)), Ok(entry("comicinfo.XML", 1))])
        .unwrap_err();
    assert_eq!(error.message, "CBZ archive contains duplicate root ComicInfo.xml entries.");

    let error = classify_entries(&vec![Ok(entry("a.png", MAX_ENTRY_BYTES + 1))]).unwrap_err();
    assert_eq!(
        error.message,
        "CBZ entry 'a.png' expands to 104857601 bytes; per-entry limit is 104857600 bytes."
    );

    let error = classify_entries(&vec![Ok(entry("a.png", 1)), Err("broken header".to_string())])
        .unwrap_err();
    assert_eq!(error.message, "Failed inspecting CBZ entry #1: broken header");
}

#[test]
fn archive_entry_count_is_capped() {
    assert!(check_archive_size(MAX_ARCHIVE_ENTRIES).is_ok());
    let error = check_archive_size(MAX_ARCHIVE_ENTRIES + 1).unwrap_err();
    assert_eq!(error.message, "CBZ archive has 10001 entries; limit is 10000.");
}

#[test]
fn encrypted_entries_are_named_as_such() {
    assert_eq!(
        map_entry_error(4, "Password required to decrypt file").message,
        "CBZ entry #4 is encrypted; encrypted archives are not supported."
    );
    assert_eq!(
        map_named_entry_error("p.png", "invalid Zip archive").message,
        "Failed opening CBZ entry 'p.png': invalid Zip archive"
    );
}

#[test]
fn only_regular_files_and_directories_are_allowed() {
    assert!(validate_entry_type(Some(0o100644), false, "a.png").is_ok());
    assert!(validate_entry_type(None, true, "dir/").is_ok());
    let error = validate_entry_type(Some(0o120777), false, "link.png").unwrap_err();
    assert_eq!(
        error.message,
        "CBZ entry 'link.png' is a symbolic link; only regular files and directories are allowed."
    );
}

#[test]
fn entry_paths_are_normalized() {
    assert_eq!(normalized_relative_path("./pages/1.png").ok(), Some("pages/1.png".to_string()));
    let error = normalized_relative_path(".").unwrap_err();
    assert_eq!(error.message, "CBZ entry has an empty path.");
}

#[test]
fn reading_is_held_to_the_limits() {
    let page = descriptor(0, "p.png", EntryKind::ImageCandidate, 10);
    assert_eq!(observed_read_limit(&page, 0), 10 * 1000 + 1);
    let info = descriptor(1, "ComicInfo.xml", EntryKind::ComicInfo, 10_000_000);
    assert_eq!(observed_read_limit(&info, 0), MAX_COMIC_INFO_BYTES + 1);

    assert_eq!(account_chunk(&page, 3, 100, 4).ok(), Some((7, 104)));
    let error = account_chunk(&page, 10_000, 10_000, 1).unwrap_err();
    assert_eq!(
        error.message,
        "CBZ entry 'p.png' exceeds the 1000:1 compression-ratio limit while reading."
    );

    assert!(check_expanded_size(&page, 10).is_ok());
    let error = check_expanded_size(&page, 9).unwrap_err();
    assert_eq!(
        error.message,
        "CBZ entry 'p.png' expanded to 9 bytes, but its ZIP metadata declares 10 bytes."
    );
    assert!(keeps_bytes(EntryKind::ComicInfo));
    assert!(!keeps_bytes(EntryKind::Ignored));
}

#[test]
fn image_size_limits() {
    assert_eq!(pixel_count(100_000, 1000), Ok(100_000_000));
    assert!(validate_image_limits(1, 1, 1).is_ok());
    assert!(validate_image_limits(100_001, 1, 1).is_err());
    assert!(validate_image_limits(100_000, 1001, 1).is_err());
}

#[test]
fn comic_mode_is_refused_for_archives() {
    let mut cfg = comic_config();
    assert!(reject_comic_mode(&cfg).is_ok());
    cfg.comic_mode = true;
    let error = reject_comic_mode(&cfg).unwrap_err();
    assert_eq!(
        error.message,
        "--comic is PDF-only; CBZ files are always rendered as fixed-layout image pages."
    );
}

#[test]
fn source_title_is_the_trimmed_file_stem() {
    assert_eq!(source_title("input/My Comic.cbz"), "My Comic");
    assert_eq!(source_title(""), "Comic");
}

#[test]
fn assembly_orders_pages_naturally_and_applies_comic_info() {
    let wide = gray_png(2, 1);
    let square = gray_png(1, 1);
    let mut assembly = ComicAssembly::new();
    assembly
        .add_entry(descriptor(0, "10.png", EntryKind::ImageCandidate, 0), square.clone())
        .expect("page");
    assembly
        .add_entry(descriptor(1, "notes.txt", EntryKind::ImageCandidate, 0), b"notes".to_vec())
        .expect("not an image, skipped");
    assembly
        .add_entry(descriptor(2, "2.png", EntryKind::ImageCandidate, 0), wide.clone())
        .expect("page");
    let info = br#"<ComicInfo><Title>Saga</Title><Manga>YesAndRightToLeft</Manga><Pages><Page Image="1" Type="FrontCover"/></Pages></ComicInfo>"#;
    assembly
        .add_entry(descriptor(3, "ComicInfo.xml", EntryKind::ComicInfo, 0), info.to_vec())
        .expect("metadata");
    assert_eq!(assembly.pages.len(), 2);

    let (book, count) = assembly
        .finish(&comic_config(), "hash".to_string())
        .expect("book renders");
    assert_eq!(count, 2);
    assert_eq!(book.title, "Saga");
    assert!(book.fixed_layout);
    assert_eq!(book.page_progression_direction, PageProgressionDirection::RightToLeft);
    assert_eq!(book.chapters.len(), 2);
    assert_eq!(book.images.len(), 2);
    assert_eq!(book.images[0].bytes, wide);
    assert_eq!(book.images[1].bytes, square);
    assert!(book.chapters[0].xhtml.contains("width=2, height=1"));
    assert_eq!(book.cover_image.as_ref(), Some(&book.images[1].file_name));
    assert_eq!(book.source_hash, "hash");
}

#[test]
fn malformed_named_images_and_empty_archives_fail() {
    let mut assembly = ComicAssembly::new();
    let error = assembly
        .add_entry(descriptor(0, "page.png", EntryKind::ImageCandidate, 0), b"junk".to_vec())
        .unwrap_err();
    assert_eq!(
        error.message,
        "Unsupported or malformed CBZ image 'page.png': content is not JPEG or PNG"
    );
    let error = assembly.finish(&comic_config(), "h".to_string()).unwrap_err();
    assert_eq!(error.message, "CBZ archive contains no supported JPEG or PNG pages.");
}

fn archive(files: &[(&str, Vec<u8>)]) -> Vec<u8> {
    let mut cursor = std::io::Cursor::new(Vec::new());
    {
        let mut writer = zip::ZipWriter::new(&mut cursor);
        let options = zip::write::SimpleFileOptions::default()
            .compression_method(zip::CompressionMethod::Stored);
        for (name, data) in files {
            writer.start_file(*name, options).expect("entry");
            std::io::Write::write_all(&mut writer, data).expect("data");
        }
        writer.finish().expect("finish");
    }
    cursor.into_inner()
}

#[test]
fn archives_load_into_ordered_fixed_layout_books() {
    let wide = gray_png(2, 1);
    let square = gray_png(1, 1);
    let bytes = archive(&[
        ("10.png", square.clone()),
        ("2.png", wide.clone()),
        ("ComicInfo.xml", br#"<ComicInfo><Title>Saga</Title></ComicInfo>"#.to_vec()),
        ("__MACOSX/._2.png", b"junk".to_vec()),
    ]);
    let (book, pages) = load_cbz(&comic_config(), &bytes).expect("archive loads");
    assert_eq!(pages, 2);
    assert_eq!(book.title, "Saga");
    assert_eq!(book.chapters.len(), 2);
    assert_eq!(book.images[0].bytes, wide);
    assert_eq!(book.images[1].bytes, square);
    assert_eq!(book.source_hash, hash_source_bytes(&bytes));
}

#[test]
fn archive_loading_refuses_bad_input() {
    let error = load_cbz(&comic_config(), b"not a zip").unwrap_err();
    assert_eq!(error.kind, ErrorKind::BadArgs);
    assert!(error.message.starts_with("Invalid CBZ ZIP archive 'input/My Comic.cbz': "));

    let mut cfg = comic_config();
    cfg.comic_mode = true;
    let error = load_cbz(&cfg, &archive(&[("1.png", gray_png(1, 1))])).unwrap_err();
    assert_eq!(
        error.message,
        "--comic is PDF-only; CBZ files are always rendered as fixed-layout image pages."
    );

    let error = load_cbz(&comic_config(), &archive(&[("notes.txt", b"x".to_vec())])).unwrap_err();
    assert_eq!(error.message, "CBZ archive contains no supported JPEG or PNG pages.");
}
