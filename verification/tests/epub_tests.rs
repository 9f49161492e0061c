use baegun_core::epub::{
    build_content_opf, build_cover_xhtml, build_nav_xhtml, content_opf_with_modified,
    epub_entries, EntryContent,
};
use baegun_core::models::{ImageAsset, PageProgressionDirection, RenderedBook, RenderedChapter};

fn sample_book() -> RenderedBook {
    RenderedBook {
        title: "Example".to_string(),
        author: None,
        language: "en".to_string(),
        publisher: None,
        description: None,
        subjects: Vec::new(),
        source_hash: "abc123".to_string(),
        chapters: vec![RenderedChapter {
            id: "chapter-001".to_string(),
            title: "One".to_string(),
            file_name: "chapter-001-one.xhtml".to_string(),
            markdown: "Body".to_string(),
            xhtml: "<html/>".to_string(),
        }],
        images: Vec::new(),
        cover_image: None,
        fixed_layout: false,
        page_progression_direction: PageProgressionDirection::LeftToRight,
    }
}

#[test]
fn content_opf_includes_dcterms_modified() {
    let opf = build_content_opf(&sample_book());
    assert!(
        opf.contains("<meta property=\"dcterms:modified\">"),
        "OPF must declare a dcterms:modified property for EPUB 3 validity"
    );
    // Whole-second xsd:dateTime in UTC (ends with `Z`), e.g. 2024-01-02T03:04:05Z.
    assert!(opf.contains("T") && opf.contains("Z</meta>"));
}

fn book_with_cover() -> RenderedBook {
    let mut book = sample_book();
    book.title = "Tom & Jerry".to_string();
    book.author = Some("A <B>".to_string());
    book.subjects = vec!["x".to_string()];
    book.images = vec![
        ImageAsset {
            file_name: "img-cover.png".to_string(),
            media_type: "image/png".to_string(),
            bytes: vec![1, 2, 3],
        },
        ImageAsset {
            file_name: "img-2.jpg".to_string(),
            media_type: "image/jpeg".to_string(),
            bytes: vec![4],
        },
    ];
    book.cover_image = Some("img-cover.png".to_string());
    book
}

#[test]
fn content_opf_lists_cover_chapters_and_images() {
    let opf = content_opf_with_modified(&book_with_cover(), "2024-01-02T03:04:05Z");
    assert!(opf.contains("<dc:title>Tom &amp; Jerry</dc:title>"));
    assert!(opf.contains("<dc:creator>A &lt;B&gt;</dc:creator>"));
    assert!(opf.contains("<dc:subject>x</dc:subject>"));
    assert!(opf.contains("<meta property=\"dcterms:modified\">2024-01-02T03:04:05Z</meta>"));
    assert!(opf.contains(
        "<item id=\"img-0001\" href=\"images/img-cover.png\" media-type=\"image/png\" properties=\"cover-image\"/>"
    ));
    assert!(opf.contains("<item id=\"img-0002\" href=\"images/img-2.jpg\" media-type=\"image/jpeg\"/>"));
    assert!(opf.contains("<spine>\n    <itemref idref=\"cover\"/>\n    <itemref idref=\"chapter-001\"/>\n  </spine>"));
}

#[test]
fn navigation_and_cover_pages_escape_text() {
    let book = book_with_cover();
    let nav = build_nav_xhtml(&book);
    assert!(nav.contains("<li><a href=\"text/chapter-001-one.xhtml\">One</a></li>"));
    let cover = build_cover_xhtml(&book, "img-cover.png");
    assert!(cover.contains("<img src=\"../images/img-cover.png\" alt=\"Tom &amp; Jerry\" />"));
}

#[test]
fn archive_entries_start_with_stored_mimetype() {
    let entries = epub_entries(&book_with_cover());
    let paths: Vec<&str> = entries.iter().map(|e| e.path.as_str()).collect();
    assert_eq!(
        paths,
        vec![
            "mimetype",
            "META-INF/container.xml",
            "OEBPS/styles/book.css",
            "OEBPS/nav.xhtml",
            "OEBPS/content.opf",
            "OEBPS/text/cover.xhtml",
            "OEBPS/text/chapter-001-one.xhtml",
            "OEBPS/images/img-cover.png",
            "OEBPS/images/img-2.jpg",
        ]
    );
    assert!(entries[0].stored);
    assert!(entries[1..].iter().all(|e| !e.stored));
    assert!(matches!(&entries[0].content, EntryContent::Text(t) if t == "application/epub+zip"));
    assert!(matches!(entries[8].content, EntryContent::Image(1)));
}

#[test]
fn modified_stamp_is_a_whole_second_utc_datetime() {
    let opf = build_content_opf(&sample_book());
    let marker = "<meta property=\"dcterms:modified\">";
    assert_eq!(opf.matches(marker).count(), 1);
    let start = opf.find(marker).unwrap() + marker.len();
    let end = start + opf[start..].find("</meta>").unwrap();
    let stamp: Vec<char> = opf[start..end].chars().collect();
    assert_eq!(stamp.len(), 20);
    for (i, c) in stamp.iter().enumerate() {
        match i {
            4 | 7 => assert_eq!(*c, '-'),
            10 => assert_eq!(*c, 'T'),
            13 | 16 => assert_eq!(*c, ':'),
            19 => assert_eq!(*c, 'Z'),
            _ => assert!(c.is_ascii_digit()),
        }
    }
}
