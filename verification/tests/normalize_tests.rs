use baegun_core::models::{OcrPage, OcrTable, TableFormat};
use baegun_core::normalize::{replace_table_placeholders, slugify, split_into_chapters};

#[test]
fn split_uses_h1_boundaries() {
    let markdown = "# One\nA\n\n# Two\nB";
    let chapters = split_into_chapters(markdown);
    assert_eq!(chapters.len(), 2);
    assert_eq!(chapters[0].0, "One");
    assert_eq!(chapters[1].0, "Two");
}

#[test]
fn split_uses_h2_boundaries_when_no_h1_exists() {
    let markdown = "## First\nA\n\n## Second\nB";
    let chapters = split_into_chapters(markdown);
    assert_eq!(chapters.len(), 2);
    assert_eq!(chapters[0].0, "First");
    assert_eq!(chapters[1].0, "Second");
}

#[test]
fn split_detects_setext_h1_boundaries() {
    let markdown = "One\n===\nBody A\n\nTwo\n===\nBody B";
    let chapters = split_into_chapters(markdown);
    assert_eq!(chapters.len(), 2);
    assert_eq!(chapters[0].0, "One");
    assert_eq!(chapters[1].0, "Two");
}

#[test]
fn split_detects_chapter_style_lines() {
    let markdown = "CHAPTER 1\nBody A\n\nCHAPTER 2\nBody B";
    let chapters = split_into_chapters(markdown);
    assert_eq!(chapters.len(), 2);
    assert_eq!(chapters[0].0, "CHAPTER 1");
    assert_eq!(chapters[1].0, "CHAPTER 2");
}

#[test]
fn table_replacement_handles_multiple_placeholder_shapes() {
    let page = OcrPage {
        index: 0,
        markdown: String::new(),
        images: Vec::new(),
        tables: vec![OcrTable {
            id: Some("table-main.html".to_string()),
            html: Some("<table><tr><td>X</td></tr></table>".to_string()),
            markdown: None,
            content: None,
            extra: vec![("table_id".to_string(), "table-main.html".to_string())],
        }],
        header: None,
        footer: None,
    };

    let markdown = [
        "[table-main.html](table-main.html)",
        "[Table](./table-main.html \"Main table\")",
        "<table-main.html>",
        "table-main.html",
    ]
    .join("\n\n");

    let replaced = replace_table_placeholders(markdown, &page, TableFormat::Html);
    assert!(replaced.contains("<table><tr><td>X</td></tr></table>"));
    assert!(!replaced.contains("table-main.html)"));
    assert!(!replaced.contains("<table-main.html>"));
}

#[test]
fn blank_markdown_has_no_chapters() {
    assert!(split_into_chapters("  \n\t\n").is_empty());
}

#[test]
fn every_split_chapter_has_a_body() {
    let chapters = split_into_chapters("# One\nA\n\n# Two\nB\n\n# Three\nC");
    // A short trailing chapter is folded into the one before it.
    assert_eq!(chapters.len(), 2);
    assert_eq!(chapters[1].0, "Two");
    assert_eq!(chapters[1].1, "# Two\nB\n\n# Three\nC");
    for (_, body) in &chapters {
        assert!(!body.is_empty());
    }
}

#[test]
fn slugify_keeps_lowercase_words_joined_by_dashes() {
    assert_eq!(slugify("Hello, World!"), "hello-world");
}
