use baegun_core::metadata::{clean_metadata_value, push_subjects};
use baegun_core::natural::{natural_component_order, natural_path_cmp, Order3};
use std::cmp::Ordering;
use baegun_core::normalize::{slugify, split_into_chapters, unique_asset_name};

#[test]
fn slugify_gives_slugs_back_unchanged() {
    for title in ["Chapter One!", "  --Hello__World--  ", "Part 2: The End", "über", "???"] {
        let slug = slugify(title);
        assert_eq!(slugify(&slug), slug);
    }
    assert_eq!(slugify("Chapter One!"), "chapter-one");
}

#[test]
fn titles_without_letters_or_digits_slug_to_chapter() {
    assert_eq!(slugify(""), "chapter");
    assert_eq!(slugify("?!- ..."), "chapter");
    assert_eq!(slugify("éà"), "chapter");
}

#[test]
fn smaller_numbers_come_first_whatever_the_case_and_suffix() {
    assert_eq!(natural_component_order(b"2.png", b"10.png"), Order3::Less);
    assert_eq!(natural_component_order(b"page9.png", b"PAGE10.png"), Order3::Less);
    assert_eq!(natural_component_order(b"v1-9z", b"V1-10a"), Order3::Less);
}

#[test]
fn smaller_numbers_come_first_in_whole_names() {
    assert_eq!(natural_path_cmp("2.png", "10.png"), Ordering::Less);
    assert_eq!(natural_path_cmp("page9.png", "PAGE10.png"), Ordering::Less);
    assert_eq!(natural_path_cmp("Kapitel-ä 99_z.jpg", "kapitel-ä 100_a.jpg"), Ordering::Less);
    assert_eq!(natural_path_cmp("PAGE10.png", "page9.png"), Ordering::Greater);
}

#[test]
fn appended_subjects_are_cleaned_new_subjects() {
    let mut subjects = vec!["History".to_string()];
    let new_subjects = vec![
        "  history ".to_string(),
        " Maps ".to_string(),
        "   ".to_string(),
        "maps".to_string(),
    ];
    push_subjects(&mut subjects, new_subjects.clone());
    assert_eq!(subjects, vec!["History".to_string(), "Maps".to_string()]);
    for appended in &subjects[1..] {
        assert!(new_subjects
            .iter()
            .any(|s| clean_metadata_value(s).as_deref() == Some(appended.as_str())));
    }
}

#[test]
fn asset_names_never_collide() {
    let id: Vec<char> = "img.png".chars().collect();
    let mut used: Vec<Vec<char>> = Vec::new();
    let mut names = Vec::new();
    for _ in 0..4 {
        names.push(unique_asset_name(&id, 1, 2, &mut used).into_iter().collect::<String>());
    }
    assert_eq!(
        names,
        vec!["img.png", "img-p0001-02.png", "img-p0001-02-1.png", "img-p0001-02-2.png"]
    );
    assert_eq!(used.len(), 4);
}

#[test]
fn chapter_bodies_are_trimmed_and_not_empty() {
    let markdown = "  Preface text.  \n\n# One\n\n  First body.\n\n# Two\n\nSecond body.  \n\n# Three\n\n short end \n";
    let chapters = split_into_chapters(markdown);
    assert_eq!(chapters.len(), 3);
    assert_eq!(chapters[0], ("Introduction".to_string(), "Preface text.".to_string()));
    assert_eq!(chapters[2].1, "# Two\n\nSecond body.\n\n# Three\n\n short end");
    for (_, body) in &chapters {
        assert!(!body.is_empty());
        assert_eq!(body.trim(), body);
    }
}
