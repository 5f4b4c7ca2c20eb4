use frankmark::config::Book;
use frankmark::models::{Folder, Page};
use frankmark::utils::generate_deterministic_id;

fn page(name: &str, folder: &str) -> Page {
    Page::new(
        Vec::new(),
        format!("{}/{}", folder, name),
        name.to_string(),
        String::new(),
        folder.to_string(),
        Vec::new(),
    )
}

#[test]
fn folder_starts_empty_and_keeps_page_order() {
    let mut folder = Folder::new("guide".to_string());
    assert_eq!(folder.name, "guide");
    assert_eq!(folder.pages.len(), 0);
    folder.add_page(page("one", "guide"));
    folder.add_page(page("two", "guide"));
    assert_eq!(folder.pages.len(), 2);
    assert_eq!(folder.pages[0].display_name, "one");
    assert_eq!(folder.pages[1].display_name, "two");
}

#[test]
fn page_id_comes_from_its_full_name() {
    let p = page("intro", "guide");
    assert_eq!(p.id, generate_deterministic_id("guide/intro"));
    assert_eq!(p.display_name, "intro");
    assert_eq!(p.folder_name, "guide");
    assert!(p.output_path.is_empty());
}

#[test]
fn is_active_compares_identity() {
    let a = page("intro", "guide");
    let again = page("intro", "guide");
    let other_folder = page("intro", "reference");
    let other_name = page("setup", "guide");
    assert!(a.is_active(&again));
    assert!(!a.is_active(&other_folder));
    assert!(!a.is_active(&other_name));
}

fn book(title: &str) -> Book {
    Book { title: title.to_string(), description: None, author: None, github_url: None }
}

#[test]
fn short_title_is_kept_whole() {
    assert_eq!(book("Notes").get_title_header(), "Notes");
    assert_eq!(book("Exactly8!").get_title_header(), "Exactly8!".chars().take(8).collect::<String>() + "...");
    assert_eq!(book("Exactly8").get_title_header(), "Exactly8");
}

#[test]
fn long_title_is_truncated_with_ellipsis() {
    assert_eq!(book("Documentation").get_title_header(), "Document...");
}
