use frankmark::config::Book;
use frankmark::generator::assign_output_paths;
use frankmark::models::{Folder, Page};
use frankmark::template::MainTemplate;

fn page(name: &str, folder: &str) -> Page {
    Page::new(
        Vec::new(),
        format!("{}/{}", folder, name),
        name.to_string(),
        String::new(),
        folder.to_string(),
        Vec::new(),
    )
}

fn book() -> Book {
    Book { title: "Sample".to_string(), description: None, author: None, github_url: None }
}

/// Two folders at depth one under the output root, with planned paths.
fn planned_site() -> Vec<Folder> {
    let mut f1 = Folder::new("F1".to_string());
    f1.add_page(page("p1", "F1"));
    f1.add_page(page("p3", "F1"));
    let mut f2 = Folder::new("F2".to_string());
    f2.add_page(page("p2", "F2"));
    assign_output_paths(&vec![f1, f2], &vec!["output".to_string()])
}

#[test]
fn link_to_other_folder_climbs_one_level() {
    let book = book();
    let folders = planned_site();
    let current = &folders[0].pages[0];
    let template = MainTemplate::new(&book, &folders, current, None, None);
    assert_eq!(template.get_relative_path_url(&folders[1].pages[0]), "../F2/p2.html");
}

#[test]
fn link_within_folder_is_the_bare_filename() {
    let book = book();
    let folders = planned_site();
    let current = &folders[0].pages[0];
    let template = MainTemplate::new(&book, &folders, current, None, None);
    assert_eq!(template.get_relative_path_url(&folders[0].pages[1]), "p3.html");
    assert_eq!(template.get_relative_path_url(current), "p1.html");
}

#[test]
fn first_page_url_points_at_the_landing_document() {
    let book = book();
    let folders = planned_site();
    let template = MainTemplate::new(&book, &folders, &folders[1].pages[0], None, None);
    assert_eq!(template.get_first_page_url(), "../F1/p1.html");
    let template = MainTemplate::new(&book, &folders, &folders[0].pages[0], None, None);
    assert_eq!(template.get_first_page_url(), "p1.html");
}

#[test]
fn only_the_current_folder_is_flagged_open() {
    let book = book();
    let folders = planned_site();
    let template = MainTemplate::new(&book, &folders, &folders[0].pages[0], None, None);
    assert_eq!(template.is_current_page_folder(&folders[0]), "uk-open");
    assert_eq!(template.is_current_page_folder(&folders[1]), "");
}

#[test]
fn both_neighbours_are_required_for_the_pager() {
    let book = book();
    let folders = planned_site();
    let current = &folders[0].pages[1];
    let prev = page("p1", "F1");
    let next = page("p2", "F2");
    assert!(MainTemplate::new(&book, &folders, current, Some(&prev), Some(&next))
        .has_previous_and_next_pages());
    assert!(!MainTemplate::new(&book, &folders, current, None, Some(&next))
        .has_previous_and_next_pages());
    assert!(!MainTemplate::new(&book, &folders, current, Some(&prev), None)
        .has_previous_and_next_pages());
}

#[test]
fn display_name_is_qualified_outside_the_current_folder() {
    let book = book();
    let folders = planned_site();
    let template = MainTemplate::new(&book, &folders, &folders[0].pages[0], None, None);
    assert_eq!(template.get_page_display_name(&folders[0].pages[1]), "p3");
    assert_eq!(template.get_page_display_name(&folders[1].pages[0]), "F2/p2");
}

#[test]
fn planner_mirrors_folders_under_the_output_root() {
    let folders = planned_site();
    assert_eq!(folders[0].pages[0].output_path, vec!["output", "F1", "p1.html"]);
    assert_eq!(folders[1].pages[0].output_path, vec!["output", "F2", "p2.html"]);
}
