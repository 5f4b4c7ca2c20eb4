use frankmark::models::{Folder, Page};
use frankmark::navigation::PageNavigator;

fn page(name: &str, folder: &str) -> Page {
    Page::new(
        Vec::new(),
        format!("{}/{}", folder, name),
        name.to_string(),
        String::new(),
        folder.to_string(),
        Vec::new(),
    )
}

fn two_folder_site() -> Vec<Folder> {
    let mut a = Folder::new("A".to_string());
    a.add_page(page("x", "A"));
    a.add_page(page("y", "A"));
    let mut b = Folder::new("B".to_string());
    b.add_page(page("z", "B"));
    vec![a, b]
}

#[test]
fn reading_order_is_manifest_order() {
    let folders = two_folder_site();
    let nav = PageNavigator::new(&folders);
    assert_eq!(nav.all_pages.len(), 3);
    assert_eq!(nav.all_pages[0].display_name, "x");
    assert_eq!(nav.all_pages[1].display_name, "y");
    assert_eq!(nav.all_pages[2].display_name, "z");
}

#[test]
fn next_follows_reading_order_across_folders() {
    let folders = two_folder_site();
    let nav = PageNavigator::new(&folders);
    let next_of_x = nav.get_next_page(&folders[0].pages[0]).unwrap();
    assert_eq!(next_of_x.display_name, "y");
    let next_of_y = nav.get_next_page(&folders[0].pages[1]).unwrap();
    assert_eq!(next_of_y.display_name, "z");
    assert!(nav.get_next_page(&folders[1].pages[0]).is_none());
}

#[test]
fn previous_follows_reading_order_across_folders() {
    let folders = two_folder_site();
    let nav = PageNavigator::new(&folders);
    assert!(nav.get_previous_page(&folders[0].pages[0]).is_none());
    let prev_of_y = nav.get_previous_page(&folders[0].pages[1]).unwrap();
    assert_eq!(prev_of_y.display_name, "x");
    let prev_of_z = nav.get_previous_page(&folders[1].pages[0]).unwrap();
    assert_eq!(prev_of_z.display_name, "y");
}

#[test]
fn unknown_page_has_no_neighbours() {
    let folders = two_folder_site();
    let nav = PageNavigator::new(&folders);
    let stranger = page("stranger", "C");
    assert!(nav.get_next_page(&stranger).is_none());
    assert!(nav.get_previous_page(&stranger).is_none());
}

#[test]
fn empty_site_has_an_empty_reading_order() {
    let nav = PageNavigator::new(&Vec::new());
    assert!(nav.all_pages.is_empty());
    let stranger = page("stranger", "C");
    assert!(nav.get_next_page(&stranger).is_none());
    assert!(nav.get_previous_page(&stranger).is_none());
}
