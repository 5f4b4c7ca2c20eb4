use frankmark::config::{Book, Config};
use frankmark::parser::{load_page, parse_directory, DirSnapshot, PageText};
use frankmark::utils::generate_deterministic_id;

fn config(dirs: Vec<(&str, Vec<&str>)>) -> Config {
    Config {
        book: Book {
            title: "Sample".to_string(),
            description: None,
            author: None,
            github_url: None,
        },
        directories: dirs
            .into_iter()
            .map(|(f, ps)| (f.to_string(), ps.into_iter().map(|p| p.to_string()).collect()))
            .collect(),
    }
}

#[test]
fn loader_renders_markdown_and_extracts_outline() {
    let text = "# Title\n\nsome text\n\n## Sub Sect!on\n";
    let page = load_page(
        &"intro".to_string(),
        &"guide".to_string(),
        &PageText::Content(text.to_string()),
    );
    assert_eq!(page.id, generate_deterministic_id("guide/intro"));
    assert_eq!(page.display_name, "intro");
    assert_eq!(page.folder_name, "guide");
    assert!(page.output_path.is_empty());
    assert!(page.content.contains("<h1>Title</h1>"));
    assert!(page.content.contains("<h2>Sub Sect!on</h2>"));
    assert_eq!(page.headings.len(), 2);
    assert_eq!(page.headings[0].text, "Title");
    assert_eq!(page.headings[0].level, 1);
    assert_eq!(page.headings[0].id, "title");
    assert_eq!(page.headings[1].text, "Sub Sect!on");
    assert_eq!(page.headings[1].level, 2);
    assert_eq!(page.headings[1].id, "sub-sect-on");
}

#[test]
fn loader_substitutes_placeholder_for_unreadable_page() {
    let page = load_page(&"w".to_string(), &"guide".to_string(), &PageText::Unreadable);
    assert_eq!(page.content, "<h1>w</h1>");
    assert_eq!(page.headings.len(), 1);
    assert_eq!(page.headings[0].text, "w");
    assert_eq!(page.headings[0].level, 1);
    assert_eq!(page.headings[0].id, "w");
}

#[test]
fn heading_without_plain_text_is_omitted() {
    let page = load_page(
        &"odd".to_string(),
        &"guide".to_string(),
        &PageText::Content("# *emphasis only*\n\n## Plain\n".to_string()),
    );
    assert_eq!(page.headings.len(), 1);
    assert_eq!(page.headings[0].text, "Plain");
}

#[test]
fn missing_folder_is_skipped_whole() {
    let cfg = config(vec![("A", vec!["x"]), ("B", vec!["z"])]);
    let snapshot = vec![
        DirSnapshot { present: true, pages: vec![PageText::Content("# x".to_string())] },
        DirSnapshot { present: false, pages: vec![PageText::Content("# z".to_string())] },
    ];
    let folders = parse_directory(&cfg, &snapshot);
    assert_eq!(folders.len(), 1);
    assert_eq!(folders[0].name, "A");
}

#[test]
fn missing_page_is_skipped_while_siblings_build() {
    let cfg = config(vec![("A", vec!["x", "y", "z"])]);
    let snapshot = vec![DirSnapshot {
        present: true,
        pages: vec![
            PageText::Content("# x".to_string()),
            PageText::Missing,
            PageText::Content("# z".to_string()),
        ],
    }];
    let folders = parse_directory(&cfg, &snapshot);
    assert_eq!(folders.len(), 1);
    assert_eq!(folders[0].pages.len(), 2);
    assert_eq!(folders[0].pages[0].display_name, "x");
    assert_eq!(folders[0].pages[1].display_name, "z");
}

#[test]
fn folder_with_every_page_missing_is_dropped() {
    let cfg = config(vec![("A", vec!["x"]), ("B", vec!["y", "z"])]);
    let snapshot = vec![
        DirSnapshot { present: true, pages: vec![PageText::Content("# x".to_string())] },
        DirSnapshot { present: true, pages: vec![PageText::Missing, PageText::Missing] },
    ];
    let folders = parse_directory(&cfg, &snapshot);
    assert_eq!(folders.len(), 1);
    assert_eq!(folders[0].name, "A");
}

#[test]
fn rebuild_from_unchanged_inputs_is_identical() {
    let cfg = config(vec![("A", vec!["x", "y"]), ("B", vec!["z"])]);
    let snapshot = vec![
        DirSnapshot {
            present: true,
            pages: vec![PageText::Content("# X\n\nbody".to_string()), PageText::Unreadable],
        },
        DirSnapshot { present: true, pages: vec![PageText::Content("## Z".to_string())] },
    ];
    let root = vec!["output".to_string()];
    let first = frankmark::generator::assign_output_paths(&parse_directory(&cfg, &snapshot), &root);
    let second = frankmark::generator::assign_output_paths(&parse_directory(&cfg, &snapshot), &root);
    assert_eq!(first.len(), second.len());
    for (f1, f2) in first.iter().zip(second.iter()) {
        assert_eq!(f1.name, f2.name);
        assert_eq!(f1.pages.len(), f2.pages.len());
        for (p1, p2) in f1.pages.iter().zip(f2.pages.iter()) {
            assert_eq!(p1.id, p2.id);
            assert_eq!(p1.display_name, p2.display_name);
            assert_eq!(p1.folder_name, p2.folder_name);
            assert_eq!(p1.content, p2.content);
            assert_eq!(p1.output_path, p2.output_path);
            assert_eq!(p1.headings.len(), p2.headings.len());
            for (h1, h2) in p1.headings.iter().zip(p2.headings.iter()) {
                assert_eq!(h1.text, h2.text);
                assert_eq!(h1.level, h2.level);
                assert_eq!(h1.id, h2.id);
            }
        }
    }
}

#[test]
fn empty_manifest_builds_an_empty_site() {
    let cfg = config(vec![]);
    let folders = parse_directory(&cfg, &vec![]);
    assert!(folders.is_empty());
}

#[test]
fn same_named_pages_in_different_folders_have_distinct_ids() {
    let a = load_page(
        &"intro".to_string(),
        &"guide".to_string(),
        &PageText::Content("# a".to_string()),
    );
    let b = load_page(
        &"intro".to_string(),
        &"reference".to_string(),
        &PageText::Content("# b".to_string()),
    );
    assert_ne!(a.id, b.id);
    assert_eq!(a.display_name, b.display_name);
    assert_eq!(a.id, generate_deterministic_id("guide/intro"));
    assert_eq!(b.id, generate_deterministic_id("reference/intro"));
}
