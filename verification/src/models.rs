//! The site model: folders owning ordered pages, and the heading outline of
//! each page. Folders and pages are built once per run; a page's output
//! location is assigned in a second phase, after the whole tree is known.

use vstd::prelude::*;

use crate::utils;

verus! {

/// One heading of a page's outline.
pub struct Heading {
    pub text: String,
    pub level: u8,
    pub id: String,
}

/// Mathematical model of a heading.
pub struct HeadingView {
    pub text: Seq<char>,
    pub level: u8,
    pub id: Seq<char>,
}

impl View for Heading {
    type V = HeadingView;

    open spec fn view(&self) -> HeadingView {
        HeadingView { text: self.text@, level: self.level, id: self.id@ }
    }
}

/// A heading as the document loader emits it: its level is a markdown heading
/// rank and its anchor is the slug of its text.
pub open spec fn heading_wf(h: HeadingView) -> bool {
    &&& 1 <= h.level <= 6
    &&& h.id == crate::parser::slug_of(h.text)
}

/// One page of the site.
pub struct Page {
    /// Segments of the target file location; empty until the output path
    /// planner has run.
    pub output_path: Vec<String>,
    pub id: String,
    pub display_name: String,
    pub content: String,
    /// Back-reference to the owning folder, by name.
    pub folder_name: String,
    pub headings: Vec<Heading>,
}

/// Mathematical model of a page.
pub struct PageView {
    pub output_path: Seq<Seq<char>>,
    pub id: Seq<char>,
    pub display_name: Seq<char>,
    pub content: Seq<char>,
    pub folder_name: Seq<char>,
    pub headings: Seq<HeadingView>,
}

impl View for Page {
    type V = PageView;

    open spec fn view(&self) -> PageView {
        PageView {
            output_path: self.output_path@.map_values(|s: String| s@),
            id: self.id@,
            display_name: self.display_name@,
            content: self.content@,
            folder_name: self.folder_name@,
            headings: self.headings@.map_values(|h: Heading| h@),
        }
    }
}

/// A folder of the site tree: its name and its pages, in manifest order.
pub struct Folder {
    pub name: String,
    pub pages: Vec<Page>,
}

/// Mathematical model of a folder.
pub struct FolderView {
    pub name: Seq<char>,
    pub pages: Seq<PageView>,
}

impl View for Folder {
    type V = FolderView;

    open spec fn view(&self) -> FolderView {
        FolderView { name: self.name@, pages: self.pages@.map_values(|p: Page| p@) }
    }
}

/// The models of a whole site tree.
pub open spec fn folders_view(folders: Seq<Folder>) -> Seq<FolderView> {
    folders.map_values(|f: Folder| f@)
}

impl Clone for Heading {
    fn clone(&self) -> (res: Self)
        ensures
            res@ == self@,
    {
        Heading { text: self.text.clone(), level: self.level, id: self.id.clone() }
    }
}

impl Clone for Page {
    fn clone(&self) -> (res: Self)
        ensures
            res@ == self@,
    {
        let res = Page {
            output_path: self.output_path.clone(),
            id: self.id.clone(),
            display_name: self.display_name.clone(),
            content: self.content.clone(),
            folder_name: self.folder_name.clone(),
            headings: self.headings.clone(),
        };
        proof {
            assert(res.output_path@.map_values(|s: String| s@) =~= self.output_path@.map_values(
                |s: String| s@,
            ));
            assert(res.headings@.map_values(|h: Heading| h@) =~= self.headings@.map_values(
                |h: Heading| h@,
            ));
        }
        res
    }
}

impl Clone for Folder {
    fn clone(&self) -> (res: Self)
        ensures
            res@ == self@,
    {
        let res = Folder { name: self.name.clone(), pages: self.pages.clone() };
        proof {
            assert(res.pages@.map_values(|p: Page| p@) =~= self.pages@.map_values(|p: Page| p@));
        }
        res
    }
}

impl Folder {
    /// A fresh folder with no pages yet.
    pub fn new(name: String) -> (r: Self)
        ensures
            r@.name == name@,
            r@.pages == Seq::<PageView>::empty(),
    {
        let r = Folder { name, pages: Vec::new() };
        proof {
            assert(r@.pages =~= Seq::<PageView>::empty());
        }
        r
    }

    /// Append a page, keeping the order in which pages were resolved.
    pub fn add_page(&mut self, page: Page)
        ensures
            final(self)@.name == old(self)@.name,
            final(self)@.pages == old(self)@.pages.push(page@),
    {
        let ghost pv = page@;
        self.pages.push(page);
        proof {
            assert(self.pages@.map_values(|p: Page| p@) =~= old(self).pages@.map_values(
                |p: Page| p@,
            ).push(pv));
        }
    }
}

impl Page {
    /// Build a page from its loaded parts. The identifier is derived from the
    /// fully-qualified name, so it is stable across rebuilds; the output path
    /// is whatever the caller hands in (empty before the planner runs).
    pub fn new(
        output_path: Vec<String>,
        full_name: String,
        display_name: String,
        content: String,
        folder_name: String,
        headings: Vec<Heading>,
    ) -> (r: Self)
        ensures
            r@.output_path == output_path@.map_values(|s: String| s@),
            r@.id == utils::id_of(full_name@),
            r@.display_name == display_name@,
            r@.content == content@,
            r@.folder_name == folder_name@,
            r@.headings == headings@.map_values(|h: Heading| h@),
    {
        let id = utils::generate_deterministic_id(full_name.as_str());
        Page { output_path, id, display_name, content, folder_name, headings }
    }

    /// Whether this page and `current_page` are the same page, by identity.
    pub fn is_active(&self, current_page: &Page) -> (r: bool)
        ensures
            r == (self@.id == current_page@.id),
    {
        self.id == current_page.id
    }
}

} // verus!
