//! The navigation index: the site tree flattened into one global reading
//! order — folders in manifest order, each folder's pages in manifest order —
//! over which previous/next navigation runs.

use vstd::prelude::*;

use crate::models::{Folder, FolderView, Page, PageView};

verus! {

/// The global reading order: the concatenation of every folder's pages, in
/// tree order.
pub open spec fn flatten_pages(folders: Seq<FolderView>) -> Seq<PageView>
    decreases folders.len(),
{
    if folders.len() == 0 {
        Seq::empty()
    } else {
        flatten_pages(folders.drop_last()) + folders.last().pages
    }
}

/// Law: the global reading order preserves manifest order. Page `j` of
/// folder `k` sits immediately after every page of the folders before `k`,
/// keeping its in-folder position — so pages of one folder stay adjacent and
/// in order, and folders follow one another in manifest order.
pub proof fn lemma_flatten_order(folders: Seq<FolderView>, k: int, j: int)
    requires
        0 <= k < folders.len(),
        0 <= j < folders[k].pages.len(),
    ensures
        flatten_pages(folders.take(k)).len() + j < flatten_pages(folders).len(),
        flatten_pages(folders)[flatten_pages(folders.take(k)).len() + j] == folders[k].pages[j],
    decreases folders.len(),
{
    if k == folders.len() - 1 {
        assert(folders.take(k) =~= folders.drop_last());
    } else {
        lemma_flatten_order(folders.drop_last(), k, j);
        assert(folders.drop_last().take(k) =~= folders.take(k));
    }
}

/// The position of the last page with identifier `id` in `pages`, or -1 when
/// no page carries it. (When identifiers are pairwise distinct — the intended
/// state, see the identity laws — this is the page's one position.)
pub open spec fn last_index_of_id(pages: Seq<PageView>, id: Seq<char>) -> int
    decreases pages.len(),
{
    if pages.len() == 0 {
        -1
    } else if pages.last().id == id {
        pages.len() - 1
    } else {
        last_index_of_id(pages.drop_last(), id)
    }
}

proof fn lemma_last_index_bounds(pages: Seq<PageView>, id: Seq<char>)
    ensures
        -1 <= last_index_of_id(pages, id) < pages.len(),
        last_index_of_id(pages, id) >= 0 ==> pages[last_index_of_id(pages, id)].id == id,
    decreases pages.len(),
{
    if pages.len() > 0 && pages.last().id != id {
        lemma_last_index_bounds(pages.drop_last(), id);
    }
}

/// Law: in a reading order whose identifiers are pairwise distinct, looking a
/// page up by its identifier finds exactly its own position — the position
/// previous/next navigation is answered from.
pub proof fn lemma_lookup_finds_position(pages: Seq<PageView>, i: int)
    requires
        0 <= i < pages.len(),
        forall|m: int, n: int|
            0 <= m < n < pages.len() ==> (#[trigger] pages[m].id) != (#[trigger] pages[n].id),
    ensures
        last_index_of_id(pages, pages[i].id) == i,
    decreases pages.len(),
{
    if i == pages.len() - 1 {
    } else {
        assert(pages.last().id != pages[i].id);
        lemma_lookup_finds_position(pages.drop_last(), i);
    }
}

/// The navigation index. Built once from the finished site tree; read-only
/// afterwards. It holds its own flat copy of the reading order.
pub struct PageNavigator {
    pub all_pages: Vec<Page>,
}

impl View for PageNavigator {
    type V = Seq<PageView>;

    open spec fn view(&self) -> Seq<PageView> {
        self.all_pages@.map_values(|p: Page| p@)
    }
}

impl PageNavigator {
    /// Flatten the site tree into the global reading order.
    pub fn new(folders: &Vec<Folder>) -> (r: Self)
        ensures
            r@ == flatten_pages(crate::models::folders_view(folders@)),
    {
        let ghost fv = crate::models::folders_view(folders@);
        let mut all_pages: Vec<Page> = Vec::new();
        let mut i: usize = 0;
        while i < folders.len()
            invariant
                fv == crate::models::folders_view(folders@),
                0 <= i <= folders@.len(),
                fv.len() == folders@.len(),
                all_pages@.map_values(|p: Page| p@) == flatten_pages(fv.take(i as int)),
            decreases folders@.len() - i,
        {
            let folder = &folders[i];
            let mut j: usize = 0;
            while j < folder.pages.len()
                invariant
                    0 <= j <= folder.pages@.len(),
                    folder == &folders@[i as int],
                    fv == crate::models::folders_view(folders@),
                    0 <= i < folders@.len(),
                    fv.len() == folders@.len(),
                    all_pages@.map_values(|p: Page| p@) == flatten_pages(fv.take(i as int))
                        + fv[i as int].pages.take(j as int),
                decreases folder.pages@.len() - j,
            {
                let ghost before = all_pages@.map_values(|p: Page| p@);
                let page = folder.pages[j].clone();
                let ghost pv = page@;
                all_pages.push(page);
                proof {
                    assert(pv == fv[i as int].pages[j as int]);
                    assert(all_pages@.map_values(|p: Page| p@) =~= before.push(pv));
                    assert(fv[i as int].pages.take(j as int + 1) =~= fv[i as int].pages.take(
                        j as int,
                    ).push(fv[i as int].pages[j as int]));
                    assert(all_pages@.map_values(|p: Page| p@) =~= flatten_pages(
                        fv.take(i as int),
                    ) + fv[i as int].pages.take(j as int + 1));
                }
                j = j + 1;
            }
            proof {
                assert(fv.take(i as int + 1).drop_last() =~= fv.take(i as int));
                assert(fv.take(i as int + 1).last() == fv[i as int]);
                assert(fv[i as int].pages.take(j as int) =~= fv[i as int].pages);
                assert(flatten_pages(fv.take(i as int + 1)) == flatten_pages(fv.take(i as int))
                    + fv[i as int].pages);
            }
            i = i + 1;
        }
        proof {
            assert(fv.take(folders@.len() as int) =~= fv);
        }
        PageNavigator { all_pages }
    }

    /// Position of the page carrying `id`, scanned from the end of the
    /// reading order, or none when no page carries it.
    fn find_index(&self, id: &String) -> (r: Option<usize>)
        ensures
            match r {
                Some(j) => last_index_of_id(self@, id@) == j as int,
                None => last_index_of_id(self@, id@) == -1,
            },
    {
        let ghost s = self@;
        let mut j = self.all_pages.len();
        proof {
            assert(s.take(j as int) =~= s);
        }
        while j > 0
            invariant
                0 <= j <= self.all_pages@.len(),
                s == self@,
                s.len() == self.all_pages@.len(),
                last_index_of_id(s, id@) == last_index_of_id(s.take(j as int), id@),
            decreases j,
        {
            j = j - 1;
            proof {
                assert(s.take(j as int + 1).last() == s[j as int]);
                assert(s.take(j as int + 1).drop_last() =~= s.take(j as int));
            }
            if self.all_pages[j].id == *id {
                return Some(j);
            }
        }
        None
    }

    /// The page immediately after `current_page` in the global reading order,
    /// or none when it is last (or when its identifier is not in the index).
    pub fn get_next_page(&self, current_page: &Page) -> (r: Option<Page>)
        ensures
            ({
                let i = last_index_of_id(self@, current_page@.id);
                match r {
                    Some(p) => 0 <= i && i + 1 < self@.len() && p@ == self@[i + 1],
                    None => i == -1 || i + 1 >= self@.len(),
                }
            }),
    {
        match self.find_index(&current_page.id) {
            None => None,
            Some(j) => {
                proof {
                    lemma_last_index_bounds(self@, current_page@.id);
                }
                assert(j < self.all_pages.len());
                if j + 1 < self.all_pages.len() {
                    Some(self.all_pages[j + 1].clone())
                } else {
                    None
                }
            },
        }
    }

    /// The page immediately before `current_page` in the global reading
    /// order, or none when it is first (or when its identifier is not in the
    /// index).
    pub fn get_previous_page(&self, current_page: &Page) -> (r: Option<Page>)
        ensures
            ({
                let i = last_index_of_id(self@, current_page@.id);
                match r {
                    Some(p) => i >= 1 && p@ == self@[i - 1],
                    None => i <= 0,
                }
            }),
    {
        match self.find_index(&current_page.id) {
            None => None,
            Some(j) => {
                if j > 0 {
                    proof {
                        lemma_last_index_bounds(self@, current_page@.id);
                    }
                    Some(self.all_pages[j - 1].clone())
                } else {
                    None
                }
            },
        }
    }
}

} // verus!
