//! The output path planner and the pipeline's determinism: once the site tree
//! is final, every page is assigned its output file location — the output
//! root, then its folder's name, then its display name with the `.html`
//! extension — and rebuilding from unchanged inputs reproduces the same tree.

use vstd::prelude::*;

use crate::models::{Folder, FolderView, Page, PageView};
use crate::parser::{resolve_spec, site_tree_ok, DirSnapshotView};
use crate::template::segments_view;

verus! {

/// The output file location of a page: `output_root/folder_name/<name>.html`.
pub open spec fn page_output_path(
    root: Seq<Seq<char>>,
    folder: Seq<char>,
    name: Seq<char>,
) -> Seq<Seq<char>> {
    root.push(folder).push(name + ".html"@)
}

/// A page after planning: unchanged but for its output location.
pub open spec fn planned_page(p: PageView, root: Seq<Seq<char>>, folder: Seq<char>) -> PageView {
    PageView { output_path: page_output_path(root, folder, p.display_name), ..p }
}

/// A folder after planning.
pub open spec fn planned_folder(f: FolderView, root: Seq<Seq<char>>) -> FolderView {
    FolderView { name: f.name, pages: f.pages.map_values(|p: PageView| planned_page(p, root, f.name)) }
}

/// Assign every page of the finished site tree its output file location,
/// mirroring its folder under the output root. This is the second
/// construction phase: the tree it returns is the one the renderer consumes.
pub fn assign_output_paths(folders: &Vec<Folder>, output_root: &Vec<String>) -> (r: Vec<Folder>)
    ensures
        crate::models::folders_view(r@) == crate::models::folders_view(folders@).map_values(
            |f: FolderView| planned_folder(f, segments_view(output_root@)),
        ),
{
    let ghost fv = crate::models::folders_view(folders@);
    let ghost root = segments_view(output_root@);
    let mut r: Vec<Folder> = Vec::new();
    let mut k: usize = 0;
    while k < folders.len()
        invariant
            fv == crate::models::folders_view(folders@),
            root == segments_view(output_root@),
            fv.len() == folders@.len(),
            0 <= k <= fv.len(),
            crate::models::folders_view(r@) =~= fv.take(k as int).map_values(
                |f: FolderView| planned_folder(f, root),
            ),
        decreases fv.len() - k,
    {
        let folder = &folders[k];
        let mut pages: Vec<Page> = Vec::new();
        let mut j: usize = 0;
        while j < folder.pages.len()
            invariant
                folder == &folders@[k as int],
                fv == crate::models::folders_view(folders@),
                root == segments_view(output_root@),
                0 <= k < fv.len(),
                0 <= j <= folder.pages@.len(),
                pages@.map_values(|p: Page| p@) =~= fv[k as int].pages.take(j as int).map_values(
                    |p: PageView| planned_page(p, root, fv[k as int].name),
                ),
            decreases folder.pages@.len() - j,
        {
            let page = &folder.pages[j];
            let mut path: Vec<String> = Vec::new();
            let mut i: usize = 0;
            while i < output_root.len()
                invariant
                    root == segments_view(output_root@),
                    0 <= i <= root.len(),
                    segments_view(path@) =~= root.take(i as int),
                decreases root.len() - i,
            {
                let ghost before = segments_view(path@);
                path.push(output_root[i].clone());
                proof {
                    assert(segments_view(path@) =~= before.push(root[i as int]));
                }
                i = i + 1;
            }
            proof {
                assert(root.take(root.len() as int) =~= root);
            }
            let ghost base = segments_view(path@);
            path.push(folder.name.clone());
            let mut file = page.display_name.clone();
            file.append(".html");
            let ghost base2 = segments_view(path@);
            path.push(file);
            proof {
                assert(base2 =~= base.push(folder@.name));
                assert(segments_view(path@) =~= base2.push(page@.display_name + ".html"@));
                assert(segments_view(path@) =~= page_output_path(
                    root,
                    fv[k as int].name,
                    fv[k as int].pages[j as int].display_name,
                ));
            }
            let planned = Page {
                output_path: path,
                id: page.id.clone(),
                display_name: page.display_name.clone(),
                content: page.content.clone(),
                folder_name: page.folder_name.clone(),
                headings: page.headings.clone(),
            };
            let ghost before = pages@.map_values(|p: Page| p@);
            proof {
                assert(planned@.headings =~= page@.headings);
                assert(planned@ == planned_page(fv[k as int].pages[j as int], root, fv[k as int].name));
            }
            pages.push(planned);
            proof {
                assert(pages@.map_values(|p: Page| p@) =~= before.push(
                    planned_page(fv[k as int].pages[j as int], root, fv[k as int].name),
                ));
                assert(fv[k as int].pages.take(j as int + 1) =~= fv[k as int].pages.take(
                    j as int,
                ).push(fv[k as int].pages[j as int]));
            }
            j = j + 1;
        }
        proof {
            assert(fv[k as int].pages.take(folder.pages@.len() as int) =~= fv[k as int].pages);
        }
        let new_folder = Folder { name: folder.name.clone(), pages };
        let ghost before = crate::models::folders_view(r@);
        proof {
            assert(new_folder@ == planned_folder(fv[k as int], root));
        }
        r.push(new_folder);
        proof {
            assert(crate::models::folders_view(r@) =~= before.push(
                planned_folder(fv[k as int], root),
            ));
            assert(fv.take(k as int + 1) =~= fv.take(k as int).push(fv[k as int]));
        }
        k = k + 1;
    }
    proof {
        assert(fv.take(fv.len() as int) =~= fv);
    }
    r
}

/// Law: rebuilding from unchanged inputs reproduces the same site tree.
/// Two trees built from the same manifest and the same filesystem snapshot
/// are equal: every folder's name, every page's position, identifier, display
/// name, folder back-reference, rendered content, heading outline and output
/// location coincide — and so the planned paths and every resolved link, pure
/// functions of these fields, coincide as well. (The bytes finally written
/// are produced from this tree by the surrounding program.)
pub proof fn lemma_rebuild_deterministic(
    f1: Seq<FolderView>,
    f2: Seq<FolderView>,
    dirs: Seq<(Seq<char>, Seq<Seq<char>>)>,
    snap: Seq<DirSnapshotView>,
)
    requires
        site_tree_ok(f1, resolve_spec(dirs, snap)),
        site_tree_ok(f2, resolve_spec(dirs, snap)),
    ensures
        f1 == f2,
{
    let resolved = resolve_spec(dirs, snap);
    assert forall|k: int| 0 <= k < f1.len() implies #[trigger] f1[k] == f2[k] by {
        assert(crate::parser::folder_ok(f1[k], resolved[k].0, resolved[k].1));
        assert(crate::parser::folder_ok(f2[k], resolved[k].0, resolved[k].1));
        assert forall|j: int| 0 <= j < f1[k].pages.len() implies #[trigger] f1[k].pages[j]
            == f2[k].pages[j] by {
            assert(crate::parser::loaded_page_ok(
                f1[k].pages[j],
                resolved[k].0,
                resolved[k].1[j].0,
                resolved[k].1[j].1,
            ));
            assert(crate::parser::loaded_page_ok(
                f2[k].pages[j],
                resolved[k].0,
                resolved[k].1[j].0,
                resolved[k].1[j].1,
            ));
        }
        assert(f1[k].pages =~= f2[k].pages);
    }
    assert(f1 =~= f2);
}

} // verus!
