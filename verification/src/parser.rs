//! Resolving the manifest against a filesystem snapshot and loading pages.
//!
//! Markdown parsing, HTML rendering and slugification are external
//! capabilities, reached through trusted wrappers; the resolution and loading
//! policy around them — skip absent folders, skip absent pages, substitute
//! placeholder bodies, drop folders that end up empty — is verified here.

use vstd::prelude::*;

use crate::config::Config;
use crate::models::{heading_wf, Folder, FolderView, Heading, HeadingView, Page, PageView};
use crate::utils;

verus! {

/// What `slug::slugify` returns for a given text: a pure function of the text
/// alone, too intricate to restate here.
pub uninterp spec fn slug_of(s: Seq<char>) -> Seq<char>;

/// Whether a character may appear in a slug: lowercase ASCII letters, digits,
/// and the dash separator.
pub open spec fn slug_char(c: char) -> bool {
    ('a' <= c && c <= 'z') || ('0' <= c && c <= '9') || c == '-'
}

/// Relies on `slug::slugify`: a deterministic, URL-safe slug of the text,
/// consisting only of `a-z`, `0-9` and `-` (per its documentation).
#[verifier::external_body]
fn slugify(text: &str) -> (r: String)
    ensures
        r@ == slug_of(text@),
        forall|i: int| 0 <= i < r@.len() ==> slug_char(#[trigger] r@[i]),
{
    slug::slugify(text)
}

/// What the markdown-to-HTML conversion returns for a given source text: a
/// pure function of the text alone.
pub uninterp spec fn html_of(s: Seq<char>) -> Seq<char>;

#[verifier::external_type_specification]
#[verifier::external_body]
pub struct ExMdastNode(markdown::mdast::Node);

/// Relies on `markdown::to_html_with_options` with GFM options: the produced
/// HTML is a pure function of the source text, and per its documentation the
/// conversion errors only for MDX syntax, which these options do not enable.
#[verifier::external_body]
fn render_markdown(text: &str) -> (r: Option<String>)
    ensures
        r is Some,
        r matches Some(h) ==> h@ == html_of(text@),
{
    markdown::to_html_with_options(text, &markdown::Options::gfm()).ok()
}

/// The library's model of a parsed document: what the outline extraction
/// reads of each node — its heading rank when it is a heading, its text value
/// when it is plain text, and its children, in document order.
pub struct MdNode {
    pub heading_rank: Option<u8>,
    pub text: Option<String>,
    pub children: Vec<MdNode>,
}

/// The heading outline of the document whose source text is `s`: the
/// pre-order outline of the syntax tree the markdown parser yields for `s`,
/// a pure function of the text alone.
pub uninterp spec fn outline_of(s: Seq<char>) -> Seq<HeadingView>;

/// Relies on `markdown::mdast::Node`: node-for-node conversion of the syntax
/// tree into the library's document model — variant dispatch and field moves
/// only. Called only by `parse_document` below.
#[verifier::external_body]
fn convert_node(node: &markdown::mdast::Node) -> MdNode {
    let heading_rank = match node {
        markdown::mdast::Node::Heading(h) => Some(h.depth),
        _ => None,
    };
    let text = match node {
        markdown::mdast::Node::Text(t) => Some(t.value.clone()),
        _ => None,
    };
    let children = match node.children() {
        Some(kids) => kids.iter().map(convert_node).collect(),
        None => Vec::new(),
    };
    MdNode { heading_rank, text, children }
}

/// Relies on `markdown::to_mdast` with GFM parse options: per its
/// documentation it errors only for MDX syntax, which these options do not
/// enable, so it always yields a tree; the tree — and so the outline the
/// verified extraction reads off it — is a pure function of the source text.
#[verifier::external_body]
fn parse_document(text: &str) -> (r: Option<MdNode>)
    ensures
        r is Some,
        r matches Some(t) ==> extract_headings(t) == outline_of(text@),
{
    markdown::to_mdast(text, &markdown::ParseOptions::gfm()).ok().map(|n| convert_node(&n))
}

/// The outline entry a single node contributes: one heading when the node is
/// a heading of markdown rank 1 through 6 whose first child is plain text —
/// its level the rank, its anchor the slug of its text — and nothing
/// otherwise (text is never fabricated).
pub open spec fn node_heading(n: MdNode) -> Seq<HeadingView> {
    match n.heading_rank {
        Some(d) => {
            if 1 <= d <= 6 && n.children@.len() > 0 {
                match n.children@[0].text {
                    Some(t) => seq![HeadingView { text: t@, level: d, id: slug_of(t@) }],
                    None => Seq::empty(),
                }
            } else {
                Seq::empty()
            }
        },
        None => Seq::empty(),
    }
}

/// The heading outline of a document tree, in pre-order: the node's own
/// entry, then its children's outlines, in document order.
pub open spec fn extract_headings(n: MdNode) -> Seq<HeadingView>
    decreases n,
{
    node_heading(n) + extract_headings_list(n.children@)
}

/// The concatenated outlines of a list of sibling nodes, in order.
pub open spec fn extract_headings_list(nodes: Seq<MdNode>) -> Seq<HeadingView>
    decreases nodes,
{
    if nodes.len() == 0 {
        Seq::empty()
    } else {
        extract_headings_list(nodes.drop_last()) + extract_headings(nodes.last())
    }
}

/// Law: every heading the outline extraction emits is well-formed — its
/// level is a markdown rank and its anchor is the slug of its text.
pub proof fn lemma_extracted_headings_wf(n: MdNode)
    ensures
        forall|i: int|
            0 <= i < extract_headings(n).len() ==> heading_wf(#[trigger] extract_headings(n)[i]),
    decreases n,
{
    lemma_extracted_headings_list_wf(n.children@);
    let a = node_heading(n);
    let b = extract_headings_list(n.children@);
    assert forall|i: int| 0 <= i < extract_headings(n).len() implies heading_wf(
        #[trigger] extract_headings(n)[i],
    ) by {
        if i < a.len() {
            assert(extract_headings(n)[i] == a[i]);
        } else {
            assert(extract_headings(n)[i] == b[i - a.len()]);
        }
    }
}

proof fn lemma_extracted_headings_list_wf(nodes: Seq<MdNode>)
    ensures
        forall|i: int|
            0 <= i < extract_headings_list(nodes).len() ==> heading_wf(
                #[trigger] extract_headings_list(nodes)[i],
            ),
    decreases nodes,
{
    if nodes.len() > 0 {
        lemma_extracted_headings_list_wf(nodes.drop_last());
        lemma_extracted_headings_wf(nodes.last());
        let a = extract_headings_list(nodes.drop_last());
        let b = extract_headings(nodes.last());
        assert forall|i: int| 0 <= i < extract_headings_list(nodes).len() implies heading_wf(
            #[trigger] extract_headings_list(nodes)[i],
        ) by {
            if i < a.len() {
                assert(extract_headings_list(nodes)[i] == a[i]);
            } else {
                assert(extract_headings_list(nodes)[i] == b[i - a.len()]);
            }
        }
    }
}

/// Extract the heading outline of a document tree: every heading node whose
/// first child is plain text, in document order, with the markdown rank as
/// its level and the slug of its text as its anchor. Headings without
/// extractable text are omitted, never fabricated.
pub fn read_headings(root: &MdNode) -> (r: Vec<Heading>)
    ensures
        r@.map_values(|h: Heading| h@) == extract_headings(*root),
    decreases *root,
{
    let mut out: Vec<Heading> = Vec::new();
    match &root.heading_rank {
        Some(depth) => {
            let d = *depth;
            if 1 <= d && d <= 6 && root.children.len() > 0 {
                match &root.children[0].text {
                    Some(t) => {
                        let text = t.clone();
                        let id = slugify(text.as_str());
                        let ghost hv = HeadingView { text: text@, level: d, id: id@ };
                        out.push(Heading { text, level: d, id });
                        proof {
                            assert(out@.map_values(|h: Heading| h@) =~= seq![hv]);
                        }
                    },
                    None => {},
                }
            }
        },
        None => {},
    }
    proof {
        assert(out@.map_values(|h: Heading| h@) =~= node_heading(*root));
    }
    let ghost cs = root.children@;
    let mut j: usize = 0;
    proof {
        assert(cs.take(0) =~= Seq::<MdNode>::empty());
        assert(out@.map_values(|h: Heading| h@) =~= node_heading(*root) + extract_headings_list(
            cs.take(0),
        ));
    }
    while j < root.children.len()
        invariant
            cs == root.children@,
            0 <= j <= cs.len(),
            out@.map_values(|h: Heading| h@) == node_heading(*root) + extract_headings_list(
                cs.take(j as int),
            ),
        decreases cs.len() - j,
    {
        let ghost before = out@.map_values(|h: Heading| h@);
        let mut sub = read_headings(&root.children[j]);
        let ghost sub_view = sub@.map_values(|h: Heading| h@);
        out.append(&mut sub);
        proof {
            assert(out@.map_values(|h: Heading| h@) =~= before + sub_view);
            assert(cs.take(j as int + 1).drop_last() =~= cs.take(j as int));
            assert(cs.take(j as int + 1).last() == cs[j as int]);
            assert(out@.map_values(|h: Heading| h@) =~= node_heading(*root)
                + extract_headings_list(cs.take(j as int + 1)));
        }
        j = j + 1;
    }
    proof {
        assert(cs.take(cs.len() as int) =~= cs);
    }
    out
}

/// The outcome of probing one declared page's source file.
pub enum PageText {
    /// The file does not exist in its folder.
    Missing,
    /// The file exists but its text could not be read.
    Unreadable,
    /// The file's text.
    Content(String),
}

/// Mathematical model of a probed page source.
pub enum PageTextView {
    Missing,
    Unreadable,
    Content(Seq<char>),
}

impl View for PageText {
    type V = PageTextView;

    open spec fn view(&self) -> PageTextView {
        match self {
            PageText::Missing => PageTextView::Missing,
            PageText::Unreadable => PageTextView::Unreadable,
            PageText::Content(s) => PageTextView::Content(s@),
        }
    }
}

/// The outcome of probing one manifest folder: whether a filesystem directory
/// of that name exists, and the probe of each declared page, in manifest
/// order.
pub struct DirSnapshot {
    pub present: bool,
    pub pages: Vec<PageText>,
}

/// Mathematical model of a probed folder.
pub struct DirSnapshotView {
    pub present: bool,
    pub pages: Seq<PageTextView>,
}

impl View for DirSnapshot {
    type V = DirSnapshotView;

    open spec fn view(&self) -> DirSnapshotView {
        DirSnapshotView { present: self.present, pages: self.pages@.map_values(|t: PageText| t@) }
    }
}

/// The models of a whole filesystem snapshot.
pub open spec fn snapshot_view(snap: Seq<DirSnapshot>) -> Seq<DirSnapshotView> {
    snap.map_values(|d: DirSnapshot| d@)
}

/// The declared pages that survive resolution: those whose source file
/// exists, each paired with its probed text, in manifest order.
pub open spec fn kept_pages(names: Seq<Seq<char>>, texts: Seq<PageTextView>) -> Seq<
    (Seq<char>, PageTextView),
>
    decreases names.len(),
{
    if names.len() == 0 {
        Seq::empty()
    } else {
        let init = kept_pages(names.drop_last(), texts.drop_last());
        if texts.last() is Missing {
            init
        } else {
            init.push((names.last(), texts.last()))
        }
    }
}

/// The resolved manifest: for every declared folder whose directory exists
/// and which keeps at least one page, its name paired with its kept pages —
/// in manifest order.
pub open spec fn resolve_spec(
    dirs: Seq<(Seq<char>, Seq<Seq<char>>)>,
    snap: Seq<DirSnapshotView>,
) -> Seq<(Seq<char>, Seq<(Seq<char>, PageTextView)>)>
    decreases dirs.len(),
{
    if dirs.len() == 0 {
        Seq::empty()
    } else {
        let init = resolve_spec(dirs.drop_last(), snap.drop_last());
        let d = dirs.last();
        let s = snap.last();
        if !s.present {
            init
        } else {
            let kept = kept_pages(d.1, s.pages);
            if kept.len() == 0 {
                init
            } else {
                init.push((d.0, kept))
            }
        }
    }
}

/// The source text a page is loaded from: its file's text, or a minimal
/// placeholder built from the page name when the text could not be read.
pub open spec fn effective_text(name: Seq<char>, t: PageTextView) -> Seq<char> {
    match t {
        PageTextView::Content(s) => s,
        _ => "# "@ + name,
    }
}

/// The fully-qualified name of a page: its folder's name and its own,
/// the name page identity is derived from, so that same-named pages in
/// different folders keep distinct identities.
pub open spec fn qualified_name(folder: Seq<char>, name: Seq<char>) -> Seq<char> {
    folder + "/"@ + name
}

/// What the document loader guarantees of a loaded page: identity derived
/// from the fully-qualified (folder-qualified) name, the page name as display
/// name, the owning folder's name as back-reference, no output path yet, the
/// rendered body of its effective source text, and exactly the heading
/// outline of that text — every entry well-formed.
pub open spec fn loaded_page_ok(
    p: PageView,
    folder: Seq<char>,
    name: Seq<char>,
    t: PageTextView,
) -> bool {
    &&& p.id == utils::id_of(qualified_name(folder, name))
    &&& p.display_name == name
    &&& p.folder_name == folder
    &&& p.output_path == Seq::<Seq<char>>::empty()
    &&& p.content == html_of(effective_text(name, t))
    &&& p.headings == outline_of(effective_text(name, t))
    &&& forall|i: int| 0 <= i < p.headings.len() ==> heading_wf(#[trigger] p.headings[i])
}

/// What the site model builder guarantees of a built folder: the resolved
/// name, and one loaded page per kept page, in order.
pub open spec fn folder_ok(
    f: FolderView,
    name: Seq<char>,
    pages: Seq<(Seq<char>, PageTextView)>,
) -> bool {
    &&& f.name == name
    &&& f.pages.len() == pages.len()
    &&& forall|j: int|
        0 <= j < pages.len() ==> loaded_page_ok(#[trigger] f.pages[j], name, pages[j].0, pages[j].1)
}

/// What the whole pipeline guarantees of a built site tree, against the
/// resolved manifest.
pub open spec fn site_tree_ok(
    folders: Seq<FolderView>,
    resolved: Seq<(Seq<char>, Seq<(Seq<char>, PageTextView)>)>,
) -> bool {
    &&& folders.len() == resolved.len()
    &&& forall|k: int|
        0 <= k < folders.len() ==> folder_ok(#[trigger] folders[k], resolved[k].0, resolved[k].1)
}

/// Load one resolved page: derive its identity from its folder-qualified
/// name, read the heading outline from the parsed source, render the body,
/// and fall back to placeholder content rather than failing.
pub fn load_page(page_name: &String, folder_name: &String, text: &PageText) -> (p: Page)
    ensures
        loaded_page_ok(p@, folder_name@, page_name@, text@),
{
    let mut full_name = folder_name.clone();
    full_name.append("/");
    full_name.append(page_name.as_str());
    assert(full_name@ == qualified_name(folder_name@, page_name@));
    let effective: String = match text {
        PageText::Content(s) => s.clone(),
        _ => {
            let mut e = "# ".to_owned();
            e.append(page_name.as_str());
            e
        },
    };
    assert(effective@ == effective_text(page_name@, text@));
    let headings: Vec<Heading> = match parse_document(effective.as_str()) {
        Some(tree) => {
            let hs = read_headings(&tree);
            proof {
                lemma_extracted_headings_wf(tree);
            }
            hs
        },
        None => Vec::new(),
    };
    let content: String = match render_markdown(effective.as_str()) {
        Some(h) => h,
        None => {
            let mut f = "<h1>".to_owned();
            f.append(page_name.as_str());
            f.append("</h1>");
            f
        },
    };
    let p = Page::new(
        Vec::new(),
        full_name,
        page_name.clone(),
        content,
        folder_name.clone(),
        headings,
    );
    proof {
        assert(p@.output_path =~= Seq::<Seq<char>>::empty());
    }
    p
}

/// Resolve the manifest against the snapshot and load every surviving page:
/// folders in manifest order, each folder's kept pages in manifest order;
/// folders whose directory is absent, and folders that keep no page, are
/// dropped whole.
pub fn parse_directory(config: &Config, snapshot: &Vec<DirSnapshot>) -> (folders: Vec<Folder>)
    requires
        snapshot@.len() == config.directories@.len(),
        forall|k: int|
            0 <= k < snapshot@.len() ==> (#[trigger] snapshot@[k]).pages@.len()
                == config.directories@[k].1@.len(),
    ensures
        site_tree_ok(
            crate::models::folders_view(folders@),
            resolve_spec(
                crate::config::directories_view(config.directories@),
                snapshot_view(snapshot@),
            ),
        ),
{
    let ghost dv = crate::config::directories_view(config.directories@);
    let ghost sv = snapshot_view(snapshot@);
    let mut folders: Vec<Folder> = Vec::new();
    let mut k: usize = 0;
    proof {
        assert(crate::models::folders_view(folders@) =~= Seq::<FolderView>::empty());
        assert(dv.take(0) =~= Seq::<(Seq<char>, Seq<Seq<char>>)>::empty());
        assert(sv.take(0) =~= Seq::<DirSnapshotView>::empty());
    }
    while k < config.directories.len()
        invariant
            dv == crate::config::directories_view(config.directories@),
            sv == snapshot_view(snapshot@),
            dv.len() == config.directories@.len(),
            sv.len() == dv.len(),
            forall|m: int| 0 <= m < sv.len() ==> (#[trigger] sv[m]).pages.len() == dv[m].1.len(),
            0 <= k <= dv.len(),
            site_tree_ok(
                crate::models::folders_view(folders@),
                resolve_spec(dv.take(k as int), sv.take(k as int)),
            ),
        decreases dv.len() - k,
    {
        let ghost resolved_before = resolve_spec(dv.take(k as int), sv.take(k as int));
        let folder_name: &String = &config.directories[k].0;
        let page_names: &Vec<String> = &config.directories[k].1;
        let snap: &DirSnapshot = &snapshot[k];
        let ghost names = dv[k as int].1;
        let ghost texts = sv[k as int].pages;
        proof {
            assert(folder_name@ == dv[k as int].0);
            assert(page_names@.map_values(|s: String| s@) == names);
            assert(snap@.pages == texts);
            assert(snap@.present == sv[k as int].present);
        }
        if snap.present {
            let mut folder = Folder::new(folder_name.clone());
            let mut j: usize = 0;
            proof {
                assert(names.take(0) =~= Seq::<Seq<char>>::empty());
                assert(texts.take(0) =~= Seq::<PageTextView>::empty());
            }
            while j < page_names.len()
                invariant
                    names == page_names@.map_values(|s: String| s@),
                    texts == snap@.pages,
                    texts.len() == names.len(),
                    texts == snap.pages@.map_values(|t: PageText| t@),
                    0 <= j <= names.len(),
                    folder@.name == folder_name@,
                    folder@.pages.len() == kept_pages(
                        names.take(j as int),
                        texts.take(j as int),
                    ).len(),
                    forall|m: int|
                        0 <= m < folder@.pages.len() ==> loaded_page_ok(
                            #[trigger] folder@.pages[m],
                            folder_name@,
                            kept_pages(names.take(j as int), texts.take(j as int))[m].0,
                            kept_pages(names.take(j as int), texts.take(j as int))[m].1,
                        ),
                decreases names.len() - j,
            {
                let ghost kept_before = kept_pages(names.take(j as int), texts.take(j as int));
                proof {
                    assert(names.take(j as int + 1).drop_last() =~= names.take(j as int));
                    assert(texts.take(j as int + 1).drop_last() =~= texts.take(j as int));
                    assert(names.take(j as int + 1).last() == names[j as int]);
                    assert(texts.take(j as int + 1).last() == texts[j as int]);
                }
                match &snap.pages[j] {
                    PageText::Missing => {
                        proof {
                            assert(texts[j as int] is Missing);
                        }
                    },
                    t => {
                        let page = load_page(&page_names[j], folder_name, t);
                        let ghost pv = page@;
                        folder.add_page(page);
                        proof {
                            assert(t@ == texts[j as int]);
                            assert(!(texts[j as int] is Missing));
                            assert(kept_pages(names.take(j as int + 1), texts.take(j as int + 1))
                                =~= kept_before.push((names[j as int], texts[j as int])));
                            assert(loaded_page_ok(pv, folder_name@, names[j as int], texts[j as int]));
                        }
                    },
                }
                j = j + 1;
            }
            proof {
                assert(names.take(names.len() as int) =~= names);
                assert(texts.take(texts.len() as int) =~= texts);
            }
            let ghost kept = kept_pages(names, texts);
            if folder.pages.len() > 0 {
                let ghost fview = folder@;
                let ghost before = crate::models::folders_view(folders@);
                folders.push(folder);
                proof {
                    assert(crate::models::folders_view(folders@) =~= before.push(fview));
                    assert(folder_ok(fview, dv[k as int].0, kept));
                    assert(dv.take(k as int + 1).drop_last() =~= dv.take(k as int));
                    assert(sv.take(k as int + 1).drop_last() =~= sv.take(k as int));
                    assert(dv.take(k as int + 1).last() == dv[k as int]);
                    assert(sv.take(k as int + 1).last() == sv[k as int]);
                    assert(resolve_spec(dv.take(k as int + 1), sv.take(k as int + 1))
                        =~= resolved_before.push((dv[k as int].0, kept)));
                }
            } else {
                proof {
                    assert(kept.len() == 0);
                    assert(dv.take(k as int + 1).drop_last() =~= dv.take(k as int));
                    assert(sv.take(k as int + 1).drop_last() =~= sv.take(k as int));
                    assert(dv.take(k as int + 1).last() == dv[k as int]);
                    assert(sv.take(k as int + 1).last() == sv[k as int]);
                    assert(resolve_spec(dv.take(k as int + 1), sv.take(k as int + 1))
                        == resolved_before);
                }
            }
        } else {
            proof {
                assert(dv.take(k as int + 1).drop_last() =~= dv.take(k as int));
                assert(sv.take(k as int + 1).drop_last() =~= sv.take(k as int));
                assert(dv.take(k as int + 1).last() == dv[k as int]);
                assert(sv.take(k as int + 1).last() == sv[k as int]);
                assert(resolve_spec(dv.take(k as int + 1), sv.take(k as int + 1))
                    == resolved_before);
            }
        }
        k = k + 1;
    }
    proof {
        assert(dv.take(dv.len() as int) =~= dv);
        assert(sv.take(sv.len() as int) =~= sv);
    }
    folders
}

/// Every resolved folder comes from a declared folder whose directory exists
/// and which keeps at least one page.
proof fn lemma_resolve_sound(dirs: Seq<(Seq<char>, Seq<Seq<char>>)>, snap: Seq<DirSnapshotView>)
    requires
        dirs.len() == snap.len(),
    ensures
        forall|j: int|
            0 <= j < resolve_spec(dirs, snap).len() ==> exists|m: int|
                0 <= m < dirs.len() && (#[trigger] resolve_spec(dirs, snap)[j]) == (
                dirs[m].0,
                kept_pages(dirs[m].1, snap[m].pages),
                ) && snap[m].present && kept_pages(dirs[m].1, snap[m].pages).len() > 0,
    decreases dirs.len(),
{
    if dirs.len() > 0 {
        lemma_resolve_sound(dirs.drop_last(), snap.drop_last());
        let r = resolve_spec(dirs, snap);
        let init = resolve_spec(dirs.drop_last(), snap.drop_last());
        assert forall|j: int| 0 <= j < r.len() implies exists|m: int|
            0 <= m < dirs.len() && (#[trigger] r[j]) == (
            dirs[m].0,
            kept_pages(dirs[m].1, snap[m].pages),
            ) && snap[m].present && kept_pages(dirs[m].1, snap[m].pages).len() > 0 by {
            if j < init.len() {
                let m = choose|m: int|
                    0 <= m < dirs.drop_last().len() && init[j] == (
                    dirs.drop_last()[m].0,
                    kept_pages(dirs.drop_last()[m].1, snap.drop_last()[m].pages),
                    ) && snap.drop_last()[m].present && kept_pages(
                        dirs.drop_last()[m].1,
                        snap.drop_last()[m].pages,
                    ).len() > 0;
                assert(0 <= m < dirs.len() && r[j] == (
                dirs[m].0,
                kept_pages(dirs[m].1, snap[m].pages),
                ) && snap[m].present && kept_pages(dirs[m].1, snap[m].pages).len() > 0);
            } else {
                let m = dirs.len() - 1;
                assert(0 <= m < dirs.len() && r[j] == (
                dirs[m].0,
                kept_pages(dirs[m].1, snap[m].pages),
                ) && snap[m].present && kept_pages(dirs[m].1, snap[m].pages).len() > 0);
            }
        }
    }
}

/// Law: a manifest folder absent from the filesystem contributes nothing —
/// no folder of its name appears anywhere in the resolved manifest
/// (folder names in a manifest are pairwise distinct).
pub proof fn lemma_skip_missing_folder(
    dirs: Seq<(Seq<char>, Seq<Seq<char>>)>,
    snap: Seq<DirSnapshotView>,
    k: int,
)
    requires
        dirs.len() == snap.len(),
        0 <= k < dirs.len(),
        crate::config::directories_wf(dirs),
        !snap[k].present,
    ensures
        forall|j: int|
            0 <= j < resolve_spec(dirs, snap).len() ==> (#[trigger] resolve_spec(dirs, snap)[j]).0
                != dirs[k].0,
{
    lemma_resolve_sound(dirs, snap);
}

/// The pages kept from an all-missing folder: none.
proof fn lemma_kept_pages_all_missing(names: Seq<Seq<char>>, texts: Seq<PageTextView>)
    requires
        names.len() == texts.len(),
        forall|i: int| 0 <= i < texts.len() ==> (#[trigger] texts[i]) is Missing,
    ensures
        kept_pages(names, texts).len() == 0,
    decreases names.len(),
{
    if names.len() > 0 {
        lemma_kept_pages_all_missing(names.drop_last(), texts.drop_last());
    }
}

/// Law: a folder whose every declared page is missing is dropped whole — no
/// folder of its name appears anywhere in the resolved manifest
/// (folder names in a manifest are pairwise distinct).
pub proof fn lemma_drop_empty_folder(
    dirs: Seq<(Seq<char>, Seq<Seq<char>>)>,
    snap: Seq<DirSnapshotView>,
    k: int,
)
    requires
        dirs.len() == snap.len(),
        0 <= k < dirs.len(),
        dirs[k].1.len() == snap[k].pages.len(),
        crate::config::directories_wf(dirs),
        forall|i: int| 0 <= i < snap[k].pages.len() ==> (#[trigger] snap[k].pages[i]) is Missing,
    ensures
        forall|j: int|
            0 <= j < resolve_spec(dirs, snap).len() ==> (#[trigger] resolve_spec(dirs, snap)[j]).0
                != dirs[k].0,
{
    lemma_kept_pages_all_missing(dirs[k].1, snap[k].pages);
    lemma_resolve_sound(dirs, snap);
}

/// Law: a page whose source file is missing is skipped as if it had never
/// been declared — the folder's remaining pages resolve exactly as they
/// would without it.
pub proof fn lemma_skip_missing_page(names: Seq<Seq<char>>, texts: Seq<PageTextView>, j: int)
    requires
        names.len() == texts.len(),
        0 <= j < names.len(),
        texts[j] is Missing,
    ensures
        kept_pages(names, texts) == kept_pages(names.remove(j), texts.remove(j)),
    decreases names.len(),
{
    if j == names.len() - 1 {
        assert(names.remove(j) =~= names.drop_last());
        assert(texts.remove(j) =~= texts.drop_last());
    } else {
        assert(names.remove(j).drop_last() =~= names.drop_last().remove(j));
        assert(texts.remove(j).drop_last() =~= texts.drop_last().remove(j));
        assert(names.remove(j).last() == names.last());
        assert(texts.remove(j).last() == texts.last());
        lemma_skip_missing_page(names.drop_last(), texts.drop_last(), j);
    }
}

/// Law: a manifest folder whose directory exists and which keeps at least
/// one page does appear in the resolved manifest, under its own name and
/// with exactly its kept pages. Together with the skip and drop laws this
/// makes resolution an if-and-only-if: a folder is resolved exactly when its
/// directory exists and at least one of its declared pages does.
pub proof fn lemma_resolved_folder_present(
    dirs: Seq<(Seq<char>, Seq<Seq<char>>)>,
    snap: Seq<DirSnapshotView>,
    k: int,
)
    requires
        dirs.len() == snap.len(),
        0 <= k < dirs.len(),
        snap[k].present,
        kept_pages(dirs[k].1, snap[k].pages).len() > 0,
    ensures
        exists|j: int|
            0 <= j < resolve_spec(dirs, snap).len() && #[trigger] resolve_spec(dirs, snap)[j] == (
            dirs[k].0,
            kept_pages(dirs[k].1, snap[k].pages),
            ),
    decreases dirs.len(),
{
    let r = resolve_spec(dirs, snap);
    if k == dirs.len() - 1 {
        assert(r[r.len() - 1] == (dirs[k].0, kept_pages(dirs[k].1, snap[k].pages)));
    } else {
        assert(dirs.drop_last()[k] == dirs[k]);
        assert(snap.drop_last()[k] == snap[k]);
        lemma_resolved_folder_present(dirs.drop_last(), snap.drop_last(), k);
        let init = resolve_spec(dirs.drop_last(), snap.drop_last());
        let w = choose|j: int|
            0 <= j < init.len() && #[trigger] init[j] == (
            dirs[k].0,
            kept_pages(dirs[k].1, snap[k].pages),
            );
        assert(r[w] == (dirs[k].0, kept_pages(dirs[k].1, snap[k].pages)));
    }
}

/// Law: a page whose source file exists is kept — it appears in the kept
/// pages of its folder even when sibling pages are missing.
pub proof fn lemma_existing_page_kept(names: Seq<Seq<char>>, texts: Seq<PageTextView>, j: int)
    requires
        names.len() == texts.len(),
        0 <= j < names.len(),
        !(texts[j] is Missing),
    ensures
        kept_pages(names, texts).contains((names[j], texts[j])),
    decreases names.len(),
{
    if j == names.len() - 1 {
        assert(kept_pages(names, texts).last() == (names[j], texts[j]));
    } else {
        lemma_existing_page_kept(names.drop_last(), texts.drop_last(), j);
        let init = kept_pages(names.drop_last(), texts.drop_last());
        let w = choose|i: int| 0 <= i < init.len() && init[i] == (names[j], texts[j]);
        assert(kept_pages(names, texts)[w] == (names[j], texts[j]));
    }
}

} // verus!
