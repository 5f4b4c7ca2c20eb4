//! The page rendering model: everything the renderer needs for one page —
//! the site metadata, the full tree, the current page and its neighbours —
//! together with the link resolution that turns any page's output location
//! into a path relative to the current page's own location.

use vstd::prelude::*;

use crate::config::Book;
use crate::models::{Folder, Page};

verus! {

/// The views of a list of path segments.
pub open spec fn segments_view(v: Seq<String>) -> Seq<Seq<char>> {
    v.map_values(|s: String| s@)
}

/// Length of the longest common prefix of two segment lists.
pub open spec fn common_prefix_len(a: Seq<Seq<char>>, b: Seq<Seq<char>>) -> int
    decreases a.len(),
{
    if a.len() == 0 || b.len() == 0 || a.first() != b.first() {
        0
    } else {
        1 + common_prefix_len(a.drop_first(), b.drop_first())
    }
}

/// A common prefix contributes its whole length.
proof fn lemma_common_prefix_concat(p: Seq<Seq<char>>, s1: Seq<Seq<char>>, s2: Seq<Seq<char>>)
    ensures
        common_prefix_len(p + s1, p + s2) == p.len() + common_prefix_len(s1, s2),
    decreases p.len(),
{
    if p.len() == 0 {
        assert(p + s1 =~= s1);
        assert(p + s2 =~= s2);
    } else {
        assert((p + s1).first() == p.first());
        assert((p + s2).first() == p.first());
        assert((p + s1).drop_first() =~= p.drop_first() + s1);
        assert((p + s2).drop_first() =~= p.drop_first() + s2);
        lemma_common_prefix_concat(p.drop_first(), s1, s2);
    }
}

/// `n` parent-directory segments.
pub open spec fn up_segments(n: int) -> Seq<Seq<char>> {
    Seq::new(if n >= 0 {
        n as nat
    } else {
        0
    }, |k: int| ".."@)
}

pub proof fn lemma_common_prefix_len_bounds(a: Seq<Seq<char>>, b: Seq<Seq<char>>)
    ensures
        0 <= common_prefix_len(a, b) <= a.len(),
        common_prefix_len(a, b) <= b.len(),
    decreases a.len(),
{
    if a.len() != 0 && b.len() != 0 && a.first() == b.first() {
        lemma_common_prefix_len_bounds(a.drop_first(), b.drop_first());
    }
}

/// Within the common prefix the two segment lists agree.
proof fn lemma_common_prefix_agree(a: Seq<Seq<char>>, b: Seq<Seq<char>>, i: int)
    requires
        0 <= i < common_prefix_len(a, b),
    ensures
        a[i] == b[i],
    decreases i,
{
    lemma_common_prefix_len_bounds(a, b);
    if i > 0 {
        lemma_common_prefix_agree(a.drop_first(), b.drop_first(), i - 1);
    }
}

/// The path from the directory `base` to the file `target`, as segments:
/// one `..` for every segment of `base` past the common prefix, then the rest
/// of `target`.
pub open spec fn rel_segments(target: Seq<Seq<char>>, base: Seq<Seq<char>>) -> Seq<Seq<char>> {
    let c = common_prefix_len(target, base);
    up_segments(base.len() - c) + target.skip(c)
}

/// Following a segment list from a directory: each parent marker steps up
/// one level, every other segment steps down into it.
pub open spec fn apply_rel(base: Seq<Seq<char>>, segs: Seq<Seq<char>>) -> Seq<Seq<char>>
    decreases segs.len(),
{
    if segs.len() == 0 {
        base
    } else if segs.first() == ".."@ {
        apply_rel(base.drop_last(), segs.drop_first())
    } else {
        apply_rel(base.push(segs.first()), segs.drop_first())
    }
}

/// Following the parent markers alone strips that many trailing segments.
proof fn lemma_apply_up(base: Seq<Seq<char>>, m: int)
    requires
        0 <= m <= base.len(),
    ensures
        apply_rel(base, up_segments(m)) == base.take(base.len() - m),
    decreases m,
{
    reveal_strlit("..");
    if m == 0 {
        assert(up_segments(0) =~= Seq::<Seq<char>>::empty());
        assert(base.take(base.len() as int) =~= base);
    } else {
        assert(up_segments(m).first() == ".."@);
        assert(up_segments(m).drop_first() =~= up_segments(m - 1));
        lemma_apply_up(base.drop_last(), m - 1);
        assert(base.drop_last().take(base.len() - m) =~= base.take(base.len() - m));
    }
}

/// Following plain segments appends them.
proof fn lemma_apply_down(base: Seq<Seq<char>>, segs: Seq<Seq<char>>)
    requires
        forall|i: int| 0 <= i < segs.len() ==> (#[trigger] segs[i]) != ".."@,
    ensures
        apply_rel(base, segs) == base + segs,
    decreases segs.len(),
{
    if segs.len() == 0 {
        assert(base + segs =~= base);
    } else {
        assert(segs.first() != ".."@);
        lemma_apply_down(base.push(segs.first()), segs.drop_first());
        assert(base.push(segs.first()) + segs.drop_first() =~= base + segs);
    }
}

/// Following one list after another.
proof fn lemma_apply_concat(base: Seq<Seq<char>>, s1: Seq<Seq<char>>, s2: Seq<Seq<char>>)
    ensures
        apply_rel(base, s1 + s2) == apply_rel(apply_rel(base, s1), s2),
    decreases s1.len(),
{
    if s1.len() == 0 {
        assert(s1 + s2 =~= s2);
    } else {
        assert((s1 + s2).first() == s1.first());
        assert((s1 + s2).drop_first() =~= s1.drop_first() + s2);
        if s1.first() == ".."@ {
            lemma_apply_concat(base.drop_last(), s1.drop_first(), s2);
        } else {
            lemma_apply_concat(base.push(s1.first()), s1.drop_first(), s2);
        }
    }
}

/// Law: the resolved relative path is correct at any nesting depth — followed
/// from the source page's output directory, it leads exactly to the target
/// page's output file (for path segments that are not themselves the parent
/// marker).
pub proof fn lemma_relative_path_resolves(target: Seq<Seq<char>>, base: Seq<Seq<char>>)
    requires
        forall|i: int| 0 <= i < target.len() ==> (#[trigger] target[i]) != ".."@,
    ensures
        apply_rel(base, rel_segments(target, base)) == target,
{
    let c = common_prefix_len(target, base);
    lemma_common_prefix_len_bounds(target, base);
    lemma_apply_concat(base, up_segments(base.len() - c), target.skip(c));
    lemma_apply_up(base, base.len() - c);
    lemma_apply_down(base.take(c), target.skip(c));
    assert forall|i: int| 0 <= i < c implies #[trigger] base.take(c)[i] == target.take(c)[i] by {
        lemma_common_prefix_agree(target, base, i);
    }
    assert(base.take(c) =~= target.take(c));
    assert(target.take(c) + target.skip(c) =~= target);
}

/// Segments joined by `/`.
pub open spec fn join_slash(segs: Seq<Seq<char>>) -> Seq<char>
    decreases segs.len(),
{
    if segs.len() == 0 {
        Seq::empty()
    } else if segs.len() == 1 {
        segs[0]
    } else {
        join_slash(segs.drop_last()) + "/"@ + segs.last()
    }
}

/// The resolved link from a page whose output directory is `base` to a page
/// whose output file is `target`.
pub open spec fn relative_url(target: Seq<Seq<char>>, base: Seq<Seq<char>>) -> Seq<char> {
    join_slash(rel_segments(target, base))
}

/// Law: a link to a page in the same folder resolves to the bare filename,
/// at any nesting depth of the shared output directory.
pub proof fn lemma_link_same_folder(dir: Seq<Seq<char>>, file: Seq<char>)
    ensures
        rel_segments(dir.push(file), dir) =~= seq![file],
        relative_url(dir.push(file), dir) == file,
{
    assert(dir.push(file) =~= dir + seq![file]);
    assert(dir =~= dir + Seq::<Seq<char>>::empty());
    lemma_common_prefix_concat(dir, seq![file], Seq::empty());
    assert(common_prefix_len(seq![file], Seq::empty()) == 0);
    assert(rel_segments(dir.push(file), dir) =~= seq![file]);
    assert(join_slash(seq![file]) == file);
}

/// Law: a link from a page in one folder to a page in a sibling folder
/// resolves to one `..` segment, the target folder, and the target filename —
/// for folders of any shared root depth.
pub proof fn lemma_link_other_folder(
    root: Seq<Seq<char>>,
    f1: Seq<char>,
    f2: Seq<char>,
    file: Seq<char>,
)
    requires
        f1 != f2,
    ensures
        rel_segments(root.push(f2).push(file), root.push(f1)) =~= seq![".."@, f2, file],
        relative_url(root.push(f2).push(file), root.push(f1)) == ".."@ + "/"@ + f2 + "/"@ + file,
{
    let target = root.push(f2).push(file);
    let base = root.push(f1);
    assert(target =~= root + seq![f2, file]);
    assert(base =~= root + seq![f1]);
    lemma_common_prefix_concat(root, seq![f2, file], seq![f1]);
    assert(common_prefix_len(seq![f2, file], seq![f1]) == 0);
    assert(common_prefix_len(target, base) == root.len());
    assert(target.skip(root.len() as int) =~= seq![f2, file]);
    assert(up_segments(1) =~= seq![".."@]);
    assert(rel_segments(target, base) =~= seq![".."@, f2, file]);
    let r = seq![".."@, f2, file];
    assert(join_slash(r) == join_slash(r.drop_last()) + "/"@ + file);
    assert(r.drop_last() =~= seq![".."@, f2]);
    assert(r.drop_last().drop_last() =~= seq![".."@]);
    assert(join_slash(seq![".."@, f2]) == join_slash(seq![".."@]) + "/"@ + f2);
}

/// The path from the directory `base` to the file `target`.
fn relative_segments(target: &Vec<String>, base: &Vec<String>) -> (r: Vec<String>)
    ensures
        segments_view(r@) == rel_segments(segments_view(target@), segments_view(base@)),
{
    let ghost tv = segments_view(target@);
    let ghost bv = segments_view(base@);
    let mut c: usize = 0;
    proof {
        assert(tv.skip(0) =~= tv);
        assert(bv.skip(0) =~= bv);
    }
    while c < target.len() && c < base.len() && target[c] == base[c]
        invariant
            tv == segments_view(target@),
            bv == segments_view(base@),
            0 <= c <= tv.len(),
            0 <= c <= bv.len(),
            common_prefix_len(tv, bv) == c + common_prefix_len(
                tv.skip(c as int),
                bv.skip(c as int),
            ),
        decreases tv.len() - c,
    {
        proof {
            assert(tv.skip(c as int).first() == tv[c as int]);
            assert(bv.skip(c as int).first() == bv[c as int]);
            assert(tv.skip(c as int).drop_first() =~= tv.skip(c as int + 1));
            assert(bv.skip(c as int).drop_first() =~= bv.skip(c as int + 1));
        }
        c = c + 1;
    }
    proof {
        assert(common_prefix_len(tv.skip(c as int), bv.skip(c as int)) == 0);
    }
    let mut r: Vec<String> = Vec::new();
    let mut k: usize = c;
    while k < base.len()
        invariant
            bv == segments_view(base@),
            c <= k <= bv.len(),
            segments_view(r@) =~= up_segments(k - c),
        decreases bv.len() - k,
    {
        let ghost before = segments_view(r@);
        r.push("..".to_owned());
        proof {
            assert(segments_view(r@) =~= before.push(".."@));
            assert(segments_view(r@) =~= up_segments(k + 1 - c));
        }
        k = k + 1;
    }
    let ghost ups = segments_view(r@);
    let mut t: usize = c;
    while t < target.len()
        invariant
            tv == segments_view(target@),
            c <= t <= tv.len(),
            segments_view(r@) =~= ups + tv.subrange(c as int, t as int),
        decreases tv.len() - t,
    {
        let ghost before = segments_view(r@);
        r.push(target[t].clone());
        proof {
            assert(segments_view(r@) =~= before.push(tv[t as int]));
            assert(segments_view(r@) =~= ups + tv.subrange(c as int, t as int + 1));
        }
        t = t + 1;
    }
    proof {
        assert(tv.subrange(c as int, tv.len() as int) =~= tv.skip(c as int));
        assert(segments_view(r@) =~= rel_segments(tv, bv));
    }
    r
}

/// Segments joined by `/`.
fn join_segments(segs: &Vec<String>) -> (r: String)
    ensures
        r@ == join_slash(segments_view(segs@)),
{
    let ghost sv = segments_view(segs@);
    let mut r = String::new();
    let mut i: usize = 0;
    while i < segs.len()
        invariant
            sv == segments_view(segs@),
            0 <= i <= sv.len(),
            r@ == join_slash(sv.take(i as int)),
        decreases sv.len() - i,
    {
        if i > 0 {
            r.append("/");
        }
        r.append(segs[i].as_str());
        proof {
            assert(sv.take(i as int + 1).last() == sv[i as int]);
            assert(sv.take(i as int + 1).drop_last() =~= sv.take(i as int));
            if i == 0 {
                assert(join_slash(sv.take(1)) == sv[0]);
            }
        }
        i = i + 1;
    }
    proof {
        assert(sv.take(sv.len() as int) =~= sv);
    }
    r
}

/// Everything the renderer consumes for one page: metadata, the site tree,
/// the current page, and its neighbours in the global reading order.
pub struct MainTemplate<'a> {
    pub book: &'a Book,
    pub folders: &'a Vec<Folder>,
    pub current_page: &'a Page,
    pub previous_page: Option<&'a Page>,
    pub next_page: Option<&'a Page>,
}

impl<'a> MainTemplate<'a> {
    pub fn new(
        book: &'a Book,
        folders: &'a Vec<Folder>,
        current_page: &'a Page,
        previous_page: Option<&'a Page>,
        next_page: Option<&'a Page>,
    ) -> (r: Self)
        ensures
            r.book == book,
            r.folders == folders,
            r.current_page == current_page,
            r.previous_page == previous_page,
            r.next_page == next_page,
    {
        MainTemplate { book, folders, current_page, previous_page, next_page }
    }

    /// The link to `page`, relative to the current page's output directory.
    pub fn get_relative_path_url(&self, page: &Page) -> (r: String)
        requires
            self.current_page@.output_path.len() >= 1,
        ensures
            r@ == relative_url(page@.output_path, self.current_page@.output_path.drop_last()),
    {
        let mut base: Vec<String> = Vec::new();
        let n = self.current_page.output_path.len() - 1;
        let mut i: usize = 0;
        while i < n
            invariant
                n == self.current_page.output_path@.len() - 1,
                0 <= i <= n,
                segments_view(base@) =~= self.current_page@.output_path.take(i as int),
            decreases n - i,
        {
            let ghost before = segments_view(base@);
            base.push(self.current_page.output_path[i].clone());
            proof {
                assert(segments_view(base@) =~= before.push(
                    self.current_page@.output_path[i as int],
                ));
            }
            i = i + 1;
        }
        proof {
            assert(self.current_page@.output_path.take(n as int)
                =~= self.current_page@.output_path.drop_last());
        }
        let segs = relative_segments(&page.output_path, &base);
        join_segments(&segs)
    }

    /// The link to the site's landing document — the first page of the first
    /// folder — or the empty string for an empty site tree.
    pub fn get_first_page_url(&self) -> (r: String)
        requires
            self.current_page@.output_path.len() >= 1,
        ensures
            r@ == if self.folders@.len() > 0 && self.folders@[0]@.pages.len() > 0 {
                relative_url(
                    self.folders@[0]@.pages[0].output_path,
                    self.current_page@.output_path.drop_last(),
                )
            } else {
                Seq::<char>::empty()
            },
    {
        if self.folders.len() > 0 {
            let first_folder = &self.folders[0];
            if first_folder.pages.len() > 0 {
                return self.get_relative_path_url(&first_folder.pages[0]);
            }
        }
        String::new()
    }

    /// The marker class for the folder listing: the current page's own folder
    /// is flagged open, every other folder is not.
    pub fn is_current_page_folder(&self, folder: &Folder) -> (r: String)
        ensures
            r@ == if self.current_page@.folder_name == folder@.name {
                "uk-open"@
            } else {
                Seq::<char>::empty()
            },
    {
        if self.current_page.folder_name == folder.name {
            "uk-open".to_owned()
        } else {
            String::new()
        }
    }

    /// Whether the current page has both a previous and a next page in the
    /// global reading order.
    pub fn has_previous_and_next_pages(&self) -> (r: bool)
        ensures
            r == (self.previous_page is Some && self.next_page is Some),
    {
        self.previous_page.is_some() && self.next_page.is_some()
    }

    /// How `page` is named in navigation links: its bare display name within
    /// the current page's folder, `folder/name` elsewhere.
    pub fn get_page_display_name(&self, page: &Page) -> (r: String)
        ensures
            r@ == if page@.folder_name == self.current_page@.folder_name {
                page@.display_name
            } else {
                page@.folder_name + "/"@ + page@.display_name
            },
    {
        if page.folder_name == self.current_page.folder_name {
            page.display_name.clone()
        } else {
            let mut r = page.folder_name.clone();
            r.append("/");
            r.append(page.display_name.as_str());
            r
        }
    }
}

} // verus!
