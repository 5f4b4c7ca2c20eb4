//! The manifest that drives a build: site metadata and the ordered mapping
//! from folder names to each folder's ordered page names.

use vstd::prelude::*;

verus! {

/// Site metadata declared by the manifest.
pub struct Book {
    pub title: String,
    pub description: Option<String>,
    pub author: Option<String>,
    pub github_url: Option<String>,
}

/// The whole manifest: metadata plus the folder/page declarations, in
/// declaration order.
pub struct Config {
    pub book: Book,
    pub directories: Vec<(String, Vec<String>)>,
}

/// The model of the folder/page declarations: folder names paired with their
/// ordered page names.
pub open spec fn directories_view(dirs: Seq<(String, Vec<String>)>) -> Seq<
    (Seq<char>, Seq<Seq<char>>),
> {
    dirs.map_values(|d: (String, Vec<String>)| (d.0@, d.1@.map_values(|s: String| s@)))
}

/// The manifest is a mapping, so its folder names are pairwise distinct;
/// deserialization from the on-disk mapping form guarantees this.
pub open spec fn directories_wf(dirs: Seq<(Seq<char>, Seq<Seq<char>>)>) -> bool {
    forall|m: int, n: int|
        0 <= m < n < dirs.len() ==> (#[trigger] dirs[m].0) != (#[trigger] dirs[n].0)
}

/// The header form of a title: at most eight characters, with a trailing
/// ellipsis where the title was longer.
pub open spec fn title_header(t: Seq<char>) -> Seq<char> {
    if t.len() > 8 {
        t.take(8) + "..."@
    } else {
        t
    }
}

impl Book {
    /// The title as shown in the page header, shortened to eight characters
    /// plus an ellipsis when it is longer than eight characters.
    pub fn get_title_header(&self) -> (r: String)
        ensures
            r@ == title_header(self.title@),
    {
        let n = self.title.as_str().unicode_len();
        if n > 8 {
            let head = self.title.as_str().substring_char(0, 8);
            let mut r = head.to_owned();
            r.append("...");
            proof {
                assert(self.title@.subrange(0, 8) =~= self.title@.take(8));
            }
            r
        } else {
            self.title.clone()
        }
    }
}

} // verus!
