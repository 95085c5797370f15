use vstd::prelude::*;

use crate::nightly::{tag_sha_spec, tag_views, Tag, TagView};
use crate::text::{contains_text, contains_text_spec};

verus! {

/// The tags of `tags` that name a nightly build, in order.
pub open spec fn nightly_tags_spec(tags: Seq<Tag>) -> Seq<TagView>
    decreases tags.len(),
{
    if tags.len() == 0 {
        Seq::empty()
    } else {
        let rest = nightly_tags_spec(tags.drop_last());
        if tag_sha_spec(tags.last().name@) is Some {
            rest.push(tags.last()@)
        } else {
            rest
        }
    }
}

/// The tags of `tags` whose name holds `sha`, in order.
pub open spec fn tags_naming_spec(tags: Seq<Tag>, sha: Seq<char>) -> Seq<TagView>
    decreases tags.len(),
{
    if tags.len() == 0 {
        Seq::empty()
    } else {
        let rest = tags_naming_spec(tags.drop_last(), sha);
        if contains_text_spec(tags.last().name@, sha) {
            rest.push(tags.last()@)
        } else {
            rest
        }
    }
}

/// Keeps the registry tags that name a nightly build: the nightly prefix,
/// the role suffix, and a well-formed build identifier.
pub fn keep_nightly_tags(tags: &Vec<Tag>) -> (r: Vec<Tag>)
    ensures
        tag_views(r@) == nightly_tags_spec(tags@),
{
    let mut out: Vec<Tag> = Vec::new();
    let mut i: usize = 0;
    assert(tags@.subrange(0, 0) =~= Seq::<Tag>::empty());
    assert(tag_views(out@) =~= Seq::<TagView>::empty());
    while i < tags.len()
        invariant
            i <= tags@.len(),
            tag_views(out@) == nightly_tags_spec(tags@.subrange(0, i as int)),
        decreases tags@.len() - i,
    {
        let ghost before = out@;
        assert(tags@.subrange(0, i + 1).drop_last() =~= tags@.subrange(0, i as int));
        if tags[i].get_sha().is_some() {
            out.push(tags[i].clone());
            assert(tag_views(out@) =~= tag_views(before).push(tags@[i as int]@));
        }
        i += 1;
    }
    assert(tags@.subrange(0, i as int) =~= tags@);
    out
}

/// The tags whose name holds `sha`.
pub fn find_tags_by_sha(tags: &Vec<Tag>, sha: &str) -> (r: Vec<Tag>)
    ensures
        tag_views(r@) == tags_naming_spec(tags@, sha@),
{
    let mut out: Vec<Tag> = Vec::new();
    let mut i: usize = 0;
    assert(tags@.subrange(0, 0) =~= Seq::<Tag>::empty());
    assert(tag_views(out@) =~= Seq::<TagView>::empty());
    while i < tags.len()
        invariant
            i <= tags@.len(),
            tag_views(out@) == tags_naming_spec(tags@.subrange(0, i as int), sha@),
        decreases tags@.len() - i,
    {
        let ghost before = out@;
        assert(tags@.subrange(0, i + 1).drop_last() =~= tags@.subrange(0, i as int));
        if contains_text(tags[i].name.as_str(), sha) {
            out.push(tags[i].clone());
            assert(tag_views(out@) =~= tag_views(before).push(tags@[i as int]@));
        }
        i += 1;
    }
    assert(tags@.subrange(0, i as int) =~= tags@);
    out
}

/// Where paging through the registry's tag listing stands: how many pages
/// were fetched, how many may be, and the page to fetch next.
pub struct PageCursor {
    pub pages_fetched: usize,
    pub max_pages: usize,
    pub next_url: Option<String>,
}

impl PageCursor {
    /// Nothing fetched yet; the listing starts at `first_url`.
    pub fn new(first_url: String, max_pages: usize) -> (r: PageCursor)
        ensures
            r.pages_fetched == 0,
            r.max_pages == max_pages,
            r.next_url == Some(first_url),
    {
        PageCursor { pages_fetched: 0, max_pages, next_url: Some(first_url) }
    }

    /// The page to fetch next: none once `max_pages` pages were fetched or
    /// the last page named no next one.
    pub fn next_request(&self) -> (r: Option<String>)
        ensures
            match r {
                Some(u) => self.pages_fetched < self.max_pages && (self.next_url matches Some(n)
                    && u@ == n@),
                None => self.pages_fetched >= self.max_pages || self.next_url is None,
            },
    {
        if self.pages_fetched >= self.max_pages {
            return None;
        }
        match &self.next_url {
            Some(u) => Some(u.clone()),
            None => None,
        }
    }

    /// Records a fetched page and the cursor to the page after it.
    pub fn record_page(&mut self, next: Option<String>)
        requires
            old(self).pages_fetched < old(self).max_pages,
        ensures
            final(self).pages_fetched == old(self).pages_fetched + 1,
            final(self).max_pages == old(self).max_pages,
            final(self).next_url == next,
    {
        self.pages_fetched = self.pages_fetched + 1;
        self.next_url = next;
    }
}

} // verus!
