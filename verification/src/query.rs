//! The query facade: what read-side callers use to fetch posts for
//! display. Listings leave bodies as markup source; the single post
//! that will be displayed gets its body rendered.

use vstd::prelude::*;

use crate::render;
use crate::store::{listed, sorted_desc, BlogPost, ContentStore, PostView, StoreError};
use crate::text;

verus! {

/// The index of the first post in `l` with the given url slug, or
/// `l.len()` when no post carries it.
pub open spec fn find_url(l: Seq<PostView>, url: Seq<char>) -> int
    decreases l.len(),
{
    if l.len() == 0 {
        0
    } else if l[0].url == url {
        0
    } else {
        1 + find_url(l.drop_first(), url)
    }
}

proof fn lemma_find_url_scan(l: Seq<PostView>, url: Seq<char>, i: int)
    requires
        0 <= i <= l.len(),
        forall|j: int| 0 <= j < i ==> (#[trigger] l[j]).url != url,
        i < l.len() ==> l[i].url == url,
    ensures
        find_url(l, url) == i,
    decreases i,
{
    if i > 0 {
        lemma_find_url_scan(l.drop_first(), url, i - 1);
    }
}

/// The posts to show in the blog listing: the published posts, most
/// recent first, with bodies left as markup source (a listing shows the
/// summary, not the rendered body).
pub fn posts_for_listing(store: &ContentStore) -> (r: Vec<BlogPost>)
    ensures
        r.deep_view() == listed(store@.posts),
        sorted_desc(r.deep_view()),
        forall|i: int| 0 <= i < r.deep_view().len() ==> (#[trigger] r.deep_view()[i]).published,
{
    store.read_posts()
}

/// The published post with the given url slug, its body rendered for
/// display; `NotFound` when no published post carries the slug. When
/// posts share a slug — which creation forbids — the first in listing
/// order is shown.
pub fn post_for_display(store: &ContentStore, slug: &str) -> (r: Result<BlogPost, StoreError>)
    ensures
        ({
            let l = listed(store@.posts);
            match r {
                Ok(p) => {
                    &&& find_url(l, slug@) < l.len()
                    &&& ({
                        let q = l[find_url(l, slug@)];
                        &&& p@.id == q.id
                        &&& p@.title == q.title
                        &&& p@.created == q.created
                        &&& p@.published == q.published
                        &&& p@.url == q.url
                        &&& p@.summary == q.summary
                        &&& p@.tags == q.tags
                        &&& render::render_result(q.body, p@.body)
                    })
                },
                Err(e) => {
                    &&& e == StoreError::NotFound
                    &&& find_url(l, slug@) == l.len()
                },
            }
        }),
{
    let ghost l = listed(store@.posts);
    let mut posts = store.read_posts();
    let n = posts.len();
    let mut i: usize = 0;
    while i < n
        invariant
            i <= n,
            n == posts.deep_view().len(),
            n == posts@.len(),
            posts.deep_view() == l,
            l == listed(store@.posts),
            forall|j: int| 0 <= j < i ==> (#[trigger] l[j]).url != slug@,
        decreases n - i,
    {
        if text::str_eq(posts[i].url.as_str(), slug) {
            proof {
                lemma_find_url_scan(l, slug@, i as int);
            }
            let p = posts.remove(i);
            assert(p@ == l[i as int]);
            let body = render::render_to_text(p.body.as_str());
            let shown = BlogPost {
                id: p.id,
                title: p.title,
                created: p.created,
                published: p.published,
                url: p.url,
                summary: p.summary,
                body,
                tags: p.tags,
            };
            return Ok(shown);
        }
        i = i + 1;
    }
    proof {
        lemma_find_url_scan(l, slug@, n as int);
    }
    Err(StoreError::NotFound)
}

} // verus!
