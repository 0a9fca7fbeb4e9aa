//! The content store: the authoritative collection of blog posts, with
//! creation, filtered listing, body update and publication.

use vstd::prelude::*;

use crate::date::Date;
use crate::text;

verus! {

/// The mathematical model of a stored post.
pub ghost struct PostView {
    pub id: int,
    pub title: Seq<char>,
    pub created: Date,
    pub published: bool,
    pub url: Seq<char>,
    pub summary: Seq<char>,
    pub body: Seq<char>,
    pub tags: Seq<Seq<char>>,
}

/// A stored blog post, as returned to callers.
#[derive(Debug, PartialEq)]
pub struct BlogPost {
    pub id: i32,
    pub title: String,
    pub created: Date,
    pub published: bool,
    pub url: String,
    pub summary: String,
    pub body: String,
    pub tags: Vec<String>,
}

impl View for BlogPost {
    type V = PostView;

    open spec fn view(&self) -> PostView {
        PostView {
            id: self.id as int,
            title: self.title@,
            created: self.created,
            published: self.published,
            url: self.url@,
            summary: self.summary@,
            body: self.body@,
            tags: self.tags.deep_view(),
        }
    }
}

impl DeepView for BlogPost {
    type V = PostView;

    open spec fn deep_view(&self) -> PostView {
        self.view()
    }
}

impl BlogPost {
    /// An independent copy of the post.
    pub fn duplicate(&self) -> (r: BlogPost)
        ensures
            r@ == self@,
    {
        let tags = self.tags.clone();
        proof {
            assert(tags@ =~= self.tags@);
            assert(tags.deep_view() =~= self.tags.deep_view());
        }
        BlogPost {
            id: self.id,
            title: self.title.clone(),
            created: self.created,
            published: self.published,
            url: self.url.clone(),
            summary: self.summary.clone(),
            body: self.body.clone(),
            tags,
        }
    }
}

/// A post as submitted by an author, before the store assigns an id.
#[derive(Debug)]
pub struct NewBlogPost {
    pub title: String,
    pub created: Date,
    pub published: bool,
    pub url: String,
    pub summary: String,
    pub body: String,
    pub tags: Vec<String>,
}

/// The model of a draft post.
pub ghost struct NewPostView {
    pub title: Seq<char>,
    pub created: Date,
    pub published: bool,
    pub url: Seq<char>,
    pub summary: Seq<char>,
    pub body: Seq<char>,
    pub tags: Seq<Seq<char>>,
}

impl View for NewBlogPost {
    type V = NewPostView;

    open spec fn view(&self) -> NewPostView {
        NewPostView {
            title: self.title@,
            created: self.created,
            published: self.published,
            url: self.url@,
            summary: self.summary@,
            body: self.body@,
            tags: self.tags.deep_view(),
        }
    }
}

/// The stored post that a draft becomes once the store assigns it an id.
pub open spec fn stored_post(draft: NewPostView, id: int) -> PostView {
    PostView {
        id: id,
        title: draft.title,
        created: draft.created,
        published: draft.published,
        url: draft.url,
        summary: draft.summary,
        body: draft.body,
        tags: draft.tags,
    }
}

/// Why a store operation was refused.
#[derive(Clone, Copy, PartialEq, Eq, Structural, Debug)]
pub enum StoreError {
    /// No post carries the requested id or slug.
    NotFound,
    /// A draft with an empty title was rejected.
    EmptyTitle,
    /// A draft or an update with an empty body was rejected.
    EmptyBody,
    /// A draft with an empty url slug was rejected.
    EmptyUrl,
    /// A draft whose url slug is already taken was rejected.
    DuplicateUrl,
    /// The store has no ids left to assign.
    Full,
}

/// The model of the whole store: the posts in insertion order, and the
/// next id to assign.
pub ghost struct StoreView {
    pub posts: Seq<PostView>,
    pub next_id: int,
}

impl StoreView {
    /// Well-formed store: ids are positive, below the next id to assign,
    /// and unique; every post has a non-empty title, body and url, and
    /// no two posts share a url.
    pub open spec fn wf(self) -> bool {
        &&& 1 <= self.next_id <= i32::MAX
        &&& forall|i: int|
            0 <= i < self.posts.len() ==> 1 <= (#[trigger] self.posts[i]).id < self.next_id
        &&& forall|i: int, j: int|
            0 <= i < j < self.posts.len() ==> (#[trigger] self.posts[i]).id != (
            #[trigger] self.posts[j]).id
        &&& forall|i: int, j: int|
            0 <= i < j < self.posts.len() ==> (#[trigger] self.posts[i]).url != (
            #[trigger] self.posts[j]).url
        &&& forall|i: int|
            0 <= i < self.posts.len() ==> {
                &&& (#[trigger] self.posts[i]).title.len() > 0
                &&& self.posts[i].body.len() > 0
                &&& self.posts[i].url.len() > 0
            }
    }

    /// Some stored post carries this id.
    pub open spec fn has_id(self, id: int) -> bool {
        has_post_id(self.posts, id)
    }

    /// Some stored post carries this url slug.
    pub open spec fn has_url(self, url: Seq<char>) -> bool {
        exists|i: int| 0 <= i < self.posts.len() && (#[trigger] self.posts[i]).url == url
    }

    /// The index of the post carrying this id.
    pub open spec fn index_of_id(self, id: int) -> int {
        choose|i: int| 0 <= i < self.posts.len() && (#[trigger] self.posts[i]).id == id
    }
}

/// Some post of the sequence carries this id.
pub open spec fn has_post_id(s: Seq<PostView>, id: int) -> bool {
    exists|i: int| 0 <= i < s.len() && (#[trigger] s[i]).id == id
}

/// The error, if any, with which the store refuses a draft.
pub open spec fn create_refusal(s: StoreView, draft: NewPostView) -> Option<StoreError> {
    if draft.title.len() == 0 {
        Some(StoreError::EmptyTitle)
    } else if draft.body.len() == 0 {
        Some(StoreError::EmptyBody)
    } else if draft.url.len() == 0 {
        Some(StoreError::EmptyUrl)
    } else if s.has_url(draft.url) {
        Some(StoreError::DuplicateUrl)
    } else if s.next_id == i32::MAX {
        Some(StoreError::Full)
    } else {
        None
    }
}

/// The two tag sets share a tag.
pub open spec fn seq_overlaps(a: Seq<Seq<char>>, b: Seq<Seq<char>>) -> bool {
    exists|i: int| 0 <= i < a.len() && b.contains(#[trigger] a[i])
}

/// The post carries at least one of the target tags.
pub open spec fn tag_overlaps(p: PostView, target: Seq<Seq<char>>) -> bool {
    seq_overlaps(p.tags, target)
}

/// The post belongs in a listing restricted to the target tags: it is
/// published, and an empty target set applies no tag restriction.
pub open spec fn selected(p: PostView, target: Seq<Seq<char>>) -> bool {
    p.published && (target.len() == 0 || tag_overlaps(p, target))
}

/// The posts selected for the target tags, in insertion order.
pub open spec fn selected_posts(s: Seq<PostView>, target: Seq<Seq<char>>) -> Seq<PostView>
    decreases s.len(),
{
    if s.len() == 0 {
        Seq::empty()
    } else {
        let rest = selected_posts(s.drop_last(), target);
        if selected(s.last(), target) {
            rest.push(s.last())
        } else {
            rest
        }
    }
}

/// The published posts, in insertion order.
pub open spec fn published_posts(s: Seq<PostView>) -> Seq<PostView>
    decreases s.len(),
{
    if s.len() == 0 {
        Seq::empty()
    } else {
        let rest = published_posts(s.drop_last());
        if s.last().published {
            rest.push(s.last())
        } else {
            rest
        }
    }
}

/// Inserts `p` into a sequence sorted by creation date descending,
/// after every post created on or after `p` (so that, of posts created
/// the same day, the one inserted earlier stays first).
pub open spec fn insert_desc(s: Seq<PostView>, p: PostView) -> Seq<PostView>
    decreases s.len(),
{
    if s.len() == 0 {
        seq![p]
    } else if p.created.spec_le(s[0].created) {
        seq![s[0]] + insert_desc(s.drop_first(), p)
    } else {
        seq![p] + s
    }
}

/// Stable sort by creation date, most recent first.
pub open spec fn sort_desc(s: Seq<PostView>) -> Seq<PostView>
    decreases s.len(),
{
    if s.len() == 0 {
        Seq::empty()
    } else {
        insert_desc(sort_desc(s.drop_last()), s.last())
    }
}

/// What `read_posts` returns: the published posts, most recent first.
pub open spec fn listed(s: Seq<PostView>) -> Seq<PostView> {
    sort_desc(published_posts(s))
}

/// What `read_tagged_posts` returns: the selected posts, most recent first.
pub open spec fn listed_tagged(s: Seq<PostView>, target: Seq<Seq<char>>) -> Seq<PostView> {
    sort_desc(selected_posts(s, target))
}

/// Non-increasing by creation date.
pub open spec fn sorted_desc(s: Seq<PostView>) -> bool {
    forall|i: int, j: int|
        0 <= i < j < s.len() ==> (#[trigger] s[j]).created.spec_le((#[trigger] s[i]).created)
}

proof fn lemma_insert_desc_at(s: Seq<PostView>, p: PostView, idx: int)
    requires
        0 <= idx <= s.len(),
        forall|j: int| 0 <= j < idx ==> p.created.spec_le((#[trigger] s[j]).created),
        idx < s.len() ==> !p.created.spec_le(s[idx].created),
    ensures
        insert_desc(s, p) == s.take(idx) + seq![p] + s.skip(idx),
    decreases idx,
{
    if idx == 0 {
        if s.len() == 0 {
            assert(insert_desc(s, p) =~= s.take(0) + seq![p] + s.skip(0));
        } else {
            assert(insert_desc(s, p) =~= s.take(0) + seq![p] + s.skip(0));
        }
    } else {
        assert(p.created.spec_le(s[0].created));
        lemma_insert_desc_at(s.drop_first(), p, idx - 1);
        assert(seq![s[0]] + (s.drop_first().take(idx - 1) + seq![p] + s.drop_first().skip(idx - 1))
            =~= s.take(idx) + seq![p] + s.skip(idx));
    }
}

proof fn lemma_sort_desc_push(s: Seq<PostView>, p: PostView)
    ensures
        sort_desc(s.push(p)) == insert_desc(sort_desc(s), p),
{
    assert(s.push(p).drop_last() =~= s);
    assert(s.push(p).last() == p);
}

/// Inserting keeps a descending sequence descending.
proof fn lemma_insert_desc_sorted(s: Seq<PostView>, p: PostView)
    requires
        sorted_desc(s),
    ensures
        sorted_desc(insert_desc(s, p)),
    decreases s.len(),
{
    if s.len() == 0 {
    } else if p.created.spec_le(s[0].created) {
        assert(sorted_desc(s.drop_first()));
        lemma_insert_desc_sorted(s.drop_first(), p);
        let r = seq![s[0]] + insert_desc(s.drop_first(), p);
        let rr = insert_desc(s.drop_first(), p);
        assert forall|i: int, j: int| 0 <= i < j < r.len() implies (#[trigger] r[j]).created.spec_le(
            (#[trigger] r[i]).created,
        ) by {
            if i == 0 {
                // r[j] is either p or an element of s.drop_first(), all of
                // which are created on or before s[0]
                lemma_insert_desc_elems(s.drop_first(), p, j - 1);
                if rr[j - 1] == p {
                } else {
                    let k = choose|k: int|
                        0 <= k < s.drop_first().len() && s.drop_first()[k] == rr[j - 1];
                    assert(s[k + 1] == rr[j - 1]);
                }
            } else {
                assert(r[i] == rr[i - 1] && r[j] == rr[j - 1]);
            }
        }
    } else {
        // p goes first and is created strictly after s[0], hence after all of s
        let r = seq![p] + s;
        assert forall|i: int, j: int| 0 <= i < j < r.len() implies (#[trigger] r[j]).created.spec_le(
            (#[trigger] r[i]).created,
        ) by {
            crate::date::lemma_date_le_total(p.created, s[0].created);
            if i == 0 {
                assert(r[j] == s[j - 1]);
                if j > 1 {
                    assert(s[j - 1].created.spec_le(s[0].created));
                }
            } else {
                assert(r[i] == s[i - 1] && r[j] == s[j - 1]);
            }
        }
    }
}

/// Every element of `insert_desc(s, p)` is `p` or an element of `s`.
proof fn lemma_insert_desc_elems(s: Seq<PostView>, p: PostView, j: int)
    requires
        0 <= j < insert_desc(s, p).len(),
    ensures
        insert_desc(s, p)[j] == p || exists|k: int|
            0 <= k < s.len() && s[k] == insert_desc(s, p)[j],
    decreases s.len(),
{
    if s.len() == 0 {
    } else if p.created.spec_le(s[0].created) {
        if j == 0 {
            assert(insert_desc(s, p)[0] == s[0]);
        } else {
            lemma_insert_desc_elems(s.drop_first(), p, j - 1);
            let r = insert_desc(s.drop_first(), p);
            if r[j - 1] == p {
            } else {
                let k = choose|k: int| 0 <= k < s.drop_first().len() && s.drop_first()[k] == r[j - 1];
                assert(s[k + 1] == insert_desc(s, p)[j]);
            }
        }
    }
}

/// The sorted listing holds exactly the selected posts, with multiplicity.
pub proof fn lemma_insert_desc_multiset(s: Seq<PostView>, p: PostView)
    ensures
        insert_desc(s, p).to_multiset() == s.to_multiset().insert(p),
    decreases s.len(),
{
    broadcast use vstd::seq_lib::group_to_multiset_ensures;

    if s.len() == 0 {
        assert(seq![p] =~= Seq::<PostView>::empty().push(p));
        assert(insert_desc(s, p).to_multiset() =~= s.to_multiset().insert(p));
    } else if p.created.spec_le(s[0].created) {
        lemma_insert_desc_multiset(s.drop_first(), p);
        let r = insert_desc(s.drop_first(), p);
        assert(seq![s[0]] + r =~= r.insert(0, s[0]));
        assert(r.insert(0, s[0]).to_multiset() =~= r.to_multiset().insert(s[0]));
        assert(s =~= s.drop_first().insert(0, s[0]));
        assert(s.to_multiset() =~= s.drop_first().to_multiset().insert(s[0]));
        let m = s.drop_first().to_multiset();
        assert(m.insert(p).insert(s[0]) =~= m.insert(s[0]).insert(p));
    } else {
        assert(seq![p] + s =~= s.insert(0, p));
        assert(insert_desc(s, p).to_multiset() =~= s.to_multiset().insert(p));
    }
}

/// Sorting neither loses nor invents posts.
pub proof fn lemma_sort_desc_multiset(s: Seq<PostView>)
    ensures
        sort_desc(s).to_multiset() == s.to_multiset(),
    decreases s.len(),
{
    broadcast use vstd::seq_lib::group_to_multiset_ensures;

    if s.len() > 0 {
        lemma_sort_desc_multiset(s.drop_last());
        lemma_insert_desc_multiset(sort_desc(s.drop_last()), s.last());
        assert(s =~= s.drop_last().push(s.last()));
        assert(s.to_multiset() =~= s.drop_last().to_multiset().insert(s.last()));
    }
}

/// The result of the stable sort is sorted.
pub proof fn lemma_sort_desc_sorted(s: Seq<PostView>)
    ensures
        sorted_desc(sort_desc(s)),
    decreases s.len(),
{
    if s.len() > 0 {
        lemma_sort_desc_sorted(s.drop_last());
        lemma_insert_desc_sorted(sort_desc(s.drop_last()), s.last());
    }
}

/// A post is selected exactly when it is published and carries a target
/// tag (or the target set is empty).
pub proof fn lemma_selected_posts_multiset(s: Seq<PostView>, target: Seq<Seq<char>>, p: PostView)
    ensures
        selected_posts(s, target).to_multiset().count(p) == if selected(p, target) {
            s.to_multiset().count(p)
        } else {
            0
        },
    decreases s.len(),
{
    broadcast use vstd::seq_lib::group_to_multiset_ensures;

    if s.len() == 0 {
    } else {
        lemma_selected_posts_multiset(s.drop_last(), target, p);
        assert(s =~= s.drop_last().push(s.last()));
        assert(s.to_multiset() =~= s.drop_last().to_multiset().insert(s.last()));
        if selected(s.last(), target) {
            assert(selected_posts(s, target) == selected_posts(s.drop_last(), target).push(
                s.last(),
            ));
            assert(selected_posts(s, target).to_multiset() =~= selected_posts(
                s.drop_last(),
                target,
            ).to_multiset().insert(s.last()));
        }
    }
}

/// With no target tags, selection is exactly publication.
pub proof fn lemma_selected_posts_empty(s: Seq<PostView>)
    ensures
        selected_posts(s, Seq::empty()) == published_posts(s),
    decreases s.len(),
{
    if s.len() > 0 {
        lemma_selected_posts_empty(s.drop_last());
    }
}

/// The store's posts after the post with the given id is published.
pub open spec fn publish_applied(s: Seq<PostView>, id: int) -> Seq<PostView> {
    Seq::new(
        s.len(),
        |i: int|
            if s[i].id == id {
                PostView { published: true, ..s[i] }
            } else {
                s[i]
            },
    )
}

/// The store's posts after the post with the given id gets a new body.
pub open spec fn body_applied(s: Seq<PostView>, id: int, body: Seq<char>) -> Seq<PostView> {
    Seq::new(
        s.len(),
        |i: int|
            if s[i].id == id {
                PostView { body: body, ..s[i] }
            } else {
                s[i]
            },
    )
}

/// The error, if any, with which the store refuses a body update.
pub open spec fn update_refusal(s: StoreView, id: int, body: Seq<char>) -> Option<StoreError> {
    if body.len() == 0 {
        Some(StoreError::EmptyBody)
    } else if !s.has_id(id) {
        Some(StoreError::NotFound)
    } else {
        None
    }
}

/// The in-memory content store. It owns the authoritative copy of every
/// post; callers receive independent copies on read.
pub struct ContentStore {
    posts: Vec<BlogPost>,
    next_id: i32,
}

impl View for ContentStore {
    type V = StoreView;

    closed spec fn view(&self) -> StoreView {
        StoreView { posts: self.posts.deep_view(), next_id: self.next_id as int }
    }
}

impl ContentStore {
    /// A fresh, empty store.
    pub fn new() -> (s: ContentStore)
        ensures
            s@.posts.len() == 0,
            s@.next_id == 1,
            s@.wf(),
    {
        let s = ContentStore { posts: Vec::new(), next_id: 1 };
        proof {
            assert(s@.posts =~= Seq::<PostView>::empty());
        }
        s
    }

    /// Validates a draft, assigns it a fresh id, persists it, and returns
    /// the stored post. An invalid draft is refused and the store is
    /// left unchanged.
    pub fn create_post(&mut self, post: NewBlogPost) -> (r: Result<BlogPost, StoreError>)
        requires
            old(self)@.wf(),
        ensures
            final(self)@.wf(),
            match r {
                Ok(p) => {
                    &&& create_refusal(old(self)@, post@) is None
                    &&& p@ == stored_post(post@, old(self)@.next_id)
                    &&& final(self)@.posts == old(self)@.posts.push(p@)
                    &&& final(self)@.next_id == old(self)@.next_id + 1
                },
                Err(e) => {
                    &&& create_refusal(old(self)@, post@) == Some(e)
                    &&& final(self)@ == old(self)@
                },
            },
    {
        if post.title.as_str().is_empty() {
            return Err(StoreError::EmptyTitle);
        }
        if post.body.as_str().is_empty() {
            return Err(StoreError::EmptyBody);
        }
        if post.url.as_str().is_empty() {
            return Err(StoreError::EmptyUrl);
        }
        if self.holds_url(&post.url) {
            return Err(StoreError::DuplicateUrl);
        }
        if self.next_id == i32::MAX {
            return Err(StoreError::Full);
        }
        let id = self.next_id;
        let stored = BlogPost {
            id,
            title: post.title,
            created: post.created,
            published: post.published,
            url: post.url,
            summary: post.summary,
            body: post.body,
            tags: post.tags,
        };
        let copy = stored.duplicate();
        self.posts.push(stored);
        self.next_id = self.next_id + 1;
        proof {
            assert(self.posts.deep_view() =~= old(self).posts.deep_view().push(copy@));
        }
        Ok(copy)
    }

    /// All published posts, most recent first; posts created the same day
    /// keep their insertion order. Returns copies: reads never mutate.
    pub fn read_posts(&self) -> (r: Vec<BlogPost>)
        ensures
            r.deep_view() == listed(self@.posts),
            sorted_desc(r.deep_view()),
            forall|i: int| 0 <= i < r.deep_view().len() ==> (#[trigger] r.deep_view()[i]).published,
    {
        let no_tags: Vec<String> = Vec::new();
        proof {
            assert(no_tags.deep_view() =~= Seq::<Seq<char>>::empty());
            lemma_selected_posts_empty(self@.posts);
        }
        self.read_tagged_posts(no_tags)
    }

    /// The published posts that carry at least one of the target tags,
    /// most recent first. An empty target set applies no tag restriction.
    pub fn read_tagged_posts(&self, target_tags: Vec<String>) -> (r: Vec<BlogPost>)
        ensures
            r.deep_view() == listed_tagged(self@.posts, target_tags.deep_view()),
            sorted_desc(r.deep_view()),
            forall|i: int| 0 <= i < r.deep_view().len() ==> (#[trigger] r.deep_view()[i]).published,
    {
        let ghost target = target_tags.deep_view();
        let n = self.posts.len();
        let mut r: Vec<BlogPost> = Vec::new();
        assert(r.deep_view() =~= sort_desc(selected_posts(self@.posts.take(0), target)));
        let mut i: usize = 0;
        while i < n
            invariant
                i <= n,
                n == self.posts.len(),
                target == target_tags.deep_view(),
                r.deep_view() == sort_desc(selected_posts(self@.posts.take(i as int), target)),
            decreases n - i,
        {
            let ghost prefix = self@.posts.take(i as int);
            let p = &self.posts[i];
            assert(p@ == self@.posts[i as int]);
            let take = p.published && (target_tags.len() == 0 || overlaps(&p.tags, &target_tags));
            proof {
                assert(self@.posts.take(i + 1).drop_last() =~= prefix);
                assert(self@.posts.take(i + 1).last() == p@);
                assert(take == selected(p@, target));
            }
            if take {
                let copy = p.duplicate();
                proof {
                    lemma_sort_desc_push(selected_posts(prefix, target), copy@);
                }
                insert_sorted(&mut r, copy);
            }
            i = i + 1;
        }
        proof {
            assert(self@.posts.take(n as int) =~= self@.posts);
            lemma_sort_desc_sorted(selected_posts(self@.posts, target));
            lemma_published_listed(r.deep_view(), self@.posts, target);
        }
        r
    }

    /// Marks the post with the given id as published — a one-way and
    /// idempotent transition — and returns the updated record. Fails with
    /// `NotFound` when no post carries the id; nothing else can fail.
    pub fn publish_post(&mut self, target_id: i32) -> (r: Result<BlogPost, StoreError>)
        requires
            old(self)@.wf(),
        ensures
            final(self)@.wf(),
            final(self)@.next_id == old(self)@.next_id,
            r is Ok <==> old(self)@.has_id(target_id as int),
            match r {
                Ok(p) => {
                    &&& final(self)@.posts == publish_applied(old(self)@.posts, target_id as int)
                    &&& p@ == publish_applied(old(self)@.posts, target_id as int)[old(
                        self,
                    )@.index_of_id(target_id as int)]
                },
                Err(e) => {
                    &&& e == StoreError::NotFound
                    &&& final(self)@ == old(self)@
                },
            },
    {
        let n = self.posts.len();
        let mut i: usize = 0;
        while i < n
            invariant
                self@.wf(),
                self@ == old(self)@,
                i <= n,
                n == self.posts.len(),
                forall|j: int| 0 <= j < i ==> (#[trigger] self@.posts[j]).id != target_id as int,
            decreases n - i,
        {
            if self.posts[i].id == target_id {
                proof {
                    lemma_unique_id_index(self@, target_id as int, i as int);
                    lemma_only_target_id(self@, target_id as int, i as int);
                }
                let ghost old_posts = self@.posts;
                let ghost pre = self.posts@;
                let p = self.posts.remove(i);
                assert(p@ == old_posts[i as int]);
                let updated = BlogPost {
                    id: p.id,
                    title: p.title,
                    created: p.created,
                    published: true,
                    url: p.url,
                    summary: p.summary,
                    body: p.body,
                    tags: p.tags,
                };
                let result = updated.duplicate();
                self.posts.insert(i, updated);
                proof {
                    let pos = i as int;
                    pre.remove(pos).insert_ensures(pos, updated);
                    pre.remove_ensures(pos);
                    let target = publish_applied(old_posts, target_id as int);
                    assert forall|k: int| 0 <= k < self@.posts.len() implies self@.posts[k]
                        == target[k] by {
                        if k < pos {
                            assert(self.posts@[k] == pre[k]);
                        } else if k > pos {
                            assert(self.posts@[k] == pre.remove(pos)[k - 1]);
                            assert(pre.remove(pos)[k - 1] == pre[k]);
                        } else {
                            assert(self.posts@[k] == updated);
                        }
                    }
                    assert(self@.posts =~= target);
                }
                return Ok(result);
            }
            i = i + 1;
        }
        assert(!self@.has_id(target_id as int));
        Err(StoreError::NotFound)
    }

    /// Replaces only the body of the post with the given id and returns
    /// the updated record; every other field is untouched. Fails with
    /// `NotFound` when no post carries the id, and refuses an empty body.
    pub fn update_body(&mut self, target_id: i32, new_body: &str) -> (r: Result<
        BlogPost,
        StoreError,
    >)
        requires
            old(self)@.wf(),
        ensures
            final(self)@.wf(),
            final(self)@.next_id == old(self)@.next_id,
            match r {
                Ok(p) => {
                    &&& update_refusal(old(self)@, target_id as int, new_body@) is None
                    &&& final(self)@.posts == body_applied(
                        old(self)@.posts,
                        target_id as int,
                        new_body@,
                    )
                    &&& p@ == body_applied(old(self)@.posts, target_id as int, new_body@)[old(
                        self,
                    )@.index_of_id(target_id as int)]
                },
                Err(e) => {
                    &&& update_refusal(old(self)@, target_id as int, new_body@) == Some(e)
                    &&& final(self)@ == old(self)@
                },
            },
    {
        if new_body.is_empty() {
            return Err(StoreError::EmptyBody);
        }
        let n = self.posts.len();
        let mut i: usize = 0;
        while i < n
            invariant
                self@.wf(),
                self@ == old(self)@,
                new_body@.len() > 0,
                i <= n,
                n == self.posts.len(),
                forall|j: int| 0 <= j < i ==> (#[trigger] self@.posts[j]).id != target_id as int,
            decreases n - i,
        {
            if self.posts[i].id == target_id {
                proof {
                    lemma_unique_id_index(self@, target_id as int, i as int);
                    lemma_only_target_id(self@, target_id as int, i as int);
                }
                let ghost old_posts = self@.posts;
                let ghost pre = self.posts@;
                let p = self.posts.remove(i);
                assert(p@ == old_posts[i as int]);
                let updated = BlogPost {
                    id: p.id,
                    title: p.title,
                    created: p.created,
                    published: p.published,
                    url: p.url,
                    summary: p.summary,
                    body: new_body.to_owned(),
                    tags: p.tags,
                };
                let result = updated.duplicate();
                self.posts.insert(i, updated);
                proof {
                    let pos = i as int;
                    pre.remove(pos).insert_ensures(pos, updated);
                    pre.remove_ensures(pos);
                    let target = body_applied(old_posts, target_id as int, new_body@);
                    assert forall|k: int| 0 <= k < self@.posts.len() implies self@.posts[k]
                        == target[k] by {
                        if k < pos {
                            assert(self.posts@[k] == pre[k]);
                        } else if k > pos {
                            assert(self.posts@[k] == pre.remove(pos)[k - 1]);
                            assert(pre.remove(pos)[k - 1] == pre[k]);
                        } else {
                            assert(self.posts@[k] == updated);
                        }
                    }
                    assert(self@.posts =~= target);
                }
                return Ok(result);
            }
            i = i + 1;
        }
        assert(!self@.has_id(target_id as int));
        Err(StoreError::NotFound)
    }

    /// Creates a post whose url slug is derived from its title: spaces
    /// become `-` and letters fold to lowercase.
    pub fn create_titled(
        &mut self,
        title: String,
        created: Date,
        published: bool,
        summary: String,
        body: String,
        tags: Vec<String>,
    ) -> (r: Result<BlogPost, StoreError>)
        requires
            old(self)@.wf(),
        ensures
            final(self)@.wf(),
            ({
                let draft = NewPostView {
                    title: title@,
                    created: created,
                    published: published,
                    url: text::slug_of(title@),
                    summary: summary@,
                    body: body@,
                    tags: tags.deep_view(),
                };
                match r {
                    Ok(p) => {
                        &&& create_refusal(old(self)@, draft) is None
                        &&& p@ == stored_post(draft, old(self)@.next_id)
                        &&& final(self)@.posts == old(self)@.posts.push(p@)
                        &&& final(self)@.next_id == old(self)@.next_id + 1
                    },
                    Err(e) => {
                        &&& create_refusal(old(self)@, draft) == Some(e)
                        &&& final(self)@ == old(self)@
                    },
                }
            }),
    {
        let url = crate::text::slug_of_title(title.as_str());
        self.create_post(NewBlogPost { title, created, published, url, summary, body, tags })
    }

    /// Every stored post, in insertion order, as independent copies —
    /// what a backing medium persists.
    pub fn all_posts(&self) -> (r: Vec<BlogPost>)
        ensures
            r.deep_view() == self@.posts,
    {
        let n = self.posts.len();
        let mut r: Vec<BlogPost> = Vec::new();
        assert(r.deep_view() =~= self@.posts.take(0));
        let mut i: usize = 0;
        while i < n
            invariant
                i <= n,
                n == self.posts.len(),
                r.deep_view() == self@.posts.take(i as int),
            decreases n - i,
        {
            let d = self.posts[i].duplicate();
            let ghost prev = r@;
            let ghost dv = d@;
            proof {
                assert(prev.len() == r.deep_view().len());
                assert(prev.len() == i as int);
            }
            r.push(d);
            proof {
                assert forall|k: int| 0 <= k < r@.len() implies r.deep_view()[k] == self@.posts.take(
                    i + 1,
                )[k] by {
                    if k < i as int {
                        assert(r@[k] == prev[k]);
                    } else {
                        assert(r@[k]@ == dv);
                    }
                }
                assert(r.deep_view() =~= self@.posts.take(i + 1));
            }
            i = i + 1;
        }
        assert(self@.posts.take(n as int) =~= self@.posts);
        r
    }

    /// The post with the given id, if any, as an independent copy.
    pub fn get_post(&self, target_id: i32) -> (r: Option<BlogPost>)
        requires
            self@.wf(),
        ensures
            r is Some <==> self@.has_id(target_id as int),
            r matches Some(p) ==> {
                &&& 0 <= self@.index_of_id(target_id as int) < self@.posts.len()
                &&& p@ == self@.posts[self@.index_of_id(target_id as int)]
            },
    {
        let n = self.posts.len();
        let mut i: usize = 0;
        while i < n
            invariant
                self@.wf(),
                i <= n,
                n == self.posts.len(),
                forall|j: int| 0 <= j < i ==> (#[trigger] self@.posts[j]).id != target_id as int,
            decreases n - i,
        {
            if self.posts[i].id == target_id {
                let p = self.posts[i].duplicate();
                proof {
                    lemma_unique_id_index(self@, target_id as int, i as int);
                }
                return Some(p);
            }
            i = i + 1;
        }
        None
    }

    /// Whether some stored post already uses this url slug.
    fn holds_url(&self, url: &String) -> (r: bool)
        ensures
            r == self@.has_url(url@),
    {
        let n = self.posts.len();
        let mut i: usize = 0;
        while i < n
            invariant
                i <= n,
                n == self.posts.len(),
                forall|j: int| 0 <= j < i ==> self@.posts[j].url != url@,
            decreases n - i,
        {
            if self.posts[i].url.eq(url) {
                assert(self@.posts[i as int].url == url@);
                return true;
            }
            i = i + 1;
        }
        false
    }
}

/// A created post is published exactly when the draft asked for it;
/// in particular a draft that does not ask is stored as a draft.
pub proof fn lemma_create_published_flag(draft: NewPostView, id: int)
    ensures
        stored_post(draft, id).published == draft.published,
{
}

/// Publishing is idempotent: publishing a post a second time changes
/// nothing, and, since no post loses its id, the second call succeeds
/// exactly when the first did.
pub proof fn lemma_publish_idempotent(s: Seq<PostView>, id: int)
    ensures
        publish_applied(publish_applied(s, id), id) == publish_applied(s, id),
        forall|k: int| 0 <= k < s.len() ==> (#[trigger] publish_applied(s, id)[k]).id == s[k].id,
        forall|x: int| has_post_id(publish_applied(s, id), x) == has_post_id(s, x),
{
    assert(publish_applied(publish_applied(s, id), id) =~= publish_applied(s, id));
    assert forall|x: int| has_post_id(publish_applied(s, id), x) == has_post_id(s, x) by {
        if has_post_id(s, x) {
            let k = choose|k: int| 0 <= k < s.len() && (#[trigger] s[k]).id == x;
            assert(publish_applied(s, id)[k].id == x);
        }
        if has_post_id(publish_applied(s, id), x) {
            let k = choose|k: int|
                0 <= k < publish_applied(s, id).len() && (#[trigger] publish_applied(s, id)[k]).id
                    == x;
            assert(s[k].id == x);
        }
    }
}

/// A body update changes only the body of the addressed post: every
/// other field of every post, and every other post entirely, is kept.
pub proof fn lemma_update_changes_only_body(s: Seq<PostView>, id: int, b: Seq<char>, k: int)
    requires
        0 <= k < s.len(),
    ensures
        body_applied(s, id, b).len() == s.len(),
        body_applied(s, id, b)[k].id == s[k].id,
        body_applied(s, id, b)[k].title == s[k].title,
        body_applied(s, id, b)[k].created == s[k].created,
        body_applied(s, id, b)[k].published == s[k].published,
        body_applied(s, id, b)[k].url == s[k].url,
        body_applied(s, id, b)[k].summary == s[k].summary,
        body_applied(s, id, b)[k].tags == s[k].tags,
        s[k].id != id ==> body_applied(s, id, b)[k] == s[k],
        s[k].id == id ==> body_applied(s, id, b)[k].body == b,
{
}

/// Listing with no target tags is exactly the published listing, in the
/// same order.
pub proof fn lemma_list_by_no_tags(s: Seq<PostView>)
    ensures
        listed_tagged(s, Seq::empty()) == listed(s),
{
    lemma_selected_posts_empty(s);
}

/// Listing by a single tag returns exactly the published posts whose tag
/// set contains that tag — each as often as the store holds it — and no
/// others.
pub proof fn lemma_list_by_one_tag(s: Seq<PostView>, t: Seq<char>, p: PostView)
    ensures
        listed_tagged(s, seq![t]).to_multiset().count(p) == if p.published && p.tags.contains(t) {
            s.to_multiset().count(p)
        } else {
            0
        },
        listed_tagged(s, seq![t]).contains(p) <==> p.published && p.tags.contains(t)
            && s.contains(p),
{
    broadcast use vstd::seq_lib::group_to_multiset_ensures;

    lemma_sort_desc_multiset(selected_posts(s, seq![t]));
    lemma_selected_posts_multiset(s, seq![t], p);
    assert(selected(p, seq![t]) == (p.published && p.tags.contains(t))) by {
        assert(seq![t].len() == 1);
        if tag_overlaps(p, seq![t]) {
            let i = choose|i: int| 0 <= i < p.tags.len() && seq![t].contains(#[trigger] p.tags[i]);
            assert(p.tags[i] == t);
        }
        if p.tags.contains(t) {
            let i = choose|i: int| 0 <= i < p.tags.len() && p.tags[i] == t;
            assert(seq![t][0] == t);
            assert(seq![t].contains(p.tags[i]));
        }
    }
}

proof fn lemma_count_zero_without_id(s: Seq<PostView>, p: PostView)
    requires
        forall|k: int| 0 <= k < s.len() ==> (#[trigger] s[k]).id != p.id,
    ensures
        s.to_multiset().count(p) == 0,
    decreases s.len(),
{
    broadcast use vstd::seq_lib::group_to_multiset_ensures;

    if s.len() > 0 {
        lemma_count_zero_without_id(s.drop_last(), p);
        assert(s =~= s.drop_last().push(s.last()));
        assert(s.to_multiset() =~= s.drop_last().to_multiset().insert(s.last()));
    }
}

proof fn lemma_count_one_with_unique_ids(s: Seq<PostView>, i: int)
    requires
        0 <= i < s.len(),
        forall|k: int, l: int|
            0 <= k < l < s.len() ==> (#[trigger] s[k]).id != (#[trigger] s[l]).id,
    ensures
        s.to_multiset().count(s[i]) == 1,
    decreases s.len(),
{
    broadcast use vstd::seq_lib::group_to_multiset_ensures;

    assert(s =~= s.drop_last().push(s.last()));
    assert(s.to_multiset() =~= s.drop_last().to_multiset().insert(s.last()));
    if i == s.len() - 1 {
        lemma_count_zero_without_id(s.drop_last(), s[i]);
    } else {
        lemma_count_one_with_unique_ids(s.drop_last(), i);
        assert(s.last().id != s[i].id);
    }
}

/// In a store whose posts carry unique ids, a published post appears in
/// the published listing exactly once.
pub proof fn lemma_listed_once(s: Seq<PostView>, i: int)
    requires
        0 <= i < s.len(),
        s[i].published,
        forall|k: int, l: int|
            0 <= k < l < s.len() ==> (#[trigger] s[k]).id != (#[trigger] s[l]).id,
    ensures
        listed(s).to_multiset().count(s[i]) == 1,
{
    lemma_sort_desc_multiset(published_posts(s));
    lemma_selected_posts_empty(s);
    lemma_selected_posts_multiset(s, Seq::empty(), s[i]);
    lemma_count_one_with_unique_ids(s, i);
}

/// Whether the sequence holds a string with exactly these characters.
fn contains_string(v: &Vec<String>, s: &String) -> (r: bool)
    ensures
        r == v.deep_view().contains(s@),
{
    let n = v.len();
    let mut i: usize = 0;
    while i < n
        invariant
            i <= n,
            n == v.len(),
            forall|j: int| 0 <= j < i ==> v.deep_view()[j] != s@,
        decreases n - i,
    {
        if v[i].eq(s) {
            assert(v.deep_view()[i as int] == s@);
            return true;
        }
        i = i + 1;
    }
    false
}

/// Whether the two tag lists share a tag.
fn overlaps(tags: &Vec<String>, target: &Vec<String>) -> (r: bool)
    ensures
        r == seq_overlaps(tags.deep_view(), target.deep_view()),
{
    let n = tags.len();
    let mut i: usize = 0;
    while i < n
        invariant
            i <= n,
            n == tags.len(),
            forall|j: int|
                0 <= j < i ==> !target.deep_view().contains(#[trigger] tags.deep_view()[j]),
        decreases n - i,
    {
        if contains_string(target, &tags[i]) {
            assert(target.deep_view().contains(tags.deep_view()[i as int]));
            return true;
        }
        i = i + 1;
    }
    false
}

/// Inserts a post into a listing sorted by creation date descending,
/// after every post created on or after it.
fn insert_sorted(r: &mut Vec<BlogPost>, p: BlogPost)
    ensures
        final(r).deep_view() == insert_desc(old(r).deep_view(), p@),
{
    let n = r.len();
    let mut idx: usize = 0;
    while idx < n && p.created.le(&r[idx].created)
        invariant
            idx <= n,
            n == r.len(),
            forall|j: int| 0 <= j < idx ==> p@.created.spec_le((#[trigger] r.deep_view()[j]).created),
        decreases n - idx,
    {
        idx = idx + 1;
    }
    let ghost old_dv = r.deep_view();
    let ghost gidx = idx as int;
    r.insert(idx, p);
    proof {
        lemma_insert_desc_at(old_dv, p@, gidx);
        assert(r.deep_view() =~= old_dv.take(gidx) + seq![p@] + old_dv.skip(gidx));
    }
}

proof fn lemma_published_listed(r: Seq<PostView>, s: Seq<PostView>, target: Seq<Seq<char>>)
    requires
        r == listed_tagged(s, target),
    ensures
        forall|i: int| 0 <= i < r.len() ==> (#[trigger] r[i]).published,
{
    broadcast use vstd::seq_lib::group_to_multiset_ensures;

    lemma_sort_desc_multiset(selected_posts(s, target));
    assert forall|i: int| 0 <= i < r.len() implies (#[trigger] r[i]).published by {
        assert(r.contains(r[i]));
        lemma_selected_posts_multiset(s, target, r[i]);
        assert(selected(r[i], target));
    }
}

proof fn lemma_only_target_id(s: StoreView, id: int, i: int)
    requires
        s.wf(),
        0 <= i < s.posts.len(),
        s.posts[i].id == id,
    ensures
        forall|k: int| 0 <= k < s.posts.len() && k != i ==> (#[trigger] s.posts[k]).id != id,
{
    assert forall|k: int| 0 <= k < s.posts.len() && k != i implies (#[trigger] s.posts[k]).id
        != id by {
        if k < i {
            assert(s.posts[k].id != s.posts[i].id);
        } else {
            assert(s.posts[i].id != s.posts[k].id);
        }
    }
}

proof fn lemma_unique_id_index(s: StoreView, id: int, i: int)
    requires
        s.wf(),
        0 <= i < s.posts.len(),
        s.posts[i].id == id,
    ensures
        s.has_id(id),
        s.index_of_id(id) == i,
{
    assert(s.has_id(id));
    let k = s.index_of_id(id);
    assert(0 <= k < s.posts.len() && s.posts[k].id == id);
    if k < i {
        assert(s.posts[k].id != s.posts[i].id);
    } else if i < k {
        assert(s.posts[i].id != s.posts[k].id);
    }
}

} // verus!
