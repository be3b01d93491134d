use vstd::prelude::*;
use vstd::string::*;

verus! {

/// A point in time, as whole seconds since 1970-01-01T00:00:00 UTC.
#[derive(Debug, Clone, Copy, PartialEq, Eq, Structural)]
pub struct Timestamp {
    pub secs: i64,
}

/// A hierarchical identifier such as `tech/ai`; two tags are the same
/// when their names are.
#[derive(Debug)]
pub struct Tag {
    pub name: String,
}

impl Tag {
    pub fn new(name: String) -> (r: Tag)
        ensures
            r.name == name,
    {
        Tag { name }
    }
}

impl Clone for Tag {
    fn clone(&self) -> (r: Tag)
        ensures
            r == *self,
    {
        Tag { name: self.name.clone() }
    }
}

} // verus!

verus! {

/// An ingested content record. Its `tags` hold each name at most once where
/// the tag operations of this library built them; the set they stand for is
/// `tag_set`.
#[derive(Debug)]
pub struct FeedItem {
    pub feed_id: i64,
    pub tags: Vec<String>,
    pub title: String,
    pub url: String,
    pub content: Option<String>,
    pub published_at: Option<Timestamp>,
}

impl FeedItem {
    /// The set of tag names attached to the item.
    pub open spec fn tag_set(&self) -> Set<Seq<char>> {
        Set::new(|n: Seq<char>| exists|i: int| 0 <= i < self.tags.len() && #[trigger] self.tags@[i]@ == n)
    }

    /// Two items describe the same content; they may differ in their tags.
    pub open spec fn same_subject(&self, other: FeedItem) -> bool {
        &&& self.feed_id == other.feed_id
        &&& self.title == other.title
        &&& self.url == other.url
        &&& self.content == other.content
        &&& self.published_at == other.published_at
    }

    /// An item with no tags yet.
    pub fn new(
        feed_id: i64,
        title: String,
        url: String,
        content: Option<String>,
        published_at: Option<Timestamp>,
    ) -> (r: FeedItem)
        ensures
            r.feed_id == feed_id,
            r.title == title,
            r.url == url,
            r.content == content,
            r.published_at == published_at,
            r.tags@.len() == 0,
            r.tag_set() == Set::<Seq<char>>::empty(),
    {
        let r = FeedItem { feed_id, tags: Vec::new(), title, url, content, published_at };
        assert(r.tag_set() =~= Set::<Seq<char>>::empty());
        r
    }

    /// The item for a feed entry: a missing link becomes the empty URL and a
    /// missing title `Untitled`.
    pub fn from_entry(
        feed_id: i64,
        link: Option<String>,
        title: Option<String>,
        content: Option<String>,
        published_at: Option<Timestamp>,
    ) -> (r: FeedItem)
        ensures
            r.feed_id == feed_id,
            r.url@ == (match link { Some(l) => l@, None => Seq::<char>::empty() }),
            r.title@ == (match title { Some(t) => t@, None => "Untitled"@ }),
            r.content == content,
            r.published_at == published_at,
            r.tag_set() == Set::<Seq<char>>::empty(),
    {
        let url = match link {
            Some(l) => l,
            None => String::new(),
        };
        let title = match title {
            Some(t) => t,
            None => String::from_str("Untitled"),
        };
        FeedItem::new(feed_id, title, url, content, published_at)
    }

    /// Whether `name` is among the item's tags.
    pub fn has_tag(&self, name: &String) -> (r: bool)
        ensures
            r == self.tag_set().contains(name@),
    {
        let mut i: usize = 0;
        while i < self.tags.len()
            invariant
                0 <= i <= self.tags.len(),
                forall|j: int| 0 <= j < i ==> self.tags@[j]@ != name@,
            decreases self.tags.len() - i,
        {
            if self.tags[i] == *name {
                assert(self.tags@[i as int]@ == name@);
                return true;
            }
            i += 1;
        }
        false
    }

    /// Adds `name` to the item's tags unless it is already there; returns
    /// whether it was added. Existing tags are never removed.
    pub fn insert_tag(&mut self, name: String) -> (added: bool)
        ensures
            final(self).same_subject(*old(self)),
            added == !old(self).tag_set().contains(name@),
            final(self).tag_set() == old(self).tag_set().insert(name@),
            added ==> final(self).tags@ == old(self).tags@.push(name),
            !added ==> final(self).tags@ == old(self).tags@,
    {
        if self.has_tag(&name) {
            assert(self.tag_set().insert(name@) =~= self.tag_set());
            false
        } else {
            let ghost before = *self;
            self.tags.push(name);
            assert forall|n: Seq<char>| #[trigger] self.tag_set().contains(n) <==> before.tag_set().insert(name@).contains(n) by {
                if before.tag_set().contains(n) && n != name@ {
                    let i = choose|i: int| 0 <= i < before.tags.len() && #[trigger] before.tags@[i]@ == n;
                    assert(self.tags@[i]@ == n);
                }
                if n == name@ {
                    assert(self.tags@[before.tags.len() as int]@ == n);
                }
            }
            assert(self.tag_set() =~= before.tag_set().insert(name@));
            true
        }
    }
}

/// A subscribed feed: the origin of the items that carry its `id`.
#[derive(Debug)]
pub struct Feed {
    pub id: i64,
    pub url: String,
    pub title: Option<String>,
    pub last_updated: Option<Timestamp>,
}

impl Feed {
    /// The name of the tag that marks items of this feed: `feed/` followed by
    /// the feed's title, or by `unknown` where it has none.
    pub open spec fn tag_name(&self) -> Seq<char> {
        match self.title {
            Some(t) => "feed/"@ + t@,
            None => "feed/"@ + "unknown"@,
        }
    }

    /// The feed's tag for items that come from it, and `None` for others.
    pub fn find_tag(&self, item: &FeedItem) -> (r: Option<Tag>)
        ensures
            item.feed_id == self.id ==> (r matches Some(t) && t.name@ == self.tag_name()),
            item.feed_id != self.id ==> r is None,
    {
        if item.feed_id == self.id {
            let mut name = String::from_str("feed/");
            match &self.title {
                Some(t) => name.append(t.as_str()),
                None => name.append("unknown"),
            }
            Some(Tag::new(name))
        } else {
            None
        }
    }
}

} // verus!
