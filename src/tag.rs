use vstd::prelude::*;

use crate::error::ConfigError;
use crate::models::{FeedItem, Tag, Timestamp};
use crate::pattern::{escape_literal, escaped_of, fails_to_compile, finds_match, regex_accepts, regex_finds};

verus! {

/// Whether a `Contains` pattern is taken as literal text or as a regular
/// expression.
#[derive(Debug, Clone, Copy, PartialEq, Eq, Structural)]
pub enum PatternMode {
    Literal,
    Regex,
}

/// Tags items whose title, or else content, holds a match of `pattern`.
#[derive(Debug)]
pub struct Contains {
    pub tag: Tag,
    pub pattern: String,
    pub mode: PatternMode,
    pub case_sensitive: bool,
}

/// The regular expression that a `Contains` rule runs.
pub open spec fn regex_source_of(pattern: Seq<char>, mode: PatternMode) -> Seq<char> {
    match mode {
        PatternMode::Literal => escaped_of(pattern),
        PatternMode::Regex => pattern,
    }
}

/// The regular expression `source` matches the item's title, or else its
/// content.
pub open spec fn pattern_hits(source: Seq<char>, case_insensitive: bool, item: FeedItem) -> bool {
    ||| regex_finds(source, case_insensitive, item.title@)
    ||| (item.content matches Some(c) && regex_finds(source, case_insensitive, c@))
}

impl Contains {
    pub open spec fn regex_source(&self) -> Seq<char> {
        regex_source_of(self.pattern@, self.mode)
    }

    /// The rule's pattern compiles.
    pub open spec fn wf(&self) -> bool {
        regex_accepts(self.regex_source(), !self.case_sensitive)
    }

    pub open spec fn matches(&self, item: FeedItem) -> bool {
        pattern_hits(self.regex_source(), !self.case_sensitive, item)
    }

    /// Builds the rule, or fails with `InvalidPattern` where its pattern does
    /// not compile.
    pub fn new(tag: Tag, pattern: String, mode: PatternMode, case_sensitive: bool) -> (r: Result<Contains, ConfigError>)
        ensures
            r is Ok <==> regex_accepts(regex_source_of(pattern@, mode), !case_sensitive),
            r matches Ok(c) ==> c.tag == tag && c.pattern == pattern && c.mode == mode && c.case_sensitive == case_sensitive,
            r matches Err(e) ==> e == ConfigError::InvalidPattern,
    {
        let c = Contains { tag, pattern, mode, case_sensitive };
        if c.is_valid() {
            Ok(c)
        } else {
            Err(ConfigError::InvalidPattern)
        }
    }

    fn source(&self) -> (r: String)
        ensures
            r@ == self.regex_source(),
    {
        match self.mode {
            PatternMode::Literal => escape_literal(self.pattern.as_str()),
            PatternMode::Regex => self.pattern.clone(),
        }
    }

    /// Whether the rule's pattern compiles.
    pub fn is_valid(&self) -> (r: bool)
        ensures
            r == self.wf(),
    {
        let src = self.source();
        !fails_to_compile(src.as_str(), !self.case_sensitive)
    }

    /// The rule's tag where the title matches, or else the content does.
    pub fn find_tag(&self, item: &FeedItem) -> (r: Option<Tag>)
        requires
            self.wf(),
        ensures
            self.matches(*item) ==> r == Some(self.tag),
            !self.matches(*item) ==> r is None,
    {
        let src = self.source();
        if finds_match(src.as_str(), !self.case_sensitive, item.title.as_str()) {
            return Some(self.tag.clone());
        }
        match &item.content {
            Some(c) => {
                if finds_match(src.as_str(), !self.case_sensitive, c.as_str()) {
                    Some(self.tag.clone())
                } else {
                    None
                }
            },
            None => None,
        }
    }
}

impl Clone for Contains {
    fn clone(&self) -> (r: Contains)
        ensures
            r == *self,
    {
        Contains {
            tag: self.tag.clone(),
            pattern: self.pattern.clone(),
            mode: self.mode,
            case_sensitive: self.case_sensitive,
        }
    }
}

/// Tags items published within its bounds, both inclusive. A rule with
/// neither bound matches nothing.
#[derive(Debug)]
pub struct TimeRange {
    pub tag: Tag,
    pub start: Option<Timestamp>,
    pub end: Option<Timestamp>,
}

/// The item was published within the bounds, both inclusive; without any
/// bound nothing is.
pub open spec fn in_range(start: Option<Timestamp>, end: Option<Timestamp>, item: FeedItem) -> bool {
    match (start, end, item.published_at) {
        (_, _, None) => false,
        (None, None, Some(_)) => false,
        (Some(s), None, Some(p)) => s.secs <= p.secs,
        (None, Some(e), Some(p)) => p.secs <= e.secs,
        (Some(s), Some(e), Some(p)) => s.secs <= p.secs && p.secs <= e.secs,
    }
}

impl TimeRange {
    pub open spec fn matches(&self, item: FeedItem) -> bool {
        in_range(self.start, self.end, item)
    }

    pub fn find_tag(&self, item: &FeedItem) -> (r: Option<Tag>)
        ensures
            self.matches(*item) ==> r == Some(self.tag),
            !self.matches(*item) ==> r is None,
    {
        let hit = match (self.start, self.end, item.published_at) {
            (_, _, None) => false,
            (None, None, Some(_)) => false,
            (Some(s), None, Some(p)) => s.secs <= p.secs,
            (None, Some(e), Some(p)) => p.secs <= e.secs,
            (Some(s), Some(e), Some(p)) => s.secs <= p.secs && p.secs <= e.secs,
        };
        if hit {
            Some(self.tag.clone())
        } else {
            None
        }
    }
}

impl Clone for TimeRange {
    fn clone(&self) -> (r: TimeRange)
        ensures
            r == *self,
    {
        TimeRange { tag: self.tag.clone(), start: self.start, end: self.end }
    }
}

/// Tags the items that come from one source.
#[derive(Debug)]
pub struct FromSource {
    pub tag: Tag,
    pub source_id: i64,
}

impl FromSource {
    pub open spec fn matches(&self, item: FeedItem) -> bool {
        item.feed_id == self.source_id
    }

    pub fn find_tag(&self, item: &FeedItem) -> (r: Option<Tag>)
        ensures
            self.matches(*item) ==> r == Some(self.tag),
            !self.matches(*item) ==> r is None,
    {
        if item.feed_id == self.source_id {
            Some(self.tag.clone())
        } else {
            None
        }
    }
}

impl Clone for FromSource {
    fn clone(&self) -> (r: FromSource)
        ensures
            r == *self,
    {
        FromSource { tag: self.tag.clone(), source_id: self.source_id }
    }
}

/// A tag rule: one of the closed set of rule kinds.
#[derive(Debug)]
pub enum TagRuleEnum {
    TimeRange(TimeRange),
    Contains(Contains),
    FromSource(FromSource),
}

impl TagRuleEnum {
    /// The rule can be evaluated: a `Contains` pattern compiles.
    pub open spec fn wf(&self) -> bool {
        match self {
            TagRuleEnum::Contains(c) => c.wf(),
            _ => true,
        }
    }

    pub open spec fn matches(&self, item: FeedItem) -> bool {
        match self {
            TagRuleEnum::TimeRange(r) => r.matches(item),
            TagRuleEnum::Contains(r) => r.matches(item),
            TagRuleEnum::FromSource(r) => r.matches(item),
        }
    }

    pub open spec fn tag(&self) -> Tag {
        match self {
            TagRuleEnum::TimeRange(r) => r.tag,
            TagRuleEnum::Contains(r) => r.tag,
            TagRuleEnum::FromSource(r) => r.tag,
        }
    }

    pub fn is_valid(&self) -> (r: bool)
        ensures
            r == self.wf(),
    {
        match self {
            TagRuleEnum::Contains(c) => c.is_valid(),
            _ => true,
        }
    }

    /// The rule's tag where the item matches the rule, else `None`.
    pub fn find_tag(&self, item: &FeedItem) -> (r: Option<Tag>)
        requires
            self.wf(),
        ensures
            self.matches(*item) ==> r == Some(self.tag()),
            !self.matches(*item) ==> r is None,
    {
        match self {
            TagRuleEnum::TimeRange(r) => r.find_tag(item),
            TagRuleEnum::Contains(r) => r.find_tag(item),
            TagRuleEnum::FromSource(r) => r.find_tag(item),
        }
    }
}

impl Clone for TagRuleEnum {
    fn clone(&self) -> (r: TagRuleEnum)
        ensures
            r == *self,
    {
        match self {
            TagRuleEnum::TimeRange(r) => TagRuleEnum::TimeRange(r.clone()),
            TagRuleEnum::Contains(r) => TagRuleEnum::Contains(r.clone()),
            TagRuleEnum::FromSource(r) => TagRuleEnum::FromSource(r.clone()),
        }
    }
}

} // verus!

verus! {

/// The names of the tags that the rules in `rules` give `item`.
pub open spec fn matched_names(rules: Seq<TagRuleEnum>, item: FeedItem) -> Set<Seq<char>> {
    Set::new(|n: Seq<char>| exists|i: int| 0 <= i < rules.len() && #[trigger] rules[i].matches(item) && rules[i].tag().name@ == n)
}

/// The names held by a list of strings.
pub open spec fn name_set(names: Seq<String>) -> Set<Seq<char>> {
    Set::new(|n: Seq<char>| exists|k: int| 0 <= k < names.len() && #[trigger] names[k]@ == n)
}

/// Every rule of the sequence can be evaluated.
pub open spec fn all_wf(rules: Seq<TagRuleEnum>) -> bool {
    forall|i: int| 0 <= i < rules.len() ==> #[trigger] rules[i].wf()
}

/// The rule list that loading yields from what was stored: nothing stored
/// gives an empty list; a stored list is taken whole where each rule can be
/// evaluated, and refused as a whole otherwise.
pub open spec fn loaded(stored: Result<Seq<TagRuleEnum>, ConfigError>) -> Result<Seq<TagRuleEnum>, ConfigError> {
    match stored {
        Err(ConfigError::SourceNotFound) => Ok(Seq::empty()),
        Err(e) => Err(e),
        Ok(rules) => if all_wf(rules) {
            Ok(rules)
        } else {
            Err(ConfigError::InvalidPattern)
        },
    }
}

pub open spec fn seq_result(r: Result<Vec<TagRuleEnum>, ConfigError>) -> Result<Seq<TagRuleEnum>, ConfigError> {
    match r {
        Ok(v) => Ok(v@),
        Err(e) => Err(e),
    }
}

/// An ordered set of tag rules, applied together, with the location it is
/// persisted at.
#[derive(Debug)]
pub struct TagManager {
    rules: Vec<TagRuleEnum>,
    file_path: String,
}

impl View for TagManager {
    type V = Seq<TagRuleEnum>;

    closed spec fn view(&self) -> Seq<TagRuleEnum> {
        self.rules@
    }
}

impl TagManager {
    pub closed spec fn spec_file_path(&self) -> Seq<char> {
        self.file_path@
    }

    pub open spec fn wf(&self) -> bool {
        all_wf(self@)
    }

    /// `after` is `before` with the tags of every matching rule added.
    pub open spec fn applies_to(&self, before: FeedItem, after: FeedItem) -> bool {
        &&& after.same_subject(before)
        &&& after.tag_set() == before.tag_set().union(matched_names(self@, before))
    }

    /// A rule set bound to `file_path`, holding what loading yields from
    /// `stored`.
    pub fn new(file_path: &str, stored: Result<Vec<TagRuleEnum>, ConfigError>) -> (r: Result<TagManager, ConfigError>)
        ensures
            r matches Ok(m) ==> m.wf() && loaded(seq_result(stored)) == Ok::<Seq<TagRuleEnum>, ConfigError>(m@) && m.spec_file_path() == file_path@,
            r matches Err(e) ==> loaded(seq_result(stored)) == Err::<Seq<TagRuleEnum>, ConfigError>(e),
    {
        match Self::load_from_file(stored) {
            Ok(rules) => Ok(TagManager { rules, file_path: file_path.to_owned() }),
            Err(e) => Err(e),
        }
    }

    /// The rules to start from, given what was read from the rule store.
    pub fn load_from_file(stored: Result<Vec<TagRuleEnum>, ConfigError>) -> (r: Result<Vec<TagRuleEnum>, ConfigError>)
        ensures
            seq_result(r) == loaded(seq_result(stored)),
            r matches Ok(v) ==> all_wf(v@),
    {
        match stored {
            Err(ConfigError::SourceNotFound) => Ok(Vec::new()),
            Err(e) => Err(e),
            Ok(rules) => {
                let mut i: usize = 0;
                while i < rules.len()
                    invariant
                        0 <= i <= rules.len(),
                        seq_result(stored) == Ok::<Seq<TagRuleEnum>, ConfigError>(rules@),
                        forall|j: int| 0 <= j < i ==> #[trigger] rules@[j].wf(),
                    decreases rules.len() - i,
                {
                    if !rules[i].is_valid() {
                        assert(!all_wf(rules@)) by {
                            assert(!rules@[i as int].wf());
                        }
                        return Err(ConfigError::InvalidPattern);
                    }
                    i += 1;
                }
                Ok(rules)
            },
        }
    }

    /// Appends `rule`, or refuses it with `InvalidPattern` where it cannot be
    /// evaluated. No deduplication is done.
    pub fn add_rule(&mut self, rule: TagRuleEnum) -> (r: Result<(), ConfigError>)
        requires
            old(self).wf(),
        ensures
            final(self).wf(),
            final(self).spec_file_path() == old(self).spec_file_path(),
            r is Ok <==> rule.wf(),
            r is Ok ==> final(self)@ == old(self)@.push(rule),
            r matches Err(e) ==> e == ConfigError::InvalidPattern && final(self)@ == old(self)@,
    {
        if rule.is_valid() {
            self.rules.push(rule);
            Ok(())
        } else {
            Err(ConfigError::InvalidPattern)
        }
    }

    pub fn rules(&self) -> (r: &Vec<TagRuleEnum>)
        ensures
            r@ == self@,
    {
        &self.rules
    }

    pub fn file_path(&self) -> (r: &str)
        ensures
            r@ == self.spec_file_path(),
    {
        self.file_path.as_str()
    }

    /// Adds to `item` the tag of every rule that matches it and returns how
    /// many names were new to it. Tags already there stay.
    pub fn apply_rules(&self, item: &mut FeedItem) -> (count: usize)
        requires
            self.wf(),
        ensures
            self.applies_to(*old(item), *final(item)),
            final(item).tags@.len() == old(item).tags@.len() + count,
            final(item).tags@.subrange(0, old(item).tags@.len() as int) == old(item).tags@,
            forall|i: int| old(item).tags@.len() <= i < final(item).tags@.len()
                ==> !old(item).tag_set().contains(#[trigger] final(item).tags@[i]@),
            forall|i: int, j: int| old(item).tags@.len() <= i < j < final(item).tags@.len()
                ==> final(item).tags@[i]@ != final(item).tags@[j]@,
    {
        let ghost before = *item;
        let mut names: Vec<String> = Vec::new();
        let mut i: usize = 0;
        while i < self.rules.len()
            invariant
                self.wf(),
                0 <= i <= self.rules.len(),
                name_set(names@) == matched_names(self@.subrange(0, i as int), *item),
            decreases self.rules.len() - i,
        {
            proof {
                assert(self.rules@[i as int].wf());
            }
            let ghost prev = names@;
            let ghost rs = self@.subrange(0, i as int + 1);
            match self.rules[i].find_tag(item) {
                Some(t) => {
                    names.push(t.name);
                    assert forall|n: Seq<char>| #[trigger] name_set(names@).contains(n)
                        == matched_names(rs, *item).contains(n) by {
                        if name_set(names@).contains(n) {
                            let k = choose|k: int| 0 <= k < names.len() && #[trigger] names@[k]@ == n;
                            if k == prev.len() {
                                assert(rs[i as int].matches(*item));
                            } else {
                                assert(prev[k]@ == n);
                                assert(name_set(prev).contains(n));
                                let j = choose|j: int| 0 <= j < i && #[trigger] self@.subrange(0, i as int)[j].matches(*item)
                                    && self@.subrange(0, i as int)[j].tag().name@ == n;
                                assert(rs[j].matches(*item));
                            }
                        }
                        if matched_names(rs, *item).contains(n) {
                            let j = choose|j: int| 0 <= j < i + 1 && #[trigger] rs[j].matches(*item) && rs[j].tag().name@ == n;
                            if j == i {
                                assert(names@[prev.len() as int]@ == n);
                            } else {
                                assert(self@.subrange(0, i as int)[j] == rs[j]);
                                assert(matched_names(self@.subrange(0, i as int), *item).contains(n));
                                let k = choose|k: int| 0 <= k < prev.len() && #[trigger] prev[k]@ == n;
                                assert(names@[k]@ == n);
                            }
                        }
                    }
                },
                None => {
                    assert forall|n: Seq<char>| #[trigger] name_set(names@).contains(n)
                        == matched_names(rs, *item).contains(n) by {
                        if matched_names(rs, *item).contains(n) {
                            let j = choose|j: int| 0 <= j < i + 1 && #[trigger] rs[j].matches(*item) && rs[j].tag().name@ == n;
                            assert(self@.subrange(0, i as int)[j] == rs[j]);
                            assert(matched_names(self@.subrange(0, i as int), *item).contains(n));
                        }
                        if name_set(names@).contains(n) {
                            assert(matched_names(self@.subrange(0, i as int), *item).contains(n));
                            let j = choose|j: int| 0 <= j < i && #[trigger] self@.subrange(0, i as int)[j].matches(*item)
                                && self@.subrange(0, i as int)[j].tag().name@ == n;
                            assert(rs[j].matches(*item));
                        }
                    }
                },
            }
            assert(name_set(names@) =~= matched_names(rs, *item));
            i += 1;
        }
        assert(self@.subrange(0, self@.len() as int) =~= self@);
        let mut count: usize = 0;
        let mut k: usize = 0;
        while k < names.len()
            invariant
                0 <= k <= names.len(),
                item.same_subject(before),
                item.tags@.len() == before.tags@.len() + count,
                item.tags@.subrange(0, before.tags@.len() as int) == before.tags@,
                item.tag_set() == before.tag_set().union(Set::new(|n: Seq<char>| exists|m: int| 0 <= m < k && #[trigger] names@[m]@ == n)),
                forall|p: int| before.tags@.len() <= p < item.tags@.len()
                    ==> !before.tag_set().contains(#[trigger] item.tags@[p]@),
                forall|p: int, q: int| before.tags@.len() <= p < q < item.tags@.len()
                    ==> item.tags@[p]@ != item.tags@[q]@,
            decreases names.len() - k,
        {
            let ghost prev = *item;
            let name = names[k].clone();
            if item.insert_tag(name) {
                count += 1;
                assert forall|p: int, q: int| before.tags@.len() <= p < q < item.tags@.len()
                    implies item.tags@[p]@ != item.tags@[q]@ by {
                    if q == prev.tags@.len() {
                        assert(prev.tag_set().contains(prev.tags@[p]@));
                    }
                }
                assert(item.tags@.subrange(0, before.tags@.len() as int) =~= before.tags@) by {
                    assert(prev.tags@.subrange(0, before.tags@.len() as int) == before.tags@);
                }
                assert(!before.tag_set().contains(item.tags@[prev.tags@.len() as int]@)) by {
                    assert(!prev.tag_set().contains(names@[k as int]@));
                    if before.tag_set().contains(names@[k as int]@) {
                        let p = choose|p: int| 0 <= p < before.tags.len() && #[trigger] before.tags@[p]@ == names@[k as int]@;
                        assert(prev.tags@[p] == before.tags@[p]);
                    }
                }
            }
            assert(item.tag_set() =~= before.tag_set().union(Set::new(|n: Seq<char>| exists|m: int| 0 <= m < k + 1 && #[trigger] names@[m]@ == n))) by {
                assert forall|n: Seq<char>| #[trigger] item.tag_set().contains(n) implies
                    before.tag_set().union(Set::new(|n: Seq<char>| exists|m: int| 0 <= m < k + 1 && #[trigger] names@[m]@ == n)).contains(n) by {
                    if n == names@[k as int]@ {
                    } else {
                        assert(prev.tag_set().contains(n));
                        if !before.tag_set().contains(n) {
                            let m = choose|m: int| 0 <= m < k && #[trigger] names@[m]@ == n;
                            assert(names@[m]@ == n);
                        }
                    }
                }
                assert forall|n: Seq<char>|
                    before.tag_set().union(Set::new(|n: Seq<char>| exists|m: int| 0 <= m < k + 1 && #[trigger] names@[m]@ == n)).contains(n)
                    implies #[trigger] item.tag_set().contains(n) by {
                    if before.tag_set().contains(n) {
                        assert(prev.tag_set().contains(n));
                    } else {
                        let m = choose|m: int| 0 <= m < k + 1 && #[trigger] names@[m]@ == n;
                        if m < k {
                            assert(prev.tag_set().contains(n));
                        }
                    }
                }
            }
            k += 1;
        }
        assert(item.tag_set() =~= before.tag_set().union(matched_names(self@, before))) by {
            assert(Set::new(|n: Seq<char>| exists|m: int| 0 <= m < names.len() && #[trigger] names@[m]@ == n)
                =~= name_set(names@));
        }
        count
    }
}

/// The rules give `item` a tag name it does not have yet.
pub open spec fn gains(rules: Seq<TagRuleEnum>, item: FeedItem) -> bool {
    !matched_names(rules, item).subset_of(item.tag_set())
}

/// How many of `items` the rules give a new tag name.
pub open spec fn gaining_count(rules: Seq<TagRuleEnum>, items: Seq<FeedItem>) -> nat
    decreases items.len(),
{
    if items.len() == 0 {
        0
    } else {
        gaining_count(rules, items.subrange(0, items.len() - 1)) + if gains(rules, items[items.len() - 1]) {
            1nat
        } else {
            0nat
        }
    }
}

proof fn lemma_count_means_gain(m: TagManager, before: FeedItem, after: FeedItem, count: usize)
    requires
        m.applies_to(before, after),
        after.tags@.len() == before.tags@.len() + count,
        after.tags@.subrange(0, before.tags@.len() as int) == before.tags@,
        forall|i: int| before.tags@.len() <= i < after.tags@.len()
            ==> !before.tag_set().contains(#[trigger] after.tags@[i]@),
    ensures
        (count > 0) == gains(m@, before),
{
    if count > 0 {
        let n = after.tags@[before.tags@.len() as int]@;
        assert(after.tag_set().contains(n));
        assert(!before.tag_set().contains(n));
        assert(matched_names(m@, before).contains(n));
    }
    if gains(m@, before) {
        let n = choose|n: Seq<char>| matched_names(m@, before).contains(n) && !before.tag_set().contains(n);
        assert(after.tag_set().contains(n));
        let p = choose|p: int| 0 <= p < after.tags.len() && #[trigger] after.tags@[p]@ == n;
        if p < before.tags@.len() {
            assert(after.tags@.subrange(0, before.tags@.len() as int)[p] == after.tags@[p]);
            assert(before.tags@[p]@ == n);
        }
    }
}

impl TagManager {
    /// The item to store for a feed entry, tagged by the rules; `None` where
    /// the entry is already stored, so that it is skipped.
    pub fn ingest_entry(
        &self,
        already_present: bool,
        feed_id: i64,
        link: Option<String>,
        title: Option<String>,
        content: Option<String>,
        published_at: Option<Timestamp>,
    ) -> (r: Option<FeedItem>)
        requires
            self.wf(),
        ensures
            already_present <==> r is None,
            r matches Some(item) ==> {
                &&& item.feed_id == feed_id
                &&& item.url@ == (match link { Some(l) => l@, None => Seq::<char>::empty() })
                &&& item.title@ == (match title { Some(t) => t@, None => "Untitled"@ })
                &&& item.content == content
                &&& item.published_at == published_at
                &&& item.tag_set() == matched_names(self@, item)
            },
    {
        if already_present {
            return None;
        }
        let mut item = FeedItem::from_entry(feed_id, link, title, content, published_at);
        let ghost fresh = item;
        self.apply_rules(&mut item);
        proof {
            assert(fresh.tag_set().union(matched_names(self@, fresh)) =~= matched_names(self@, fresh));
            assert(matched_names(self@, fresh) =~= matched_names(self@, item)) by {
                assert forall|i: int| 0 <= i < self@.len() implies #[trigger] self@[i].matches(fresh) == self@[i].matches(item) by {
                    assert(fresh.title@ == item.title@);
                }
                assert forall|n: Seq<char>| #[trigger] matched_names(self@, fresh).contains(n) == matched_names(self@, item).contains(n) by {
                    if matched_names(self@, fresh).contains(n) {
                        let i = choose|i: int| 0 <= i < self@.len() && #[trigger] self@[i].matches(fresh) && self@[i].tag().name@ == n;
                        assert(self@[i].matches(item));
                    }
                    if matched_names(self@, item).contains(n) {
                        let i = choose|i: int| 0 <= i < self@.len() && #[trigger] self@[i].matches(item) && self@[i].tag().name@ == n;
                        assert(self@[i].matches(fresh));
                    }
                }
            }
        }
        Some(item)
    }

    /// Applies the rules to each of `items`, in order, and counts the items
    /// that gained a tag.
    pub fn apply_rules_to_items(&self, items: Vec<FeedItem>) -> (r: (Vec<FeedItem>, usize))
        requires
            self.wf(),
        ensures
            r.0@.len() == items@.len(),
            forall|k: int| 0 <= k < items@.len() ==> self.applies_to(items@[k], #[trigger] r.0@[k]),
            r.1 == gaining_count(self@, items@),
    {
        let ghost input = items@;
        let total = items.len();
        let mut rest = items;
        let mut done: Vec<FeedItem> = Vec::new();
        let mut updated: usize = 0;
        while rest.len() > 0
            invariant
                done@.len() + rest@.len() == input.len(),
                rest@ == input.subrange(done@.len() as int, input.len() as int),
                forall|k: int| 0 <= k < done@.len() ==> self.applies_to(input[k], #[trigger] done@[k]),
                updated == gaining_count(self@, input.subrange(0, done@.len() as int)),
                updated <= done@.len(),
                total == input.len(),
                self.wf(),
            decreases rest@.len(),
        {
            let ghost d = done@.len() as int;
            let mut item = rest.remove(0);
            let ghost before = item;
            assert(before == input[d]);
            let count = self.apply_rules(&mut item);
            proof {
                lemma_count_means_gain(*self, before, item, count);
                let sub = input.subrange(0, d + 1);
                assert(sub.subrange(0, d) =~= input.subrange(0, d));
                assert(sub[d] == before);
            }
            if count > 0 {
                updated += 1;
            }
            done.push(item);
            assert(rest@ =~= input.subrange(done@.len() as int, input.len() as int));
        }
        assert(input.subrange(0, done@.len() as int) =~= input);
        (done, updated)
    }
}

/// Applying a rule set to an item a second time leaves its tag set as the
/// first application left it.
pub proof fn lemma_apply_idempotent(m: TagManager, item: FeedItem, once: FeedItem, twice: FeedItem)
    requires
        m.applies_to(item, once),
        m.applies_to(once, twice),
    ensures
        twice.tag_set() == once.tag_set(),
{
    assert forall|i: int| 0 <= i < m@.len() implies #[trigger] m@[i].matches(once) == m@[i].matches(item) by {
        assert(once.title@ == item.title@);
    }
    assert forall|n: Seq<char>| #[trigger] matched_names(m@, once).contains(n) == matched_names(m@, item).contains(n) by {
        if matched_names(m@, once).contains(n) {
            let i = choose|i: int| 0 <= i < m@.len() && #[trigger] m@[i].matches(once) && m@[i].tag().name@ == n;
            assert(m@[i].matches(item));
        }
        if matched_names(m@, item).contains(n) {
            let i = choose|i: int| 0 <= i < m@.len() && #[trigger] m@[i].matches(item) && m@[i].tag().name@ == n;
            assert(m@[i].matches(once));
        }
    }
    assert(matched_names(m@, once) =~= matched_names(m@, item));
    assert(twice.tag_set() =~= once.tag_set());
}

/// Loading the rule list that a well-formed rule set saves yields the same
/// ordered list.
pub proof fn lemma_save_load_round_trip(m: TagManager)
    requires
        m.wf(),
    ensures
        loaded(Ok(m@)) == Ok::<Seq<TagRuleEnum>, ConfigError>(m@),
{
}

} // verus!
