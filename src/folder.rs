use vstd::prelude::*;

use crate::error::ConfigError;
use crate::models::{FeedItem, Tag, Timestamp};
use crate::pattern::regex_accepts;
use crate::tag::{in_range, pattern_hits, regex_source_of, Contains, PatternMode, TagRuleEnum, TimeRange};
use crate::text::trim_text;
use crate::time::{bound_of, day_aligned, parse_bound, sole_tilde_at, time_range_of, utc_today_start, SECS_PER_DAY};
use vstd::string::*;

verus! {

/// A predicate tree: a leaf rule, possibly negated, or a conjunction or
/// disjunction of subtrees.
#[derive(Debug)]
pub enum Rules {
    NODE(RulesNode),
    LEAF(RulesLeaf),
}

/// Holds where its rule matches, or, with `reverse` set, where it does not.
#[derive(Debug)]
pub struct RulesLeaf {
    pub reverse: bool,
    pub rule_type: TagRuleEnum,
}

/// Holds where all (`is_and`) or any (otherwise) of its children hold.
#[derive(Debug)]
pub struct RulesNode {
    pub rules: Vec<Rules>,
    pub is_and: bool,
}

pub open spec fn leaf_holds(l: RulesLeaf, item: FeedItem) -> bool {
    l.rule_type.matches(item) != l.reverse
}

/// What a tree evaluates to on `item`.
pub open spec fn holds(t: Rules, item: FeedItem) -> bool
    decreases t,
{
    match t {
        Rules::LEAF(l) => leaf_holds(l, item),
        Rules::NODE(n) => if n.is_and {
            all_hold(n.rules@, item)
        } else {
            any_holds(n.rules@, item)
        },
    }
}

/// Every tree of `ts` holds; true of none.
pub open spec fn all_hold(ts: Seq<Rules>, item: FeedItem) -> bool
    decreases ts,
{
    if ts.len() == 0 {
        true
    } else {
        all_hold(ts.subrange(0, ts.len() - 1), item) && holds(ts[ts.len() - 1], item)
    }
}

/// Some tree of `ts` holds; false of none.
pub open spec fn any_holds(ts: Seq<Rules>, item: FeedItem) -> bool
    decreases ts,
{
    if ts.len() == 0 {
        false
    } else {
        any_holds(ts.subrange(0, ts.len() - 1), item) || holds(ts[ts.len() - 1], item)
    }
}

/// Every leaf of the tree can be evaluated.
pub open spec fn tree_wf(t: Rules) -> bool
    decreases t,
{
    match t {
        Rules::LEAF(l) => l.rule_type.wf(),
        Rules::NODE(n) => trees_wf(n.rules@),
    }
}

pub open spec fn trees_wf(ts: Seq<Rules>) -> bool
    decreases ts,
{
    if ts.len() == 0 {
        true
    } else {
        trees_wf(ts.subrange(0, ts.len() - 1)) && tree_wf(ts[ts.len() - 1])
    }
}

/// `n` is `t` negated: it holds on exactly the items where `t` does not.
pub open spec fn negates(t: Rules, n: Rules) -> bool {
    forall|item: FeedItem| #[trigger] holds(n, item) == !holds(t, item)
}

proof fn lemma_trees_wf_index(ts: Seq<Rules>, i: int)
    requires
        trees_wf(ts),
        0 <= i < ts.len(),
    ensures
        tree_wf(ts[i]),
    decreases ts.len(),
{
    if i < ts.len() - 1 {
        lemma_trees_wf_index(ts.subrange(0, ts.len() - 1), i);
        assert(ts.subrange(0, ts.len() - 1)[i] == ts[i]);
    }
}

impl RulesLeaf {
    pub fn evaluate(&self, item: &FeedItem) -> (r: bool)
        requires
            self.rule_type.wf(),
        ensures
            r == leaf_holds(*self, *item),
    {
        let result = self.rule_type.find_tag(item).is_some();
        if self.reverse {
            !result
        } else {
            result
        }
    }
}

impl RulesNode {
    pub fn evaluate(&self, item: &FeedItem) -> (r: bool)
        requires
            trees_wf(self.rules@),
        ensures
            r == if self.is_and {
                all_hold(self.rules@, *item)
            } else {
                any_holds(self.rules@, *item)
            },
        decreases self,
    {
        let mut acc = self.is_and;
        let mut i: usize = 0;
        while i < self.rules.len()
            invariant
                0 <= i <= self.rules.len(),
                trees_wf(self.rules@),
                acc == if self.is_and {
                    all_hold(self.rules@.subrange(0, i as int), *item)
                } else {
                    any_holds(self.rules@.subrange(0, i as int), *item)
                },
            decreases self.rules.len() - i,
        {
            proof {
                lemma_trees_wf_index(self.rules@, i as int);
                assert(decreases_to!(self => self.rules));
                assert(decreases_to!(self.rules => self.rules[i as int]));
                assert(self.rules@.subrange(0, i as int + 1).subrange(0, i as int) =~= self.rules@.subrange(0, i as int));
            }
            let v = self.rules[i].evaluate(item);
            if self.is_and {
                acc = acc && v;
            } else {
                acc = acc || v;
            }
            i += 1;
        }
        assert(self.rules@.subrange(0, i as int) =~= self.rules@);
        acc
    }
}

impl Rules {
    /// Evaluates the tree on `item`. An empty conjunction holds, an empty
    /// disjunction does not.
    pub fn evaluate(&self, feed: &FeedItem) -> (r: bool)
        requires
            tree_wf(*self),
        ensures
            r == holds(*self, *feed),
        decreases self,
    {
        match self {
            Rules::NODE(rule) => rule.evaluate(feed),
            Rules::LEAF(rule) => rule.evaluate(feed),
        }
    }

    /// The tree that holds exactly where this one does not: leaves flip
    /// their `reverse` flag and conjunctions and disjunctions trade places.
    pub fn negated(&self) -> (r: Rules)
        requires
            tree_wf(*self),
        ensures
            tree_wf(r),
            negates(*self, r),
            self matches Rules::LEAF(l) ==> r == Rules::LEAF(RulesLeaf { reverse: !l.reverse, rule_type: l.rule_type }),
        decreases self,
    {
        match self {
            Rules::LEAF(l) => {
                let r = Rules::LEAF(RulesLeaf { reverse: !l.reverse, rule_type: l.rule_type.clone() });
                assert forall|item: FeedItem| #[trigger] holds(r, item) == !holds(*self, item) by {
                    assert(holds(*self, item) == leaf_holds(*l, item));
                }
                r
            },
            Rules::NODE(n) => {
                let mut children: Vec<Rules> = Vec::new();
                let mut i: usize = 0;
                while i < n.rules.len()
                    invariant
                        0 <= i <= n.rules.len(),
                        *self == Rules::NODE(*n),
                        trees_wf(n.rules@),
                        trees_wf(children@),
                        forall|item: FeedItem| #[trigger] all_hold(children@, item) == !any_holds(n.rules@.subrange(0, i as int), item),
                        forall|item: FeedItem| #[trigger] any_holds(children@, item) == !all_hold(n.rules@.subrange(0, i as int), item),
                        children@.len() == i,
                    decreases n.rules.len() - i,
                {
                    proof {
                        lemma_trees_wf_index(n.rules@, i as int);
                        assert(decreases_to!(*self => (*self)->NODE_0));
                        assert(decreases_to!(*self => *n));
                        assert(decreases_to!(*n => n.rules));
                        assert(decreases_to!(n.rules => n.rules[i as int]));
                    }
                    let c = n.rules[i].negated();
                    let ghost prev = children@;
                    children.push(c);
                    proof {
                        let sub = n.rules@.subrange(0, i as int + 1);
                        assert(sub.subrange(0, i as int) =~= n.rules@.subrange(0, i as int));
                        assert(children@.subrange(0, i as int) =~= prev);
                        assert(children@[i as int] == c);
                        assert(sub[i as int] == n.rules@[i as int]);
                        assert forall|item: FeedItem| #[trigger] all_hold(children@, item) == !any_holds(sub, item) by {
                            assert(holds(c, item) == !holds(n.rules@[i as int], item));
                            assert(all_hold(prev, item) == !any_holds(n.rules@.subrange(0, i as int), item));
                        }
                        assert forall|item: FeedItem| #[trigger] any_holds(children@, item) == !all_hold(sub, item) by {
                            assert(holds(c, item) == !holds(n.rules@[i as int], item));
                            assert(any_holds(prev, item) == !all_hold(n.rules@.subrange(0, i as int), item));
                        }
                        assert(trees_wf(children@));
                    }
                    i += 1;
                }
                assert(n.rules@.subrange(0, i as int) =~= n.rules@);
                let r = Rules::NODE(RulesNode { rules: children, is_and: !n.is_and });
                assert forall|item: FeedItem| #[trigger] holds(r, item) == !holds(*self, item) by {
                    assert(all_hold(children@, item) == !any_holds(n.rules@, item));
                    assert(any_holds(children@, item) == !all_hold(n.rules@, item));
                }
                r
            },
        }
    }
}

/// An empty conjunction holds on every item and an empty disjunction on none.
pub proof fn lemma_vacuous_truth(n: RulesNode, item: FeedItem)
    requires
        n.rules@.len() == 0,
    ensures
        holds(Rules::NODE(n), item) == n.is_and,
{
}

/// Negating a tree twice gives a tree that agrees with it on every item; a
/// leaf negated twice is that leaf again.
pub proof fn lemma_double_negation(t: Rules, once: Rules, twice: Rules)
    requires
        negates(t, once),
        negates(once, twice),
    ensures
        forall|item: FeedItem| #[trigger] holds(twice, item) == holds(t, item),
        (t is LEAF && once == Rules::LEAF(RulesLeaf { reverse: !t->LEAF_0.reverse, rule_type: t->LEAF_0.rule_type })
            && twice == Rules::LEAF(RulesLeaf { reverse: !once->LEAF_0.reverse, rule_type: once->LEAF_0.rule_type }))
            ==> twice == t,
{
    assert forall|item: FeedItem| #[trigger] holds(twice, item) == holds(t, item) by {
        assert(holds(twice, item) == !holds(once, item));
        assert(holds(once, item) == !holds(t, item));
    }
}

} // verus!

verus! {

/// A folder rule as declared: a leaf keyed `tag`, `time` or `contains`, or
/// `not`, `and`, `or` over nested declarations.
#[derive(Debug)]
pub enum RuleExpr {
    Tag(String),
    Time(String),
    Contains(String),
    Not(Box<RuleExpr>),
    And(Vec<RuleExpr>),
    Or(Vec<RuleExpr>),
}

/// A declared folder: its name and its rule.
#[derive(Debug)]
pub struct FolderDecl {
    pub name: String,
    pub rule: RuleExpr,
}

/// The first error that building a tree from `e` meets, in declaration
/// order, or `None` where it builds.
pub open spec fn expr_error(e: RuleExpr, today: i64) -> Option<ConfigError>
    decreases e,
{
    match e {
        RuleExpr::Tag(s) => if regex_accepts(regex_source_of(s@, PatternMode::Literal), false) {
            None
        } else {
            Some(ConfigError::InvalidPattern)
        },
        RuleExpr::Time(s) => match time_range_of(s@, today) {
            Ok(_) => None,
            Err(x) => Some(x),
        },
        RuleExpr::Contains(s) => if regex_accepts(regex_source_of(s@, PatternMode::Regex), false) {
            None
        } else {
            Some(ConfigError::InvalidPattern)
        },
        RuleExpr::Not(inner) => expr_error(*inner, today),
        RuleExpr::And(es) => exprs_error(es@, today),
        RuleExpr::Or(es) => exprs_error(es@, today),
    }
}

pub open spec fn exprs_error(es: Seq<RuleExpr>, today: i64) -> Option<ConfigError>
    decreases es,
{
    if es.len() == 0 {
        None
    } else {
        match exprs_error(es.subrange(0, es.len() - 1), today) {
            Some(x) => Some(x),
            None => expr_error(es[es.len() - 1], today),
        }
    }
}

/// What a declaration means on `item`: `tag` finds the text literally and
/// `contains` as a regular expression, both case-sensitively, in the title
/// or else the content; `time` bounds the publication time.
pub open spec fn expr_holds(e: RuleExpr, today: i64, item: FeedItem) -> bool
    decreases e,
{
    match e {
        RuleExpr::Tag(s) => pattern_hits(regex_source_of(s@, PatternMode::Literal), false, item),
        RuleExpr::Time(s) => match time_range_of(s@, today) {
            Ok((start, end)) => in_range(start, end, item),
            Err(_) => false,
        },
        RuleExpr::Contains(s) => pattern_hits(regex_source_of(s@, PatternMode::Regex), false, item),
        RuleExpr::Not(inner) => !expr_holds(*inner, today, item),
        RuleExpr::And(es) => exprs_all(es@, today, item),
        RuleExpr::Or(es) => exprs_any(es@, today, item),
    }
}

pub open spec fn exprs_all(es: Seq<RuleExpr>, today: i64, item: FeedItem) -> bool
    decreases es,
{
    if es.len() == 0 {
        true
    } else {
        exprs_all(es.subrange(0, es.len() - 1), today, item) && expr_holds(es[es.len() - 1], today, item)
    }
}

pub open spec fn exprs_any(es: Seq<RuleExpr>, today: i64, item: FeedItem) -> bool
    decreases es,
{
    if es.len() == 0 {
        false
    } else {
        exprs_any(es.subrange(0, es.len() - 1), today, item) || expr_holds(es[es.len() - 1], today, item)
    }
}

/// `t` is a leaf of the given polarity over a case-sensitive `Contains`
/// rule with the given tag name, pattern and mode.
pub open spec fn contains_leaf(t: Rules, tag: Seq<char>, pattern: Seq<char>, mode: PatternMode, reverse: bool) -> bool {
    &&& t is LEAF
    &&& t->LEAF_0.reverse == reverse
    &&& t->LEAF_0.rule_type is Contains
    &&& t->LEAF_0.rule_type->Contains_0.tag.name@ == tag
    &&& t->LEAF_0.rule_type->Contains_0.pattern@ == pattern
    &&& t->LEAF_0.rule_type->Contains_0.mode == mode
    &&& t->LEAF_0.rule_type->Contains_0.case_sensitive
}

/// `t` is a leaf of the given polarity over a `TimeRange` rule tagged
/// `time_range` with the given bounds.
pub open spec fn time_leaf(t: Rules, start: Option<Timestamp>, end: Option<Timestamp>, reverse: bool) -> bool {
    &&& t is LEAF
    &&& t->LEAF_0.reverse == reverse
    &&& t->LEAF_0.rule_type is TimeRange
    &&& t->LEAF_0.rule_type->TimeRange_0.tag.name@ == "time_range"@
    &&& t->LEAF_0.rule_type->TimeRange_0.start == start
    &&& t->LEAF_0.rule_type->TimeRange_0.end == end
}

/// The shape of the tree built from `e`, negated where `negate` is set: a
/// `tag` declaration is a literal `Contains` leaf tagged with its text, a
/// `contains` declaration a regular-expression `Contains` leaf tagged
/// `content_match`, a `time` declaration a `TimeRange` leaf with the parsed
/// bounds, and `and` / `or` a conjunction / disjunction of the children in
/// order. `not` flips the polarity: negated leaves have `reverse` set and
/// negated conjunctions and disjunctions trade places.
pub open spec fn shaped(t: Rules, e: RuleExpr, today: i64, negate: bool) -> bool
    decreases e,
{
    match e {
        RuleExpr::Tag(s) => contains_leaf(t, s@, s@, PatternMode::Literal, negate),
        RuleExpr::Contains(s) => contains_leaf(t, "content_match"@, s@, PatternMode::Regex, negate),
        RuleExpr::Time(s) => match time_range_of(s@, today) {
            Ok((start, end)) => time_leaf(t, start, end, negate),
            Err(_) => false,
        },
        RuleExpr::Not(inner) => shaped(t, *inner, today, !negate),
        RuleExpr::And(es) => {
            &&& t is NODE
            &&& t->NODE_0.is_and == !negate
            &&& children_shaped(t->NODE_0.rules@, es@, today, negate)
        },
        RuleExpr::Or(es) => {
            &&& t is NODE
            &&& t->NODE_0.is_and == negate
            &&& children_shaped(t->NODE_0.rules@, es@, today, negate)
        },
    }
}

/// Each tree of `ts` has the shape of the declaration at its position.
pub open spec fn children_shaped(ts: Seq<Rules>, es: Seq<RuleExpr>, today: i64, negate: bool) -> bool
    decreases es,
{
    &&& ts.len() == es.len()
    &&& es.len() > 0 ==> {
        &&& children_shaped(ts.subrange(0, ts.len() - 1), es.subrange(0, es.len() - 1), today, negate)
        &&& shaped(ts[ts.len() - 1], es[es.len() - 1], today, negate)
    }
}

/// `t` is the tree built from `e`, negated where `negate` is set: it can be
/// evaluated, holds where `e` does (or, negated, where it does not), and has
/// the shape of `e`.
pub open spec fn built_with(t: Rules, e: RuleExpr, today: i64, negate: bool) -> bool {
    &&& tree_wf(t)
    &&& forall|item: FeedItem| #[trigger] holds(t, item) == (expr_holds(e, today, item) != negate)
    &&& shaped(t, e, today, negate)
}

/// `t` is the tree built from `e`.
pub open spec fn built_from(t: Rules, e: RuleExpr, today: i64) -> bool {
    built_with(t, e, today, false)
}

fn contains_rule_leaf(c: Contains, reverse: bool) -> (r: Rules)
    ensures
        r == Rules::LEAF(RulesLeaf { reverse, rule_type: TagRuleEnum::Contains(c) }),
{
    Rules::LEAF(RulesLeaf { reverse, rule_type: TagRuleEnum::Contains(c) })
}

/// The tree that a declaration describes, negated where `negate` is set.
fn build_tree(rule_item: &RuleExpr, today: i64, negate: bool) -> (r: Result<Rules, ConfigError>)
    requires
        today % SECS_PER_DAY == 0,
    ensures
        r is Ok <==> expr_error(*rule_item, today) is None,
        r matches Ok(t) ==> built_with(t, *rule_item, today, negate),
        r matches Err(x) ==> expr_error(*rule_item, today) == Some(x),
    decreases rule_item,
{
    match rule_item {
        RuleExpr::Tag(tag) => {
            match Contains::new(Tag::new(tag.clone()), tag.clone(), PatternMode::Literal, true) {
                Ok(c) => {
                    let r = contains_rule_leaf(c, negate);
                    assert forall|item: FeedItem| #[trigger] holds(r, item) == (expr_holds(*rule_item, today, item) != negate) by {
                        assert(holds(r, item) == leaf_holds(r->LEAF_0, item));
                    }
                    Ok(r)
                },
                Err(e) => Err(e),
            }
        },
        RuleExpr::Time(time) => {
            match FolderManager::parse_time_rule(time.as_str(), today) {
                Ok(t) => {
                    if negate {
                        let r = t.negated();
                        assert forall|item: FeedItem| #[trigger] holds(r, item) == (expr_holds(*rule_item, today, item) != negate) by {
                            assert(holds(r, item) == !holds(t, item));
                        }
                        Ok(r)
                    } else {
                        Ok(t)
                    }
                },
                Err(e) => Err(e),
            }
        },
        RuleExpr::Contains(contains) => {
            match Contains::new(Tag::new("content_match".to_owned()), contains.clone(), PatternMode::Regex, true) {
                Ok(c) => {
                    let r = contains_rule_leaf(c, negate);
                    assert forall|item: FeedItem| #[trigger] holds(r, item) == (expr_holds(*rule_item, today, item) != negate) by {
                        assert(holds(r, item) == leaf_holds(r->LEAF_0, item));
                    }
                    Ok(r)
                },
                Err(e) => Err(e),
            }
        },
        RuleExpr::Not(not) => {
            proof {
                assert(decreases_to!(*rule_item => (*rule_item)->Not_0));
            }
            match build_tree(not, today, !negate) {
                Ok(t) => {
                    assert forall|item: FeedItem| #[trigger] holds(t, item) == (expr_holds(*rule_item, today, item) != negate) by {
                        assert(holds(t, item) == (expr_holds(**not, today, item) != !negate));
                    }
                    Ok(t)
                },
                Err(e) => Err(e),
            }
        },
        RuleExpr::And(and) => {
            proof {
                assert(decreases_to!(*rule_item => (*rule_item)->And_0));
            }
            match parse_children(and, today, negate) {
                Ok(children) => {
                    let r = Rules::NODE(RulesNode { is_and: !negate, rules: children });
                    assert forall|item: FeedItem| #[trigger] holds(r, item) == (expr_holds(*rule_item, today, item) != negate) by {
                        assert(all_hold(children@, item) == (if negate { !exprs_any(and@, today, item) } else { exprs_all(and@, today, item) }));
                        assert(any_holds(children@, item) == (if negate { !exprs_all(and@, today, item) } else { exprs_any(and@, today, item) }));
                    }
                    Ok(r)
                },
                Err(e) => Err(e),
            }
        },
        RuleExpr::Or(or) => {
            proof {
                assert(decreases_to!(*rule_item => (*rule_item)->Or_0));
            }
            match parse_children(or, today, negate) {
                Ok(children) => {
                    let r = Rules::NODE(RulesNode { is_and: negate, rules: children });
                    assert forall|item: FeedItem| #[trigger] holds(r, item) == (expr_holds(*rule_item, today, item) != negate) by {
                        assert(all_hold(children@, item) == (if negate { !exprs_any(or@, today, item) } else { exprs_all(or@, today, item) }));
                        assert(any_holds(children@, item) == (if negate { !exprs_all(or@, today, item) } else { exprs_any(or@, today, item) }));
                    }
                    Ok(r)
                },
                Err(e) => Err(e),
            }
        },
    }
}

/// The trees of a list of declarations, stopping at the first that fails.
fn parse_children(items: &Vec<RuleExpr>, today: i64, negate: bool) -> (r: Result<Vec<Rules>, ConfigError>)
    requires
        today % SECS_PER_DAY == 0,
    ensures
        r is Ok <==> exprs_error(items@, today) is None,
        r matches Err(x) ==> exprs_error(items@, today) == Some(x),
        r matches Ok(ts) ==> {
            &&& trees_wf(ts@)
            &&& children_shaped(ts@, items@, today, negate)
            &&& forall|item: FeedItem| #[trigger] all_hold(ts@, item)
                == (if negate { !exprs_any(items@, today, item) } else { exprs_all(items@, today, item) })
            &&& forall|item: FeedItem| #[trigger] any_holds(ts@, item)
                == (if negate { !exprs_all(items@, today, item) } else { exprs_any(items@, today, item) })
        },
    decreases items,
{
    let mut child_rules: Vec<Rules> = Vec::new();
    let mut i: usize = 0;
    while i < items.len()
        invariant
            0 <= i <= items.len(),
            today % SECS_PER_DAY == 0,
            exprs_error(items@.subrange(0, i as int), today) is None,
            trees_wf(child_rules@),
            children_shaped(child_rules@, items@.subrange(0, i as int), today, negate),
            forall|item: FeedItem| #[trigger] all_hold(child_rules@, item)
                == (if negate { !exprs_any(items@.subrange(0, i as int), today, item) } else { exprs_all(items@.subrange(0, i as int), today, item) }),
            forall|item: FeedItem| #[trigger] any_holds(child_rules@, item)
                == (if negate { !exprs_all(items@.subrange(0, i as int), today, item) } else { exprs_any(items@.subrange(0, i as int), today, item) }),
            child_rules@.len() == i,
        decreases items.len() - i,
    {
        let ghost sub = items@.subrange(0, i as int + 1);
        proof {
            assert(sub.subrange(0, i as int) =~= items@.subrange(0, i as int));
            assert(sub[i as int] == items@[i as int]);
            assert(decreases_to!(*items => items[i as int]));
        }
        match build_tree(&items[i], today, negate) {
            Ok(t) => {
                let ghost prev = child_rules@;
                child_rules.push(t);
                proof {
                    assert(child_rules@.subrange(0, i as int) =~= prev);
                    assert(child_rules@[i as int] == t);
                    assert forall|item: FeedItem| #[trigger] all_hold(child_rules@, item)
                        == (if negate { !exprs_any(sub, today, item) } else { exprs_all(sub, today, item) }) by {
                        assert(all_hold(prev, item) == (if negate { !exprs_any(items@.subrange(0, i as int), today, item) } else { exprs_all(items@.subrange(0, i as int), today, item) }));
                        assert(holds(t, item) == (expr_holds(items@[i as int], today, item) != negate));
                    }
                    assert forall|item: FeedItem| #[trigger] any_holds(child_rules@, item)
                        == (if negate { !exprs_all(sub, today, item) } else { exprs_any(sub, today, item) }) by {
                        assert(any_holds(prev, item) == (if negate { !exprs_all(items@.subrange(0, i as int), today, item) } else { exprs_any(items@.subrange(0, i as int), today, item) }));
                        assert(holds(t, item) == (expr_holds(items@[i as int], today, item) != negate));
                    }
                    assert(children_shaped(child_rules@, sub, today, negate));
                }
            },
            Err(e) => {
                proof {
                    lemma_exprs_error_prefix(items@, i as int + 1, today);
                }
                return Err(e);
            },
        }
        i += 1;
    }
    assert(items@.subrange(0, i as int) =~= items@);
    Ok(child_rules)
}

/// An error in a prefix of a declaration list is the error of the whole list.
proof fn lemma_exprs_error_prefix(es: Seq<RuleExpr>, k: int, today: i64)
    requires
        0 <= k <= es.len(),
        exprs_error(es.subrange(0, k), today) is Some,
    ensures
        exprs_error(es, today) == exprs_error(es.subrange(0, k), today),
    decreases es.len() - k,
{
    if k < es.len() {
        let next = es.subrange(0, k + 1);
        assert(next.subrange(0, k) =~= es.subrange(0, k));
        lemma_exprs_error_prefix(es, k + 1, today);
    } else {
        assert(es.subrange(0, k) =~= es);
    }
}

} // verus!

verus! {

/// A named predicate tree.
#[derive(Debug)]
pub struct Folder {
    pub name: String,
    pub root: Rules,
}

/// Positions of the declarations that build, in order.
pub open spec fn accepted(decls: Seq<FolderDecl>, today: i64) -> Seq<int>
    decreases decls.len(),
{
    if decls.len() == 0 {
        Seq::empty()
    } else {
        let rest = accepted(decls.subrange(0, decls.len() - 1), today);
        if expr_error(decls[decls.len() - 1].rule, today) is None {
            rest.push(decls.len() - 1)
        } else {
            rest
        }
    }
}

/// `folders` are the folders that `decls` declare, built in order, with
/// each declaration that does not build left out.
pub open spec fn loaded_from(folders: Seq<Folder>, decls: Seq<FolderDecl>, today: i64) -> bool {
    let idx = accepted(decls, today);
    &&& folders.len() == idx.len()
    &&& forall|k: int| 0 <= k < folders.len() ==> {
        &&& #[trigger] folders[k].name@ == decls[idx[k]].name@
        &&& built_from(folders[k].root, decls[idx[k]].rule, today)
    }
}

/// The names of the folders whose tree holds on `item`, in catalog order.
pub open spec fn classified(folders: Seq<Folder>, item: FeedItem) -> Seq<Seq<char>>
    decreases folders.len(),
{
    if folders.len() == 0 {
        Seq::empty()
    } else {
        let rest = classified(folders.subrange(0, folders.len() - 1), item);
        let last = folders[folders.len() - 1];
        if holds(last.root, item) {
            rest.push(last.name@)
        } else {
            rest
        }
    }
}

pub open spec fn folders_wf(folders: Seq<Folder>) -> bool {
    forall|k: int| 0 <= k < folders.len() ==> tree_wf(#[trigger] folders[k].root)
}

proof fn lemma_accepted_bounds(decls: Seq<FolderDecl>, today: i64)
    ensures
        forall|k: int| 0 <= k < accepted(decls, today).len() ==> 0 <= #[trigger] accepted(decls, today)[k] < decls.len(),
    decreases decls.len(),
{
    if decls.len() > 0 {
        let rest_decls = decls.subrange(0, decls.len() - 1);
        lemma_accepted_bounds(rest_decls, today);
        let rest = accepted(rest_decls, today);
        assert forall|k: int| 0 <= k < accepted(decls, today).len() implies 0 <= #[trigger] accepted(decls, today)[k] < decls.len() by {
            if k < rest.len() {
                assert(accepted(decls, today)[k] == rest[k]);
            }
        }
    }
}

/// A catalog of folders and the source it is loaded from.
#[derive(Debug)]
pub struct FolderManager {
    pub folders: Vec<Folder>,
    pub config_path: String,
}

impl FolderManager {
    pub open spec fn wf(&self) -> bool {
        folders_wf(self.folders@)
    }

    /// A catalog bound to `config_path`, loaded from the document read there
    /// as of the date `today` starts; where none could be read, empty.
    pub fn with_date(config_path: &str, doc: Result<Vec<FolderDecl>, ConfigError>, today: i64) -> (r: FolderManager)
        requires
            today % SECS_PER_DAY == 0,
        ensures
            r.wf(),
            r.config_path@ == config_path@,
            doc matches Ok(d) ==> loaded_from(r.folders@, d@, today),
            doc is Err ==> r.folders@.len() == 0,
    {
        let folders = match doc {
            Ok(d) => Self::load_yaml_config(&d, today),
            Err(_) => Vec::new(),
        };
        FolderManager { folders, config_path: config_path.to_owned() }
    }

    /// `with_date` as of the current UTC date.
    pub fn new(config_path: &str, doc: Result<Vec<FolderDecl>, ConfigError>) -> (r: FolderManager)
        ensures
            r.wf(),
            r.config_path@ == config_path@,
            doc matches Ok(d) ==> exists|today: i64| today % SECS_PER_DAY == 0 && loaded_from(r.folders@, d@, today),
            doc is Err ==> r.folders@.len() == 0,
    {
        let today = utc_today_start();
        Self::with_date(config_path, doc, today)
    }

    /// Replaces the folders with those of a freshly read document, as of the
    /// date `today` starts. Where the document could not be read, the
    /// folders stay as they were and the error is returned.
    pub fn reload_with_date(&mut self, doc: Result<Vec<FolderDecl>, ConfigError>, today: i64) -> (r: Result<(), ConfigError>)
        requires
            old(self).wf(),
            today % SECS_PER_DAY == 0,
        ensures
            final(self).wf(),
            final(self).config_path == old(self).config_path,
            r is Ok <==> doc is Ok,
            doc matches Ok(d) ==> loaded_from(final(self).folders@, d@, today),
            doc matches Err(e) ==> r == Err::<(), ConfigError>(e) && final(self).folders@ == old(self).folders@,
    {
        match doc {
            Ok(d) => {
                self.folders = Self::load_yaml_config(&d, today);
                Ok(())
            },
            Err(e) => Err(e),
        }
    }

    /// `reload_with_date` as of the current UTC date.
    pub fn reload_config(&mut self, doc: Result<Vec<FolderDecl>, ConfigError>) -> (r: Result<(), ConfigError>)
        requires
            old(self).wf(),
        ensures
            final(self).wf(),
            final(self).config_path == old(self).config_path,
            r is Ok <==> doc is Ok,
            doc matches Ok(d) ==> exists|today: i64| today % SECS_PER_DAY == 0 && loaded_from(final(self).folders@, d@, today),
            doc matches Err(e) ==> r == Err::<(), ConfigError>(e) && final(self).folders@ == old(self).folders@,
    {
        let today = utc_today_start();
        self.reload_with_date(doc, today)
    }

    /// Builds the folders of a catalog document, one declaration at a time; a
    /// declaration that does not build is skipped and the rest still load.
    pub fn load_yaml_config(decls: &Vec<FolderDecl>, today: i64) -> (r: Vec<Folder>)
        requires
            today % SECS_PER_DAY == 0,
        ensures
            loaded_from(r@, decls@, today),
            folders_wf(r@),
    {
        let mut folders: Vec<Folder> = Vec::new();
        let mut i: usize = 0;
        while i < decls.len()
            invariant
                0 <= i <= decls.len(),
                today % SECS_PER_DAY == 0,
                loaded_from(folders@, decls@.subrange(0, i as int), today),
                folders_wf(folders@),
            decreases decls.len() - i,
        {
            let ghost sub = decls@.subrange(0, i as int + 1);
            let ghost prev = folders@;
            proof {
                assert(sub.subrange(0, i as int) =~= decls@.subrange(0, i as int));
                lemma_accepted_bounds(decls@.subrange(0, i as int), today);
            }
            match Self::convert_yaml_folder_to_folder(&decls[i], today) {
                Ok(folder) => {
                    folders.push(folder);
                    proof {
                        let idx = accepted(sub, today);
                        let before = accepted(decls@.subrange(0, i as int), today);
                        assert(idx == before.push(i as int));
                        assert forall|k: int| 0 <= k < folders@.len() implies {
                            &&& #[trigger] folders@[k].name@ == sub[idx[k]].name@
                            &&& built_from(folders@[k].root, sub[idx[k]].rule, today)
                        } by {
                            if k < prev.len() {
                                assert(folders@[k] == prev[k]);
                                assert(idx[k] == before[k]);
                                assert(prev[k].name@ == decls@.subrange(0, i as int)[before[k]].name@);
                                assert(sub[idx[k]] == decls@.subrange(0, i as int)[idx[k]]);
                            } else {
                                assert(idx[k] == i);
                                assert(sub[i as int] == decls@[i as int]);
                            }
                        }
                        assert(prev.len() == before.len());
                        assert(folders@.len() == idx.len());
                        assert(loaded_from(folders@, sub, today));
                    assert(folders_wf(folders@)) by {
                            assert forall|k: int| 0 <= k < folders@.len() implies tree_wf(#[trigger] folders@[k].root) by {
                                if k < prev.len() {
                                    assert(folders@[k] == prev[k]);
                                }
                            }
                        }
                    }
                },
                Err(_) => {
                    proof {
                        let idx = accepted(sub, today);
                        let before = accepted(decls@.subrange(0, i as int), today);
                        assert(idx == before);
                        assert forall|k: int| 0 <= k < folders@.len() implies {
                            &&& #[trigger] folders@[k].name@ == sub[idx[k]].name@
                            &&& built_from(folders@[k].root, sub[idx[k]].rule, today)
                        } by {
                            assert(prev[k].name@ == decls@.subrange(0, i as int)[before[k]].name@);
                            assert(sub[idx[k]] == decls@.subrange(0, i as int)[idx[k]]);
                        }
                    }
                },
            }
            i += 1;
        }
        assert(decls@.subrange(0, i as int) =~= decls@);
        folders
    }

    /// Builds a folder from its declaration.
    pub fn convert_yaml_folder_to_folder(decl: &FolderDecl, today: i64) -> (r: Result<Folder, ConfigError>)
        requires
            today % SECS_PER_DAY == 0,
        ensures
            r is Ok <==> expr_error(decl.rule, today) is None,
            r matches Err(x) ==> expr_error(decl.rule, today) == Some(x),
            r matches Ok(f) ==> f.name@ == decl.name@ && built_from(f.root, decl.rule, today),
    {
        match Self::parse_yaml_rule_item(&decl.rule, today) {
            Ok(root) => Ok(Folder { name: decl.name.clone(), root }),
            Err(e) => Err(e),
        }
    }

    /// Builds the tree that a declaration describes, with `today` the first
    /// second of the current date for relative time ranges.
    pub fn parse_yaml_rule_item(rule_item: &RuleExpr, today: i64) -> (r: Result<Rules, ConfigError>)
        requires
            today % SECS_PER_DAY == 0,
        ensures
            r is Ok <==> expr_error(*rule_item, today) is None,
            r matches Ok(t) ==> built_from(t, *rule_item, today),
            r matches Err(x) ==> expr_error(*rule_item, today) == Some(x),
    {
        build_tree(rule_item, today, false)
    }

    /// The leaf for a `time` declaration: a `TimeRange` rule tagged
    /// `time_range` with the parsed bounds.
    pub fn parse_time_rule(time_str: &str, today: i64) -> (r: Result<Rules, ConfigError>)
        requires
            today % SECS_PER_DAY == 0,
        ensures
            r is Ok <==> time_range_of(time_str@, today) is Ok,
            r matches Err(x) ==> time_range_of(time_str@, today) == Err::<(Option<Timestamp>, Option<Timestamp>), ConfigError>(x),
            r matches Ok(t) ==> (time_range_of(time_str@, today) matches Ok((start, end)) && time_leaf(t, start, end, false)),
            r matches Ok(t) ==> tree_wf(t) && (forall|item: FeedItem| #[trigger] holds(t, item)
                == (time_range_of(time_str@, today) matches Ok((start, end)) && in_range(start, end, item))),
    {
        match Self::parse_time_range(time_str, today) {
            Ok((start, end)) => {
                let rule = TimeRange { tag: Tag::new("time_range".to_owned()), start, end };
                let r = Rules::LEAF(RulesLeaf { reverse: false, rule_type: TagRuleEnum::TimeRange(rule) });
                assert forall|item: FeedItem| #[trigger] holds(r, item)
                    == (time_range_of(time_str@, today) matches Ok((start, end)) && in_range(start, end, item)) by {
                    assert(holds(r, item) == leaf_holds(r->LEAF_0, item));
                }
                Ok(r)
            },
            Err(e) => Err(e),
        }
    }

    /// Parses `<start> ~ <end>`. Each side, trimmed, is empty (no bound), one of
    /// `yesterday`, `today`, `tomorrow` in any ASCII case (resolved against `today`, the
    /// first second of the current date), or a `YYYY-MM-DD` date. A start bound
    /// is the first second of its day, an end bound the last. Anything else, or
    /// a text without exactly one `~`, is `InvalidTimeRange`.
    pub fn parse_time_range(text: &str, today: i64) -> (r: Result<(Option<Timestamp>, Option<Timestamp>), ConfigError>)
        requires
            today % SECS_PER_DAY == 0,
        ensures
            r == time_range_of(text@, today),
            r matches Ok((start, end)) ==> day_aligned(start, end),
    {
        let n = text.unicode_len();
        let mut count: usize = 0;
        let mut pos: usize = 0;
        let mut i: usize = 0;
        while i < n
            invariant
                n == text@.len(),
                0 <= i <= n,
                count <= i,
                count == 0 ==> forall|j: int| 0 <= j < i ==> text@[j] != '~',
                count == 1 ==> pos < i && sole_tilde_at(text@.subrange(0, i as int), pos as int),
                count >= 2 ==> !exists|k: int| sole_tilde_at(text@, k),
            decreases n - i,
        {
            if text.get_char(i) == '~' {
                if count == 1 {
                    assert forall|k: int| !sole_tilde_at(text@, k) by {
                        if sole_tilde_at(text@, k) {
                            if k == pos {
                                assert(text@[i as int] == '~');
                            } else {
                                assert(text@.subrange(0, i as int)[pos as int] == '~');
                            }
                        }
                    }
                }
                if count == 0 {
                    pos = i;
                    assert(sole_tilde_at(text@.subrange(0, i as int + 1), pos as int));
                }
                if count < 2 {
                    count += 1;
                }
            } else {
                if count == 1 {
                    assert(sole_tilde_at(text@.subrange(0, i as int + 1), pos as int)) by {
                        assert forall|j: int| 0 <= j < i + 1 && j != pos implies #[trigger] text@.subrange(0, i as int + 1)[j] != '~' by {
                            if j < i {
                                assert(text@.subrange(0, i as int)[j] == text@[j]);
                            }
                        }
                    }
                }
            }
            i += 1;
        }
        if count != 1 {
            assert(!exists|k: int| sole_tilde_at(text@, k)) by {
                if count == 0 {
                    assert forall|k: int| !sole_tilde_at(text@, k) by {
                        if 0 <= k < n {
                            assert(text@[k] != '~');
                        }
                    }
                }
            }
            return Err(ConfigError::InvalidTimeRange);
        }
        assert(text@.subrange(0, n as int) =~= text@);
        assert(sole_tilde_at(text@, pos as int));
        assert forall|k: int| sole_tilde_at(text@, k) implies k == pos by {
            if k != pos {
                assert(text@[pos as int] == '~');
            }
        }
        let start_side = trim_text(text.substring_char(0, pos));
        let end_side = trim_text(text.substring_char(pos + 1, n));
        let start = parse_bound(start_side, today, false);
        let end = parse_bound(end_side, today, true);
        match (start, end) {
            (Ok(s), Ok(e)) => Ok((s, e)),
            (Err(e), _) => Err(e),
            (Ok(_), Err(e)) => Err(e),
        }
    }

    /// `parse_time_range` against the current UTC date.
    pub fn parse_time_range_now(text: &str) -> (r: Result<(Option<Timestamp>, Option<Timestamp>), ConfigError>)
        ensures
            exists|today: i64| today % SECS_PER_DAY == 0 && r == time_range_of(text@, today),
            r matches Ok((start, end)) ==> day_aligned(start, end),
    {
        let today = utc_today_start();
        Self::parse_time_range(text, today)
    }

    /// The names of the folders that `item` belongs to, in catalog order.
    pub fn classify(&self, item: &FeedItem) -> (r: Vec<String>)
        requires
            self.wf(),
        ensures
            r@.map_values(|s: String| s@) == classified(self.folders@, *item),
    {
        let mut names: Vec<String> = Vec::new();
        let mut i: usize = 0;
        while i < self.folders.len()
            invariant
                0 <= i <= self.folders.len(),
                self.wf(),
                names@.map_values(|s: String| s@) == classified(self.folders@.subrange(0, i as int), *item),
            decreases self.folders.len() - i,
        {
            let ghost sub = self.folders@.subrange(0, i as int + 1);
            proof {
                assert(sub.subrange(0, i as int) =~= self.folders@.subrange(0, i as int));
                assert(tree_wf(self.folders@[i as int].root));
            }
            let folder = &self.folders[i];
            if folder.root.evaluate(item) {
                let ghost prev = names@;
                names.push(folder.name.clone());
                assert(names@.map_values(|s: String| s@) =~= prev.map_values(|s: String| s@).push(folder.name@));
            }
            i += 1;
        }
        assert(self.folders@.subrange(0, i as int) =~= self.folders@);
        names
    }
}

} // verus!
