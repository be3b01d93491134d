use tagrss::error::ConfigError;
use tagrss::folder::{FolderDecl, FolderManager, RuleExpr, Rules, RulesLeaf, RulesNode};
use tagrss::models::{FeedItem, Tag, Timestamp};
use tagrss::tag::{FromSource, PatternMode, TagRuleEnum};

fn day_start(y: i32, m: u32, d: u32) -> i64 {
    chrono::NaiveDate::from_ymd_opt(y, m, d).unwrap().and_hms_opt(0, 0, 0).unwrap().and_utc().timestamp()
}

fn item(feed_id: i64, title: &str, published: Option<i64>) -> FeedItem {
    FeedItem::new(feed_id, title.to_string(), String::new(), None, published.map(|secs| Timestamp { secs }))
}

fn source_leaf(reverse: bool, id: i64) -> Rules {
    Rules::LEAF(RulesLeaf {
        reverse,
        rule_type: TagRuleEnum::FromSource(FromSource { tag: Tag::new("s".to_string()), source_id: id }),
    })
}

fn decl(name: &str, rule: RuleExpr) -> FolderDecl {
    FolderDecl { name: name.to_string(), rule }
}

fn ai_news() -> FolderDecl {
    decl(
        "AI News",
        RuleExpr::And(vec![RuleExpr::Contains("AI".to_string()), RuleExpr::Time("2024-01-01 ~ ".to_string())]),
    )
}

const TODAY: i64 = 1_717_200_000; // 2024-06-01T00:00:00Z

#[test]
fn empty_and_is_true_empty_or_is_false() {
    let and = Rules::NODE(RulesNode { rules: vec![], is_and: true });
    let or = Rules::NODE(RulesNode { rules: vec![], is_and: false });
    let it = item(1, "x", None);
    assert!(and.evaluate(&it));
    assert!(!or.evaluate(&it));
}

#[test]
fn and_or_combine_children() {
    let it = item(5, "x", None);
    let and = RulesNode { rules: vec![source_leaf(false, 5), source_leaf(true, 6)], is_and: true };
    let and_fail = RulesNode { rules: vec![source_leaf(false, 5), source_leaf(false, 6)], is_and: true };
    let or = RulesNode { rules: vec![source_leaf(false, 6), source_leaf(false, 5)], is_and: false };
    let or_fail = RulesNode { rules: vec![source_leaf(false, 6), source_leaf(true, 5)], is_and: false };
    assert!(and.evaluate(&it));
    assert!(!and_fail.evaluate(&it));
    assert!(or.evaluate(&it));
    assert!(!or_fail.evaluate(&it));
}

#[test]
fn leaf_reverse_inverts() {
    let it = item(5, "x", None);
    assert!(source_leaf(false, 5).evaluate(&it));
    assert!(!source_leaf(true, 5).evaluate(&it));
}

#[test]
fn double_negation_of_leaf_is_the_leaf() {
    let leaf = source_leaf(false, 5);
    let twice = leaf.negated().negated();
    for id in [4, 5, 6] {
        let it = item(id, "x", None);
        assert_eq!(twice.evaluate(&it), leaf.evaluate(&it));
    }
    assert_eq!(format!("{:?}", twice), format!("{:?}", leaf));
}

#[test]
fn negating_a_branch_applies_de_morgan() {
    let tree = Rules::NODE(RulesNode { rules: vec![source_leaf(false, 5), source_leaf(false, 6)], is_and: false });
    let neg = tree.negated();
    for id in [4, 5, 6] {
        let it = item(id, "x", None);
        assert_eq!(neg.evaluate(&it), !tree.evaluate(&it));
        assert_eq!(neg.negated().evaluate(&it), tree.evaluate(&it));
    }
}

#[test]
fn not_accepts_compound_children() {
    let expr = RuleExpr::Not(Box::new(RuleExpr::Or(vec![
        RuleExpr::Contains("sport".to_string()),
        RuleExpr::Tag("weather".to_string()),
    ])));
    let tree = FolderManager::parse_yaml_rule_item(&expr, TODAY).unwrap();
    assert!(tree.evaluate(&item(1, "markets", None)));
    assert!(!tree.evaluate(&item(1, "sport today", None)));
    assert!(!tree.evaluate(&item(1, "weather report", None)));
}

#[test]
fn not_not_evaluates_like_inner() {
    let inner = RuleExpr::Tag("rust".to_string());
    let expr = RuleExpr::Not(Box::new(RuleExpr::Not(Box::new(RuleExpr::Tag("rust".to_string())))));
    let a = FolderManager::parse_yaml_rule_item(&inner, TODAY).unwrap();
    let b = FolderManager::parse_yaml_rule_item(&expr, TODAY).unwrap();
    for title in ["rust", "go"] {
        let it = item(1, title, None);
        assert_eq!(a.evaluate(&it), b.evaluate(&it));
    }
}

#[test]
fn ai_news_folder_scenario() {
    let m = FolderManager::with_date("folders.yml", Ok(vec![ai_news()]), TODAY);
    assert_eq!(m.folders.len(), 1);
    let june = Some(day_start(2024, 6, 1));
    assert_eq!(m.classify(&item(1, "New AI breakthrough", june)), vec!["AI News".to_string()]);
    assert!(m.classify(&item(1, "Sports update", june)).is_empty());
}

#[test]
fn classify_is_non_exclusive_and_ordered() {
    let decls = vec![
        ai_news(),
        decl("Everything", RuleExpr::And(vec![])),
        decl("Nothing", RuleExpr::Or(vec![])),
        decl("Source five", RuleExpr::Not(Box::new(RuleExpr::Contains("zzz".to_string())))),
    ];
    let m = FolderManager::with_date("folders.yml", Ok(decls), TODAY);
    let got = m.classify(&item(1, "AI", Some(day_start(2024, 2, 2))));
    assert_eq!(got, vec!["AI News".to_string(), "Everything".to_string(), "Source five".to_string()]);
}

#[test]
fn malformed_folder_is_skipped() {
    let decls = vec![
        decl("Bad time", RuleExpr::Time("2024-13-40 ~ ".to_string())),
        decl("Bad regex", RuleExpr::Contains("(".to_string())),
        ai_news(),
        decl("Bad nested", RuleExpr::And(vec![RuleExpr::Tag("ok".to_string()), RuleExpr::Time("no tilde".to_string())])),
    ];
    let folders = FolderManager::load_yaml_config(&decls, TODAY);
    assert_eq!(folders.len(), 1);
    assert_eq!(folders[0].name, "AI News");
}

#[test]
fn convert_reports_first_error() {
    let bad_time = decl("t", RuleExpr::Or(vec![RuleExpr::Time("x ~ y".to_string()), RuleExpr::Contains("(".to_string())]));
    assert_eq!(FolderManager::convert_yaml_folder_to_folder(&bad_time, TODAY).err(), Some(ConfigError::InvalidTimeRange));
    let bad_regex = decl("r", RuleExpr::Or(vec![RuleExpr::Contains("(".to_string()), RuleExpr::Time("x ~ y".to_string())]));
    assert_eq!(FolderManager::convert_yaml_folder_to_folder(&bad_regex, TODAY).err(), Some(ConfigError::InvalidPattern));
    let ok = FolderManager::convert_yaml_folder_to_folder(&ai_news(), TODAY).unwrap();
    assert_eq!(ok.name, "AI News");
}

#[test]
fn tag_leaf_matches_literally() {
    let tree = FolderManager::parse_yaml_rule_item(&RuleExpr::Tag("c++".to_string()), TODAY).unwrap();
    assert!(tree.evaluate(&item(1, "modern c++ tips", None)));
    assert!(!tree.evaluate(&item(1, "modern c tips", None)));
}

#[test]
fn relative_time_leaf_uses_today() {
    let tree = FolderManager::parse_yaml_rule_item(&RuleExpr::Time("Yesterday ~ TODAY".to_string()), TODAY).unwrap();
    assert!(tree.evaluate(&item(1, "x", Some(TODAY - 86_400))));
    assert!(tree.evaluate(&item(1, "x", Some(TODAY + 86_399))));
    assert!(!tree.evaluate(&item(1, "x", Some(TODAY + 86_400))));
    assert!(!tree.evaluate(&item(1, "x", Some(TODAY - 86_401))));
}

#[test]
fn reload_replaces_on_success_and_keeps_on_failure() {
    let mut m = FolderManager::with_date("folders.yml", Ok(vec![ai_news()]), TODAY);
    assert_eq!(m.reload_with_date(Err(ConfigError::Unreadable), TODAY), Err(ConfigError::Unreadable));
    assert_eq!(m.folders.len(), 1);
    let next = vec![decl("A", RuleExpr::And(vec![])), decl("B", RuleExpr::Or(vec![]))];
    assert_eq!(m.reload_with_date(Ok(next), TODAY), Ok(()));
    assert_eq!(m.folders.iter().map(|f| f.name.clone()).collect::<Vec<_>>(), vec!["A".to_string(), "B".to_string()]);
    assert_eq!(m.config_path, "folders.yml");
}

#[test]
fn missing_catalog_is_empty() {
    let m = FolderManager::with_date("folders.yml", Err(ConfigError::SourceNotFound), TODAY);
    assert!(m.folders.is_empty());
    let now = FolderManager::new("folders.yml", Ok(vec![decl("All", RuleExpr::And(vec![]))]));
    assert_eq!(now.folders.len(), 1);
}

#[test]
fn reload_config_uses_current_date() {
    let mut m = FolderManager::new("folders.yml", Err(ConfigError::SourceNotFound));
    assert_eq!(m.reload_config(Ok(vec![decl("All", RuleExpr::And(vec![]))])), Ok(()));
    assert_eq!(m.folders.len(), 1);
    assert_eq!(m.reload_config(Err(ConfigError::Parse)), Err(ConfigError::Parse));
    assert_eq!(m.folders.len(), 1);
}

fn leaf_parts(t: &Rules) -> (bool, &TagRuleEnum) {
    match t {
        Rules::LEAF(l) => (l.reverse, &l.rule_type),
        Rules::NODE(_) => panic!("expected a leaf"),
    }
}

fn node_parts(t: &Rules) -> (bool, &Vec<Rules>) {
    match t {
        Rules::NODE(n) => (n.is_and, &n.rules),
        Rules::LEAF(_) => panic!("expected a node"),
    }
}

#[test]
fn parsed_tree_has_declared_shape() {
    let folders = FolderManager::load_yaml_config(&vec![ai_news()], TODAY);
    assert_eq!(folders.len(), 1);
    assert_eq!(folders[0].name, "AI News");
    let (is_and, children) = node_parts(&folders[0].root);
    assert!(is_and);
    assert_eq!(children.len(), 2);
    match leaf_parts(&children[0]) {
        (false, TagRuleEnum::Contains(c)) => {
            assert_eq!(c.tag.name, "content_match");
            assert_eq!(c.pattern, "AI");
            assert_eq!(c.mode, PatternMode::Regex);
            assert!(c.case_sensitive);
        },
        other => panic!("unexpected leaf {:?}", other),
    }
    match leaf_parts(&children[1]) {
        (false, TagRuleEnum::TimeRange(r)) => {
            assert_eq!(r.tag.name, "time_range");
            assert_eq!(r.start, Some(Timestamp { secs: day_start(2024, 1, 1) }));
            assert_eq!(r.end, None);
        },
        other => panic!("unexpected leaf {:?}", other),
    }
}

#[test]
fn tag_and_time_leaves_have_declared_fields() {
    let tag = FolderManager::parse_yaml_rule_item(&RuleExpr::Tag("tech/ai".to_string()), TODAY).unwrap();
    match leaf_parts(&tag) {
        (false, TagRuleEnum::Contains(c)) => {
            assert_eq!(c.tag.name, "tech/ai");
            assert_eq!(c.pattern, "tech/ai");
            assert_eq!(c.mode, PatternMode::Literal);
        },
        other => panic!("unexpected leaf {:?}", other),
    }
    let time = FolderManager::parse_time_rule("~ 2024-01-31", TODAY).unwrap();
    match leaf_parts(&time) {
        (false, TagRuleEnum::TimeRange(r)) => {
            assert_eq!(r.tag.name, "time_range");
            assert_eq!(r.start, None);
            assert_eq!(r.end, Some(Timestamp { secs: day_start(2024, 1, 31) + 86_399 }));
        },
        other => panic!("unexpected leaf {:?}", other),
    }
}

#[test]
fn not_of_and_becomes_or_of_reversed_children() {
    let expr = RuleExpr::Not(Box::new(RuleExpr::And(vec![
        RuleExpr::Contains("a".to_string()),
        RuleExpr::Not(Box::new(RuleExpr::Tag("b".to_string()))),
    ])));
    let tree = FolderManager::parse_yaml_rule_item(&expr, TODAY).unwrap();
    let (is_and, children) = node_parts(&tree);
    assert!(!is_and);
    assert!(leaf_parts(&children[0]).0);
    assert!(!leaf_parts(&children[1]).0);
    assert!(tree.evaluate(&item(1, "b only", None)));
    assert!(!tree.evaluate(&item(1, "a only", None)));
}
