use garden::errors::GardenError;
use garden::model::{Configuration, Garden, Group, Tree, TreeContext, TreeQuery, Variable};
use garden::pattern::{is_valid, try_match};
use garden::query::{
    find_garden, find_group, find_tree, garden_contexts, garden_hits, garden_trees,
    group_contexts, group_hits, group_trees, resolve_query, resolve_trees, select_contexts,
    tree_context, tree_contexts, tree_hits, tree_name_from_abspath,
};
use garden::syntax::{is_exec, is_garden, is_group, is_tree, trim, trim_exec};

fn tree(name: &str) -> Tree {
    let mut t = Tree::default();
    t.name = name.to_string();
    t.path = Variable::new(name.to_string(), Some(format!("/src/{}", name)));
    t
}

fn group(name: &str, members: &[&str]) -> Group {
    let mut g = Group::default();
    g.name = name.to_string();
    g.members = members.iter().map(|m| m.to_string()).collect();
    g
}

fn garden(name: &str, trees: &[&str], groups: &[&str]) -> Garden {
    let mut g = Garden::default();
    g.name = name.to_string();
    g.trees = trees.iter().map(|m| m.to_string()).collect();
    g.groups = groups.iter().map(|m| m.to_string()).collect();
    g
}

fn sample() -> Configuration {
    let mut cfg = Configuration::new();
    for name in ["a", "b", "c", "dev", "deep"] {
        cfg.trees.push(tree(name));
    }
    cfg.groups.push(group("pair", &["b", "c"]));
    cfg.groups.push(group("outer", &["a", "pair", "missing"]));
    cfg.groups.push(group("loop1", &["loop2", "a"]));
    cfg.groups.push(group("loop2", &["loop1", "b"]));
    cfg.gardens.push(garden("work", &["a", "b"], &[]));
    cfg.gardens.push(garden("world", &["a"], &["pair"]));
    cfg.gardens.push(garden("dev", &["c"], &[]));
    cfg
}

fn ctx(tree: usize, garden: Option<usize>, group: Option<usize>) -> TreeContext {
    TreeContext::new(tree, None, garden, group)
}

#[test]
fn markers_are_recognised() {
    assert!(is_garden("%work"));
    assert!(is_group(":pair"));
    assert!(is_tree("@a"));
    assert!(!is_garden("work"));
    assert!(!is_tree(""));
    assert!(is_exec("$ ls"));
    assert!(!is_exec("$ls"));
    assert!(!is_exec("$"));
    assert_eq!(trim("%work"), "work");
    assert_eq!(trim(":pair"), "pair");
    assert_eq!(trim("@a"), "a");
    assert_eq!(trim("plain"), "plain");
    assert_eq!(trim(""), "");
    assert_eq!(trim("@"), "");
    assert_eq!(trim("@@a"), "@a");
    assert_eq!(trim_exec("$ echo hi"), "echo hi");
}

#[test]
fn query_is_read_from_selector() {
    let q = TreeQuery::parse("%wor*").unwrap();
    assert_eq!(q.query, "%wor*");
    assert_eq!(q.pattern, "wor*");
    assert!(q.is_garden && !q.is_group && !q.is_tree && !q.is_default);
    assert!(q.include_gardens && !q.include_groups && !q.include_trees);
    let q = TreeQuery::parse(":g").unwrap();
    assert!(q.is_group && q.include_groups && !q.include_gardens && !q.include_trees);
    let q = TreeQuery::parse("@t").unwrap();
    assert!(q.is_tree && q.include_trees && !q.include_gardens && !q.include_groups);
    let q = TreeQuery::parse("any").unwrap();
    assert!(q.is_default && q.include_gardens && q.include_groups && q.include_trees);
    assert_eq!(q.pattern, "any");
    assert!(TreeQuery::parse("@abc[").is_none());
    let q = TreeQuery::new("%x?");
    assert_eq!(q.pattern, "x?");
}

#[test]
fn patterns_match_as_globs() {
    assert_eq!(try_match("a*", "abc"), Some(true));
    assert_eq!(try_match("a*", "bac"), Some(false));
    assert_eq!(try_match("c?t", "cat"), Some(true));
    assert_eq!(try_match("c?t", "cart"), Some(false));
    assert_eq!(try_match("k[!e]tteh", "kitteh"), Some(true));
    assert_eq!(try_match("[ab]", "c"), Some(false));
    assert_eq!(try_match("abc", "abc"), Some(true));
    assert_eq!(try_match("abc", "ABC"), Some(false));
    assert_eq!(try_match("abc[", "abc["), None);
    assert!(is_valid("*"));
    assert!(!is_valid("a**b"));
}

#[test]
fn tree_query_names_one_tree() {
    let cfg = sample();
    assert_eq!(resolve_trees(&cfg, "@b"), vec![ctx(1, None, None)]);
    assert_eq!(resolve_trees(&cfg, "@dev"), vec![ctx(3, None, None)]);
}

#[test]
fn tree_query_matches_by_pattern() {
    let cfg = sample();
    assert_eq!(resolve_trees(&cfg, "@de*"), vec![ctx(3, None, None), ctx(4, None, None)]);
    assert_eq!(
        resolve_trees(&cfg, "@?"),
        vec![ctx(0, None, None), ctx(1, None, None), ctx(2, None, None)]
    );
}

#[test]
fn tree_in_two_gardens_is_named_twice() {
    let cfg = sample();
    let found = resolve_trees(&cfg, "%wor*");
    assert_eq!(
        found,
        vec![
            ctx(0, Some(0), None),
            ctx(1, Some(0), None),
            ctx(0, Some(1), None),
            ctx(1, Some(1), None),
            ctx(2, Some(1), None),
        ]
    );
    let of_a: Vec<&TreeContext> = found.iter().filter(|c| c.tree == 0).collect();
    assert_eq!(of_a.len(), 2);
    assert_ne!(of_a[0].garden, of_a[1].garden);
}

#[test]
fn group_query_expands_nested_groups() {
    let cfg = sample();
    assert_eq!(resolve_trees(&cfg, ":pair"), vec![ctx(1, None, Some(0)), ctx(2, None, Some(0))]);
    assert_eq!(
        resolve_trees(&cfg, ":outer"),
        vec![ctx(0, None, Some(1)), ctx(1, None, Some(1)), ctx(2, None, Some(1))]
    );
}

#[test]
fn groups_that_name_each_other_end() {
    let cfg = sample();
    assert_eq!(group_trees(&cfg, 2), vec![1, 0]);
    assert_eq!(group_trees(&cfg, 3), vec![0, 1]);
    assert_eq!(
        resolve_trees(&cfg, ":loop1"),
        vec![ctx(1, None, Some(2)), ctx(0, None, Some(2))]
    );
}

#[test]
fn garden_lists_trees_then_groups() {
    let cfg = sample();
    assert_eq!(garden_trees(&cfg, 1), vec![0, 1, 2]);
    assert_eq!(garden_trees(&cfg, 0), vec![0, 1]);
    assert!(garden_trees(&cfg, 9).is_empty());
    assert!(group_trees(&cfg, 9).is_empty());
    assert_eq!(group_trees(&cfg, 1), vec![0, 1, 2]);
}

#[test]
fn unmarked_query_prefers_gardens_then_groups_then_trees() {
    let cfg = sample();
    // `dev` names a garden and a tree: the garden wins.
    assert_eq!(resolve_trees(&cfg, "dev"), vec![ctx(2, Some(2), None)]);
    // `pair` names a group only.
    assert_eq!(resolve_trees(&cfg, "pair"), vec![ctx(1, None, Some(0)), ctx(2, None, Some(0))]);
    // `deep` names a tree only.
    assert_eq!(resolve_trees(&cfg, "deep"), vec![ctx(4, None, None)]);
}

#[test]
fn contexts_carry_the_configuration_handle() {
    let mut cfg = sample();
    cfg.set_id(7);
    assert_eq!(resolve_trees(&cfg, "@a"), vec![TreeContext::new(0, Some(7), None, None)]);
}

#[test]
fn selector_that_matches_nothing_names_nothing() {
    let cfg = sample();
    assert!(resolve_trees(&cfg, "nothing").is_empty());
    assert!(resolve_trees(&cfg, "%a").is_empty());
    assert!(resolve_trees(&cfg, ":a").is_empty());
    assert!(resolve_trees(&cfg, "@work").is_empty());
    assert!(resolve_trees(&cfg, "").is_empty());
    assert!(resolve_trees(&Configuration::new(), "*").is_empty());
}

#[test]
fn invalid_pattern_names_nothing() {
    let cfg = sample();
    assert!(resolve_trees(&cfg, "@a[").is_empty());
}

#[test]
fn tree_context_pairs_tree_and_garden() {
    let cfg = sample();
    assert_eq!(tree_context(&cfg, "b", None).unwrap(), ctx(1, None, None));
    assert_eq!(tree_context(&cfg, "@b", Some("world")).unwrap(), ctx(1, Some(1), None));
    assert_eq!(tree_context(&cfg, "b", Some("%dev")).unwrap(), ctx(1, Some(2), None));
    match tree_context(&cfg, "zzz", Some("world")) {
        Err(GardenError::ConfigurationError(msg)) => assert_eq!(msg, "unable to find tree: zzz"),
        _ => panic!("expected a configuration error"),
    }
    match tree_context(&cfg, "b", Some("zzz")) {
        Err(GardenError::ConfigurationError(msg)) => assert_eq!(msg, "unable to find garden: zzz"),
        _ => panic!("expected a configuration error"),
    }
}

#[test]
fn tree_is_found_by_its_path() {
    let cfg = sample();
    assert_eq!(tree_name_from_abspath(&cfg, "/src/c"), Some("c".to_string()));
    assert_eq!(tree_name_from_abspath(&cfg, "/src/none"), None);
    assert_eq!(tree_name_from_abspath(&cfg, "c"), None);
}

#[test]
fn entities_are_found_by_name() {
    let cfg = sample();
    assert_eq!(find_tree(&cfg, "c"), 2);
    assert_eq!(find_tree(&cfg, "zzz"), 5);
    assert_eq!(find_group(&cfg, "outer"), 1);
    assert_eq!(find_group(&cfg, "a"), 4);
    assert_eq!(find_garden(&cfg, "dev"), 2);
    assert_eq!(find_garden(&cfg, "pair"), 3);
}

#[test]
fn pattern_is_matched_name_by_name() {
    let cfg = sample();
    assert_eq!(tree_hits(&cfg, "de*"), vec![false, false, false, true, true]);
    assert_eq!(group_hits(&cfg, "loop?"), vec![false, false, true, true]);
    assert_eq!(garden_hits(&cfg, "wor[kl]*"), vec![true, true, false]);
    assert_eq!(garden_hits(&cfg, "%work"), vec![false, false, false]);
}

#[test]
fn contexts_follow_the_given_matches() {
    let cfg = sample();
    assert_eq!(
        tree_contexts(&cfg, &vec![false, true, false, false, true]),
        vec![ctx(1, None, None), ctx(4, None, None)]
    );
    assert_eq!(tree_contexts(&cfg, &vec![true]), vec![ctx(0, None, None)]);
    assert!(tree_contexts(&cfg, &vec![]).is_empty());
    assert_eq!(
        tree_contexts(&cfg, &vec![false, false, false, false, false, true, true]),
        vec![]
    );
    assert_eq!(garden_contexts(&cfg, &vec![false, false, true]), vec![ctx(2, Some(2), None)]);
    assert_eq!(
        group_contexts(&cfg, &vec![true, false, false, false]),
        vec![ctx(1, None, Some(0)), ctx(2, None, Some(0))]
    );
}

#[test]
fn kinds_are_tried_in_order() {
    let cfg = sample();
    let gardens = vec![false, false, true];
    let groups = vec![true, false, false, false];
    let trees = vec![true, false, false, false, false];
    let none = vec![];
    assert_eq!(
        select_contexts(&cfg, &gardens, &groups, &trees, false, false, false),
        vec![ctx(2, Some(2), None)]
    );
    assert_eq!(
        select_contexts(&cfg, &none, &groups, &trees, false, false, false),
        vec![ctx(1, None, Some(0)), ctx(2, None, Some(0))]
    );
    assert_eq!(
        select_contexts(&cfg, &none, &none, &trees, false, false, false),
        vec![ctx(0, None, None)]
    );
    assert_eq!(
        select_contexts(&cfg, &gardens, &groups, &trees, false, false, true),
        vec![ctx(0, None, None)]
    );
    assert_eq!(
        select_contexts(&cfg, &gardens, &groups, &trees, false, true, false),
        vec![ctx(1, None, Some(0)), ctx(2, None, Some(0))]
    );
    assert!(select_contexts(&cfg, &none, &groups, &trees, true, false, false).is_empty());
    let query = TreeQuery::new("@a");
    assert_eq!(resolve_query(&cfg, &query), vec![ctx(0, None, None)]);
}

#[test]
fn garden_tree_that_is_missing_is_left_out() {
    let mut cfg = sample();
    cfg.gardens.push(garden("odd", &["ghost", "c", "pair"], &["ghost", "outer"]));
    // A garden lists trees by name; a group name among them stands for nothing.
    assert_eq!(garden_trees(&cfg, 3), vec![2, 0, 1, 2]);
}
