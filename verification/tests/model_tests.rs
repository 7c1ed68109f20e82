use garden::context::ApplicationContext;
use garden::display::{
    display_missing_tree, display_tree, missing_tree_line, print_tree, print_tree_details,
    tree_line,
};
use garden::errors::GardenError;
use garden::eval::Answer;
use garden::model::{
    dirname, is_absolute, join_path, ColorMode, Command, CommandOptions, Configuration,
    EvalContext, Garden, Graft, Group, MultiVariable, NamedVariable, Template, Tree, Variable,
};

fn tree(name: &str, path: &str) -> Tree {
    let mut t = Tree::default();
    t.name = name.to_string();
    t.path = Variable::new(path.to_string(), None);
    t
}

#[test]
fn variable_caches_until_reset() {
    let mut v = Variable::new("expr".to_string(), None);
    assert_eq!(v.get_expr(), "expr");
    assert!(v.get_value().is_none());
    v.set_value("value".to_string());
    assert_eq!(v.get_value().unwrap(), "value");
    assert_eq!(v.get_value().unwrap(), "value");
    v.set_expr("other".to_string());
    assert_eq!(v.get_value().unwrap(), "value");
    v.get_expr_mut().push_str("!");
    assert_eq!(v.get_expr(), "other!");
    v.reset();
    assert!(v.get_value().is_none());
    assert_eq!(v.get_expr(), "other!");
    assert_eq!(Variable::default().get_expr(), "");
}

#[test]
fn named_variable_wraps_a_variable() {
    let mut v = NamedVariable::new("n".to_string(), "e".to_string(), Some("v".to_string()));
    assert_eq!(v.get_name(), "n");
    assert_eq!(v.get_expr(), "e");
    assert_eq!(v.get_value().unwrap(), "v");
    v.reset();
    assert!(v.get_value().is_none());
    v.set_expr("e2".to_string());
    v.set_value("v2".to_string());
    assert_eq!(v.get_expr(), "e2");
    assert_eq!(v.get_value().unwrap(), "v2");
}

#[test]
fn multi_variable_resets_every_entry() {
    let mut m = MultiVariable::new(
        "m".to_string(),
        vec![
            Variable::new("a".to_string(), Some("1".to_string())),
            Variable::new("b".to_string(), Some("2".to_string())),
        ],
    );
    assert_eq!(m.get_name(), "m");
    assert_eq!(m.len(), 2);
    assert!(!m.is_empty());
    assert_eq!(m.get(1).get_value().unwrap(), "2");
    m.reset();
    assert!(m.iter().iter().all(|v| v.get_value().is_none()));
    assert_eq!(m.get(0).get_expr(), "a");
    assert!(MultiVariable::new("e".to_string(), vec![]).is_empty());
}

#[test]
fn tree_path_is_unset_until_resolved() {
    let mut t = tree("t", "rel");
    assert!(!t.path_is_valid());
    match t.path_as_ref() {
        Err(GardenError::ConfigurationError(msg)) => assert_eq!(msg, "unset tree path for t"),
        _ => panic!("expected a configuration error"),
    }
    assert!(matches!(t.symlink_as_ref(), Err(GardenError::ConfigurationError(_))));
    t.get_path_mut().set_value("/abs/t".to_string());
    assert!(t.path_is_valid());
    assert_eq!(t.path_as_ref().unwrap(), "/abs/t");
    assert_eq!(t.get_path().get_expr(), "rel");
    t.symlink.set_value("/abs/link".to_string());
    assert_eq!(t.symlink_as_ref().unwrap(), "/abs/link");
    t.get_name_mut().push_str("2");
    assert_eq!(t.get_name(), "t2");
}

#[test]
fn tree_reset_keeps_the_path() {
    let mut t = tree("t", "rel");
    t.path.set_value("/abs/t".to_string());
    t.variables.push(NamedVariable::new("v".to_string(), "e".to_string(), Some("x".to_string())));
    t.gitconfig.push(NamedVariable::new("g".to_string(), "e".to_string(), Some("x".to_string())));
    t.environment.push(MultiVariable::new(
        "E".to_string(),
        vec![Variable::new("e".to_string(), Some("x".to_string()))],
    ));
    t.commands.push(MultiVariable::new(
        "c".to_string(),
        vec![Variable::new("e".to_string(), Some("x".to_string()))],
    ));
    t.reset_variables();
    assert_eq!(t.path_as_ref().unwrap(), "/abs/t");
    assert!(t.variables[0].get_value().is_none());
    assert!(t.gitconfig[0].get_value().is_none());
    assert!(t.environment[0].get(0).get_value().is_none());
    assert!(t.commands[0].get(0).get_value().is_none());
    assert_eq!(t.variables[0].get_expr(), "e");
}

#[test]
fn names_and_indexes_are_read_back() {
    let mut group = Group::default();
    group.get_name_mut().push_str("grp");
    assert_eq!(group.get_name(), "grp");
    assert_eq!(group.get_index(), 0);
    let mut template = Template::default();
    template.get_name_mut().push_str("tpl");
    assert_eq!(template.get_name(), "tpl");
    let mut garden = Garden::default();
    garden.get_name_mut().push_str("gdn");
    assert_eq!(garden.get_name(), "gdn");
    assert_eq!(garden.get_index(), 0);
    let ctx = EvalContext::new(3, Some(1), None, Some(2));
    assert_eq!((ctx.config, ctx.tree, ctx.garden, ctx.group), (3, Some(1), None, Some(2)));
}

#[test]
fn paths_are_joined_to_a_base() {
    assert_eq!(join_path("/home/u/code", "foo"), "/home/u/code/foo");
    assert_eq!(join_path("/home/u/code", "/abs/x"), "/abs/x");
    assert_eq!(join_path("/home/u/code/", "foo"), "/home/u/code/foo");
    assert_eq!(join_path("", "foo"), "foo");
    assert_eq!(join_path("base", ""), "base/");
    assert_eq!(join_path("/", "foo"), "/foo");
    assert!(is_absolute("/a"));
    assert!(!is_absolute("a/b"));
    assert!(!is_absolute(""));
    assert_eq!(dirname("/etc/garden/garden.yaml"), "/etc/garden");
    assert_eq!(dirname("/garden.yaml"), "/");
    assert_eq!(dirname("garden.yaml"), "");
    assert_eq!(dirname("conf/garden.yaml"), "conf");
}

#[test]
fn tree_paths_resolve_against_root() {
    let mut cfg = Configuration::new();
    cfg.root = Variable::new("/home/u/code".to_string(), None);
    cfg.trees.push(tree("foo", "foo"));
    cfg.trees.push(tree("x", "/abs/x"));
    let mut link = tree("link", "link");
    link.is_symlink = true;
    link.symlink = Variable::new("foo".to_string(), None);
    cfg.trees.push(link);
    assert!(cfg.initialize(&vec![]).is_none());
    assert_eq!(cfg.root_path, "/home/u/code");
    assert_eq!(cfg.root.get_value().unwrap(), "/home/u/code");
    assert_eq!(cfg.trees[0].path_as_ref().unwrap(), "/home/u/code/foo");
    assert_eq!(cfg.trees[1].path_as_ref().unwrap(), "/abs/x");
    assert_eq!(cfg.trees[2].symlink_as_ref().unwrap(), "/home/u/code/foo");
    assert!(cfg.trees[0].symlink_as_ref().is_err());
    assert_eq!(cfg.tree_path("bar"), "/home/u/code/bar");
    assert_eq!(cfg.tree_path("/bar"), "/bar");
    cfg.reset();
    assert_eq!(cfg.trees[0].path_as_ref().unwrap(), "/home/u/code/foo");
}

#[test]
fn initialize_numbers_gardens_and_sets_builtins() {
    let mut cfg = Configuration::new();
    cfg.root = Variable::new("${base}/code".to_string(), None);
    cfg.variables.push(NamedVariable::new("GARDEN_ROOT".to_string(), String::new(), None));
    cfg.variables.push(NamedVariable::new("base".to_string(), "/home/u".to_string(), None));
    let mut t = tree("foo", "${GARDEN_ROOT}sub/foo");
    t.variables.push(NamedVariable::new("TREE_NAME".to_string(), String::new(), None));
    t.variables.push(NamedVariable::new("TREE_PATH".to_string(), String::new(), None));
    cfg.trees.push(t);
    for name in ["g0", "g1"] {
        let mut g = Garden::default();
        g.name = name.to_string();
        cfg.gardens.push(g);
        let mut grp = Group::default();
        grp.name = name.to_string();
        cfg.groups.push(grp);
    }
    assert!(cfg.initialize(&vec![]).is_none());
    assert_eq!(cfg.root_path, "/home/u/code");
    assert_eq!(cfg.gardens[1].get_index(), 1);
    assert_eq!(cfg.groups[1].get_index(), 1);
    assert_eq!(cfg.variables[0].get_value().unwrap(), "/home/u/code");
    assert_eq!(cfg.variables[0].get_expr(), "/home/u/code");
    assert!(cfg.variables[1].get_value().is_none());
    assert_eq!(cfg.trees[0].path_as_ref().unwrap(), "/home/u/code/sub/foo");
    assert_eq!(cfg.trees[0].variables[0].get_value().unwrap(), "foo");
    assert_eq!(cfg.trees[0].variables[1].get_value().unwrap(), "/home/u/code/sub/foo");
}

#[test]
fn initialize_asks_for_commands() {
    let mut cfg = Configuration::new();
    cfg.root = Variable::new("$ pwd".to_string(), None);
    cfg.trees.push(tree("foo", "foo"));
    assert_eq!(cfg.initialize(&vec![]), Some("pwd".to_string()));
    assert!(!cfg.trees[0].path_is_valid());
    let answers = vec![Answer { command: "pwd".to_string(), output: "/work\n".to_string() }];
    assert_eq!(cfg.initialize(&answers), None);
    assert_eq!(cfg.trees[0].path_as_ref().unwrap(), "/work/foo");
}

#[test]
fn config_path_is_relative_to_the_file() {
    let mut cfg = Configuration::new();
    cfg.root_path = "/root".to_string();
    assert_eq!(cfg.config_path("x.yaml"), "/root/x.yaml");
    assert!(matches!(cfg.get_path(), Err(GardenError::AssertionError(_))));
    cfg.set_path("/etc/garden/garden.yaml".to_string());
    assert_eq!(cfg.get_path().unwrap(), "/etc/garden/garden.yaml");
    assert_eq!(cfg.dirname, Some("/etc/garden".to_string()));
    assert_eq!(cfg.config_path("x.yaml"), "/etc/garden/x.yaml");
    assert_eq!(cfg.config_path("/abs.yaml"), "/abs.yaml");
    match cfg.eval_config_path("grafts/${missing}g.yaml", &vec![]) {
        garden::eval::Evaluated::Value(v) => assert_eq!(v, "/etc/garden/grafts/g.yaml"),
        _ => panic!("expected a value"),
    }
    match cfg.eval_tree_path("t", &vec![]) {
        garden::eval::Evaluated::Value(v) => assert_eq!(v, "/root/t"),
        _ => panic!("expected a value"),
    }
}

#[test]
fn new_configuration_is_empty() {
    let cfg = Configuration::new();
    assert_eq!(cfg.shell, "zsh");
    assert!(cfg.trees.is_empty() && cfg.gardens.is_empty() && cfg.grafts.is_empty());
    assert_eq!(cfg.get_id(), None);
    assert_eq!(cfg.parent_id, None);
}

#[test]
fn graft_is_found_by_name() {
    let mut cfg = Configuration::new();
    cfg.grafts.push(Graft::new("x".to_string(), "rx".to_string(), "x.yaml".to_string()));
    cfg.grafts.push(Graft::new("y".to_string(), "ry".to_string(), "y.yaml".to_string()));
    cfg.grafts.push(Graft::new("x".to_string(), "second".to_string(), "x2.yaml".to_string()));
    let found = cfg.get_graft("x").unwrap();
    assert_eq!(found.get_name(), "x");
    assert_eq!(found.root, "rx");
    assert_eq!(found.config, "x.yaml");
    assert_eq!(*found.get_id(), None);
    assert_eq!(cfg.get_graft("@y").unwrap().root, "ry");
    assert!(cfg.contains_graft("x"));
    assert!(cfg.contains_graft(":y"));
    assert!(!cfg.contains_graft("missing"));
    match cfg.get_graft("missing") {
        Err(GardenError::ConfigurationError(msg)) => assert_eq!(msg, "missing: no such graft"),
        _ => panic!("expected a configuration error"),
    }
    let mut g = Graft::new("z".to_string(), String::new(), String::new());
    g.set_id(4);
    assert_eq!(*g.get_id(), Some(4));
}

#[test]
fn command_is_read_from_a_word() {
    assert!(matches!(Command::parse("cmd"), Command::Cmd));
    assert!(matches!(Command::parse("exec"), Command::Exec));
    assert!(matches!(Command::parse("eval"), Command::Eval));
    assert!(matches!(Command::parse("grow"), Command::Grow));
    assert!(matches!(Command::parse("help"), Command::Help));
    assert!(matches!(Command::parse("init"), Command::Init));
    assert!(matches!(Command::parse("inspect"), Command::Inspect));
    assert!(matches!(Command::parse("list"), Command::List));
    assert!(matches!(Command::parse("ls"), Command::List));
    assert!(matches!(Command::parse("plant"), Command::Plant));
    assert!(matches!(Command::parse("sh"), Command::Shell));
    assert!(matches!(Command::parse("shell"), Command::Shell));
    match Command::parse("build") {
        Command::Custom(name) => assert_eq!(name, "build"),
        _ => panic!("expected a custom command"),
    }
    assert!(matches!("ls".parse::<Command>(), Ok(Command::List)));
    assert!(matches!(Command::default(), Command::Help));
}

#[test]
fn color_mode_is_read_whatever_the_case() {
    assert_eq!(ColorMode::parse("auto"), Some(ColorMode::Auto));
    assert_eq!(ColorMode::parse("AUTO"), Some(ColorMode::Auto));
    assert_eq!(ColorMode::parse("-1"), Some(ColorMode::Auto));
    assert_eq!(ColorMode::parse("On"), Some(ColorMode::On));
    assert_eq!(ColorMode::parse("1"), Some(ColorMode::On));
    assert_eq!(ColorMode::parse("YES"), Some(ColorMode::On));
    assert_eq!(ColorMode::parse("y"), Some(ColorMode::On));
    assert_eq!(ColorMode::parse("true"), Some(ColorMode::On));
    assert_eq!(ColorMode::parse("off"), Some(ColorMode::Off));
    assert_eq!(ColorMode::parse("0"), Some(ColorMode::Off));
    assert_eq!(ColorMode::parse("False"), Some(ColorMode::Off));
    assert_eq!(ColorMode::parse("never"), Some(ColorMode::Off));
    assert_eq!(ColorMode::parse("always"), Some(ColorMode::Off));
    assert_eq!(ColorMode::parse("n"), Some(ColorMode::Off));
    assert_eq!(ColorMode::parse("no"), Some(ColorMode::Off));
    assert_eq!(ColorMode::parse("maybe"), None);
    assert_eq!(ColorMode::from_word("AUTO"), None);
    assert_eq!("on".parse::<ColorMode>(), Ok(ColorMode::On));
    assert_eq!("purple".parse::<ColorMode>(), Err(()));
    assert_eq!(ColorMode::default(), ColorMode::Auto);
    assert_eq!(
        ColorMode::names(),
        "auto, true, false, 1, 0, [y]es, [n]o, on, off, always, never"
    );
}

#[test]
fn color_mode_settles_auto() {
    assert!(ColorMode::Auto.is_enabled_on(true));
    assert!(!ColorMode::Auto.is_enabled_on(false));
    assert!(ColorMode::On.is_enabled_on(false));
    assert!(!ColorMode::Off.is_enabled_on(true));
    assert!(ColorMode::On.is_enabled());
    assert!(!ColorMode::Off.is_enabled());
    let mut mode = ColorMode::Auto;
    mode.settle(true);
    assert_eq!(mode, ColorMode::On);
    let mut mode = ColorMode::Auto;
    mode.settle(false);
    assert_eq!(mode, ColorMode::Off);
    let mut mode = ColorMode::Off;
    mode.settle(true);
    assert_eq!(mode, ColorMode::Off);
}

#[test]
fn color_mode_update_leaves_no_auto() {
    yansi::Paint::enable();
    let mut mode = ColorMode::On;
    mode.update();
    assert_eq!(mode, ColorMode::On);
    assert!(yansi::Paint::is_enabled());
    let mut mode = ColorMode::Auto;
    let terminal = ColorMode::Auto.is_enabled();
    mode.update();
    assert_eq!(mode, if terminal { ColorMode::On } else { ColorMode::Off });
    yansi::Paint::enable();
    let mut mode = ColorMode::Off;
    mode.update();
    assert_eq!(mode, ColorMode::Off);
    assert!(!yansi::Paint::is_enabled());
    yansi::Paint::enable();
}

#[test]
fn options_know_their_debug_categories() {
    let mut options = CommandOptions::new().verbose(true);
    assert!(options.verbose);
    assert!(!options.quiet);
    options.debug.push("exec".to_string());
    assert!(options.is_debug("exec"));
    assert!(!options.is_debug("eval"));
    assert!(!CommandOptions::new().verbose(false).verbose);
}

#[test]
fn tree_lines_are_laid_out() {
    yansi::Paint::disable();
    let mut t = tree("foo", "foo");
    assert_eq!(display_tree(&t, "/p/foo", false), "# foo");
    assert_eq!(display_tree(&t, "/p/foo", true), "# foo  /p/foo");
    assert_eq!(display_missing_tree(&t, "/p/foo", false), "# foo (skipped)");
    assert_eq!(display_missing_tree(&t, "/p/foo", true), "# foo  /p/foo (skipped)");
    assert_eq!(
        print_tree(&t, true, true, false),
        (false, Some("# foo  [invalid-path] (skipped)".to_string()))
    );
    assert_eq!(print_tree_details(&t, true, false), None);
    t.path.set_value("/p/foo".to_string());
    assert_eq!(print_tree(&t, true, true, false), (true, Some("# foo  /p/foo".to_string())));
    assert_eq!(print_tree(&t, true, false, true), (true, None));
    assert_eq!(print_tree(&t, false, false, false), (false, Some("# foo (skipped)".to_string())));
    assert_eq!(print_tree(&t, false, false, true), (false, None));
    assert_eq!(print_tree_details(&t, false, false), Some("# foo".to_string()));
    assert_eq!(print_tree_details(&t, false, true), None);
    assert_eq!(tree_line("#", "n", "/p", true), "# n  /p");
    assert_eq!(tree_line("*", "n", "/p", false), "* n");
    assert_eq!(missing_tree_line("#", "n", "/p", "(gone)", true), "# n  /p (gone)");
    assert_eq!(missing_tree_line("#", "n", "/p", "(gone)", false), "# n (gone)");
}

#[test]
fn tree_lines_are_painted() {
    yansi::Paint::enable();
    let t = tree("foo", "foo");
    let line = display_tree(&t, "/p/foo", true);
    assert_ne!(line, "# foo  /p/foo");
    assert_eq!(
        line,
        format!(
            "{} {}  {}",
            yansi::Paint::cyan("#"),
            yansi::Paint::blue("foo").bold(),
            yansi::Paint::blue("/p/foo")
        )
    );
    assert!(line.contains("\u{1b}[") && line.contains("foo") && line.contains("/p/foo"));
    let missing = display_missing_tree(&t, "/p/foo", false);
    assert_eq!(
        missing,
        format!(
            "{} {} {}",
            yansi::Paint::black("#").bold(),
            yansi::Paint::black("foo").bold(),
            yansi::Paint::black("(skipped)").bold()
        )
    );
    assert!(!missing.contains("/p/foo"));
}

#[test]
fn forest_hands_out_handles() {
    let mut root = Configuration::new();
    root.shell = "root".to_string();
    root.set_parent(5);
    let mut app = ApplicationContext::new(root, CommandOptions::new());
    assert_eq!(app.get_root_id(), 1);
    assert_eq!(app.get_root_config().get_id(), Some(1));
    assert_eq!(app.get_root_config().parent_id, None);
    let mut child = Configuration::new();
    child.shell = "child".to_string();
    let child_id = app.add_graft(app.get_root_id(), child);
    assert_eq!(child_id, 2);
    let grandchild_id = app.add_graft(child_id, Configuration::new());
    assert_eq!(grandchild_id, 3);
    let sibling_id = app.add_graft(app.get_root_id(), Configuration::new());
    assert_eq!(sibling_id, 4);
    assert_eq!(app.get_root_id(), 1);
    assert_eq!(app.get_config(child_id).shell, "child");
    assert_eq!(app.get_config(child_id).get_id(), Some(2));
    assert_eq!(app.get_config(child_id).parent_id, Some(1));
    assert_eq!(app.get_config(grandchild_id).get_id(), Some(3));
    assert_eq!(app.get_config(grandchild_id).parent_id, Some(2));
    assert_eq!(app.get_config(sibling_id).parent_id, Some(1));
    assert_eq!(app.get_root_config().shell, "root");
    assert_eq!(app.get_root_config().parent_id, None);
    app.get_config_mut(child_id).shell = "changed".to_string();
    assert_eq!(app.get_config(child_id).shell, "changed");
    assert_eq!(app.get_config(grandchild_id).shell, "zsh");
    app.get_root_config_mut().verbose = true;
    assert!(app.get_root_config().verbose);
    assert!(!app.get_config(child_id).verbose);
    let copy = app.clone();
    assert_eq!(copy.get_config(child_id).shell, "changed");
}
