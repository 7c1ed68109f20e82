use garden::errors::GardenError;
use garden::eval::Answer;
use garden::exec::{
    aggregate, exec, exec_in_context, fold_status, get_status, result_from_exit_status, Step,
};
use garden::model::{Configuration, Garden, MultiVariable, NamedVariable, Tree, TreeContext, Variable};

fn tree(name: &str, symlink: bool) -> Tree {
    let mut t = Tree::default();
    t.name = name.to_string();
    t.path = Variable::new(name.to_string(), Some(format!("/src/{}", name)));
    t.is_symlink = symlink;
    t
}

fn sample() -> Configuration {
    let mut cfg = Configuration::new();
    cfg.trees.push(tree("one", false));
    cfg.trees.push(tree("link", true));
    cfg.trees.push(tree("two", false));
    let mut g = Garden::default();
    g.name = "all".to_string();
    g.trees = vec!["one".to_string(), "link".to_string(), "two".to_string()];
    cfg.gardens.push(g);
    cfg
}

#[test]
fn status_is_last_nonzero() {
    assert_eq!(aggregate(&vec![0, 2, 0]), 2);
    assert_eq!(aggregate(&vec![3, 4, 0]), 4);
    assert_eq!(aggregate(&vec![0, 0, 0]), 0);
    assert_eq!(aggregate(&vec![]), 0);
    assert_eq!(aggregate(&vec![-1]), -1);
    assert_eq!(fold_status(0, 0), 0);
    assert_eq!(fold_status(3, 0), 3);
    assert_eq!(fold_status(3, 4), 4);
    assert_eq!(fold_status(0, 9), 9);
}

#[test]
fn child_status_is_its_exit_code_or_one() {
    assert_eq!(get_status(Some(0)), 0);
    assert_eq!(get_status(Some(42)), 42);
    assert_eq!(get_status(None), 1);
}

#[test]
fn nonzero_status_is_an_exit_request() {
    assert!(result_from_exit_status(0).is_ok());
    match result_from_exit_status(3) {
        Err(GardenError::ExitStatus(3)) => {}
        _ => panic!("expected a request to exit with 3"),
    }
    assert_eq!(GardenError::ExitStatus(3).exit_code(), 3);
    assert_eq!(GardenError::Usage("u".to_string()).exit_code(), 1);
    assert_eq!(GardenError::ConfigurationError("c".to_string()).exit_code(), 1);
    assert_eq!(GardenError::AssertionError("a".to_string()).exit_code(), 1);
    assert_eq!(GardenError::ReferentialIntegrityError("r".to_string()).exit_code(), 1);
    assert_eq!(GardenError::ExitStatus(3).message(), "");
    assert_eq!(GardenError::Usage("u".to_string()).message(), "u");
}

#[test]
fn symlink_tree_is_never_run() {
    let cfg = sample();
    let command = vec!["true".to_string()];
    let plan = exec(&cfg, "%all", &command).unwrap();
    assert_eq!(
        plan,
        vec![TreeContext::new(0, None, Some(0), None), TreeContext::new(2, None, Some(0), None)]
    );
    assert!(exec(&cfg, "@link", &command).unwrap().is_empty());
    assert_eq!(exec(&cfg, "@*", &command).unwrap().len(), 2);
}

#[test]
fn missing_command_is_a_usage_error() {
    let cfg = sample();
    match exec(&cfg, "%all", &vec![]) {
        Err(GardenError::Usage(msg)) => {
            assert_eq!(msg, "a command to execute must be specified")
        }
        _ => panic!("expected a usage error"),
    }
    assert!(matches!(exec(&cfg, "nothing", &vec![]), Err(GardenError::Usage(_))));
}

#[test]
fn nothing_to_run_is_no_error() {
    let cfg = sample();
    assert!(exec(&cfg, "nothing", &vec!["true".to_string()]).unwrap().is_empty());
}

#[test]
fn context_is_prepared_for_a_run() {
    yansi::Paint::disable();
    let mut cfg = sample();
    cfg.trees[0].variables.push(NamedVariable::new("TREE_NAME".to_string(), String::new(), None));
    cfg.trees[0].variables.push(NamedVariable::new("TREE_PATH".to_string(), String::new(), None));
    cfg.trees[0].environment.push(MultiVariable::new(
        "WHERE".to_string(),
        vec![Variable::new("${TREE_NAME} at ${TREE_PATH}".to_string(), None)],
    ));
    let ctx = TreeContext::new(0, None, Some(0), None);
    match exec_in_context(&mut cfg, &ctx, false, true, &vec![]) {
        Step::Run(run) => {
            assert_eq!(run.path, "/src/one");
            assert_eq!(run.environment, vec![("WHERE".to_string(), "one at /src/one".to_string())]);
            assert_eq!(run.banner, Some("# one  /src/one".to_string()));
        }
        _ => panic!("expected a run"),
    }
    match exec_in_context(&mut cfg, &ctx, false, false, &vec![]) {
        Step::Run(run) => assert_eq!(run.banner, Some("# one".to_string())),
        _ => panic!("expected a run"),
    }
    match exec_in_context(&mut cfg, &ctx, true, true, &vec![]) {
        Step::Run(run) => assert_eq!(run.banner, None),
        _ => panic!("expected a run"),
    }
}

#[test]
fn symlink_context_is_skipped_untouched() {
    let mut cfg = sample();
    cfg.variables.push(NamedVariable::new("v".to_string(), "e".to_string(), Some("kept".to_string())));
    let ctx = TreeContext::new(1, None, None, None);
    assert!(matches!(exec_in_context(&mut cfg, &ctx, false, false, &vec![]), Step::Skip));
    assert_eq!(cfg.variables[0].get_value().unwrap(), "kept");
    let beyond = TreeContext::new(9, None, None, None);
    assert!(matches!(exec_in_context(&mut cfg, &beyond, false, false, &vec![]), Step::Skip));
}

#[test]
fn unresolved_path_is_skipped() {
    let mut cfg = sample();
    cfg.trees[0].path = Variable::new("one".to_string(), None);
    let ctx = TreeContext::new(0, None, None, None);
    assert!(matches!(exec_in_context(&mut cfg, &ctx, false, false, &vec![]), Step::Skip));
}

#[test]
fn context_asks_for_commands_of_its_environment() {
    let mut cfg = sample();
    cfg.trees[2].environment.push(MultiVariable::new(
        "REV".to_string(),
        vec![Variable::new("$ git describe".to_string(), None)],
    ));
    let ctx = TreeContext::new(2, None, None, None);
    match exec_in_context(&mut cfg, &ctx, true, false, &vec![]) {
        Step::Launch(command) => assert_eq!(command, "git describe"),
        _ => panic!("expected a launch"),
    }
    let answers = vec![Answer { command: "git describe".to_string(), output: "v1\n".to_string() }];
    match exec_in_context(&mut cfg, &ctx, true, false, &answers) {
        Step::Run(run) => {
            assert_eq!(run.environment, vec![("REV".to_string(), "v1".to_string())])
        }
        _ => panic!("expected a run"),
    }
}
