use garden::eval::{
    environment, environment_entries, find_named, finish, is_space, lookup, same_chars, trim_end,
    tree_value, value, variable_value, Answer, Evaluated, Slot,
};
use garden::expr::closing;
use garden::text::{chars_of, copy_of, str_eq, string_of};
use garden::model::{
    Configuration, Garden, MultiVariable, NamedVariable, Tree, TreeContext, Variable,
};

fn named(name: &str, expr: &str) -> NamedVariable {
    NamedVariable::new(name.to_string(), expr.to_string(), None)
}

fn tree(name: &str, path: &str) -> Tree {
    let mut t = Tree::default();
    t.name = name.to_string();
    t.path = Variable::new(path.to_string(), None);
    t
}

fn answer(command: &str, output: &str) -> Answer {
    Answer { command: command.to_string(), output: output.to_string() }
}

fn text(out: Evaluated) -> String {
    match out {
        Evaluated::Value(v) => v,
        Evaluated::Launch(c) => panic!("asked to launch {}", c),
    }
}

fn command(out: Evaluated) -> String {
    match out {
        Evaluated::Value(v) => panic!("came to the value {}", v),
        Evaluated::Launch(c) => c,
    }
}

#[test]
fn plain_text_is_its_own_value() {
    let mut cfg = Configuration::new();
    assert_eq!(text(value(&mut cfg, "hello world", &vec![])), "hello world");
    assert_eq!(text(value(&mut cfg, "", &vec![])), "");
    assert_eq!(text(value(&mut cfg, "costs $5 {now}", &vec![])), "costs $5 {now}");
    assert_eq!(text(value(&mut cfg, "naïve ünïcode", &vec![])), "naïve ünïcode");
}

#[test]
fn unclosed_reference_is_literal_text() {
    let mut cfg = Configuration::new();
    cfg.variables.push(named("abc", "x"));
    assert_eq!(text(value(&mut cfg, "a${abc", &vec![])), "a${abc");
    assert_eq!(text(value(&mut cfg, "$", &vec![])), "$");
    assert_eq!(text(value(&mut cfg, "${", &vec![])), "${");
}

#[test]
fn reference_is_replaced_by_the_value() {
    let mut cfg = Configuration::new();
    cfg.variables.push(named("name", "x"));
    assert_eq!(text(value(&mut cfg, "a${name}b", &vec![])), "axb");
    assert_eq!(text(value(&mut cfg, "${name}${name}", &vec![])), "xx");
    assert_eq!(text(value(&mut cfg, "${}", &vec![])), "");
}

#[test]
fn unresolved_name_is_empty() {
    let mut cfg = Configuration::new();
    assert_eq!(text(value(&mut cfg, "a${missing}b", &vec![])), "ab");
}

#[test]
fn references_nest() {
    let mut cfg = Configuration::new();
    cfg.variables.push(named("a", "${b}!"));
    cfg.variables.push(named("b", "v"));
    assert_eq!(text(value(&mut cfg, "<${a}>", &vec![])), "<v!>");
    assert_eq!(cfg.variables[0].get_value().unwrap(), "v!");
    assert_eq!(cfg.variables[1].get_value().unwrap(), "v");
}

#[test]
fn cycle_of_references_ends() {
    let mut cfg = Configuration::new();
    cfg.variables.push(named("a", "${b}x"));
    cfg.variables.push(named("b", "${a}y"));
    assert_eq!(text(value(&mut cfg, "${a}", &vec![])), "yx");
    let mut own = Configuration::new();
    own.variables.push(named("a", "1${a}2"));
    assert_eq!(text(value(&mut own, "${a}", &vec![])), "12");
}

#[test]
fn tree_scope_comes_before_garden_before_global() {
    let mut cfg = Configuration::new();
    cfg.variables.push(named("v", "global"));
    cfg.variables.push(named("g", "global-g"));
    cfg.variables.push(named("only", "here"));
    let mut garden = Garden::default();
    garden.name = "gar".to_string();
    garden.variables.push(named("v", "garden"));
    garden.variables.push(named("g", "garden-g"));
    cfg.gardens.push(garden);
    let mut t = tree("t", "t");
    t.variables.push(named("v", "tree"));
    cfg.trees.push(t);
    assert_eq!(text(tree_value(&mut cfg, "${v}", 0, Some(0), &vec![])), "tree");
    cfg.reset_variables();
    assert_eq!(text(tree_value(&mut cfg, "${g}", 0, Some(0), &vec![])), "garden-g");
    cfg.reset_variables();
    assert_eq!(text(tree_value(&mut cfg, "${g}", 0, None, &vec![])), "global-g");
    assert_eq!(text(tree_value(&mut cfg, "${only}", 0, Some(0), &vec![])), "here");
    cfg.reset_variables();
    assert_eq!(text(value(&mut cfg, "${v}", &vec![])), "global");
}

#[test]
fn command_is_asked_for_then_answered() {
    let mut cfg = Configuration::new();
    assert_eq!(command(value(&mut cfg, "$ echo foo", &vec![])), "echo foo");
    let answers = vec![answer("echo foo", "foo\n")];
    assert_eq!(text(value(&mut cfg, "$ echo foo", &answers)), "foo");
    let spaced = vec![answer("echo foo", "  foo bar \t\r\n\n")];
    assert_eq!(text(value(&mut cfg, "$ echo foo", &spaced)), "  foo bar");
    let empty = vec![answer("false", "")];
    assert_eq!(text(value(&mut cfg, "$ false", &empty)), "");
}

#[test]
fn first_answer_to_a_command_counts() {
    let mut cfg = Configuration::new();
    let answers = vec![answer("other", "no"), answer("cmd", "one"), answer("cmd", "two")];
    assert_eq!(text(value(&mut cfg, "$ cmd", &answers)), "one");
}

#[test]
fn command_text_is_substituted() {
    let mut cfg = Configuration::new();
    cfg.variables.push(named("what", "foo"));
    assert_eq!(command(value(&mut cfg, "$ echo ${what}", &vec![])), "echo foo");
    cfg.variables.push(named("marker", "$"));
    assert_eq!(command(value(&mut cfg, "${marker} ls", &vec![])), "ls");
    // A value that holds a reference is expanded where it becomes a command.
    cfg.variables.push(NamedVariable::new(
        "late".to_string(),
        String::new(),
        Some("${what}!".to_string()),
    ));
    assert_eq!(text(value(&mut cfg, "say ${late}", &vec![])), "say ${what}!");
    assert_eq!(command(value(&mut cfg, "$ say ${late}", &vec![])), "say foo!");
}

#[test]
fn dollar_without_space_is_no_command() {
    let mut cfg = Configuration::new();
    assert_eq!(text(value(&mut cfg, "$echo", &vec![])), "$echo");
    assert_eq!(text(value(&mut cfg, " $ echo", &vec![])), " $ echo");
}

#[test]
fn variable_is_evaluated_once() {
    let mut cfg = Configuration::new();
    cfg.variables.push(named("now", "$ date"));
    assert_eq!(command(variable_value(&mut cfg, "now", None, None, &vec![])), "date");
    assert!(cfg.variables[0].get_value().is_none());
    let answers = vec![answer("date", "monday\n")];
    assert_eq!(text(variable_value(&mut cfg, "now", None, None, &answers)), "monday");
    assert_eq!(cfg.variables[0].get_value().unwrap(), "monday");
    // The second evaluation needs no answer: nothing is launched for it.
    assert_eq!(text(variable_value(&mut cfg, "now", None, None, &vec![])), "monday");
    assert_eq!(text(value(&mut cfg, "it is ${now}", &vec![])), "it is monday");
    cfg.reset_variables();
    assert_eq!(command(variable_value(&mut cfg, "now", None, None, &vec![])), "date");
}

#[test]
fn cached_value_is_returned_verbatim() {
    let mut cfg = Configuration::new();
    cfg.variables.push(NamedVariable::new(
        "v".to_string(),
        "${other}".to_string(),
        Some("${kept} as is".to_string()),
    ));
    assert_eq!(text(variable_value(&mut cfg, "v", None, None, &vec![])), "${kept} as is");
    assert_eq!(text(variable_value(&mut cfg, "none", None, None, &vec![])), "");
}

#[test]
fn environment_is_global_then_garden_then_tree() {
    let mut cfg = Configuration::new();
    cfg.variables.push(named("base", "/opt"));
    cfg.environment.push(MultiVariable::new(
        "PATH".to_string(),
        vec![
            Variable::new("${base}/bin".to_string(), None),
            Variable::new("/usr/bin".to_string(), None),
        ],
    ));
    let mut garden = Garden::default();
    garden.name = "gar".to_string();
    garden.environment.push(MultiVariable::new(
        "GARDEN".to_string(),
        vec![Variable::new("yes".to_string(), None)],
    ));
    cfg.gardens.push(garden);
    let mut t = tree("t", "t");
    t.variables.push(named("base", "/tree"));
    t.environment.push(MultiVariable::new(
        "HERE".to_string(),
        vec![Variable::new("${base}".to_string(), None)],
    ));
    cfg.trees.push(t);
    let with_garden = TreeContext::new(0, None, Some(0), None);
    let env = environment(&mut cfg, &with_garden, &vec![]).unwrap();
    assert_eq!(
        env,
        vec![
            ("PATH".to_string(), "/tree/bin".to_string()),
            ("PATH".to_string(), "/usr/bin".to_string()),
            ("GARDEN".to_string(), "yes".to_string()),
            ("HERE".to_string(), "/tree".to_string()),
        ]
    );
    let without = TreeContext::new(0, None, None, None);
    let env = environment(&mut cfg, &without, &vec![]).unwrap();
    assert_eq!(env.len(), 3);
    assert_eq!(env[2], ("HERE".to_string(), "/tree".to_string()));
}

#[test]
fn environment_asks_for_a_command() {
    let mut cfg = Configuration::new();
    cfg.environment.push(MultiVariable::new(
        "REV".to_string(),
        vec![Variable::new("$ git rev-parse HEAD".to_string(), None)],
    ));
    cfg.trees.push(tree("t", "t"));
    let ctx = TreeContext::new(0, None, None, None);
    assert_eq!(environment(&mut cfg, &ctx, &vec![]).unwrap_err(), "git rev-parse HEAD");
    let answers = vec![answer("git rev-parse HEAD", "abc123\n")];
    assert_eq!(
        environment(&mut cfg, &ctx, &answers).unwrap(),
        vec![("REV".to_string(), "abc123".to_string())]
    );
}

#[test]
fn texts_are_taken_apart_and_put_together() {
    let chars = chars_of("héllo");
    assert_eq!(chars, vec!['h', 'é', 'l', 'l', 'o']);
    assert_eq!(string_of(&chars, 1, 4), "éll");
    assert_eq!(string_of(&chars, 2, 2), "");
    assert_eq!(string_of(&chars, 0, 5), "héllo");
    assert!(str_eq("a", "a"));
    assert!(!str_eq("a", "b"));
    assert_eq!(copy_of("abc"), "abc");
    assert!(same_chars(&chars_of("ab"), &chars_of("ab")));
    assert!(!same_chars(&chars_of("ab"), &chars_of("ac")));
    assert!(!same_chars(&chars_of("ab"), &chars_of("abc")));
}

#[test]
fn references_close_at_the_first_brace() {
    assert_eq!(closing(&chars_of("${a}"), 0), Some(3));
    assert_eq!(closing(&chars_of("x${ab}y}"), 1), Some(5));
    assert_eq!(closing(&chars_of("${}"), 0), Some(2));
    assert_eq!(closing(&chars_of("${a"), 0), None);
    assert_eq!(closing(&chars_of("$a}"), 0), None);
    assert_eq!(closing(&chars_of("a${b}"), 0), None);
    assert_eq!(closing(&chars_of("$"), 0), None);
    assert_eq!(closing(&chars_of("${a}"), 4), None);
    assert_eq!(closing(&chars_of(""), 0), None);
}

#[test]
fn white_space_is_trimmed_at_the_end_only() {
    assert_eq!(trim_end(&chars_of("  a b \t\n")), chars_of("  a b"));
    assert_eq!(trim_end(&chars_of(" \n ")), chars_of(""));
    assert_eq!(trim_end(&chars_of("")), chars_of(""));
    assert_eq!(trim_end(&chars_of("a\u{a0}\u{2003}\u{3000}")), chars_of("a"));
    assert_eq!(trim_end(&chars_of("a\u{200b}")), chars_of("a\u{200b}"));
    for c in ['\t', '\n', '\u{b}', '\u{c}', '\r', ' ', '\u{85}', '\u{1680}', '\u{2028}'] {
        assert!(is_space(c));
    }
    for c in ['a', '0', '\u{8}', '\u{e}', '\u{200b}', '_'] {
        assert!(!is_space(c));
    }
    for code in 0u32..0x3100 {
        if let Some(c) = char::from_u32(code) {
            assert_eq!(is_space(c), c.is_whitespace());
        }
    }
}

#[test]
fn command_comes_to_its_answer() {
    let answers = vec![answer("a", "1\n"), answer("b", "2")];
    assert_eq!(finish(chars_of("b"), &answers), Ok(chars_of("2")));
    assert_eq!(finish(chars_of("a"), &answers), Ok(chars_of("1")));
    assert_eq!(finish(chars_of("c"), &answers), Err(chars_of("c")));
}

#[test]
fn names_are_looked_up_through_the_scopes() {
    let mut cfg = Configuration::new();
    cfg.variables.push(named("x", "global"));
    cfg.variables.push(named("y", "global"));
    cfg.variables.push(named("x", "again"));
    let mut garden = Garden::default();
    garden.variables.push(named("y", "garden"));
    cfg.gardens.push(garden);
    let mut t = tree("t", "t");
    t.variables.push(named("z", "tree"));
    cfg.trees.push(t);
    assert_eq!(find_named(&cfg.variables, "x"), 0);
    assert_eq!(find_named(&cfg.variables, "y"), 1);
    assert_eq!(find_named(&cfg.variables, "q"), 3);
    assert_eq!(lookup(&cfg, Some(0), Some(0), "z"), Some(Slot::Tree(0, 0)));
    assert_eq!(lookup(&cfg, Some(0), Some(0), "y"), Some(Slot::Garden(0, 0)));
    assert_eq!(lookup(&cfg, Some(0), Some(0), "x"), Some(Slot::Global(0)));
    assert_eq!(lookup(&cfg, Some(0), None, "y"), Some(Slot::Global(1)));
    assert_eq!(lookup(&cfg, Some(7), Some(7), "y"), Some(Slot::Global(1)));
    assert_eq!(lookup(&cfg, None, None, "z"), None);
}

#[test]
fn environment_entries_keep_names_and_expressions() {
    let mut cfg = Configuration::new();
    cfg.environment.push(MultiVariable::new(
        "A".to_string(),
        vec![Variable::new("1".to_string(), None), Variable::new("${x}".to_string(), None)],
    ));
    cfg.environment.push(MultiVariable::new("EMPTY".to_string(), vec![]));
    cfg.trees.push(tree("t", "t"));
    cfg.trees[0].environment.push(MultiVariable::new(
        "B".to_string(),
        vec![Variable::new("$ cmd".to_string(), None)],
    ));
    assert_eq!(
        environment_entries(&cfg, Some(0), None),
        vec![
            ("A".to_string(), "1".to_string()),
            ("A".to_string(), "${x}".to_string()),
            ("B".to_string(), "$ cmd".to_string()),
        ]
    );
    assert_eq!(environment_entries(&cfg, None, Some(3)).len(), 2);
}
