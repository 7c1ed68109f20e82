//! Bringing a configuration into use: its root and the paths of its trees are
//! resolved once, its gardens and groups are numbered, and its caches are
//! cleared and its built-in variables set for the first evaluation.

use vstd::prelude::*;
use vstd::string::*;

use crate::eval::{
    grown, lemma_grown_keeps_value, lemma_grown_transitive, lemma_overlaid_start,
    lemma_plain_value, named_grown, overlaid, spec_tree_value, spec_value, spec_value_from, value,
    value_from,
    Answer, Evaluated, Outcome, Slot,
};
use crate::expr::spec_is_literal;
use crate::model::{
    join_path, spec_join, Configuration, Garden, Group, NamedVariable, Tree, Variable,
};
use crate::syntax::spec_is_exec;
use crate::text::{copy_of, str_eq};

verus! {

/// `after` is `before` with `text` as its expression and as its cached value.
pub open spec fn is_builtin_set(after: NamedVariable, before: NamedVariable, text: Seq<char>) -> bool {
    &&& after.name == before.name
    &&& after.variable.expr@ == text
    &&& after.variable.value is Some
    &&& after.variable.value->0@ == text
}

/// The global variables after the built-in ones are set: a first variable
/// named `GARDEN_ROOT` holds the resolved root, if there is one; every other
/// variable is as before.
pub open spec fn global_builtins(
    after: Seq<NamedVariable>,
    before: Seq<NamedVariable>,
    root: Option<String>,
) -> bool {
    &&& after.len() == before.len()
    &&& forall|i: int|
        0 <= i < after.len() ==> if i == 0 && before[0].name@ == "GARDEN_ROOT"@ && root is Some {
            is_builtin_set(#[trigger] after[i], before[i], root->0@)
        } else {
            after[i] == before[i]
        }
}

/// A tree after its built-in variables are set. Where the tree has two
/// variables or more and a resolved path, a first variable named `TREE_NAME`
/// holds the name of the tree and a second named `TREE_PATH` holds its path.
/// Everything else is as before.
pub open spec fn tree_builtins(after: Tree, before: Tree) -> bool {
    let live = before.variables@.len() >= 2 && before.path.value is Some;
    &&& after == (Tree { variables: after.variables, ..before })
    &&& after.variables@.len() == before.variables@.len()
    &&& forall|i: int|
        0 <= i < after.variables@.len() ==> if live && i == 0 && before.variables@[0].name@
            == "TREE_NAME"@ {
            is_builtin_set(#[trigger] after.variables@[i], before.variables@[i], before.name@)
        } else if live && i == 1 && before.variables@[1].name@ == "TREE_PATH"@ {
            is_builtin_set(after.variables@[i], before.variables@[i], before.path.value->0@)
        } else {
            after.variables@[i] == before.variables@[i]
        }
}

/// `after` is `before` with the built-in variables set.
pub open spec fn builtins_applied(after: Configuration, before: Configuration) -> bool {
    &&& after == (Configuration { variables: after.variables, trees: after.trees, ..before })
    &&& global_builtins(after.variables@, before.variables@, before.root.value)
    &&& after.trees@.len() == before.trees@.len()
    &&& forall|i: int|
        0 <= i < after.trees@.len() ==> tree_builtins(#[trigger] after.trees@[i], before.trees@[i])
}

/// `after` is `before` with every garden and every group given its position as
/// its index.
pub open spec fn indexed(after: Configuration, before: Configuration) -> bool {
    &&& after == (Configuration { gardens: after.gardens, groups: after.groups, ..before })
    &&& after.gardens@.len() == before.gardens@.len()
    &&& forall|i: int|
        0 <= i < after.gardens@.len() ==> (#[trigger] after.gardens@[i]) == (Garden {
            index: i as usize,
            ..before.gardens@[i]
        })
    &&& after.groups@.len() == before.groups@.len()
    &&& forall|i: int|
        0 <= i < after.groups@.len() ==> (#[trigger] after.groups@[i]) == (Group {
            index: i as usize,
            ..before.groups@[i]
        })
}

/// `after` is `before` after a reset: every cache cleared but the root and the
/// paths of the trees, and then the built-in variables set.
pub open spec fn fresh(after: Configuration, before: Configuration) -> bool {
    exists|cleared: Configuration| #[trigger]
        cleared.is_reset_of(before) && builtins_applied(after, cleared)
}

/// What comes of evaluating the root and then the path of each of the first
/// `n` trees, and the symlink target of each that is a symlink, one after the
/// other, and the values cached by then: for each tree the value of its path
/// and of its symlink target; or, from the first expression that needs a
/// command without an answer, the request to launch that command.
pub open spec fn spec_tree_paths(cfg: Configuration, n: int, answers: Seq<Answer>) -> (
    Map<Slot, Seq<char>>,
    Result<Seq<(Seq<char>, Option<Seq<char>>)>, Seq<char>>,
)
    decreases n,
{
    if n <= 0 || n > cfg.trees@.len() {
        let root = spec_value_from(cfg, Map::empty(), cfg.root.expr@, answers);
        match root.1 {
            Outcome::Value(v) => (root.0, Ok(Seq::<(Seq<char>, Option<Seq<char>>)>::empty())),
            Outcome::Launch(c) => (root.0, Err(c)),
        }
    } else {
        let before = spec_tree_paths(cfg, n - 1, answers);
        match before.1 {
            Err(c) => before,
            Ok(values) => {
                let tree = cfg.trees@[n - 1];
                let path = spec_value_from(cfg, before.0, tree.path.expr@, answers);
                match path.1 {
                    Outcome::Launch(c) => (path.0, Err(c)),
                    Outcome::Value(v) => if tree.is_symlink {
                        let link = spec_value_from(cfg, path.0, tree.symlink.expr@, answers);
                        match link.1 {
                            Outcome::Launch(c) => (link.0, Err(c)),
                            Outcome::Value(w) => (link.0, Ok(values.push((v, Some(w))))),
                        }
                    } else {
                        (path.0, Ok(values.push((v, None))))
                    },
                }
            },
        }
    }
}

/// The value of the root of a configuration, where its evaluation comes to one.
pub open spec fn spec_root_path(cfg: Configuration, answers: Seq<Answer>) -> Seq<char> {
    match spec_value_from(cfg, Map::empty(), cfg.root.expr@, answers).1 {
        Outcome::Value(v) => v,
        Outcome::Launch(c) => Seq::<char>::empty(),
    }
}

/// Once an expression asks for a command, nothing after it is evaluated.
pub proof fn lemma_tree_paths_stop(cfg: Configuration, n: int, m: int, answers: Seq<Answer>)
    requires
        0 <= n <= m <= cfg.trees@.len(),
        spec_tree_paths(cfg, n, answers).1 is Err,
    ensures
        spec_tree_paths(cfg, m, answers) == spec_tree_paths(cfg, n, answers),
    decreases m - n,
{
    if n < m {
        lemma_tree_paths_stop(cfg, n, m - 1, answers);
    }
}

/// The paths of the trees of `after` are what the evaluation of the paths of
/// `before` comes to, each seen from the root directory.
pub open spec fn paths_are_exact(
    after: Configuration,
    before: Configuration,
    answers: Seq<Answer>,
) -> bool {
    let traced = spec_tree_paths(before, before.trees@.len() as int, answers);
    &&& traced.1 is Ok
    &&& traced.1->Ok_0.len() == before.trees@.len()
    &&& after.trees@.len() == before.trees@.len()
    &&& after.root_path@ == spec_root_path(before, answers)
    &&& forall|i: int|
        0 <= i < after.trees@.len() ==> {
            &&& (#[trigger] after.trees@[i]).path.value is Some
            &&& after.trees@[i].path.value->0@ == spec_join(
                after.root_path@,
                traced.1->Ok_0[i].0,
            )
            &&& before.trees@[i].is_symlink ==> traced.1->Ok_0[i].1 is Some
                && after.trees@[i].symlink.value is Some && after.trees@[i].symlink.value->0@
                == spec_join(after.root_path@, traced.1->Ok_0[i].1->0)
        }
}

/// `text` is what the path expression `expr` comes to, seen from `base`:
/// wherever the cached values of `cfg` and the answers decide the value of the
/// expression, it is that value seen from `base`.
pub open spec fn is_resolved_text(
    text: Seq<char>,
    expr: Seq<char>,
    base: Seq<char>,
    cfg: Configuration,
    answers: Seq<Answer>,
) -> bool {
    spec_value(cfg, None, None, expr, answers) matches Some(Outcome::Value(v)) ==> text
        == spec_join(base, v)
}

/// The path variable `value` is `before` with its value resolved against
/// `base`.
pub open spec fn is_path_value(
    value: Variable,
    before: Variable,
    base: Seq<char>,
    cfg: Configuration,
    answers: Seq<Answer>,
) -> bool {
    &&& value.expr == before.expr
    &&& value.value is Some
    &&& is_resolved_text(value.value->0@, before.expr@, base, cfg, answers)
}

/// A tree whose path, and symlink target if it is a symlink, are resolved
/// against the root directory `base`.
pub open spec fn tree_resolved(
    after: Tree,
    before: Tree,
    base: Seq<char>,
    cfg: Configuration,
    answers: Seq<Answer>,
) -> bool {
    &&& after == (Tree {
        path: after.path,
        symlink: after.symlink,
        variables: after.variables,
        ..before
    })
    &&& named_grown(after.variables@, before.variables@)
    &&& is_path_value(after.path, before.path, base, cfg, answers)
    &&& if before.is_symlink {
        is_path_value(after.symlink, before.symlink, base, cfg, answers)
    } else {
        after.symlink == before.symlink
    }
}

/// `after` is `before` with the root and the paths of all trees resolved:
/// the root directory is the value of the root expression, and each path is
/// its value seen from the root directory. Values cached on the way stay.
pub open spec fn paths_resolved(
    after: Configuration,
    before: Configuration,
    answers: Seq<Answer>,
) -> bool {
    &&& after == (Configuration {
        root: after.root,
        root_path: after.root_path,
        variables: after.variables,
        trees: after.trees,
        gardens: after.gardens,
        ..before
    })
    &&& paths_are_exact(after, before, answers)
    &&& after.root.expr == before.root.expr
    &&& after.root.value is Some
    &&& after.root.value->0@ == after.root_path@
    &&& spec_value(before, None, None, before.root.expr@, answers) matches Some(
        Outcome::Value(v),
    ) ==> after.root_path@ == v
    &&& named_grown(after.variables@, before.variables@)
    &&& after.gardens@.len() == before.gardens@.len()
    &&& forall|i: int|
        0 <= i < after.gardens@.len() ==> {
            &&& (#[trigger] after.gardens@[i]) == (Garden {
                variables: after.gardens@[i].variables,
                ..before.gardens@[i]
            })
            &&& named_grown(after.gardens@[i].variables@, before.gardens@[i].variables@)
        }
    &&& after.trees@.len() == before.trees@.len()
    &&& forall|i: int|
        0 <= i < after.trees@.len() ==> tree_resolved(
            #[trigger] after.trees@[i],
            before.trees@[i],
            after.root_path@,
            before,
            answers,
        )
}

/// `after` is `before` brought into use: paths resolved, then gardens and
/// groups numbered, then reset.
pub open spec fn initialized(
    after: Configuration,
    before: Configuration,
    answers: Seq<Answer>,
) -> bool {
    exists|resolved: Configuration, numbered: Configuration| #[trigger]
        paths_resolved(resolved, before, answers) && #[trigger] indexed(numbered, resolved) && fresh(
            after,
            numbered,
        )
}

/// What evaluating a path expression owes: the value that `spec_tree_value`
/// gives in the global scope, seen from `base`, or the request to launch that
/// it gives; with the values that it names cached. Caches only grow. Wherever the
/// cached values and the answers decide the outcome, the configuration is left
/// as it was, and the outcome is that value seen from `base`, or that request
/// to launch a command.
pub open spec fn path_evaluated(
    before: Configuration,
    after: Configuration,
    path: Seq<char>,
    base: Seq<char>,
    answers: Seq<Answer>,
    out: Evaluated,
) -> bool {
    &&& overlaid(after, before, spec_tree_value(before, None, None, path, answers).0)
    &&& match spec_tree_value(before, None, None, path, answers).1 {
        Outcome::Value(v) => out matches Evaluated::Value(text) && text@ == spec_join(base, v),
        Outcome::Launch(c) => out matches Evaluated::Launch(command) && command@ == c,
    }
    &&& grown(after, before)
    &&& match spec_value(before, None, None, path, answers) {
        Some(Outcome::Value(v)) => after == before && (out matches Evaluated::Value(text) && text@
            == spec_join(base, v)),
        Some(Outcome::Launch(c)) => after == before && (out matches Evaluated::Launch(command)
            && command@ == c),
        None => true,
    }
}

fn set_builtin(var: &mut NamedVariable, text: &str)
    ensures
        is_builtin_set(*final(var), *old(var), text@),
{
    var.set_expr(copy_of(text));
    var.set_value(copy_of(text));
}

impl Configuration {
    /// Evaluates a path expression and resolves the value against the root
    /// directory of the gardens.
    pub fn eval_tree_path(&mut self, path: &str, answers: &Vec<Answer>) -> (out: Evaluated)
        ensures
            path_evaluated(*old(self), *final(self), path@, old(self).root_path@, answers@, out),
    {
        match value(self, path, answers) {
            Evaluated::Value(text) => Evaluated::Value(self.tree_path(text.as_str())),
            Evaluated::Launch(command) => Evaluated::Launch(command),
        }
    }

    /// Evaluates a path expression and resolves the value against the directory
    /// of the configuration file.
    pub fn eval_config_path(&mut self, path: &str, answers: &Vec<Answer>) -> (out: Evaluated)
        ensures
            overlaid(
                *final(self),
                *old(self),
                spec_tree_value(*old(self), None, None, path@, answers@).0,
            ),
            match spec_tree_value(*old(self), None, None, path@, answers@).1 {
                Outcome::Value(v) => out matches Evaluated::Value(text) && text@ == old(
                    self,
                ).spec_config_path(v),
                Outcome::Launch(c) => out matches Evaluated::Launch(command) && command@ == c,
            },
            grown(*final(self), *old(self)),
            match spec_value(*old(self), None, None, path@, answers@) {
                Some(Outcome::Value(v)) => *final(self) == *old(self) && (out matches Evaluated::Value(
                    text,
                ) && text@ == old(self).spec_config_path(v)),
                Some(Outcome::Launch(c)) => *final(self) == *old(self) && (out matches Evaluated::Launch(
                    command,
                ) && command@ == c),
                None => true,
            },
    {
        match value(self, path, answers) {
            Evaluated::Value(text) => Evaluated::Value(self.config_path(text.as_str())),
            Evaluated::Launch(command) => Evaluated::Launch(command),
        }
    }

    /// Sets the built-in variables: the root of the gardens, and the name and
    /// path of each tree.
    pub fn reset_builtin_variables(&mut self)
        ensures
            builtins_applied(*final(self), *old(self)),
    {
        if self.variables.len() > 0 && str_eq(self.variables[0].name.as_str(), "GARDEN_ROOT") {
            let root = match self.root.get_value() {
                Some(value) => Some(copy_of(value.as_str())),
                None => None,
            };
            if let Some(text) = root {
                set_builtin(&mut self.variables[0], text.as_str());
            }
        }
        let n: usize = self.trees.len();
        let mut i: usize = 0;
        while i < n
            invariant
                i <= n,
                n == self.trees@.len(),
                n == old(self).trees@.len(),
                *self == (Configuration {
                    variables: self.variables,
                    trees: self.trees,
                    ..*old(self)
                }),
                global_builtins(self.variables@, old(self).variables@, old(self).root.value),
                forall|k: int|
                    0 <= k < i ==> tree_builtins(#[trigger] self.trees@[k], old(self).trees@[k]),
                forall|k: int| i <= k < n ==> (#[trigger] self.trees@[k]) == old(self).trees@[k],
            decreases n - i,
        {
            let ghost before = self.trees@[i as int];
            if self.trees[i].variables.len() >= 2 {
                let path = match self.trees[i].path.get_value() {
                    Some(value) => Some(copy_of(value.as_str())),
                    None => None,
                };
                if let Some(tree_path) = path {
                    let tree_name = copy_of(self.trees[i].name.as_str());
                    if str_eq(self.trees[i].variables[0].name.as_str(), "TREE_NAME") {
                        set_builtin(&mut self.trees[i].variables[0], tree_name.as_str());
                    }
                    if str_eq(self.trees[i].variables[1].name.as_str(), "TREE_PATH") {
                        set_builtin(&mut self.trees[i].variables[1], tree_path.as_str());
                    }
                }
            }
            assert(tree_builtins(self.trees@[i as int], before));
            i = i + 1;
        }
    }

    /// Clears every cached value but the root and the paths of the trees, and
    /// sets the built-in variables, so that nothing evaluated for one tree or
    /// garden is seen by the next.
    pub fn reset(&mut self)
        ensures
            fresh(*final(self), *old(self)),
    {
        self.reset_variables();
        let ghost cleared = *self;
        self.reset_builtin_variables();
        assert(cleared.is_reset_of(*old(self)) && builtins_applied(*self, cleared));
    }

    /// Gives every garden and every group its position as its index.
    pub fn update_indexes(&mut self)
        ensures
            indexed(*final(self), *old(self)),
    {
        let n: usize = self.groups.len();
        let mut i: usize = 0;
        while i < n
            invariant
                i <= n,
                n == self.groups@.len(),
                n == old(self).groups@.len(),
                *self == (Configuration { groups: self.groups, ..*old(self) }),
                forall|k: int|
                    0 <= k < i ==> (#[trigger] self.groups@[k]) == (Group {
                        index: k as usize,
                        ..old(self).groups@[k]
                    }),
                forall|k: int| i <= k < n ==> (#[trigger] self.groups@[k]) == old(self).groups@[k],
            decreases n - i,
        {
            self.groups[i].index = i;
            i = i + 1;
        }
        let m: usize = self.gardens.len();
        let mut j: usize = 0;
        while j < m
            invariant
                j <= m,
                m == self.gardens@.len(),
                m == old(self).gardens@.len(),
                *self == (Configuration {
                    gardens: self.gardens,
                    groups: self.groups,
                    ..*old(self)
                }),
                self.groups@.len() == old(self).groups@.len(),
                forall|k: int|
                    0 <= k < self.groups@.len() ==> (#[trigger] self.groups@[k]) == (Group {
                        index: k as usize,
                        ..old(self).groups@[k]
                    }),
                forall|k: int|
                    0 <= k < j ==> (#[trigger] self.gardens@[k]) == (Garden {
                        index: k as usize,
                        ..old(self).gardens@[k]
                    }),
                forall|k: int|
                    j <= k < m ==> (#[trigger] self.gardens@[k]) == old(self).gardens@[k],
            decreases m - j,
        {
            self.gardens[j].index = j;
            j = j + 1;
        }
    }
}


impl Configuration {
    /// Brings the configuration into use: resolves the root and the path of
    /// every tree, numbers the gardens and groups, and resets.
    ///
    /// Where a value on the way is the output of a command without an answer,
    /// the command is returned and only caches have changed: the caller runs
    /// it, adds the answer, and calls again.
    pub fn initialize(&mut self, answers: &Vec<Answer>) -> (launch: Option<String>)
        ensures
            match launch {
                Some(_) => grown(*final(self), *old(self)),
                None => initialized(*final(self), *old(self), answers@),
            },
            match spec_tree_paths(*old(self), old(self).trees@.len() as int, answers@).1 {
                Err(command) => launch is Some && launch->0@ == command && overlaid(
                    *final(self),
                    *old(self),
                    spec_tree_paths(*old(self), old(self).trees@.len() as int, answers@).0,
                ),
                Ok(values) => launch is None,
            },
    {
        proof {
            lemma_overlaid_start(*self);
        }
        let ghost mut now: Map<Slot, Seq<char>> = Map::empty();
        let ghost mut values: Seq<(Seq<char>, Option<Seq<char>>)> = Seq::empty();
        let root_expr = copy_of(self.root.expr.as_str());
        proof {
            now = spec_value_from(*old(self), Map::empty(), root_expr@, answers@).0;
        }
        let root_value = match value_from(
            self,
            root_expr.as_str(),
            answers,
            Ghost(*old(self)),
            Ghost(Map::empty()),
        ) {
            Evaluated::Value(text) => text,
            Evaluated::Launch(command) => {
                proof {
                    lemma_tree_paths_stop(*old(self), 0, old(self).trees@.len() as int, answers@);
                }
                return Some(command);
            },
        };
        let n: usize = self.trees.len();
        let mut paths: Vec<String> = Vec::new();
        let mut links: Vec<Option<String>> = Vec::new();
        let mut i: usize = 0;
        while i < n
            invariant
                i <= n,
                n == self.trees@.len(),
                grown(*self, *old(self)),
                overlaid(*self, *old(self), now),
                spec_tree_paths(*old(self), i as int, answers@) == (
                    now,
                    Ok::<Seq<(Seq<char>, Option<Seq<char>>)>, Seq<char>>(values),
                ),
                values.len() == i,
                root_value@ == spec_root_path(*old(self), answers@),
                forall|k: int|
                    0 <= k < i ==> (#[trigger] paths@[k])@ == spec_join(root_value@, values[k].0),
                forall|k: int|
                    0 <= k < i && old(self).trees@[k].is_symlink ==> values[k].1 is Some && (
                    #[trigger] links@[k]) is Some && links@[k]->0@ == spec_join(
                        root_value@,
                        values[k].1->0,
                    ),
                paths@.len() == i,
                links@.len() == i,
                spec_value(*old(self), None, None, old(self).root.expr@, answers@) matches Some(
                    Outcome::Value(v),
                ) ==> root_value@ == v,
                forall|k: int|
                    0 <= k < i ==> is_resolved_text(
                        (#[trigger] paths@[k])@,
                        old(self).trees@[k].path.expr@,
                        root_value@,
                        *old(self),
                        answers@,
                    ),
                forall|k: int|
                    0 <= k < i ==> ((#[trigger] links@[k]) is Some) == old(
                        self,
                    ).trees@[k].is_symlink,
                forall|k: int|
                    0 <= k < i && links@[k] is Some ==> is_resolved_text(
                        (#[trigger] links@[k])->0@,
                        old(self).trees@[k].symlink.expr@,
                        root_value@,
                        *old(self),
                        answers@,
                    ),
            decreases n - i,
        {
            let ghost mid = *self;
            assert(self.trees@[i as int] == (Tree {
                variables: self.trees@[i as int].variables,
                ..old(self).trees@[i as int]
            }));
            let expr = copy_of(self.trees[i].path.expr.as_str());
            proof {
                if spec_value(*old(self), None, None, expr@, answers@) is Some {
                    lemma_grown_keeps_value(mid, *old(self), None, None, expr@, answers@);
                }
            }
            let ghost traced_path = spec_value_from(*old(self), now, expr@, answers@);
            let ghost mut path_value: Seq<char> = Seq::empty();
            let path = match value_from(self, expr.as_str(), answers, Ghost(*old(self)), Ghost(now)) {
                Evaluated::Value(text) => {
                    proof {
                        path_value = text@;
                    }
                    join_path(root_value.as_str(), text.as_str())
                },
                Evaluated::Launch(command) => {
                    proof {
                        lemma_grown_transitive(*self, mid, *old(self));
                        lemma_tree_paths_stop(
                            *old(self),
                            i + 1,
                            old(self).trees@.len() as int,
                            answers@,
                        );
                    }
                    return Some(command);
                },
            };
            proof {
                now = traced_path.0;
            }
            proof {
                lemma_grown_transitive(*self, mid, *old(self));
            }
            let ghost mid2 = *self;
            assert(self.trees@[i as int] == (Tree {
                variables: self.trees@[i as int].variables,
                ..old(self).trees@[i as int]
            }));
            let mut link: Option<String> = None;
            if self.trees[i].is_symlink {
                let target = copy_of(self.trees[i].symlink.expr.as_str());
                proof {
                    if spec_value(*old(self), None, None, target@, answers@) is Some {
                        lemma_grown_keeps_value(mid2, *old(self), None, None, target@, answers@);
                    }
                }
                let ghost traced_link = spec_value_from(*old(self), now, target@, answers@);
                match value_from(self, target.as_str(), answers, Ghost(*old(self)), Ghost(now)) {
                    Evaluated::Value(text) => {
                        proof {
                            values = values.push((path_value, Some(text@)));
                        }
                        link = Some(join_path(root_value.as_str(), text.as_str()));
                    },
                    Evaluated::Launch(command) => {
                        proof {
                            lemma_grown_transitive(*self, mid2, *old(self));
                            lemma_tree_paths_stop(
                                *old(self),
                                i + 1,
                                old(self).trees@.len() as int,
                                answers@,
                            );
                        }
                        return Some(command);
                    },
                }
                proof {
                    lemma_grown_transitive(*self, mid2, *old(self));
                    now = traced_link.0;
                }
            } else {
                proof {
                    values = values.push((path_value, None));
                }
            }
            paths.push(path);
            links.push(link);
            i = i + 1;
        }
        let ghost staged = *self;
        self.root_path = copy_of(root_value.as_str());
        self.root.set_value(root_value);
        let mut j: usize = 0;
        while j < n
            invariant
                j <= n,
                n == self.trees@.len(),
                n == staged.trees@.len(),
                n == paths@.len(),
                n == links@.len(),
                n == old(self).trees@.len(),
                spec_tree_paths(*old(self), n as int, answers@).1 == Ok::<
                    Seq<(Seq<char>, Option<Seq<char>>)>,
                    Seq<char>,
                >(values),
                values.len() == n,
                self.root_path@ == spec_root_path(*old(self), answers@),
                forall|k: int|
                    0 <= k < n ==> (#[trigger] paths@[k])@ == spec_join(
                        self.root_path@,
                        values[k].0,
                    ),
                forall|k: int|
                    0 <= k < n && old(self).trees@[k].is_symlink ==> values[k].1 is Some && (
                    #[trigger] links@[k]) is Some && links@[k]->0@ == spec_join(
                        self.root_path@,
                        values[k].1->0,
                    ),
                forall|k: int|
                    0 <= k < j ==> (#[trigger] self.trees@[k]).path.value is Some
                        && self.trees@[k].path.value->0@ == spec_join(
                        self.root_path@,
                        values[k].0,
                    ) && (old(self).trees@[k].is_symlink ==> self.trees@[k].symlink.value is Some
                        && self.trees@[k].symlink.value->0@ == spec_join(
                        self.root_path@,
                        values[k].1->0,
                    )),
                grown(staged, *old(self)),
                *self == (Configuration {
                    root: self.root,
                    root_path: self.root_path,
                    trees: self.trees,
                    ..staged
                }),
                self.root.expr == old(self).root.expr,
                self.root.value is Some,
                self.root.value->0@ == self.root_path@,
                spec_value(*old(self), None, None, old(self).root.expr@, answers@) matches Some(
                    Outcome::Value(v),
                ) ==> self.root_path@ == v,
                forall|k: int|
                    0 <= k < n ==> is_resolved_text(
                        (#[trigger] paths@[k])@,
                        old(self).trees@[k].path.expr@,
                        self.root_path@,
                        *old(self),
                        answers@,
                    ),
                forall|k: int|
                    0 <= k < n ==> ((#[trigger] links@[k]) is Some) == old(
                        self,
                    ).trees@[k].is_symlink,
                forall|k: int|
                    0 <= k < n && links@[k] is Some ==> is_resolved_text(
                        (#[trigger] links@[k])->0@,
                        old(self).trees@[k].symlink.expr@,
                        self.root_path@,
                        *old(self),
                        answers@,
                    ),
                forall|k: int|
                    0 <= k < j ==> tree_resolved(
                        #[trigger] self.trees@[k],
                        old(self).trees@[k],
                        self.root_path@,
                        *old(self),
                        answers@,
                    ),
                forall|k: int| j <= k < n ==> (#[trigger] self.trees@[k]) == staged.trees@[k],
            decreases n - j,
        {
            assert(staged.trees@[j as int] == (Tree {
                variables: staged.trees@[j as int].variables,
                ..old(self).trees@[j as int]
            }));
            assert(named_grown(
                staged.trees@[j as int].variables@,
                old(self).trees@[j as int].variables@,
            ));
            let path = copy_of(paths[j].as_str());
            self.trees[j].path.set_value(path);
            let link = match &links[j] {
                Some(target) => Some(copy_of(target.as_str())),
                None => None,
            };
            if let Some(target) = link {
                self.trees[j].symlink.set_value(target);
            }
            assert(tree_resolved(
                self.trees@[j as int],
                old(self).trees@[j as int],
                self.root_path@,
                *old(self),
                answers@,
            ));
            j = j + 1;
        }
        let ghost resolved = *self;
        proof {
            let traced = spec_tree_paths(*old(self), old(self).trees@.len() as int, answers@);
            assert(traced.1 is Ok);
            assert(traced.1->Ok_0.len() == old(self).trees@.len());
            assert(resolved.root_path@ == spec_root_path(*old(self), answers@));
            assert forall|i: int| 0 <= i < resolved.trees@.len() implies {
                &&& (#[trigger] resolved.trees@[i]).path.value is Some
                &&& resolved.trees@[i].path.value->0@ == spec_join(
                    resolved.root_path@,
                    traced.1->Ok_0[i].0,
                )
                &&& old(self).trees@[i].is_symlink ==> traced.1->Ok_0[i].1 is Some
                    && resolved.trees@[i].symlink.value is Some
                    && resolved.trees@[i].symlink.value->0@ == spec_join(
                    resolved.root_path@,
                    traced.1->Ok_0[i].1->0,
                )
            } by {
                assert(links@[i] is Some == old(self).trees@[i].is_symlink);
            }
            assert(paths_are_exact(resolved, *old(self), answers@));
        }
        assert(paths_resolved(resolved, *old(self), answers@));
        self.update_indexes();
        let ghost numbered = *self;
        self.reset();
        assert(paths_resolved(resolved, *old(self), answers@) && indexed(numbered, resolved) && fresh(
            *self,
            numbered,
        ));
        None
    }
}

/// After a configuration is brought into use, the root directory is the value
/// of the root, and the path of each tree is resolved: it is the value of its
/// expression seen from the root directory. Wherever the cached values and the answers decide the value of its
/// expression, the path is that value seen from the root directory. So the path
/// of a tree whose expression holds no reference and is no command is that
/// expression itself where it is absolute, and the expression below the root
/// directory where it is relative.
pub proof fn lemma_initialized_paths(
    after: Configuration,
    before: Configuration,
    answers: Seq<Answer>,
    i: int,
)
    requires
        initialized(after, before, answers),
        0 <= i < before.trees@.len(),
    ensures
        after.trees@.len() == before.trees@.len(),
        after.trees@[i].name == before.trees@[i].name,
        after.trees@[i].path.value is Some,
        is_resolved_text(
            after.trees@[i].path.value->0@,
            before.trees@[i].path.expr@,
            after.root_path@,
            before,
            answers,
        ),
        spec_is_literal(before.trees@[i].path.expr@) && !spec_is_exec(
            before.trees@[i].path.expr@,
        ) ==> after.trees@[i].path.value->0@ == spec_join(
            after.root_path@,
            before.trees@[i].path.expr@,
        ),
        spec_is_literal(before.root.expr@) && !spec_is_exec(before.root.expr@) ==> after.root_path@
            == before.root.expr@,
        spec_tree_paths(before, before.trees@.len() as int, answers).1 is Ok,
        after.root_path@ == spec_root_path(before, answers),
        after.trees@[i].path.value->0@ == spec_join(
            after.root_path@,
            spec_tree_paths(before, before.trees@.len() as int, answers).1->Ok_0[i].0,
        ),
{
    let (resolved, numbered) = choose|resolved: Configuration, numbered: Configuration| #[trigger]
        paths_resolved(resolved, before, answers) && #[trigger] indexed(numbered, resolved)
            && fresh(after, numbered);
    let cleared = choose|cleared: Configuration| #[trigger]
        cleared.is_reset_of(numbered) && builtins_applied(after, cleared);
    assert(tree_resolved(
        resolved.trees@[i],
        before.trees@[i],
        resolved.root_path@,
        before,
        answers,
    ));
    assert(cleared.trees@[i].is_reset_of(numbered.trees@[i]));
    assert(tree_builtins(after.trees@[i], cleared.trees@[i]));
    if spec_is_literal(before.trees@[i].path.expr@) && !spec_is_exec(before.trees@[i].path.expr@) {
        lemma_plain_value(before, None, None, before.trees@[i].path.expr@, answers);
    }
    if spec_is_literal(before.root.expr@) && !spec_is_exec(before.root.expr@) {
        lemma_plain_value(before, None, None, before.root.expr@, answers);
    }
}

/// Once a configuration is in use, a reset leaves the path of every tree as it
/// is: paths are resolved once.
pub proof fn lemma_reset_keeps_paths(after: Configuration, before: Configuration, i: int)
    requires
        fresh(after, before),
        0 <= i < before.trees@.len(),
    ensures
        after.trees@.len() == before.trees@.len(),
        after.trees@[i].path == before.trees@[i].path,
        after.trees@[i].name == before.trees@[i].name,
        after.root == before.root,
        after.root_path == before.root_path,
{
    let cleared = choose|cleared: Configuration| #[trigger]
        cleared.is_reset_of(before) && builtins_applied(after, cleared);
    assert(cleared.trees@[i].is_reset_of(before.trees@[i]));
    assert(tree_builtins(after.trees@[i], cleared.trees@[i]));
}

} // verus!
