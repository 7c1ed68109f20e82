//! The data model: variables, trees, templates, groups, gardens, grafts, the
//! configuration that holds them, and the contexts and queries that select
//! trees.

use vstd::prelude::*;
use vstd::string::*;

use crate::errors::GardenError;
use crate::pattern::{glob_compiles, is_valid};
use crate::syntax::{is_garden, is_group, is_tree, spec_is_garden, spec_is_group, spec_is_tree, spec_trim, trim};
use crate::text::{chars_of, copy_of, str_eq, string_of};

verus! {

/// Index of a tree in `Configuration::trees`.
pub type TreeIndex = usize;

/// Index of a group in `Configuration::groups`.
pub type GroupIndex = usize;

/// Index of a garden in `Configuration::gardens`.
pub type GardenIndex = usize;

/// Handle of a configuration in the forest of an `ApplicationContext`.
pub type ConfigId = usize;

/// An expression and, once it has been evaluated, its value.
///
/// An expression is plain text with `${name}` references to other variables. One
/// that begins with `$ ` names a command whose output is the value.
#[derive(Clone, Debug)]
pub struct Variable {
    pub expr: String,
    pub value: Option<String>,
}

impl Default for Variable {
    fn default() -> (v: Self)
        ensures
            v.expr@.len() == 0,
            v.value is None,
    {
        Variable { expr: String::new(), value: None }
    }
}

impl Variable {
    pub fn new(expr: String, value: Option<String>) -> (v: Self)
        ensures
            v.expr == expr,
            v.value == value,
    {
        Variable { expr, value }
    }

    pub fn get_expr(&self) -> (expr: &String)
        ensures
            *expr == self.expr,
    {
        &self.expr
    }

    pub fn get_expr_mut(&mut self) -> (expr: &mut String)
        ensures
            *expr == old(self).expr,
            final(self).expr == *final(expr),
            final(self).value == old(self).value,
    {
        &mut self.expr
    }

    pub fn set_expr(&mut self, expr: String)
        ensures
            final(self).expr == expr,
            final(self).value == old(self).value,
    {
        self.expr = expr;
    }

    /// Stores `value` as the cached value.
    pub fn set_value(&mut self, value: String)
        ensures
            final(self).expr == old(self).expr,
            final(self).value == Some(value),
    {
        self.value = Some(value);
    }

    /// The cached value, if the variable has been evaluated since the last reset.
    pub fn get_value(&self) -> (value: Option<&String>)
        ensures
            match value {
                Some(v) => self.value == Some(*v),
                None => self.value is None,
            },
    {
        match &self.value {
            Some(v) => Some(v),
            None => None,
        }
    }

    /// Forgets the cached value.
    pub fn reset(&mut self)
        ensures
            final(self).expr == old(self).expr,
            final(self).value is None,
    {
        self.value = None;
    }
}

/// A variable bound to a name.
#[derive(Clone, Debug)]
pub struct NamedVariable {
    pub name: String,
    pub variable: Variable,
}

impl NamedVariable {
    pub fn new(name: String, expr: String, value: Option<String>) -> (v: Self)
        ensures
            v.name == name,
            v.variable.expr == expr,
            v.variable.value == value,
    {
        NamedVariable { name, variable: Variable::new(expr, value) }
    }

    pub fn get_name(&self) -> (name: &String)
        ensures
            *name == self.name,
    {
        &self.name
    }

    pub fn get_expr(&self) -> (expr: &String)
        ensures
            *expr == self.variable.expr,
    {
        self.variable.get_expr()
    }

    pub fn set_expr(&mut self, expr: String)
        ensures
            final(self).name == old(self).name,
            final(self).variable.expr == expr,
            final(self).variable.value == old(self).variable.value,
    {
        self.variable.set_expr(expr);
    }

    pub fn set_value(&mut self, value: String)
        ensures
            final(self).name == old(self).name,
            final(self).variable.expr == old(self).variable.expr,
            final(self).variable.value == Some(value),
    {
        self.variable.set_value(value);
    }

    pub fn get_value(&self) -> (value: Option<&String>)
        ensures
            match value {
                Some(v) => self.variable.value == Some(*v),
                None => self.variable.value is None,
            },
    {
        self.variable.get_value()
    }

    pub fn reset(&mut self)
        ensures
            final(self).name == old(self).name,
            final(self).variable.expr == old(self).variable.expr,
            final(self).variable.value is None,
    {
        self.variable.reset();
    }
}

/// A name bound to a sequence of variables.
#[derive(Clone, Debug)]
pub struct MultiVariable {
    pub name: String,
    pub variables: Vec<Variable>,
}

impl MultiVariable {
    /// Nothing is cached in any entry.
    pub open spec fn is_reset(self) -> bool {
        forall|i: int| 0 <= i < self.variables@.len() ==> (#[trigger] self.variables@[i]).value is None
    }

    /// The entries of `self` and `other` hold the same expressions.
    pub open spec fn same_exprs(self, other: Self) -> bool {
        &&& self.name == other.name
        &&& self.variables@.len() == other.variables@.len()
        &&& forall|i: int|
            0 <= i < self.variables@.len() ==> (#[trigger] self.variables@[i]).expr
                == other.variables@[i].expr
    }

    pub fn new(name: String, variables: Vec<Variable>) -> (v: Self)
        ensures
            v.name == name,
            v.variables == variables,
    {
        MultiVariable { name, variables }
    }

    pub fn get(&self, idx: usize) -> (v: &Variable)
        requires
            idx < self.variables@.len(),
        ensures
            *v == self.variables@[idx as int],
    {
        &self.variables[idx]
    }

    pub fn get_name(&self) -> (name: &String)
        ensures
            *name == self.name,
    {
        &self.name
    }

    pub fn len(&self) -> (n: usize)
        ensures
            n == self.variables@.len(),
    {
        self.variables.len()
    }

    pub fn is_empty(&self) -> (empty: bool)
        ensures
            empty == (self.variables@.len() == 0),
    {
        self.variables.len() == 0
    }

    /// Forgets the cached value of every entry.
    pub fn reset(&mut self)
        ensures
            final(self).same_exprs(*old(self)),
            final(self).is_reset(),
    {
        let n: usize = self.variables.len();
        let mut i: usize = 0;
        while i < n
            invariant
                i <= n,
                n == self.variables@.len(),
                self.name == old(self).name,
                self.variables@.len() == old(self).variables@.len(),
                forall|k: int|
                    0 <= k < n ==> (#[trigger] self.variables@[k]).expr == old(
                        self,
                    ).variables@[k].expr,
                forall|k: int| 0 <= k < i ==> (#[trigger] self.variables@[k]).value is None,
            decreases n - i,
        {
            self.variables[i].reset();
            i = i + 1;
        }
    }

    /// The entries, in order.
    pub fn iter(&self) -> (entries: &Vec<Variable>)
        ensures
            *entries == self.variables,
    {
        &self.variables
    }
}

/// Nothing is cached in any variable of `vars`.
pub open spec fn named_reset(vars: Seq<NamedVariable>) -> bool {
    forall|i: int| 0 <= i < vars.len() ==> (#[trigger] vars[i]).variable.value is None
}

/// `a` and `b` hold the same names and expressions, in the same order.
pub open spec fn named_same_exprs(a: Seq<NamedVariable>, b: Seq<NamedVariable>) -> bool {
    &&& a.len() == b.len()
    &&& forall|i: int|
        0 <= i < a.len() ==> (#[trigger] a[i]).name == b[i].name && a[i].variable.expr
            == b[i].variable.expr
}

/// Nothing is cached in any entry of any of `vars`.
pub open spec fn multi_reset(vars: Seq<MultiVariable>) -> bool {
    forall|i: int| 0 <= i < vars.len() ==> (#[trigger] vars[i]).is_reset()
}

/// `a` and `b` hold the same names and expressions, in the same order.
pub open spec fn multi_same_exprs(a: Seq<MultiVariable>, b: Seq<MultiVariable>) -> bool {
    &&& a.len() == b.len()
    &&& forall|i: int| 0 <= i < a.len() ==> (#[trigger] a[i]).same_exprs(b[i])
}

/// Forgets the cached value of every variable of `vars`.
pub fn reset_named(vars: &mut Vec<NamedVariable>)
    ensures
        named_same_exprs(final(vars)@, old(vars)@),
        named_reset(final(vars)@),
{
    let n: usize = vars.len();
    let mut i: usize = 0;
    while i < n
        invariant
            i <= n,
            n == vars@.len(),
            named_same_exprs(vars@, old(vars)@),
            forall|k: int| 0 <= k < i ==> (#[trigger] vars@[k]).variable.value is None,
        decreases n - i,
    {
        vars[i].reset();
        i = i + 1;
    }
}

/// Forgets the cached value of every entry of every variable of `vars`.
pub fn reset_multi(vars: &mut Vec<MultiVariable>)
    ensures
        multi_same_exprs(final(vars)@, old(vars)@),
        multi_reset(final(vars)@),
{
    let n: usize = vars.len();
    let mut i: usize = 0;
    while i < n
        invariant
            i <= n,
            n == vars@.len(),
            multi_same_exprs(vars@, old(vars)@),
            forall|k: int| 0 <= k < i ==> (#[trigger] vars@[k]).is_reset(),
        decreases n - i,
    {
        vars[i].reset();
        i = i + 1;
    }
}


/// One working tree.
#[derive(Clone, Debug)]
pub struct Tree {
    pub commands: Vec<MultiVariable>,
    pub environment: Vec<MultiVariable>,
    pub gitconfig: Vec<NamedVariable>,
    pub is_symlink: bool,
    pub remotes: Vec<NamedVariable>,
    pub symlink: Variable,
    pub templates: Vec<String>,
    pub variables: Vec<NamedVariable>,
    pub clone_depth: i64,
    pub name: String,
    pub path: Variable,
}

impl Default for Tree {
    fn default() -> (t: Self)
        ensures
            t.name@.len() == 0,
            t.path.value is None,
            t.symlink.value is None,
            !t.is_symlink,
            t.variables@.len() == 0,
            t.environment@.len() == 0,
            t.commands@.len() == 0,
            t.gitconfig@.len() == 0,
            t.remotes@.len() == 0,
            t.templates@.len() == 0,
            t.clone_depth == 0,
    {
        Tree {
            commands: Vec::new(),
            environment: Vec::new(),
            gitconfig: Vec::new(),
            is_symlink: false,
            remotes: Vec::new(),
            symlink: Variable::default(),
            templates: Vec::new(),
            variables: Vec::new(),
            clone_depth: 0,
            name: String::new(),
            path: Variable::default(),
        }
    }
}

impl Tree {
    /// `self` is `before` with the caches of its variables, git configuration,
    /// environment and commands cleared. The name, the path and its value, the
    /// symlink target and the remotes are those of `before`.
    pub open spec fn is_reset_of(self, before: Tree) -> bool {
        &&& self == (Tree {
            variables: self.variables,
            gitconfig: self.gitconfig,
            environment: self.environment,
            commands: self.commands,
            ..before
        })
        &&& named_same_exprs(self.variables@, before.variables@)
        &&& named_reset(self.variables@)
        &&& named_same_exprs(self.gitconfig@, before.gitconfig@)
        &&& named_reset(self.gitconfig@)
        &&& multi_same_exprs(self.environment@, before.environment@)
        &&& multi_reset(self.environment@)
        &&& multi_same_exprs(self.commands@, before.commands@)
        &&& multi_reset(self.commands@)
    }

    pub fn get_name(&self) -> (name: &String)
        ensures
            *name == self.name,
    {
        &self.name
    }

    pub fn get_name_mut(&mut self) -> (name: &mut String)
        ensures
            *name == old(self).name,
            *final(self) == (Tree { name: *final(name), ..*old(self) }),
    {
        &mut self.name
    }

    pub fn get_path(&self) -> (path: &Variable)
        ensures
            *path == self.path,
    {
        &self.path
    }

    pub fn get_path_mut(&mut self) -> (path: &mut Variable)
        ensures
            *path == old(self).path,
            *final(self) == (Tree { path: *final(path), ..*old(self) }),
    {
        &mut self.path
    }

    /// Whether the path has been resolved.
    pub fn path_is_valid(&self) -> (valid: bool)
        ensures
            valid == self.path.value is Some,
    {
        self.path.get_value().is_some()
    }

    /// The resolved path, or a configuration error while it is unset.
    pub fn path_as_ref(&self) -> (res: Result<&String, GardenError>)
        ensures
            match res {
                Ok(p) => self.path.value == Some(*p),
                Err(e) => self.path.value is None && (e matches GardenError::ConfigurationError(m)
                    && m@ == spec_unset_path_message(self.name@)),
            },
    {
        match self.path.get_value() {
            Some(value) => Ok(value),
            None => Err(GardenError::ConfigurationError(unset_path_message(&self.name))),
        }
    }

    /// The resolved symlink target, or a configuration error while it is unset.
    pub fn symlink_as_ref(&self) -> (res: Result<&String, GardenError>)
        ensures
            match res {
                Ok(p) => self.symlink.value == Some(*p),
                Err(e) => self.symlink.value is None && (e matches GardenError::ConfigurationError(
                    m,
                ) && m@ == spec_unset_path_message(self.name@)),
            },
    {
        match self.symlink.get_value() {
            Some(value) => Ok(value),
            None => Err(GardenError::ConfigurationError(unset_path_message(&self.name))),
        }
    }

    /// Clears every cached value of the tree but the path and the symlink target,
    /// which are resolved once and kept.
    pub fn reset_variables(&mut self)
        ensures
            final(self).is_reset_of(*old(self)),
    {
        reset_named(&mut self.variables);
        reset_named(&mut self.gitconfig);
        reset_multi(&mut self.environment);
        reset_multi(&mut self.commands);
    }
}

/// The text of the error for a tree whose path is unset.
pub open spec fn spec_unset_path_message(name: Seq<char>) -> Seq<char> {
    "unset tree path for "@ + name
}

fn unset_path_message(name: &String) -> (msg: String)
    ensures
        msg@ == spec_unset_path_message(name@),
{
    let mut msg = String::from_str("unset tree path for ");
    msg.append(name.as_str());
    msg
}

/// A named, ordered list of member names.
#[derive(Clone, Debug)]
pub struct Group {
    pub name: String,
    pub index: GroupIndex,
    pub members: Vec<String>,
}

impl Default for Group {
    fn default() -> (g: Self)
        ensures
            g.name@.len() == 0,
            g.index == 0,
            g.members@.len() == 0,
    {
        Group { name: String::new(), index: 0, members: Vec::new() }
    }
}

impl Group {
    pub fn get_name(&self) -> (name: &String)
        ensures
            *name == self.name,
    {
        &self.name
    }

    pub fn get_name_mut(&mut self) -> (name: &mut String)
        ensures
            *name == old(self).name,
            *final(self) == (Group { name: *final(name), ..*old(self) }),
    {
        &mut self.name
    }

    pub fn get_index(&self) -> (index: GroupIndex)
        ensures
            index == self.index,
    {
        self.index
    }
}

/// A reusable bundle of variables, commands and environment.
#[derive(Clone, Debug)]
pub struct Template {
    pub commands: Vec<MultiVariable>,
    pub environment: Vec<MultiVariable>,
    pub extend: Vec<String>,
    pub gitconfig: Vec<NamedVariable>,
    pub remotes: Vec<NamedVariable>,
    pub variables: Vec<NamedVariable>,
    pub clone_depth: i64,
    pub name: String,
}

impl Default for Template {
    fn default() -> (t: Self)
        ensures
            t.name@.len() == 0,
            t.variables@.len() == 0,
            t.environment@.len() == 0,
            t.commands@.len() == 0,
            t.gitconfig@.len() == 0,
            t.remotes@.len() == 0,
            t.extend@.len() == 0,
            t.clone_depth == 0,
    {
        Template {
            commands: Vec::new(),
            environment: Vec::new(),
            extend: Vec::new(),
            gitconfig: Vec::new(),
            remotes: Vec::new(),
            variables: Vec::new(),
            clone_depth: 0,
            name: String::new(),
        }
    }
}

impl Template {
    pub fn get_name(&self) -> (name: &String)
        ensures
            *name == self.name,
    {
        &self.name
    }

    pub fn get_name_mut(&mut self) -> (name: &mut String)
        ensures
            *name == old(self).name,
            *final(self) == (Template { name: *final(name), ..*old(self) }),
    {
        &mut self.name
    }
}

/// A named aggregate of trees and groups with variables of its own.
#[derive(Clone, Debug)]
pub struct Garden {
    pub commands: Vec<MultiVariable>,
    pub environment: Vec<MultiVariable>,
    pub gitconfig: Vec<NamedVariable>,
    pub groups: Vec<String>,
    pub trees: Vec<String>,
    pub variables: Vec<NamedVariable>,
    pub name: String,
    pub index: GardenIndex,
}

impl Default for Garden {
    fn default() -> (g: Self)
        ensures
            g.name@.len() == 0,
            g.index == 0,
            g.variables@.len() == 0,
            g.environment@.len() == 0,
            g.commands@.len() == 0,
            g.gitconfig@.len() == 0,
            g.groups@.len() == 0,
            g.trees@.len() == 0,
    {
        Garden {
            commands: Vec::new(),
            environment: Vec::new(),
            gitconfig: Vec::new(),
            groups: Vec::new(),
            trees: Vec::new(),
            variables: Vec::new(),
            name: String::new(),
            index: 0,
        }
    }
}

impl Garden {
    /// `self` is `before` with the caches of its variables, git configuration,
    /// environment and commands cleared.
    pub open spec fn is_reset_of(self, before: Garden) -> bool {
        &&& self == (Garden {
            variables: self.variables,
            gitconfig: self.gitconfig,
            environment: self.environment,
            commands: self.commands,
            ..before
        })
        &&& named_same_exprs(self.variables@, before.variables@)
        &&& named_reset(self.variables@)
        &&& named_same_exprs(self.gitconfig@, before.gitconfig@)
        &&& named_reset(self.gitconfig@)
        &&& multi_same_exprs(self.environment@, before.environment@)
        &&& multi_reset(self.environment@)
        &&& multi_same_exprs(self.commands@, before.commands@)
        &&& multi_reset(self.commands@)
    }

    pub fn get_name(&self) -> (name: &String)
        ensures
            *name == self.name,
    {
        &self.name
    }

    pub fn get_name_mut(&mut self) -> (name: &mut String)
        ensures
            *name == old(self).name,
            *final(self) == (Garden { name: *final(name), ..*old(self) }),
    {
        &mut self.name
    }

    pub fn get_index(&self) -> (index: GardenIndex)
        ensures
            index == self.index,
    {
        self.index
    }

    /// Clears every cached value of the garden.
    pub fn reset_variables(&mut self)
        ensures
            final(self).is_reset_of(*old(self)),
    {
        reset_named(&mut self.variables);
        reset_named(&mut self.gitconfig);
        reset_multi(&mut self.environment);
        reset_multi(&mut self.commands);
    }
}

/// A named link to a child configuration.
#[derive(Clone, Debug)]
pub struct Graft {
    pub id: Option<ConfigId>,
    pub name: String,
    pub root: String,
    pub config: String,
}

impl Default for Graft {
    fn default() -> (g: Self)
        ensures
            g.id is None,
            g.name@.len() == 0,
            g.root@.len() == 0,
            g.config@.len() == 0,
    {
        Graft { id: None, name: String::new(), root: String::new(), config: String::new() }
    }
}

impl Graft {
    pub fn new(name: String, root: String, config: String) -> (g: Self)
        ensures
            g == (Graft { id: None, name, root, config }),
    {
        Graft { id: None, name, root, config }
    }

    pub fn get_name(&self) -> (name: &String)
        ensures
            *name == self.name,
    {
        &self.name
    }

    pub fn get_id(&self) -> (id: &Option<ConfigId>)
        ensures
            *id == self.id,
    {
        &self.id
    }

    pub fn set_id(&mut self, id: ConfigId)
        ensures
            *final(self) == (Graft { id: Some(id), ..*old(self) }),
    {
        self.id = Some(id);
    }
}

/// Where an expression is evaluated: a configuration, and optionally a tree, a
/// garden and a group of it.
#[derive(Clone, Debug)]
pub struct EvalContext {
    pub config: ConfigId,
    pub tree: Option<TreeIndex>,
    pub garden: Option<GardenIndex>,
    pub group: Option<GroupIndex>,
}

impl EvalContext {
    pub fn new(
        config: ConfigId,
        tree: Option<TreeIndex>,
        garden: Option<GardenIndex>,
        group: Option<GroupIndex>,
    ) -> (ctx: Self)
        ensures
            ctx == (EvalContext { config, tree, garden, group }),
    {
        EvalContext { config, tree, garden, group }
    }
}

/// A tree selected by a query, with the garden or group through which it was
/// reached.
#[derive(Clone, Copy, Debug, PartialEq, Eq, Structural)]
pub struct TreeContext {
    pub tree: TreeIndex,
    pub config: Option<ConfigId>,
    pub garden: Option<GardenIndex>,
    pub group: Option<GroupIndex>,
}

impl TreeContext {
    pub fn new(
        tree: TreeIndex,
        config: Option<ConfigId>,
        garden: Option<GardenIndex>,
        group: Option<GroupIndex>,
    ) -> (ctx: Self)
        ensures
            ctx == (TreeContext { tree, config, garden, group }),
    {
        TreeContext { tree, config, garden, group }
    }
}


/// A parsed selector: the pattern that names are matched against, and which
/// kinds of entity take part.
#[derive(Clone, Debug)]
pub struct TreeQuery {
    pub query: String,
    pub pattern: String,
    pub is_default: bool,
    pub is_garden: bool,
    pub is_group: bool,
    pub is_tree: bool,
    pub include_gardens: bool,
    pub include_groups: bool,
    pub include_trees: bool,
}

impl Default for TreeQuery {
    fn default() -> (q: Self)
        ensures
            q.query@.len() == 0,
            q.pattern@.len() == 0,
            !q.is_default && !q.is_garden && !q.is_group && !q.is_tree,
            !q.include_gardens && !q.include_groups && !q.include_trees,
    {
        TreeQuery {
            query: String::new(),
            pattern: String::new(),
            is_default: false,
            is_garden: false,
            is_group: false,
            is_tree: false,
            include_gardens: false,
            include_groups: false,
            include_trees: false,
        }
    }
}

impl TreeQuery {
    /// `self` is the reading of the selector `query`: the marker decides the
    /// kind, and the rest is the pattern.
    pub open spec fn is_reading_of(self, query: Seq<char>) -> bool {
        let garden = spec_is_garden(query);
        let group = spec_is_group(query);
        let tree = spec_is_tree(query);
        &&& self.query@ == query
        &&& self.pattern@ == spec_trim(query)
        &&& self.is_garden == garden
        &&& self.is_group == group
        &&& self.is_tree == tree
        &&& self.is_default == (!garden && !group && !tree)
        &&& self.include_gardens == (garden || self.is_default)
        &&& self.include_groups == (group || self.is_default)
        &&& self.include_trees == (tree || self.is_default)
    }

    /// Reads a selector whose pattern is valid.
    pub fn new(query: &str) -> (q: Self)
        requires
            glob_compiles(spec_trim(query@)),
        ensures
            q.is_reading_of(query@),
    {
        let mut is_default = false;
        let mut is_tree_query = false;
        let mut is_garden_query = false;
        let mut is_group_query = false;
        let mut include_gardens = true;
        let mut include_groups = true;
        let mut include_trees = true;
        if is_garden(query) {
            is_garden_query = true;
            include_groups = false;
            include_trees = false;
        } else if is_group(query) {
            is_group_query = true;
            include_gardens = false;
            include_trees = false;
        } else if is_tree(query) {
            is_tree_query = true;
            include_gardens = false;
            include_groups = false;
        } else {
            is_default = true;
        }
        TreeQuery {
            query: copy_of(query),
            pattern: copy_of(trim(query)),
            is_default,
            is_garden: is_garden_query,
            is_group: is_group_query,
            is_tree: is_tree_query,
            include_gardens,
            include_groups,
            include_trees,
        }
    }

    /// Reads a selector; `None` where what follows the marker is no valid
    /// pattern.
    pub fn parse(query: &str) -> (q: Option<Self>)
        ensures
            q is Some == glob_compiles(spec_trim(query@)),
            q is Some ==> q->0.is_reading_of(query@),
    {
        if is_valid(trim(query)) {
            Some(TreeQuery::new(query))
        } else {
            None
        }
    }
}

/// The subcommands.
#[derive(Clone, Debug)]
pub enum Command {
    Cmd,
    Custom(String),
    Exec,
    Eval,
    Grow,
    Help,
    Init,
    Inspect,
    List,
    Plant,
    Shell,
}

impl Default for Command {
    fn default() -> (c: Self)
        ensures
            c is Help,
    {
        Command::Help
    }
}

impl Command {
    /// `self` is the subcommand that the word `src` names; a word that names no
    /// built-in subcommand is a custom command of that name.
    pub open spec fn is_named_by(self, src: Seq<char>) -> bool {
        if src == "cmd"@ {
            self is Cmd
        } else if src == "exec"@ {
            self is Exec
        } else if src == "eval"@ {
            self is Eval
        } else if src == "grow"@ {
            self is Grow
        } else if src == "help"@ {
            self is Help
        } else if src == "init"@ {
            self is Init
        } else if src == "inspect"@ {
            self is Inspect
        } else if src == "list"@ || src == "ls"@ {
            self is List
        } else if src == "plant"@ {
            self is Plant
        } else if src == "sh"@ || src == "shell"@ {
            self is Shell
        } else {
            self matches Command::Custom(name) && name@ == src
        }
    }

    /// The subcommand that a word names.
    pub fn parse(src: &str) -> (c: Self)
        ensures
            c.is_named_by(src@),
    {
        if str_eq(src, "cmd") {
            Command::Cmd
        } else if str_eq(src, "exec") {
            Command::Exec
        } else if str_eq(src, "eval") {
            Command::Eval
        } else if str_eq(src, "grow") {
            Command::Grow
        } else if str_eq(src, "help") {
            Command::Help
        } else if str_eq(src, "init") {
            Command::Init
        } else if str_eq(src, "inspect") {
            Command::Inspect
        } else if str_eq(src, "list") || str_eq(src, "ls") {
            Command::List
        } else if str_eq(src, "plant") {
            Command::Plant
        } else if str_eq(src, "sh") || str_eq(src, "shell") {
            Command::Shell
        } else {
            Command::Custom(copy_of(src))
        }
    }
}

impl std::str::FromStr for Command {
    type Err = ();

    fn from_str(src: &str) -> (res: Result<Command, ()>)
        ensures
            res is Ok,
            res->Ok_0.is_named_by(src@),
    {
        Ok(Command::parse(src))
    }
}

/// The lower-case form of a text, as `str::to_lowercase` gives it.
pub uninterp spec fn spec_lowercase(s: Seq<char>) -> Seq<char>;

/// Calls `str::to_lowercase`, whose result depends on the text alone.
#[verifier::external_body]
fn lowercase(s: &str) -> (out: String)
    ensures
        out@ == spec_lowercase(s@),
{
    s.to_lowercase()
}

/// Asks `atty::is` whether the standard output is a terminal. The answer is the
/// machine's: nothing is stated of it.
#[verifier::external_body]
fn stdout_is_terminal() -> (yes: bool) {
    atty::is(atty::Stream::Stdout)
}

/// Calls `yansi::Paint::disable`, which switches painting off for the whole
/// process.
#[verifier::external_body]
fn disable_painting() {
    yansi::Paint::disable();
}

/// Whether output is coloured.
#[derive(Clone, Copy, Debug, PartialEq, Eq, Structural)]
pub enum ColorMode {
    /// Colour when the output is a terminal.
    Auto,
    Off,
    On,
}

impl Default for ColorMode {
    fn default() -> (c: Self)
        ensures
            c == ColorMode::Auto,
    {
        ColorMode::Auto
    }
}

impl ColorMode {
    /// The mode that a lower-case word names, if it names one.
    pub open spec fn of_word(word: Seq<char>) -> Option<ColorMode> {
        if word == "auto"@ || word == "-1"@ {
            Some(ColorMode::Auto)
        } else if word == "1"@ || word == "true"@ || word == "on"@ || word == "y"@ || word
            == "yes"@ {
            Some(ColorMode::On)
        } else if word == "0"@ || word == "false"@ || word == "never"@ || word == "always"@
            || word == "off"@ || word == "n"@ || word == "no"@ {
            Some(ColorMode::Off)
        } else {
            None
        }
    }

    /// The mode that a lower-case word names.
    pub fn from_word(word: &str) -> (mode: Option<ColorMode>)
        ensures
            mode == Self::of_word(word@),
    {
        if str_eq(word, "auto") || str_eq(word, "-1") {
            Some(ColorMode::Auto)
        } else if str_eq(word, "1") || str_eq(word, "true") || str_eq(word, "on") || str_eq(
            word,
            "y",
        ) || str_eq(word, "yes") {
            Some(ColorMode::On)
        } else if str_eq(word, "0") || str_eq(word, "false") || str_eq(word, "never") || str_eq(
            word,
            "always",
        ) || str_eq(word, "off") || str_eq(word, "n") || str_eq(word, "no") {
            Some(ColorMode::Off)
        } else {
            None
        }
    }

    /// The mode that a word names, whatever its case.
    pub fn parse(src: &str) -> (mode: Option<ColorMode>)
        ensures
            mode == Self::of_word(spec_lowercase(src@)),
    {
        let word = lowercase(src);
        Self::from_word(word.as_str())
    }

    /// Whether colour is on in this mode, given whether the output is a terminal.
    pub open spec fn spec_is_enabled(self, terminal: bool) -> bool {
        match self {
            ColorMode::Auto => terminal,
            ColorMode::Off => false,
            ColorMode::On => true,
        }
    }

    /// Whether colour is on: in the mode `Auto`, where the standard output is a
    /// terminal.
    pub fn is_enabled(&self) -> (on: bool)
        ensures
            *self == ColorMode::On ==> on,
            *self == ColorMode::Off ==> !on,
    {
        match self {
            ColorMode::Auto => stdout_is_terminal(),
            ColorMode::Off => false,
            ColorMode::On => true,
        }
    }

    /// Whether colour is on, given whether the output is a terminal.
    pub fn is_enabled_on(&self, terminal: bool) -> (on: bool)
        ensures
            on == self.spec_is_enabled(terminal),
    {
        match self {
            ColorMode::Auto => terminal,
            ColorMode::Off => false,
            ColorMode::On => true,
        }
    }

    /// The words that name a mode.
    pub fn names() -> (words: &'static str)
        ensures
            words@ == "auto, true, false, 1, 0, [y]es, [n]o, on, off, always, never"@,
    {
        "auto, true, false, 1, 0, [y]es, [n]o, on, off, always, never"
    }

    /// Settles `Auto` into `On` or `Off`, given whether the output is a terminal.
    pub fn settle(&mut self, terminal: bool)
        ensures
            *final(self) == if old(self).spec_is_enabled(terminal) {
                ColorMode::On
            } else {
                ColorMode::Off
            },
    {
        if self.is_enabled_on(terminal) {
            *self = ColorMode::On;
        } else {
            *self = ColorMode::Off;
        }
    }

    /// Settles `Auto` by whether the standard output is a terminal, and
    /// switches painting off for the whole process where the mode comes to
    /// `Off`.
    pub fn update(&mut self)
        ensures
            *final(self) != ColorMode::Auto,
            *old(self) != ColorMode::Auto ==> *final(self) == *old(self),
    {
        let terminal = match self {
            ColorMode::Auto => stdout_is_terminal(),
            _ => false,
        };
        self.settle(terminal);
        match self {
            ColorMode::Off => disable_painting(),
            _ => {},
        }
    }
}

impl std::str::FromStr for ColorMode {
    type Err = ();

    fn from_str(src: &str) -> (res: Result<ColorMode, ()>)
        ensures
            res.ok() == ColorMode::of_word(spec_lowercase(src@)),
    {
        match ColorMode::parse(src) {
            Some(mode) => Ok(mode),
            None => Err(()),
        }
    }
}

/// The options of one invocation.
#[derive(Clone, Debug)]
pub struct CommandOptions {
    pub args: Vec<String>,
    pub debug: Vec<String>,
    pub chdir: String,
    pub color_mode: ColorMode,
    pub filename: Option<String>,
    pub filename_str: String,
    pub keep_going: bool,
    pub quiet: bool,
    pub root: String,
    pub subcommand: Command,
    pub variables: Vec<String>,
    pub verbose: bool,
}

impl Default for CommandOptions {
    fn default() -> (o: Self)
        ensures
            o.args@.len() == 0,
            o.debug@.len() == 0,
            o.chdir@.len() == 0,
            o.color_mode == ColorMode::Auto,
            o.filename is None,
            o.filename_str@.len() == 0,
            !o.keep_going,
            !o.quiet,
            o.root@.len() == 0,
            o.subcommand is Help,
            o.variables@.len() == 0,
            !o.verbose,
    {
        CommandOptions {
            args: Vec::new(),
            debug: Vec::new(),
            chdir: String::new(),
            color_mode: ColorMode::Auto,
            filename: None,
            filename_str: String::new(),
            keep_going: false,
            quiet: false,
            root: String::new(),
            subcommand: Command::Help,
            variables: Vec::new(),
            verbose: false,
        }
    }
}

impl CommandOptions {
    pub fn new() -> (o: Self)
        ensures
            o.args@.len() == 0,
            o.debug@.len() == 0,
            o.chdir@.len() == 0,
            o.color_mode == ColorMode::Auto,
            o.filename is None,
            o.filename_str@.len() == 0,
            !o.keep_going,
            !o.quiet,
            o.root@.len() == 0,
            o.subcommand is Help,
            o.variables@.len() == 0,
            !o.verbose,
    {
        CommandOptions::default()
    }

    /// The same options with the verbosity set.
    pub fn verbose(self, value: bool) -> (o: Self)
        ensures
            o == (CommandOptions { verbose: value, ..self }),
    {
        let mut o = self;
        o.verbose = value;
        o
    }

    /// Whether debugging is on for the category `name`.
    pub fn is_debug(&self, name: &str) -> (on: bool)
        ensures
            on == exists|i: int| 0 <= i < self.debug@.len() && (#[trigger] self.debug@[i])@ == name@,
    {
        let n: usize = self.debug.len();
        let mut i: usize = 0;
        while i < n
            invariant
                i <= n,
                n == self.debug@.len(),
                forall|k: int| 0 <= k < i ==> (#[trigger] self.debug@[k])@ != name@,
            decreases n - i,
        {
            if str_eq(self.debug[i].as_str(), name) {
                return true;
            }
            i = i + 1;
        }
        false
    }
}


/// A path is absolute when it begins with a slash.
pub open spec fn spec_is_absolute(path: Seq<char>) -> bool {
    path.len() > 0 && path[0] == '/'
}

/// `path` seen from the directory `base`: an absolute path is left as it is, and
/// a relative one follows `base`, after a slash unless `base` is empty or ends
/// with one.
pub open spec fn spec_join(base: Seq<char>, path: Seq<char>) -> Seq<char> {
    if spec_is_absolute(path) {
        path
    } else if base.len() == 0 || base[base.len() - 1] == '/' {
        base + path
    } else {
        base + seq!['/'] + path
    }
}

/// The position of the last slash among the first `n` characters, or -1.
pub open spec fn spec_last_slash(path: Seq<char>, n: int) -> int
    decreases n,
{
    if n <= 0 || n > path.len() {
        -1
    } else if path[n - 1] == '/' {
        n - 1
    } else {
        spec_last_slash(path, n - 1)
    }
}

/// The directory of a path: what stands before its last slash, the root for a
/// file directly under it, and nothing for a bare file name.
pub open spec fn spec_dirname(path: Seq<char>) -> Seq<char> {
    let at = spec_last_slash(path, path.len() as int);
    if at < 0 {
        Seq::<char>::empty()
    } else if at == 0 {
        seq!['/']
    } else {
        path.subrange(0, at)
    }
}

/// Whether the path is absolute.
pub fn is_absolute(path: &str) -> (res: bool)
    ensures
        res == spec_is_absolute(path@),
{
    let n: usize = path.unicode_len();
    n > 0 && path.get_char(0) == '/'
}

/// `path` seen from the directory `base`.
pub fn join_path(base: &str, path: &str) -> (out: String)
    ensures
        out@ == spec_join(base@, path@),
{
    if is_absolute(path) {
        return copy_of(path);
    }
    let n: usize = base.unicode_len();
    let mut out = copy_of(base);
    if n > 0 && base.get_char(n - 1) != '/' {
        proof {
            reveal_strlit("/");
        }
        out.append("/");
        assert(out@ =~= base@ + seq!['/']);
    }
    out.append(path);
    out
}

/// The directory of a path.
pub fn dirname(path: &str) -> (out: String)
    ensures
        out@ == spec_dirname(path@),
{
    let chars = chars_of(path);
    let mut n: usize = chars.len();
    while n > 0 && chars[n - 1] != '/'
        invariant
            n <= chars@.len(),
            chars@ == path@,
            spec_last_slash(path@, n as int) == spec_last_slash(path@, path@.len() as int),
        decreases n,
    {
        n = n - 1;
    }
    if n == 0 {
        String::new()
    } else if n == 1 {
        string_of(&chars, 0, 1)
    } else {
        string_of(&chars, 0, n - 1)
    }
}

/// The text of the error for a graft that a configuration lacks.
pub open spec fn spec_no_such_graft(name: Seq<char>) -> Seq<char> {
    name + ": no such graft"@
}

/// The position of the first graft named `name`, among the first `n`; `n` where
/// there is none.
pub open spec fn spec_find_graft(grafts: Seq<Graft>, name: Seq<char>, n: int) -> int
    decreases n,
{
    if n <= 0 || n > grafts.len() {
        0
    } else {
        let before = spec_find_graft(grafts, name, n - 1);
        if before < n - 1 {
            before
        } else if grafts[n - 1].name@ == name {
            n - 1
        } else {
            n
        }
    }
}

/// An instantiated configuration: the trees, gardens, groups, templates and
/// grafts of one document, its global variables, and its place in the forest.
#[derive(Clone, Debug)]
pub struct Configuration {
    pub commands: Vec<MultiVariable>,
    pub debug: Vec<String>,
    pub environment: Vec<MultiVariable>,
    pub gardens: Vec<Garden>,
    pub grafts: Vec<Graft>,
    pub groups: Vec<Group>,
    pub path: Option<String>,
    pub dirname: Option<String>,
    pub root: Variable,
    pub root_path: String,
    pub shell: String,
    pub templates: Vec<Template>,
    pub tree_search_path: Vec<String>,
    pub trees: Vec<Tree>,
    pub variables: Vec<NamedVariable>,
    pub verbose: bool,
    pub id: Option<ConfigId>,
    pub parent_id: Option<ConfigId>,
}

impl Default for Configuration {
    fn default() -> (c: Self)
        ensures
            c.is_empty(),
            c.shell@.len() == 0,
    {
        Configuration {
            commands: Vec::new(),
            debug: Vec::new(),
            environment: Vec::new(),
            gardens: Vec::new(),
            grafts: Vec::new(),
            groups: Vec::new(),
            path: None,
            dirname: None,
            root: Variable::default(),
            root_path: String::new(),
            shell: String::new(),
            templates: Vec::new(),
            tree_search_path: Vec::new(),
            trees: Vec::new(),
            variables: Vec::new(),
            verbose: false,
            id: None,
            parent_id: None,
        }
    }
}

impl Configuration {
    /// Nothing is declared, and the configuration has no place in a forest.
    pub open spec fn is_empty(self) -> bool {
        &&& self.commands@.len() == 0
        &&& self.debug@.len() == 0
        &&& self.environment@.len() == 0
        &&& self.gardens@.len() == 0
        &&& self.grafts@.len() == 0
        &&& self.groups@.len() == 0
        &&& self.path is None
        &&& self.dirname is None
        &&& self.root.expr@.len() == 0
        &&& self.root.value is None
        &&& self.root_path@.len() == 0
        &&& self.templates@.len() == 0
        &&& self.tree_search_path@.len() == 0
        &&& self.trees@.len() == 0
        &&& self.variables@.len() == 0
        &&& !self.verbose
        &&& self.id is None
        &&& self.parent_id is None
    }

    /// An empty configuration whose shell is `zsh`.
    pub fn new() -> (c: Self)
        ensures
            c.is_empty(),
            c.shell@ == "zsh"@,
    {
        let mut c = Configuration::default();
        c.shell = String::from_str("zsh");
        c
    }

    /// `path` seen from the root directory of the gardens.
    pub fn tree_path(&self, path: &str) -> (out: String)
        ensures
            out@ == spec_join(self.root_path@, path@),
    {
        join_path(self.root_path.as_str(), path)
    }

    /// Where `path` lies, seen from the directory of the configuration file: an
    /// absolute path is itself; a relative one follows that directory, or the
    /// root directory of the gardens while the file's place is unknown.
    pub open spec fn spec_config_path(self, path: Seq<char>) -> Seq<char> {
        match self.dirname {
            Some(dir) => if spec_is_absolute(path) {
                path
            } else {
                spec_join(dir@, path)
            },
            None => spec_join(self.root_path@, path),
        }
    }

    /// `path` seen from the directory of the configuration file.
    pub fn config_path(&self, path: &str) -> (out: String)
        ensures
            out@ == self.spec_config_path(path@),
    {
        match &self.dirname {
            Some(dir) => join_path(dir.as_str(), path),
            None => self.tree_path(path),
        }
    }

    /// `self` is `before` with every cached value cleared, but for the root and
    /// for the path and symlink target of each tree.
    pub open spec fn is_reset_of(self, before: Configuration) -> bool {
        &&& self == (Configuration {
            variables: self.variables,
            environment: self.environment,
            commands: self.commands,
            trees: self.trees,
            gardens: self.gardens,
            ..before
        })
        &&& named_same_exprs(self.variables@, before.variables@)
        &&& named_reset(self.variables@)
        &&& multi_same_exprs(self.environment@, before.environment@)
        &&& multi_reset(self.environment@)
        &&& multi_same_exprs(self.commands@, before.commands@)
        &&& multi_reset(self.commands@)
        &&& self.trees@.len() == before.trees@.len()
        &&& forall|i: int|
            0 <= i < self.trees@.len() ==> (#[trigger] self.trees@[i]).is_reset_of(
                before.trees@[i],
            )
        &&& self.gardens@.len() == before.gardens@.len()
        &&& forall|i: int|
            0 <= i < self.gardens@.len() ==> (#[trigger] self.gardens@[i]).is_reset_of(
                before.gardens@[i],
            )
    }

    /// Clears every cached value, but for the root and for the path and symlink
    /// target of each tree.
    pub fn reset_variables(&mut self)
        ensures
            final(self).is_reset_of(*old(self)),
    {
        reset_named(&mut self.variables);
        reset_multi(&mut self.environment);
        reset_multi(&mut self.commands);
        let n: usize = self.trees.len();
        let mut i: usize = 0;
        while i < n
            invariant
                i <= n,
                n == self.trees@.len(),
                n == old(self).trees@.len(),
                *self == (Configuration {
                    variables: self.variables,
                    environment: self.environment,
                    commands: self.commands,
                    trees: self.trees,
                    ..*old(self)
                }),
                named_same_exprs(self.variables@, old(self).variables@),
                named_reset(self.variables@),
                multi_same_exprs(self.environment@, old(self).environment@),
                multi_reset(self.environment@),
                multi_same_exprs(self.commands@, old(self).commands@),
                multi_reset(self.commands@),
                forall|k: int|
                    0 <= k < i ==> (#[trigger] self.trees@[k]).is_reset_of(old(self).trees@[k]),
                forall|k: int| i <= k < n ==> (#[trigger] self.trees@[k]) == old(self).trees@[k],
            decreases n - i,
        {
            self.trees[i].reset_variables();
            i = i + 1;
        }
        let m: usize = self.gardens.len();
        let mut j: usize = 0;
        while j < m
            invariant
                j <= m,
                m == self.gardens@.len(),
                m == old(self).gardens@.len(),
                *self == (Configuration {
                    variables: self.variables,
                    environment: self.environment,
                    commands: self.commands,
                    trees: self.trees,
                    gardens: self.gardens,
                    ..*old(self)
                }),
                named_same_exprs(self.variables@, old(self).variables@),
                named_reset(self.variables@),
                multi_same_exprs(self.environment@, old(self).environment@),
                multi_reset(self.environment@),
                multi_same_exprs(self.commands@, old(self).commands@),
                multi_reset(self.commands@),
                self.trees@.len() == old(self).trees@.len(),
                forall|k: int|
                    0 <= k < self.trees@.len() ==> (#[trigger] self.trees@[k]).is_reset_of(
                        old(self).trees@[k],
                    ),
                forall|k: int|
                    0 <= k < j ==> (#[trigger] self.gardens@[k]).is_reset_of(
                        old(self).gardens@[k],
                    ),
                forall|k: int|
                    j <= k < m ==> (#[trigger] self.gardens@[k]) == old(self).gardens@[k],
            decreases m - j,
        {
            self.gardens[j].reset_variables();
            j = j + 1;
        }
    }

    /// Records the handle under which the forest holds this configuration.
    pub fn set_id(&mut self, id: ConfigId)
        ensures
            *final(self) == (Configuration { id: Some(id), ..*old(self) }),
    {
        self.id = Some(id);
    }

    pub fn get_id(&self) -> (id: Option<ConfigId>)
        ensures
            id == self.id,
    {
        self.id
    }

    /// Records the handle of the configuration that this one is grafted onto.
    pub fn set_parent(&mut self, id: ConfigId)
        ensures
            *final(self) == (Configuration { parent_id: Some(id), ..*old(self) }),
    {
        self.parent_id = Some(id);
    }

    /// Records where the configuration file lies, and its directory.
    pub fn set_path(&mut self, path: String)
        ensures
            final(self).path == Some(path),
            final(self).dirname is Some,
            final(self).dirname->0@ == spec_dirname(path@),
            *final(self) == (Configuration {
                path: final(self).path,
                dirname: final(self).dirname,
                ..*old(self)
            }),
    {
        let dir = dirname(path.as_str());
        self.dirname = Some(dir);
        self.path = Some(path);
    }

    /// Where the configuration file lies, or an assertion error while that is
    /// unset.
    pub fn get_path(&self) -> (res: Result<&String, GardenError>)
        ensures
            match res {
                Ok(p) => self.path == Some(*p),
                Err(e) => self.path is None && (e matches GardenError::AssertionError(m) && m@
                    == "cfg.path is unset"@),
            },
    {
        match &self.path {
            Some(p) => Ok(p),
            None => Err(GardenError::AssertionError(String::from_str("cfg.path is unset"))),
        }
    }

    /// The position of the first graft that `name` names, marker aside; the
    /// number of grafts where there is none.
    pub open spec fn graft_position(self, name: Seq<char>) -> int {
        spec_find_graft(self.grafts@, spec_trim(name), self.grafts@.len() as int)
    }

    fn find_graft(&self, name: &str) -> (at: usize)
        ensures
            at == self.graft_position(name@),
            at <= self.grafts@.len(),
            at < self.grafts@.len() ==> self.grafts@[at as int].name@ == spec_trim(name@),
    {
        let target = trim(name);
        let n: usize = self.grafts.len();
        let mut i: usize = 0;
        while i < n
            invariant
                i <= n,
                n == self.grafts@.len(),
                target@ == spec_trim(name@),
                spec_find_graft(self.grafts@, target@, i as int) == i,
            decreases n - i,
        {
            if str_eq(self.grafts[i].name.as_str(), target) {
                proof {
                    lemma_find_graft_stays(self.grafts@, target@, i as int + 1, n as int);
                }
                return i;
            }
            i = i + 1;
        }
        n
    }

    /// Whether a graft of this configuration has the name, marker aside.
    pub fn contains_graft(&self, name: &str) -> (found: bool)
        ensures
            found == (self.graft_position(name@) < self.grafts@.len()),
    {
        self.find_graft(name) < self.grafts.len()
    }

    /// The first graft of this configuration that has the name, marker aside, or
    /// a configuration error that says that there is no such graft.
    pub fn get_graft(&self, name: &str) -> (res: Result<&Graft, GardenError>)
        ensures
            match res {
                Ok(g) => self.graft_position(name@) < self.grafts@.len() && *g
                    == self.grafts@[self.graft_position(name@)] && g.name@ == spec_trim(name@),
                Err(e) => self.graft_position(name@) == self.grafts@.len() && (e matches GardenError::ConfigurationError(
                    m,
                ) && m@ == spec_no_such_graft(name@)),
            },
    {
        let at = self.find_graft(name);
        if at < self.grafts.len() {
            Ok(&self.grafts[at])
        } else {
            let mut msg = copy_of(name);
            msg.append(": no such graft");
            Err(GardenError::ConfigurationError(msg))
        }
    }
}

/// Once a graft of the name has been found among the first `n`, a longer search
/// finds the same one.
pub proof fn lemma_find_graft_stays(grafts: Seq<Graft>, name: Seq<char>, n: int, m: int)
    requires
        0 <= n <= m <= grafts.len(),
        spec_find_graft(grafts, name, n) < n,
    ensures
        spec_find_graft(grafts, name, m) == spec_find_graft(grafts, name, n),
    decreases m - n,
{
    if n < m {
        lemma_find_graft_stays(grafts, name, n, m - 1);
    }
}

/// A search finds a graft exactly where one of that name exists, and then finds
/// the first: no graft before it has the name.
pub proof fn lemma_find_graft_first(grafts: Seq<Graft>, name: Seq<char>, n: int)
    requires
        0 <= n <= grafts.len(),
    ensures
        0 <= spec_find_graft(grafts, name, n) <= n,
        spec_find_graft(grafts, name, n) < n ==> grafts[spec_find_graft(grafts, name, n)].name@
            == name,
        forall|k: int|
            0 <= k < spec_find_graft(grafts, name, n) ==> (#[trigger] grafts[k]).name@ != name,
    decreases n,
{
    if n > 0 {
        lemma_find_graft_first(grafts, name, n - 1);
    }
}

} // verus!
