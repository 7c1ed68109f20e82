//! The query resolver: from a selector to the ordered list of tree contexts that
//! it names.
//!
//! A selector marked as a garden, a group or a tree is matched against the
//! names of that kind only. An unmarked one is matched against the gardens;
//! where that yields nothing, against the groups; where that yields nothing
//! either, against the trees.

use vstd::prelude::*;
use vstd::string::*;

use crate::errors::GardenError;
use crate::model::{Configuration, ConfigId, Garden, Group, Tree, TreeContext, TreeIndex, TreeQuery};
use crate::pattern::{glob_compiles, glob_matches, pattern_matches};
use crate::syntax::{spec_is_garden, spec_is_group, spec_is_tree, spec_trim, trim};
use crate::text::{copy_of, str_eq};

verus! {

/// The names of the trees, in order.
pub open spec fn tree_names(trees: Seq<Tree>) -> Seq<Seq<char>> {
    Seq::new(trees.len(), |i: int| trees[i].name@)
}

/// The names of the groups, in order.
pub open spec fn group_names(groups: Seq<Group>) -> Seq<Seq<char>> {
    Seq::new(groups.len(), |i: int| groups[i].name@)
}

/// The names of the gardens, in order.
pub open spec fn garden_names(gardens: Seq<Garden>) -> Seq<Seq<char>> {
    Seq::new(gardens.len(), |i: int| gardens[i].name@)
}

/// The position of the first of the first `n` names that equals `name`; `n`
/// where none does.
pub open spec fn spec_first(names: Seq<Seq<char>>, name: Seq<char>, n: int) -> int
    decreases n,
{
    if n <= 0 || n > names.len() {
        0
    } else {
        let before = spec_first(names, name, n - 1);
        if before < n - 1 {
            before
        } else if names[n - 1] == name {
            n - 1
        } else {
            n
        }
    }
}

/// The position of `name` among `names`: that of the first name equal to it,
/// or the number of names.
pub open spec fn spec_position(names: Seq<Seq<char>>, name: Seq<char>) -> int {
    spec_first(names, name, names.len() as int)
}

/// Once the name has been found among the first `n` names, a longer search
/// finds it at the same place.
pub proof fn lemma_first_stays(names: Seq<Seq<char>>, name: Seq<char>, n: int, m: int)
    requires
        0 <= n <= m <= names.len(),
        spec_first(names, name, n) < n,
    ensures
        spec_first(names, name, m) == spec_first(names, name, n),
    decreases m - n,
{
    if n < m {
        lemma_first_stays(names, name, n, m - 1);
    }
}

/// A search ends within the names; where it ends before their end, the name at
/// that place is the one sought, and no earlier one is.
pub proof fn lemma_first_found(names: Seq<Seq<char>>, name: Seq<char>, n: int)
    requires
        0 <= n <= names.len(),
    ensures
        0 <= spec_first(names, name, n) <= n,
        spec_first(names, name, n) < n ==> names[spec_first(names, name, n)] == name,
        forall|k: int| 0 <= k < spec_first(names, name, n) ==> names[k] != name,
    decreases n,
{
    if n > 0 {
        lemma_first_found(names, name, n - 1);
    }
}

/// The position of the first tree of the name; the number of trees where there
/// is none.
pub fn find_tree(config: &Configuration, name: &str) -> (at: usize)
    ensures
        at == spec_position(tree_names(config.trees@), name@),
        at <= config.trees@.len(),
        at < config.trees@.len() ==> config.trees@[at as int].name@ == name@,
{
    let n: usize = config.trees.len();
    let ghost names = tree_names(config.trees@);
    let mut i: usize = 0;
    while i < n
        invariant
            i <= n,
            n == config.trees@.len(),
            names == tree_names(config.trees@),
            spec_first(names, name@, i as int) == i,
        decreases n - i,
    {
        if str_eq(config.trees[i].name.as_str(), name) {
            proof {
                lemma_first_stays(names, name@, i as int + 1, n as int);
            }
            return i;
        }
        i = i + 1;
    }
    n
}

/// The position of the first group of the name; the number of groups where
/// there is none.
pub fn find_group(config: &Configuration, name: &str) -> (at: usize)
    ensures
        at == spec_position(group_names(config.groups@), name@),
        at <= config.groups@.len(),
        at < config.groups@.len() ==> config.groups@[at as int].name@ == name@,
{
    let n: usize = config.groups.len();
    let ghost names = group_names(config.groups@);
    let mut i: usize = 0;
    while i < n
        invariant
            i <= n,
            n == config.groups@.len(),
            names == group_names(config.groups@),
            spec_first(names, name@, i as int) == i,
        decreases n - i,
    {
        if str_eq(config.groups[i].name.as_str(), name) {
            proof {
                lemma_first_stays(names, name@, i as int + 1, n as int);
            }
            return i;
        }
        i = i + 1;
    }
    n
}

/// The position of the first garden of the name; the number of gardens where
/// there is none.
pub fn find_garden(config: &Configuration, name: &str) -> (at: usize)
    ensures
        at == spec_position(garden_names(config.gardens@), name@),
        at <= config.gardens@.len(),
        at < config.gardens@.len() ==> config.gardens@[at as int].name@ == name@,
{
    let n: usize = config.gardens.len();
    let ghost names = garden_names(config.gardens@);
    let mut i: usize = 0;
    while i < n
        invariant
            i <= n,
            n == config.gardens@.len(),
            names == garden_names(config.gardens@),
            spec_first(names, name@, i as int) == i,
        decreases n - i,
    {
        if str_eq(config.gardens[i].name.as_str(), name) {
            proof {
                lemma_first_stays(names, name@, i as int + 1, n as int);
            }
            return i;
        }
        i = i + 1;
    }
    n
}

/// The trees that the first `n` of the member names stand for, in order. A
/// member that names a tree stands for it. One that names no tree but a group
/// stands for the trees of that group's members, unless that group is being
/// expanded already (it is among `open`): groups that name each other are
/// expanded once. Any other member stands for nothing. `depth` bounds the
/// nesting; with as many levels as there are groups it is never reached.
pub open spec fn spec_members(
    cfg: Configuration,
    members: Seq<String>,
    n: int,
    open: Seq<usize>,
    depth: nat,
) -> Seq<TreeIndex>
    decreases depth, n,
{
    if n <= 0 || n > members.len() {
        Seq::<TreeIndex>::empty()
    } else {
        let name = members[n - 1]@;
        let tree = spec_position(tree_names(cfg.trees@), name);
        let group = spec_position(group_names(cfg.groups@), name);
        let last = if 0 <= tree < cfg.trees@.len() {
            seq![tree as usize]
        } else if depth > 0 && 0 <= group < cfg.groups@.len() && !open.contains(group as usize) {
            spec_members(
                cfg,
                cfg.groups@[group].members@,
                cfg.groups@[group].members@.len() as int,
                open.push(group as usize),
                (depth - 1) as nat,
            )
        } else {
            Seq::<TreeIndex>::empty()
        };
        spec_members(cfg, members, n - 1, open, depth) + last
    }
}

/// The trees of the group at position `group`: those that its members stand
/// for.
pub open spec fn spec_group_trees(cfg: Configuration, group: int) -> Seq<TreeIndex>
    recommends
        0 <= group < cfg.groups@.len(),
{
    spec_members(
        cfg,
        cfg.groups@[group].members@,
        cfg.groups@[group].members@.len() as int,
        seq![group as usize],
        cfg.groups@.len(),
    )
}

/// The trees of the groups that the first `n` of the names stand for, in order.
pub open spec fn spec_groups_members(cfg: Configuration, names: Seq<String>, n: int) -> Seq<
    TreeIndex,
>
    decreases n,
{
    if n <= 0 || n > names.len() {
        Seq::<TreeIndex>::empty()
    } else {
        let group = spec_position(group_names(cfg.groups@), names[n - 1]@);
        let last = if 0 <= group < cfg.groups@.len() {
            spec_group_trees(cfg, group)
        } else {
            Seq::<TreeIndex>::empty()
        };
        spec_groups_members(cfg, names, n - 1) + last
    }
}

/// The trees of a garden: those that it lists, then those of its groups.
pub open spec fn spec_garden_trees(cfg: Configuration, garden: Garden) -> Seq<TreeIndex> {
    spec_members(
        cfg,
        garden.trees@,
        garden.trees@.len() as int,
        Seq::<usize>::empty(),
        0,
    ) + spec_groups_members(cfg, garden.groups@, garden.groups@.len() as int)
}

/// One context for each of the trees, in order, all with the same garden and
/// group.
pub open spec fn spec_contexts(
    trees: Seq<TreeIndex>,
    config: Option<ConfigId>,
    garden: Option<usize>,
    group: Option<usize>,
) -> Seq<TreeContext> {
    Seq::new(trees.len(), |i: int| TreeContext { tree: trees[i], config, garden, group })
}

/// Which of the names the pattern matches, name by name.
pub open spec fn spec_hits(pattern: Seq<char>, names: Seq<Seq<char>>) -> Seq<bool> {
    Seq::new(names.len(), |i: int| glob_matches(pattern, names[i]))
}

/// Whether the entity at position `i` is among those that were matched.
pub open spec fn is_hit(hits: Seq<bool>, i: int) -> bool {
    0 <= i < hits.len() && hits[i]
}

/// The contexts of the first `n` gardens: for each garden that was matched, one
/// context for each of its trees, with that garden.
pub open spec fn spec_garden_contexts(cfg: Configuration, hits: Seq<bool>, n: int) -> Seq<
    TreeContext,
>
    decreases n,
{
    if n <= 0 || n > cfg.gardens@.len() {
        Seq::<TreeContext>::empty()
    } else {
        let last = if is_hit(hits, n - 1) {
            spec_contexts(
                spec_garden_trees(cfg, cfg.gardens@[n - 1]),
                cfg.id,
                Some((n - 1) as usize),
                None,
            )
        } else {
            Seq::<TreeContext>::empty()
        };
        spec_garden_contexts(cfg, hits, n - 1) + last
    }
}

/// The contexts of the first `n` groups: for each group that was matched, one
/// context for each of its trees, with that group and no garden.
pub open spec fn spec_group_contexts(cfg: Configuration, hits: Seq<bool>, n: int) -> Seq<
    TreeContext,
>
    decreases n,
{
    if n <= 0 || n > cfg.groups@.len() {
        Seq::<TreeContext>::empty()
    } else {
        let last = if is_hit(hits, n - 1) {
            spec_contexts(spec_group_trees(cfg, n - 1), cfg.id, None, Some((n - 1) as usize))
        } else {
            Seq::<TreeContext>::empty()
        };
        spec_group_contexts(cfg, hits, n - 1) + last
    }
}

/// The contexts of the first `n` trees: one for each tree that was matched,
/// with no garden and no group.
pub open spec fn spec_tree_contexts(cfg: Configuration, hits: Seq<bool>, n: int) -> Seq<
    TreeContext,
>
    decreases n,
{
    if n <= 0 || n > cfg.trees@.len() {
        Seq::<TreeContext>::empty()
    } else {
        let last = if is_hit(hits, n - 1) {
            seq![TreeContext { tree: (n - 1) as usize, config: cfg.id, garden: None, group: None }]
        } else {
            Seq::<TreeContext>::empty()
        };
        spec_tree_contexts(cfg, hits, n - 1) + last
    }
}

/// The contexts of a query, given which gardens, groups and trees its pattern
/// matched: those of the one kind where a kind is forced; else those of the
/// gardens, or else of the groups, or else of the trees, whichever is the first
/// to yield any.
pub open spec fn spec_kind_contexts(
    cfg: Configuration,
    garden_hits: Seq<bool>,
    group_hits: Seq<bool>,
    tree_hits: Seq<bool>,
    is_garden: bool,
    is_group: bool,
    is_tree: bool,
) -> Seq<TreeContext> {
    let gardens = spec_garden_contexts(cfg, garden_hits, cfg.gardens@.len() as int);
    let groups = spec_group_contexts(cfg, group_hits, cfg.groups@.len() as int);
    let trees = spec_tree_contexts(cfg, tree_hits, cfg.trees@.len() as int);
    if is_garden {
        gardens
    } else if is_group {
        groups
    } else if is_tree {
        trees
    } else if gardens.len() > 0 {
        gardens
    } else if groups.len() > 0 {
        groups
    } else {
        trees
    }
}

fn is_open(open: &Vec<usize>, group: usize) -> (found: bool)
    ensures
        found == open@.contains(group),
{
    let n: usize = open.len();
    let mut i: usize = 0;
    while i < n
        invariant
            i <= n,
            n == open@.len(),
            forall|k: int| 0 <= k < i ==> open@[k] != group,
        decreases n - i,
    {
        if open[i] == group {
            return true;
        }
        i = i + 1;
    }
    false
}

fn with_group(open: &Vec<usize>, group: usize) -> (out: Vec<usize>)
    ensures
        out@ == open@.push(group),
{
    let mut out: Vec<usize> = Vec::new();
    let n: usize = open.len();
    let mut i: usize = 0;
    while i < n
        invariant
            i <= n,
            n == open@.len(),
            out@ == open@.subrange(0, i as int),
        decreases n - i,
    {
        out.push(open[i]);
        i = i + 1;
        assert(out@ =~= open@.subrange(0, i as int));
    }
    assert(open@.subrange(0, n as int) =~= open@);
    out.push(group);
    out
}

/// Adds to `out` the trees that the members stand for.
fn expand_members(
    config: &Configuration,
    members: &Vec<String>,
    open: &Vec<usize>,
    depth: usize,
    out: &mut Vec<TreeIndex>,
)
    ensures
        final(out)@ == old(out)@ + spec_members(
            *config,
            members@,
            members@.len() as int,
            open@,
            depth as nat,
        ),
    decreases depth,
{
    let n: usize = members.len();
    let mut i: usize = 0;
    assert(out@ =~= old(out)@ + spec_members(*config, members@, 0, open@, depth as nat));
    while i < n
        invariant
            i <= n,
            n == members@.len(),
            out@ == old(out)@ + spec_members(*config, members@, i as int, open@, depth as nat),
        decreases n - i,
    {
        let ghost before = out@;
        let name = members[i].as_str();
        let tree = find_tree(config, name);
        let mut expanded = false;
        if tree < config.trees.len() {
            out.push(tree);
            expanded = true;
            assert(out@ =~= before + seq![tree]);
        } else if depth > 0 {
            let group = find_group(config, name);
            if group < config.groups.len() && !is_open(open, group) {
                let inner = with_group(open, group);
                expand_members(config, &config.groups[group].members, &inner, depth - 1, out);
                expanded = true;
            }
        }
        if !expanded {
            assert(out@ =~= before + Seq::<TreeIndex>::empty());
        }
        i = i + 1;
        assert(out@ =~= old(out)@ + spec_members(
            *config,
            members@,
            i as int,
            open@,
            depth as nat,
        ));
    }
}

/// The trees of the garden at position `garden`, in the order in which the
/// garden names them; none where there is no such garden.
pub fn garden_trees(config: &Configuration, garden: usize) -> (out: Vec<TreeIndex>)
    ensures
        out@ == if garden < config.gardens@.len() {
            spec_garden_trees(*config, config.gardens@[garden as int])
        } else {
            Seq::<TreeIndex>::empty()
        },
{
    let mut out: Vec<TreeIndex> = Vec::new();
    if garden >= config.gardens.len() {
        return out;
    }
    let none: Vec<usize> = Vec::new();
    expand_members(config, &config.gardens[garden].trees, &none, 0, &mut out);
    let names = &config.gardens[garden].groups;
    let ghost listed = out@;
    let n: usize = names.len();
    let mut i: usize = 0;
    assert(out@ =~= listed + spec_groups_members(*config, names@, 0));
    while i < n
        invariant
            i <= n,
            n == names@.len(),
            out@ == listed + spec_groups_members(*config, names@, i as int),
        decreases n - i,
    {
        let ghost before = out@;
        let group = find_group(config, names[i].as_str());
        if group < config.groups.len() {
            let found = group_trees(config, group);
            push_all(&mut out, &found);
        } else {
            assert(out@ =~= before + Seq::<TreeIndex>::empty());
        }
        i = i + 1;
        assert(out@ =~= listed + spec_groups_members(*config, names@, i as int));
    }
    assert(listed =~= spec_members(
        *config,
        config.gardens@[garden as int].trees@,
        config.gardens@[garden as int].trees@.len() as int,
        Seq::<usize>::empty(),
        0,
    ));
    out
}

fn push_all(out: &mut Vec<TreeIndex>, more: &Vec<TreeIndex>)
    ensures
        final(out)@ == old(out)@ + more@,
{
    let n: usize = more.len();
    let mut i: usize = 0;
    assert(out@ =~= old(out)@ + more@.subrange(0, 0));
    while i < n
        invariant
            i <= n,
            n == more@.len(),
            out@ == old(out)@ + more@.subrange(0, i as int),
        decreases n - i,
    {
        out.push(more[i]);
        i = i + 1;
        assert(out@ =~= old(out)@ + more@.subrange(0, i as int));
    }
    assert(more@.subrange(0, n as int) =~= more@);
}

/// The trees of the group at position `group`, in the order in which its
/// members name them; none where there is no such group.
pub fn group_trees(config: &Configuration, group: usize) -> (out: Vec<TreeIndex>)
    ensures
        out@ == if group < config.groups@.len() {
            spec_group_trees(*config, group as int)
        } else {
            Seq::<TreeIndex>::empty()
        },
{
    let mut out: Vec<TreeIndex> = Vec::new();
    if group >= config.groups.len() {
        return out;
    }
    let none: Vec<usize> = Vec::new();
    let open = with_group(&none, group);
    assert(open@ =~= seq![group]);
    expand_members(config, &config.groups[group].members, &open, config.groups.len(), &mut out);
    assert(out@ =~= spec_group_trees(*config, group as int));
    out
}

fn push_contexts(
    out: &mut Vec<TreeContext>,
    trees: &Vec<TreeIndex>,
    config: Option<ConfigId>,
    garden: Option<usize>,
    group: Option<usize>,
)
    ensures
        final(out)@ == old(out)@ + spec_contexts(trees@, config, garden, group),
{
    let n: usize = trees.len();
    let mut i: usize = 0;
    assert(out@ =~= old(out)@ + spec_contexts(trees@.subrange(0, 0), config, garden, group));
    while i < n
        invariant
            i <= n,
            n == trees@.len(),
            out@ == old(out)@ + spec_contexts(trees@.subrange(0, i as int), config, garden, group),
        decreases n - i,
    {
        out.push(TreeContext::new(trees[i], config, garden, group));
        i = i + 1;
        assert(out@ =~= old(out)@ + spec_contexts(
            trees@.subrange(0, i as int),
            config,
            garden,
            group,
        ));
    }
    assert(trees@.subrange(0, n as int) =~= trees@);
}

fn hit(hits: &Vec<bool>, i: usize) -> (res: bool)
    ensures
        res == is_hit(hits@, i as int),
{
    i < hits.len() && hits[i]
}

/// The contexts of the gardens that were matched.
pub fn garden_contexts(config: &Configuration, hits: &Vec<bool>) -> (out: Vec<TreeContext>)
    ensures
        out@ == spec_garden_contexts(*config, hits@, config.gardens@.len() as int),
{
    let mut out: Vec<TreeContext> = Vec::new();
    let n: usize = config.gardens.len();
    let mut i: usize = 0;
    while i < n
        invariant
            i <= n,
            n == config.gardens@.len(),
            out@ == spec_garden_contexts(*config, hits@, i as int),
        decreases n - i,
    {
        let ghost before = out@;
        if hit(hits, i) {
            let trees = garden_trees(config, i);
            push_contexts(&mut out, &trees, config.id, Some(i), None);
        } else {
            assert(out@ =~= before + Seq::<TreeContext>::empty());
        }
        i = i + 1;
    }
    out
}

/// The contexts of the groups that were matched.
pub fn group_contexts(config: &Configuration, hits: &Vec<bool>) -> (out: Vec<TreeContext>)
    ensures
        out@ == spec_group_contexts(*config, hits@, config.groups@.len() as int),
{
    let mut out: Vec<TreeContext> = Vec::new();
    let n: usize = config.groups.len();
    let mut i: usize = 0;
    while i < n
        invariant
            i <= n,
            n == config.groups@.len(),
            out@ == spec_group_contexts(*config, hits@, i as int),
        decreases n - i,
    {
        let ghost before = out@;
        if hit(hits, i) {
            let trees = group_trees(config, i);
            push_contexts(&mut out, &trees, config.id, None, Some(i));
        } else {
            assert(out@ =~= before + Seq::<TreeContext>::empty());
        }
        i = i + 1;
    }
    out
}

/// The contexts of the trees that were matched.
pub fn tree_contexts(config: &Configuration, hits: &Vec<bool>) -> (out: Vec<TreeContext>)
    ensures
        out@ == spec_tree_contexts(*config, hits@, config.trees@.len() as int),
{
    let mut out: Vec<TreeContext> = Vec::new();
    let n: usize = config.trees.len();
    let mut i: usize = 0;
    while i < n
        invariant
            i <= n,
            n == config.trees@.len(),
            out@ == spec_tree_contexts(*config, hits@, i as int),
        decreases n - i,
    {
        let ghost before = out@;
        if hit(hits, i) {
            out.push(TreeContext::new(i, config.id, None, None));
            assert(out@ =~= before + seq![
                TreeContext { tree: i, config: config.id, garden: None, group: None },
            ]);
        } else {
            assert(out@ =~= before + Seq::<TreeContext>::empty());
        }
        i = i + 1;
    }
    out
}

/// The contexts of a query, given which gardens, groups and trees its pattern
/// matched.
pub fn select_contexts(
    config: &Configuration,
    garden_hits: &Vec<bool>,
    group_hits: &Vec<bool>,
    tree_hits: &Vec<bool>,
    is_garden: bool,
    is_group: bool,
    is_tree: bool,
) -> (out: Vec<TreeContext>)
    ensures
        out@ == spec_kind_contexts(
            *config,
            garden_hits@,
            group_hits@,
            tree_hits@,
            is_garden,
            is_group,
            is_tree,
        ),
{
    if is_garden {
        return garden_contexts(config, garden_hits);
    }
    if is_group {
        return group_contexts(config, group_hits);
    }
    if is_tree {
        return tree_contexts(config, tree_hits);
    }
    let gardens = garden_contexts(config, garden_hits);
    if gardens.len() > 0 {
        return gardens;
    }
    let groups = group_contexts(config, group_hits);
    if groups.len() > 0 {
        return groups;
    }
    tree_contexts(config, tree_hits)
}

/// Which of the trees the pattern matches.
pub fn tree_hits(config: &Configuration, pattern: &str) -> (hits: Vec<bool>)
    requires
        glob_compiles(pattern@),
    ensures
        hits@ == spec_hits(pattern@, tree_names(config.trees@)),
{
    let mut hits: Vec<bool> = Vec::new();
    let n: usize = config.trees.len();
    let mut i: usize = 0;
    while i < n
        invariant
            i <= n,
            n == config.trees@.len(),
            glob_compiles(pattern@),
            hits@.len() == i,
            forall|k: int|
                0 <= k < i ==> hits@[k] == glob_matches(pattern@, config.trees@[k].name@),
        decreases n - i,
    {
        hits.push(pattern_matches(pattern, config.trees[i].name.as_str()));
        i = i + 1;
    }
    assert(hits@ =~= spec_hits(pattern@, tree_names(config.trees@)));
    hits
}

/// Which of the groups the pattern matches.
pub fn group_hits(config: &Configuration, pattern: &str) -> (hits: Vec<bool>)
    requires
        glob_compiles(pattern@),
    ensures
        hits@ == spec_hits(pattern@, group_names(config.groups@)),
{
    let mut hits: Vec<bool> = Vec::new();
    let n: usize = config.groups.len();
    let mut i: usize = 0;
    while i < n
        invariant
            i <= n,
            n == config.groups@.len(),
            glob_compiles(pattern@),
            hits@.len() == i,
            forall|k: int|
                0 <= k < i ==> hits@[k] == glob_matches(pattern@, config.groups@[k].name@),
        decreases n - i,
    {
        hits.push(pattern_matches(pattern, config.groups[i].name.as_str()));
        i = i + 1;
    }
    assert(hits@ =~= spec_hits(pattern@, group_names(config.groups@)));
    hits
}

/// Which of the gardens the pattern matches.
pub fn garden_hits(config: &Configuration, pattern: &str) -> (hits: Vec<bool>)
    requires
        glob_compiles(pattern@),
    ensures
        hits@ == spec_hits(pattern@, garden_names(config.gardens@)),
{
    let mut hits: Vec<bool> = Vec::new();
    let n: usize = config.gardens.len();
    let mut i: usize = 0;
    while i < n
        invariant
            i <= n,
            n == config.gardens@.len(),
            glob_compiles(pattern@),
            hits@.len() == i,
            forall|k: int|
                0 <= k < i ==> hits@[k] == glob_matches(pattern@, config.gardens@[k].name@),
        decreases n - i,
    {
        hits.push(pattern_matches(pattern, config.gardens[i].name.as_str()));
        i = i + 1;
    }
    assert(hits@ =~= spec_hits(pattern@, garden_names(config.gardens@)));
    hits
}

/// The contexts that a pattern names, for a query of the given kind.
pub open spec fn spec_pattern_contexts(
    cfg: Configuration,
    pattern: Seq<char>,
    is_garden: bool,
    is_group: bool,
    is_tree: bool,
) -> Seq<TreeContext> {
    spec_kind_contexts(
        cfg,
        spec_hits(pattern, garden_names(cfg.gardens@)),
        spec_hits(pattern, group_names(cfg.groups@)),
        spec_hits(pattern, tree_names(cfg.trees@)),
        is_garden,
        is_group,
        is_tree,
    )
}

/// The contexts that a query names.
pub open spec fn spec_query_contexts(cfg: Configuration, query: TreeQuery) -> Seq<TreeContext> {
    spec_pattern_contexts(cfg, query.pattern@, query.is_garden, query.is_group, query.is_tree)
}

/// The contexts that a selector names: those of its reading as a query, and
/// none where its pattern is not valid.
pub open spec fn spec_resolve(cfg: Configuration, selector: Seq<char>) -> Seq<TreeContext> {
    if glob_compiles(spec_trim(selector)) {
        spec_pattern_contexts(
            cfg,
            spec_trim(selector),
            spec_is_garden(selector),
            spec_is_group(selector),
            spec_is_tree(selector),
        )
    } else {
        Seq::<TreeContext>::empty()
    }
}

/// The contexts that a parsed query names.
pub fn resolve_query(config: &Configuration, query: &TreeQuery) -> (out: Vec<TreeContext>)
    requires
        glob_compiles(query.pattern@),
    ensures
        out@ == spec_query_contexts(*config, *query),
{
    let pattern = query.pattern.as_str();
    let gardens = garden_hits(config, pattern);
    let groups = group_hits(config, pattern);
    let trees = tree_hits(config, pattern);
    select_contexts(
        config,
        &gardens,
        &groups,
        &trees,
        query.is_garden,
        query.is_group,
        query.is_tree,
    )
}

/// The contexts that a selector names, in order. A selector whose pattern is
/// not valid names nothing.
pub fn resolve_trees(config: &Configuration, selector: &str) -> (out: Vec<TreeContext>)
    ensures
        out@ == spec_resolve(*config, selector@),
{
    match TreeQuery::parse(selector) {
        Some(query) => resolve_query(config, &query),
        None => Vec::new(),
    }
}

/// The tree of the first tree of the name, marker aside, with the first garden
/// of the given name if one is given; a configuration error where the tree or
/// the garden does not exist.
pub fn tree_context(config: &Configuration, tree: &str, garden: Option<&str>) -> (res: Result<
    TreeContext,
    GardenError,
>)
    ensures
        match res {
            Ok(ctx) => {
                &&& ctx.tree == spec_position(tree_names(config.trees@), spec_trim(tree@))
                &&& ctx.tree < config.trees@.len()
                &&& ctx.config == config.id
                &&& ctx.group is None
                &&& match garden {
                    Some(name) => ctx.garden == Some(
                        spec_position(garden_names(config.gardens@), spec_trim(name@)) as usize,
                    ) && ctx.garden->0 < config.gardens@.len(),
                    None => ctx.garden is None,
                }
            },
            Err(e) => {
                &&& e matches GardenError::ConfigurationError(m) && m@ == if spec_position(
                    tree_names(config.trees@),
                    spec_trim(tree@),
                ) == config.trees@.len() {
                    "unable to find tree: "@ + tree@
                } else {
                    "unable to find garden: "@ + garden->0@
                }
                &&& spec_position(tree_names(config.trees@), spec_trim(tree@))
                    == config.trees@.len() || (garden is Some && spec_position(
                    garden_names(config.gardens@),
                    spec_trim(garden->0@),
                ) == config.gardens@.len())
            },
        },
{
    let at = find_tree(config, trim(tree));
    if at >= config.trees.len() {
        let mut msg = String::from_str("unable to find tree: ");
        msg.append(tree);
        return Err(GardenError::ConfigurationError(msg));
    }
    match garden {
        Some(name) => {
            let g = find_garden(config, trim(name));
            if g >= config.gardens.len() {
                let mut msg = String::from_str("unable to find garden: ");
                msg.append(name);
                return Err(GardenError::ConfigurationError(msg));
            }
            Ok(TreeContext::new(at, config.id, Some(g), None))
        },
        None => Ok(TreeContext::new(at, config.id, None, None)),
    }
}

/// The position of the first tree whose resolved path is `path`, among the
/// first `n`; `n` where there is none.
pub open spec fn spec_tree_at_path(trees: Seq<Tree>, path: Seq<char>, n: int) -> int
    decreases n,
{
    if n <= 0 || n > trees.len() {
        0
    } else {
        let before = spec_tree_at_path(trees, path, n - 1);
        if before < n - 1 {
            before
        } else if trees[n - 1].path.value is Some && trees[n - 1].path.value->0@ == path {
            n - 1
        } else {
            n
        }
    }
}

proof fn lemma_tree_at_path_stays(trees: Seq<Tree>, path: Seq<char>, n: int, m: int)
    requires
        0 <= n <= m <= trees.len(),
        spec_tree_at_path(trees, path, n) < n,
    ensures
        spec_tree_at_path(trees, path, m) == spec_tree_at_path(trees, path, n),
    decreases m - n,
{
    if n < m {
        lemma_tree_at_path_stays(trees, path, n, m - 1);
    }
}

/// The name of the first tree whose resolved path is `path`.
pub fn tree_name_from_abspath(config: &Configuration, path: &str) -> (name: Option<String>)
    ensures
        match name {
            Some(found) => {
                let at = spec_tree_at_path(config.trees@, path@, config.trees@.len() as int);
                0 <= at < config.trees@.len() && found@ == config.trees@[at].name@
            },
            None => spec_tree_at_path(config.trees@, path@, config.trees@.len() as int)
                == config.trees@.len(),
        },
{
    let n: usize = config.trees.len();
    let mut i: usize = 0;
    while i < n
        invariant
            i <= n,
            n == config.trees@.len(),
            spec_tree_at_path(config.trees@, path@, i as int) == i,
        decreases n - i,
    {
        let hit = match config.trees[i].path.get_value() {
            Some(value) => str_eq(value.as_str(), path),
            None => false,
        };
        if hit {
            proof {
                lemma_tree_at_path_stays(config.trees@, path@, i as int + 1, n as int);
            }
            return Some(copy_of(config.trees[i].name.as_str()));
        }
        i = i + 1;
    }
    None
}

/// Where none of the first `n` trees was matched, they yield no context.
pub proof fn lemma_no_tree_matches(cfg: Configuration, hits: Seq<bool>, n: int)
    requires
        0 <= n <= cfg.trees@.len(),
        forall|i: int| 0 <= i < n ==> !is_hit(hits, i),
    ensures
        spec_tree_contexts(cfg, hits, n).len() == 0,
    decreases n,
{
    if n > 0 {
        lemma_no_tree_matches(cfg, hits, n - 1);
    }
}

/// Where none of the first `n` groups was matched, they yield no context.
pub proof fn lemma_no_group_matches(cfg: Configuration, hits: Seq<bool>, n: int)
    requires
        0 <= n <= cfg.groups@.len(),
        forall|i: int| 0 <= i < n ==> !is_hit(hits, i),
    ensures
        spec_group_contexts(cfg, hits, n).len() == 0,
    decreases n,
{
    if n > 0 {
        lemma_no_group_matches(cfg, hits, n - 1);
    }
}

/// Where none of the first `n` gardens was matched, they yield no context.
pub proof fn lemma_no_garden_matches(cfg: Configuration, hits: Seq<bool>, n: int)
    requires
        0 <= n <= cfg.gardens@.len(),
        forall|i: int| 0 <= i < n ==> !is_hit(hits, i),
    ensures
        spec_garden_contexts(cfg, hits, n).len() == 0,
    decreases n,
{
    if n > 0 {
        lemma_no_garden_matches(cfg, hits, n - 1);
    }
}

/// A selector whose pattern matches no garden, no group and no tree names the
/// empty sequence of contexts.
pub proof fn lemma_nothing_matches(cfg: Configuration, selector: Seq<char>)
    requires
        forall|i: int|
            0 <= i < cfg.trees@.len() ==> !glob_matches(
                spec_trim(selector),
                #[trigger] cfg.trees@[i].name@,
            ),
        forall|i: int|
            0 <= i < cfg.groups@.len() ==> !glob_matches(
                spec_trim(selector),
                #[trigger] cfg.groups@[i].name@,
            ),
        forall|i: int|
            0 <= i < cfg.gardens@.len() ==> !glob_matches(
                spec_trim(selector),
                #[trigger] cfg.gardens@[i].name@,
            ),
    ensures
        spec_resolve(cfg, selector).len() == 0,
{
    let pattern = spec_trim(selector);
    lemma_no_tree_matches(cfg, spec_hits(pattern, tree_names(cfg.trees@)), cfg.trees@.len() as int);
    lemma_no_group_matches(
        cfg,
        spec_hits(pattern, group_names(cfg.groups@)),
        cfg.groups@.len() as int,
    );
    lemma_no_garden_matches(
        cfg,
        spec_hits(pattern, garden_names(cfg.gardens@)),
        cfg.gardens@.len() as int,
    );
}

/// Where the tree at `at` was matched and no other, the first `n` trees yield
/// the context of that tree once `n` reaches past it, and none before.
pub proof fn lemma_one_tree_matches(cfg: Configuration, hits: Seq<bool>, at: int, n: int)
    requires
        0 <= at < cfg.trees@.len(),
        0 <= n <= cfg.trees@.len(),
        forall|i: int| 0 <= i < cfg.trees@.len() ==> (is_hit(hits, i) <==> i == at),
    ensures
        spec_tree_contexts(cfg, hits, n) == if n <= at {
            Seq::<TreeContext>::empty()
        } else {
            seq![TreeContext { tree: at as usize, config: cfg.id, garden: None, group: None }]
        },
    decreases n,
{
    if n > 0 {
        lemma_one_tree_matches(cfg, hits, at, n - 1);
        let ctx = TreeContext { tree: at as usize, config: cfg.id, garden: None, group: None };
        if n - 1 == at {
            assert(Seq::<TreeContext>::empty() + seq![ctx] =~= seq![ctx]);
        } else if n - 1 > at {
            assert(seq![ctx] + Seq::<TreeContext>::empty() =~= seq![ctx]);
        } else {
            assert(Seq::<TreeContext>::empty() + Seq::<TreeContext>::empty() =~= Seq::<
                TreeContext,
            >::empty());
        }
    }
}

/// A selector marked as a tree, whose pattern matches exactly one tree, names
/// exactly one context: that tree, with no garden and no group.
pub proof fn lemma_tree_query_names_one(cfg: Configuration, selector: Seq<char>, at: int)
    requires
        spec_is_tree(selector),
        glob_compiles(spec_trim(selector)),
        0 <= at < cfg.trees@.len(),
        forall|i: int|
            0 <= i < cfg.trees@.len() ==> (glob_matches(
                spec_trim(selector),
                #[trigger] cfg.trees@[i].name@,
            ) <==> i == at),
    ensures
        spec_resolve(cfg, selector) == seq![
            TreeContext { tree: at as usize, config: cfg.id, garden: None, group: None },
        ],
{
    let hits = spec_hits(spec_trim(selector), tree_names(cfg.trees@));
    assert forall|i: int| 0 <= i < cfg.trees@.len() implies (is_hit(hits, i) <==> i == at) by {
        assert(hits[i] == glob_matches(spec_trim(selector), cfg.trees@[i].name@));
    }
    lemma_one_tree_matches(cfg, hits, at, cfg.trees@.len() as int);
}

/// Every context that a garden query names carries a garden that the pattern
/// matched, and no group: a tree of two matched gardens is named once for each,
/// and the two contexts differ in their garden.
pub proof fn lemma_garden_contexts_carry_garden(cfg: Configuration, hits: Seq<bool>, n: int, k: int)
    requires
        0 <= n <= cfg.gardens@.len() <= usize::MAX,
        0 <= k < spec_garden_contexts(cfg, hits, n).len(),
    ensures
        spec_garden_contexts(cfg, hits, n)[k].garden is Some,
        spec_garden_contexts(cfg, hits, n)[k].garden->0 < n,
        is_hit(hits, spec_garden_contexts(cfg, hits, n)[k].garden->0 as int),
        spec_garden_contexts(cfg, hits, n)[k].group is None,
        spec_garden_contexts(cfg, hits, n)[k].config == cfg.id,
    decreases n,
{
    if n > 0 {
        let before = spec_garden_contexts(cfg, hits, n - 1);
        if k < before.len() {
            lemma_garden_contexts_carry_garden(cfg, hits, n - 1, k);
        } else {
            let last = spec_contexts(
                spec_garden_trees(cfg, cfg.gardens@[n - 1]),
                cfg.id,
                Some((n - 1) as usize),
                None,
            );
            assert(is_hit(hits, n - 1));
            assert(spec_garden_contexts(cfg, hits, n)[k] == last[k - before.len()]);
        }
    }
}

} // verus!
