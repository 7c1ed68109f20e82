//! The forest of configurations: a root, and the configurations grafted onto
//! it, each known by a handle. The forest is kept in an `indextree` arena.

use vstd::prelude::*;

use crate::model::{CommandOptions, ConfigId, Configuration};

verus! {

/// `indextree::Arena`, whose nodes are read and changed only through the
/// functions below.
#[verifier::external_type_specification]
#[verifier::external_body]
#[verifier::reject_recursive_types(T)]
pub struct ExArena<T>(indextree::Arena<T>);

/// The configurations that an arena holds, in the order in which they were
/// added. The handle of a configuration is its position here, counted from 1.
pub uninterp spec fn arena_nodes(arena: indextree::Arena<Configuration>) -> Seq<Configuration>;

/// The handle of the parent of each configuration of an arena, in the same
/// order; `None` for one that has no parent.
pub uninterp spec fn arena_parents(arena: indextree::Arena<Configuration>) -> Seq<Option<usize>>;

/// No node was ever removed from the arena, so that none of its slots is free
/// for reuse.
pub uninterp spec fn arena_intact(arena: indextree::Arena<Configuration>) -> bool;

/// `Arena::clone`: nothing is stated of the copy.
pub assume_specification<T>[ <indextree::Arena<T> as Clone>::clone ](
    arena: &indextree::Arena<T>,
) -> (copy: indextree::Arena<T>)
    where T: Clone,
;

/// `Arena::new`: an arena without nodes.
#[verifier::external_body]
fn arena_new() -> (arena: indextree::Arena<Configuration>)
    ensures
        arena_nodes(arena).len() == 0,
        arena_parents(arena).len() == 0,
        arena_intact(arena),
{
    indextree::Arena::new()
}

/// `Arena::new_node`: with no slot free for reuse, the node is added at the end,
/// without a parent, and its handle is the new number of nodes.
#[verifier::external_body]
fn arena_new_node(arena: &mut indextree::Arena<Configuration>, data: Configuration) -> (id: usize)
    requires
        arena_intact(*old(arena)),
        arena_nodes(*old(arena)).len() < usize::MAX,
    ensures
        arena_nodes(*final(arena)) == arena_nodes(*old(arena)).push(data),
        arena_parents(*final(arena)) == arena_parents(*old(arena)).push(None),
        arena_intact(*final(arena)),
        id == arena_nodes(*old(arena)).len() + 1,
{
    usize::from(arena.new_node(data))
}

/// `Arena::get_node_id_at` and `Arena::get_data`: the data of the node with the
/// handle. It is asked only for a handle of the arena, so that nothing panics.
#[verifier::external_body]
fn arena_get(arena: &indextree::Arena<Configuration>, id: usize) -> (data: &Configuration)
    requires
        arena_intact(*arena),
        1 <= id <= arena_nodes(*arena).len(),
    ensures
        *data == arena_nodes(*arena)[id - 1],
{
    let node = arena.get_node_id_at(core::num::NonZeroUsize::new(id).unwrap()).unwrap();
    arena.get_data(node).unwrap()
}

/// `Arena::get_node_id_at` and `Arena::get_data_mut`: the data of the node with
/// the handle, to be changed in place. Nothing else in the arena changes.
#[verifier::external_body]
fn arena_get_mut(arena: &mut indextree::Arena<Configuration>, id: usize) -> (data:
    &mut Configuration)
    requires
        arena_intact(*old(arena)),
        1 <= id <= arena_nodes(*old(arena)).len(),
    ensures
        *data == arena_nodes(*old(arena))[id - 1],
        arena_nodes(*final(arena)) == arena_nodes(*old(arena)).update(id - 1, *final(data)),
        arena_parents(*final(arena)) == arena_parents(*old(arena)),
        arena_intact(*final(arena)),
{
    let node = arena.get_node_id_at(core::num::NonZeroUsize::new(id).unwrap()).unwrap();
    arena.get_data_mut(node).unwrap()
}

/// `NodeId::append`: makes `child` the last child of `parent`. It is asked only
/// for two different nodes of the arena of which the child has no children, so
/// that the child is no ancestor of the parent and the call does not panic.
#[verifier::external_body]
fn arena_append(arena: &mut indextree::Arena<Configuration>, parent: usize, child: usize)
    requires
        arena_intact(*old(arena)),
        1 <= parent <= arena_nodes(*old(arena)).len(),
        1 <= child <= arena_nodes(*old(arena)).len(),
        parent != child,
        arena_parents(*old(arena)).len() == arena_nodes(*old(arena)).len(),
        forall|i: int|
            0 <= i < arena_parents(*old(arena)).len() ==> arena_parents(*old(arena))[i] != Some(
                child,
            ),
    ensures
        arena_nodes(*final(arena)) == arena_nodes(*old(arena)),
        arena_parents(*final(arena)) == arena_parents(*old(arena)).update(child - 1, Some(parent)),
        arena_intact(*final(arena)),
{
    let parent_id = arena.get_node_id_at(core::num::NonZeroUsize::new(parent).unwrap()).unwrap();
    let child_id = arena.get_node_id_at(core::num::NonZeroUsize::new(child).unwrap()).unwrap();
    parent_id.append(child_id, arena);
}

/// The options of an invocation, and the forest of its configurations.
#[derive(Clone, Debug)]
pub struct ApplicationContext {
    pub options: CommandOptions,
    arena: indextree::Arena<Configuration>,
    root_id: ConfigId,
}

impl ApplicationContext {
    /// The configurations of the forest, in the order in which they were added.
    /// The handle of a configuration is its position here, counted from 1.
    pub closed spec fn configs(self) -> Seq<Configuration> {
        arena_nodes(self.arena)
    }

    /// The handle of the parent of each configuration, in the same order.
    pub closed spec fn parents(self) -> Seq<Option<ConfigId>> {
        arena_parents(self.arena)
    }

    /// The options of the invocation.
    pub closed spec fn opts(self) -> CommandOptions {
        self.options
    }

    /// The handle of the root.
    pub closed spec fn root(self) -> ConfigId {
        self.root_id
    }

    /// Nothing was ever removed from the forest.
    pub closed spec fn intact(self) -> bool {
        arena_intact(self.arena)
    }

    /// The forest is well formed: the root is the first configuration and has
    /// no parent; every configuration carries its own handle and that of its
    /// parent; every other one has one parent, which was added before it. So
    /// the forest has no cycle.
    pub open spec fn wf(self) -> bool {
        &&& self.intact()
        &&& self.configs().len() > 0
        &&& self.configs().len() < usize::MAX
        &&& self.parents().len() == self.configs().len()
        &&& self.root() == 1
        &&& self.parents()[0] is None
        &&& forall|i: int|
            0 <= i < self.configs().len() ==> (#[trigger] self.configs()[i]).id == Some(
                (i + 1) as usize,
            ) && self.configs()[i].parent_id == self.parents()[i]
        &&& forall|i: int|
            1 <= i < self.parents().len() ==> (#[trigger] self.parents()[i]) is Some && 1
                <= self.parents()[i]->0 <= i
    }

    /// Whether the forest has a configuration of the handle.
    pub open spec fn has(self, id: ConfigId) -> bool {
        1 <= id <= self.configs().len()
    }

    /// How many steps lead from the configuration `id` up to the root.
    pub open spec fn spec_depth(self, id: int) -> nat
        decreases id,
    {
        if 1 < id <= self.parents().len() && self.parents()[id - 1] is Some && 1
            <= self.parents()[id - 1]->0 < id {
            1 + self.spec_depth(self.parents()[id - 1]->0 as int)
        } else {
            0
        }
    }

    /// A forest of one configuration, the root, which is given the handle 1 and
    /// no parent.
    pub fn new(config: Configuration, options: CommandOptions) -> (app: Self)
        ensures
            app.wf(),
            app.opts() == options,
            app.configs().len() == 1,
            app.configs()[0] == (Configuration { id: Some(1usize), parent_id: None, ..config }),
    {
        let mut root = config;
        root.id = Some(1);
        root.parent_id = None;
        let mut arena = arena_new();
        let root_id = arena_new_node(&mut arena, root);
        ApplicationContext { options, arena, root_id }
    }

    /// The configuration of the handle.
    pub fn get_config(&self, id: ConfigId) -> (config: &Configuration)
        requires
            self.wf(),
            self.has(id),
        ensures
            *config == self.configs()[id - 1],
    {
        arena_get(&self.arena, id)
    }

    /// The configuration of the handle, to be changed in place. The forest stays
    /// well formed as long as the handle and the parent of the configuration
    /// are left as they are.
    pub fn get_config_mut(&mut self, id: ConfigId) -> (config: &mut Configuration)
        requires
            old(self).wf(),
            old(self).has(id),
        ensures
            *config == old(self).configs()[id - 1],
            final(self).configs() == old(self).configs().update(id - 1, *final(config)),
            final(self).parents() == old(self).parents(),
            final(self).intact(),
            final(self).opts() == old(self).opts(),
            final(self).root() == old(self).root(),
    {
        arena_get_mut(&mut self.arena, id)
    }

    /// The handle of the root, which never changes.
    pub fn get_root_id(&self) -> (id: ConfigId)
        ensures
            id == self.root(),
    {
        self.root_id
    }

    /// The root configuration.
    pub fn get_root_config(&self) -> (config: &Configuration)
        requires
            self.wf(),
        ensures
            *config == self.configs()[0],
    {
        self.get_config(self.get_root_id())
    }

    /// The root configuration, to be changed in place.
    pub fn get_root_config_mut(&mut self) -> (config: &mut Configuration)
        requires
            old(self).wf(),
        ensures
            *config == old(self).configs()[0],
            final(self).configs() == old(self).configs().update(0, *final(config)),
            final(self).parents() == old(self).parents(),
            final(self).intact(),
            final(self).opts() == old(self).opts(),
            final(self).root() == old(self).root(),
    {
        let id = self.root_id;
        self.get_config_mut(id)
    }

    /// Adds a configuration as a child of `parent`, and returns its handle. The
    /// child is given its handle and its parent's; every other configuration,
    /// the root among them, is left as it is.
    pub fn add_graft(&mut self, parent: ConfigId, config: Configuration) -> (id: ConfigId)
        requires
            old(self).wf(),
            old(self).has(parent),
            old(self).configs().len() + 1 < usize::MAX,
        ensures
            final(self).wf(),
            id == old(self).configs().len() + 1,
            final(self).configs() == old(self).configs().push(
                Configuration { id: Some(id), parent_id: Some(parent), ..config },
            ),
            final(self).parents() == old(self).parents().push(Some(parent)),
            final(self).opts() == old(self).opts(),
            final(self).root() == old(self).root(),
    {
        let ghost parents = arena_parents(self.arena);
        let ghost nodes = arena_nodes(self.arena);
        let mut child = config;
        child.parent_id = Some(parent);
        let id = arena_new_node(&mut self.arena, child);
        arena_append(&mut self.arena, parent, id);
        assert(arena_parents(self.arena) =~= parents.push(Some(parent)));
        let added = arena_get_mut(&mut self.arena, id);
        added.id = Some(id);
        assert(arena_nodes(self.arena) =~= nodes.push(
            Configuration { id: Some(id), parent_id: Some(parent), ..config },
        ));
        id
    }
}

/// A change to one configuration that leaves its handle and its parent alone
/// leaves the forest well formed.
pub proof fn lemma_change_keeps_forest(
    before: ApplicationContext,
    after: ApplicationContext,
    id: int,
    changed: Configuration,
)
    requires
        before.wf(),
        1 <= id <= before.configs().len(),
        after.configs() == before.configs().update(id - 1, changed),
        after.parents() == before.parents(),
        after.intact(),
        after.root() == before.root(),
        changed.id == before.configs()[id - 1].id,
        changed.parent_id == before.configs()[id - 1].parent_id,
    ensures
        after.wf(),
{
}

/// In a well-formed forest the parent of every configuration but the root is
/// one step nearer to the root: following parents ends at the root.
pub proof fn lemma_parent_is_nearer(app: ApplicationContext, id: int)
    requires
        app.wf(),
        1 < id <= app.configs().len(),
    ensures
        app.parents()[id - 1] is Some,
        1 <= app.parents()[id - 1]->0 < id,
        app.spec_depth(id) == app.spec_depth(app.parents()[id - 1]->0 as int) + 1,
        app.spec_depth(1) == 0,
{
}

} // verus!
