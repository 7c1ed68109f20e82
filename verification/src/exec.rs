//! The orchestrator of a run over many trees: which contexts are run, and how
//! their exit statuses come to one.
//!
//! Nothing is launched here. The caller runs the command in each context that
//! `exec` names, in order, and hands each exit status to `fold_status`.

use vstd::prelude::*;
use vstd::string::*;

use crate::display::{display_tree, is_display_tree};
use crate::errors::GardenError;
use crate::eval::{
    are_pairs_of, environment, is_environment_of, overlaid, spec_environment,
    spec_environment_entries, Answer,
};
use crate::model::{Configuration, TreeContext};
use crate::query::{resolve_trees, spec_resolve};
use crate::setup::{fresh, lemma_reset_keeps_paths};
use crate::text::copy_of;

verus! {

/// The last of the first `n` statuses that is not zero; zero where all are.
pub open spec fn spec_last_nonzero(statuses: Seq<i32>, n: int) -> i32
    decreases n,
{
    if n <= 0 || n > statuses.len() {
        0i32
    } else if statuses[n - 1] != 0 {
        statuses[n - 1]
    } else {
        spec_last_nonzero(statuses, n - 1)
    }
}

/// The status of a run after one more context: the new status unless it is
/// zero.
pub fn fold_status(last: i32, status: i32) -> (out: i32)
    ensures
        out == if status != 0 {
            status
        } else {
            last
        },
{
    if status != 0 {
        status
    } else {
        last
    }
}

/// The status of a whole run: the last status that is not zero, or zero.
pub fn aggregate(statuses: &Vec<i32>) -> (out: i32)
    ensures
        out == spec_last_nonzero(statuses@, statuses@.len() as int),
{
    let mut last: i32 = 0;
    let n: usize = statuses.len();
    let mut i: usize = 0;
    while i < n
        invariant
            i <= n,
            n == statuses@.len(),
            last == spec_last_nonzero(statuses@, i as int),
        decreases n - i,
    {
        last = fold_status(last, statuses[i]);
        i = i + 1;
    }
    last
}

/// A run in which every context succeeds has status zero, and any other run
/// has the status of a context that failed.
pub proof fn lemma_last_nonzero(statuses: Seq<i32>, n: int)
    requires
        0 <= n <= statuses.len(),
    ensures
        spec_last_nonzero(statuses, n) == 0 <==> forall|i: int| 0 <= i < n ==> statuses[i] == 0,
        spec_last_nonzero(statuses, n) != 0 ==> exists|i: int|
            0 <= i < n && statuses[i] == spec_last_nonzero(statuses, n) && forall|k: int|
                i < k < n ==> statuses[k] == 0,
    decreases n,
{
    if n > 0 {
        lemma_last_nonzero(statuses, n - 1);
        if statuses[n - 1] != 0 {
            assert(0 <= n - 1 < n && statuses[n - 1] == spec_last_nonzero(statuses, n));
        } else if spec_last_nonzero(statuses, n) != 0 {
            let i = choose|i: int|
                0 <= i < n - 1 && statuses[i] == spec_last_nonzero(statuses, n - 1) && forall|
                    k: int,
                |
                    i < k < n - 1 ==> statuses[k] == 0;
            assert(0 <= i < n && statuses[i] == spec_last_nonzero(statuses, n) && forall|k: int|
                i < k < n ==> statuses[k] == 0);
        }
    }
}

/// The exit status that stands for the end of a child process: its exit code
/// where it exited, and 1 where it was not launched or did not exit by itself.
pub fn get_status(exited: Option<u32>) -> (status: i32)
    ensures
        status == match exited {
            Some(code) => code as i32,
            None => 1i32,
        },
{
    match exited {
        Some(code) => code as i32,
        None => 1,
    }
}

/// Success for status zero; for any other, the request to leave with it.
pub fn result_from_exit_status(status: i32) -> (res: Result<(), GardenError>)
    ensures
        status == 0 ==> res is Ok,
        status != 0 ==> res == Err::<(), GardenError>(GardenError::ExitStatus(status)),
{
    if status == 0 {
        Ok(())
    } else {
        Err(GardenError::ExitStatus(status))
    }
}

/// Whether the context is run: its tree exists and is no mere symlink.
pub open spec fn spec_is_run(cfg: Configuration, ctx: TreeContext) -> bool {
    ctx.tree < cfg.trees@.len() && !cfg.trees@[ctx.tree as int].is_symlink
}

/// The contexts that a selector names and that are run, in order.
pub open spec fn spec_plan(cfg: Configuration, selector: Seq<char>) -> Seq<TreeContext> {
    spec_resolve(cfg, selector).filter(|ctx: TreeContext| spec_is_run(cfg, ctx))
}

/// The message of the usage error for a run without a command.
pub open spec fn spec_no_command() -> Seq<char> {
    "a command to execute must be specified"@
}

/// The contexts in which `command` is to be run, in order: those that the
/// selector names, but for trees that are mere symlinks. A usage error where
/// there is no command, whatever the selector names.
pub fn exec(config: &Configuration, query: &str, command: &Vec<String>) -> (res: Result<
    Vec<TreeContext>,
    GardenError,
>)
    ensures
        command@.len() == 0 ==> res is Err && (res->Err_0 matches GardenError::Usage(m) && m@
            == spec_no_command()),
        command@.len() > 0 ==> res is Ok && res->Ok_0@ == spec_plan(*config, query@),
{
    if command.len() == 0 {
        return Err(
            GardenError::Usage(String::from_str("a command to execute must be specified")),
        );
    }
    let contexts = resolve_trees(config, query);
    let mut out: Vec<TreeContext> = Vec::new();
    let n: usize = contexts.len();
    let mut i: usize = 0;
    let ghost keep = |ctx: TreeContext| spec_is_run(*config, ctx);
    assert(contexts@.subrange(0, 0).filter(keep) =~= Seq::<TreeContext>::empty()) by {
        reveal(Seq::filter);
    }
    while i < n
        invariant
            i <= n,
            n == contexts@.len(),
            keep == |ctx: TreeContext| spec_is_run(*config, ctx),
            out@ == contexts@.subrange(0, i as int).filter(keep),
        decreases n - i,
    {
        let ctx = contexts[i];
        proof {
            let prefix = contexts@.subrange(0, i as int);
            assert(contexts@.subrange(0, i + 1) =~= prefix.push(ctx));
            assert(prefix.push(ctx).drop_last() =~= prefix);
            reveal(Seq::filter);
        }
        if ctx.tree < config.trees.len() && !config.trees[ctx.tree].is_symlink {
            out.push(ctx);
        }
        i = i + 1;
    }
    assert(contexts@.subrange(0, n as int) =~= contexts@);
    Ok(out)
}

/// No context of a plan has a tree that is a mere symlink: such a tree is never
/// run, whether the selector names it or not.
pub proof fn lemma_plan_skips_symlinks(cfg: Configuration, selector: Seq<char>)
    ensures
        forall|k: int|
            0 <= k < spec_plan(cfg, selector).len() ==> spec_is_run(
                cfg,
                #[trigger] spec_plan(cfg, selector)[k],
            ),
{
    let keep = |ctx: TreeContext| spec_is_run(cfg, ctx);
    let plan = spec_resolve(cfg, selector).filter(keep);
    assert forall|k: int| 0 <= k < plan.len() implies spec_is_run(cfg, #[trigger] plan[k]) by {
        spec_resolve(cfg, selector).lemma_filter_pred(keep, k);
    }
}


/// What the caller is to do for one context.
#[derive(Clone, Debug)]
pub enum Step {
    /// Nothing: the tree is a mere symlink, or has no resolved path.
    Skip,
    /// Run this command, add its output to the answers, and ask again.
    Launch(String),
    /// Run the command of the user as this says.
    Run(Invocation),
}

/// How the command is run in one tree.
#[derive(Clone, Debug)]
pub struct Invocation {
    /// The working directory: the path of the tree.
    pub path: String,
    /// What is laid over the inherited environment, in this order.
    pub environment: Vec<(String, String)>,
    /// The line to print before the run, unless the run is quiet.
    pub banner: Option<String>,
}

/// Whether the context is prepared: it is run, and the path of its tree is
/// resolved.
pub open spec fn spec_is_prepared(cfg: Configuration, ctx: TreeContext) -> bool {
    spec_is_run(cfg, ctx) && cfg.trees@[ctx.tree as int].path.value is Some
}

/// What `exec_in_context` owes for a context that is prepared. The
/// configuration is reset, and the environment of the context is evaluated in
/// the reset configuration: `after` holds the values cached by that, and the
/// step is to launch the command that the environment asks for, or to run in
/// the path of the tree with the environment that was evaluated.
pub open spec fn spec_step(
    before: Configuration,
    after: Configuration,
    context: TreeContext,
    quiet: bool,
    verbose: bool,
    answers: Seq<Answer>,
    step: Step,
) -> bool {
    exists|reset: Configuration| #[trigger]
        fresh(reset, before) && {
            let tree = before.trees@[context.tree as int];
            let entries = spec_environment_entries(reset, Some(context.tree), context.garden);
            let traced = spec_environment(reset, context.tree, context.garden, answers);
            &&& overlaid(after, reset, traced.0)
            &&& match traced.1 {
                Err(command) => step matches Step::Launch(asked) && asked@ == command,
                Ok(values) => step matches Step::Run(run) && {
                    &&& run.path@ == tree.path.value->0@
                    &&& are_pairs_of(run.environment@, entries, values)
                    &&& is_environment_of(
                        run.environment@,
                        entries,
                        reset,
                        Some(context.tree),
                        context.garden,
                        answers,
                        entries.len() as int,
                    )
                    &&& match run.banner {
                        Some(line) => !quiet && is_display_tree(
                            line@,
                            tree.name@,
                            run.path@,
                            verbose,
                        ),
                        None => quiet,
                    }
                },
            }
        }
}

/// Prepares the run of the command in one context. A tree that is a mere
/// symlink, or whose path is unresolved, is skipped: nothing is evaluated for
/// it and the configuration is left as it is. For any other, the configuration
/// is reset, so that nothing cached for an earlier context is seen, and the
/// environment of the context is evaluated.
pub fn exec_in_context(
    config: &mut Configuration,
    context: &TreeContext,
    quiet: bool,
    verbose: bool,
    answers: &Vec<Answer>,
) -> (step: Step)
    ensures
        !spec_is_prepared(*old(config), *context) ==> step is Skip && *final(config) == *old(
            config,
        ),
        spec_is_prepared(*old(config), *context) ==> spec_step(
            *old(config),
            *final(config),
            *context,
            quiet,
            verbose,
            answers@,
            step,
        ),
{
    if context.tree >= config.trees.len() || config.trees[context.tree].is_symlink {
        return Step::Skip;
    }
    let path = match config.trees[context.tree].path.get_value() {
        Some(value) => copy_of(value.as_str()),
        None => {
            return Step::Skip;
        },
    };
    config.reset();
    let ghost reset = *config;
    proof {
        lemma_reset_keeps_paths(reset, *old(config), context.tree as int);
    }
    let env = match environment(config, context, answers) {
        Ok(env) => env,
        Err(command) => {
            assert(fresh(reset, *old(config)));
            return Step::Launch(command);
        },
    };
    assert(config.trees@[context.tree as int].name == reset.trees@[context.tree as int].name);
    let banner = if quiet {
        None
    } else {
        Some(display_tree(&config.trees[context.tree], path.as_str(), verbose))
    };
    assert(fresh(reset, *old(config)));
    Step::Run(Invocation { path, environment: env, banner })
}

} // verus!
