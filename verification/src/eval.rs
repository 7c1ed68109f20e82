//! The evaluator: substitutes `${name}` references, caches what each variable
//! evaluates to, and asks for the commands whose output an expression needs.
//!
//! The evaluator launches nothing itself. Where a value is the output of a
//! command that has not been run yet, evaluation stops and hands the command
//! out; the caller runs it, adds its output to the answers, and evaluates again.
//! Every value found on the way is cached, so nothing is evaluated twice.

use vstd::prelude::*;
use vstd::string::*;

use crate::expr::{
    closing, lemma_rest_is_literal, spec_close, spec_is_literal, spec_opens, spec_rest,
};
use crate::model::{
    Configuration, GardenIndex, NamedVariable, Tree, Garden, TreeContext, TreeIndex, MultiVariable,
};
use crate::syntax::spec_is_exec;
use crate::text::{chars_of, str_eq, string_of};

verus! {

/// The place of a named variable in a configuration.
#[derive(Clone, Copy, Debug, PartialEq, Eq, Structural)]
pub enum Slot {
    /// A global variable, by its position.
    Global(usize),
    /// A variable of a garden: the garden, then the position.
    Garden(usize, usize),
    /// A variable of a tree: the tree, then the position.
    Tree(usize, usize),
}

/// The output of a command that has been run.
#[derive(Clone, Debug)]
pub struct Answer {
    pub command: String,
    pub output: String,
}

/// What an evaluation came to.
#[derive(Clone, Debug)]
pub enum Evaluated {
    /// The value of the expression.
    Value(String),
    /// The value depends on the output of this command, which has no answer yet.
    Launch(String),
}

/// How deep references may nest. A variable that is being evaluated is never
/// entered again, so no chain of references comes near this bound.
pub const DEPTH_LIMIT: usize = 1000000;

/// The characters that `char::is_whitespace` accepts.
pub open spec fn spec_is_space(c: char) -> bool {
    let n = c as u32;
    ||| 0x09 <= n <= 0x0d
    ||| n == 0x20
    ||| n == 0x85
    ||| n == 0xa0
    ||| n == 0x1680
    ||| 0x2000 <= n <= 0x200a
    ||| n == 0x2028
    ||| n == 0x2029
    ||| n == 0x202f
    ||| n == 0x205f
    ||| n == 0x3000
}

/// `s` without the white space at its end.
pub open spec fn spec_trim_end(s: Seq<char>) -> Seq<char>
    decreases s.len(),
{
    if s.len() > 0 && spec_is_space(s[s.len() - 1]) {
        spec_trim_end(s.subrange(0, s.len() - 1))
    } else {
        s
    }
}

/// The position of the first variable named `name` among the first `n`; `n`
/// where there is none.
pub open spec fn spec_find_named(vars: Seq<NamedVariable>, name: Seq<char>, n: int) -> int
    decreases n,
{
    if n <= 0 || n > vars.len() {
        0
    } else {
        let before = spec_find_named(vars, name, n - 1);
        if before < n - 1 {
            before
        } else if vars[n - 1].name@ == name {
            n - 1
        } else {
            n
        }
    }
}

/// The variable that `name` refers to: the first of that name in the tree, else
/// in the garden, else among the global variables. A tree or garden that the
/// configuration lacks has no variables.
pub open spec fn spec_lookup(
    cfg: Configuration,
    tree: Option<TreeIndex>,
    garden: Option<GardenIndex>,
    name: Seq<char>,
) -> Option<Slot> {
    let in_tree = match tree {
        Some(t) => if t < cfg.trees@.len() {
            let vars = cfg.trees@[t as int].variables@;
            let at = spec_find_named(vars, name, vars.len() as int);
            if at < vars.len() {
                Some(Slot::Tree(t, at as usize))
            } else {
                None
            }
        } else {
            None
        },
        None => None,
    };
    let in_garden = match garden {
        Some(g) => if g < cfg.gardens@.len() {
            let vars = cfg.gardens@[g as int].variables@;
            let at = spec_find_named(vars, name, vars.len() as int);
            if at < vars.len() {
                Some(Slot::Garden(g, at as usize))
            } else {
                None
            }
        } else {
            None
        },
        None => None,
    };
    let vars = cfg.variables@;
    let at = spec_find_named(vars, name, vars.len() as int);
    if in_tree is Some {
        in_tree
    } else if in_garden is Some {
        in_garden
    } else if at < vars.len() {
        Some(Slot::Global(at as usize))
    } else {
        None
    }
}

/// The configuration holds a variable at `slot`.
pub open spec fn slot_ok(cfg: Configuration, slot: Slot) -> bool {
    match slot {
        Slot::Global(i) => i < cfg.variables@.len(),
        Slot::Garden(g, i) => g < cfg.gardens@.len() && i < cfg.gardens@[g as int].variables@.len(),
        Slot::Tree(t, i) => t < cfg.trees@.len() && i < cfg.trees@[t as int].variables@.len(),
    }
}

/// The variable at `slot`.
pub open spec fn slot_var(cfg: Configuration, slot: Slot) -> NamedVariable
    recommends
        slot_ok(cfg, slot),
{
    match slot {
        Slot::Global(i) => cfg.variables@[i as int],
        Slot::Garden(g, i) => cfg.gardens@[g as int].variables@[i as int],
        Slot::Tree(t, i) => cfg.trees@[t as int].variables@[i as int],
    }
}

/// `after` holds the variables of `before`, with the same names and
/// expressions, and every value that was cached in `before` is still cached.
pub open spec fn named_grown(after: Seq<NamedVariable>, before: Seq<NamedVariable>) -> bool {
    &&& after.len() == before.len()
    &&& forall|i: int|
        0 <= i < after.len() ==> {
            &&& (#[trigger] after[i]).name == before[i].name
            &&& after[i].variable.expr == before[i].variable.expr
            &&& (before[i].variable.value is Some ==> after[i].variable.value
                == before[i].variable.value)
        }
}

/// `after` is `before` but for values that were cached meanwhile in named
/// variables: nothing else differs, and no cached value was changed or lost.
pub open spec fn grown(after: Configuration, before: Configuration) -> bool {
    &&& after == (Configuration {
        variables: after.variables,
        trees: after.trees,
        gardens: after.gardens,
        ..before
    })
    &&& named_grown(after.variables@, before.variables@)
    &&& after.trees@.len() == before.trees@.len()
    &&& forall|i: int|
        0 <= i < after.trees@.len() ==> {
            &&& (#[trigger] after.trees@[i]) == (Tree {
                variables: after.trees@[i].variables,
                ..before.trees@[i]
            })
            &&& named_grown(after.trees@[i].variables@, before.trees@[i].variables@)
        }
    &&& after.gardens@.len() == before.gardens@.len()
    &&& forall|i: int|
        0 <= i < after.gardens@.len() ==> {
            &&& (#[trigger] after.gardens@[i]) == (Garden {
                variables: after.gardens@[i].variables,
                ..before.gardens@[i]
            })
            &&& named_grown(after.gardens@[i].variables@, before.gardens@[i].variables@)
        }
}

/// Caching is cumulative: what has grown from a configuration that has grown
/// from a third has grown from the third.
pub proof fn lemma_grown_transitive(c: Configuration, b: Configuration, a: Configuration)
    requires
        grown(c, b),
        grown(b, a),
    ensures
        grown(c, a),
{
    assert forall|i: int| 0 <= i < c.trees@.len() implies {
        &&& (#[trigger] c.trees@[i]) == (Tree { variables: c.trees@[i].variables, ..a.trees@[i] })
        &&& named_grown(c.trees@[i].variables@, a.trees@[i].variables@)
    } by {
        assert(b.trees@[i] == (Tree { variables: b.trees@[i].variables, ..a.trees@[i] }));
    }
    assert forall|i: int| 0 <= i < c.gardens@.len() implies {
        &&& (#[trigger] c.gardens@[i]) == (Garden {
            variables: c.gardens@[i].variables,
            ..a.gardens@[i]
        })
        &&& named_grown(c.gardens@[i].variables@, a.gardens@[i].variables@)
    } by {
        assert(b.gardens@[i] == (Garden { variables: b.gardens@[i].variables, ..a.gardens@[i] }));
    }
}

/// A search by name depends on the names alone.
pub proof fn lemma_find_named_same(
    a: Seq<NamedVariable>,
    b: Seq<NamedVariable>,
    name: Seq<char>,
    n: int,
)
    requires
        named_grown(a, b),
        0 <= n <= a.len(),
    ensures
        spec_find_named(a, name, n) == spec_find_named(b, name, n),
        0 <= spec_find_named(a, name, n) <= n,
    decreases n,
{
    if n > 0 {
        lemma_find_named_same(a, b, name, n - 1);
        assert(a[n - 1].name == b[n - 1].name);
    }
}

/// Caching values changes no name, so a reference means the same variable
/// before and after.
pub proof fn lemma_lookup_same(
    after: Configuration,
    before: Configuration,
    tree: Option<TreeIndex>,
    garden: Option<GardenIndex>,
    name: Seq<char>,
)
    requires
        grown(after, before),
    ensures
        spec_lookup(after, tree, garden, name) == spec_lookup(before, tree, garden, name),
{
    lemma_find_named_same(after.variables@, before.variables@, name, after.variables@.len() as int);
    if tree is Some && tree->0 < after.trees@.len() {
        let t = tree->0 as int;
        assert(named_grown(after.trees@[t].variables@, before.trees@[t].variables@));
        lemma_find_named_same(
            after.trees@[t].variables@,
            before.trees@[t].variables@,
            name,
            after.trees@[t].variables@.len() as int,
        );
    }
    if garden is Some && garden->0 < after.gardens@.len() {
        let g = garden->0 as int;
        assert(named_grown(after.gardens@[g].variables@, before.gardens@[g].variables@));
        lemma_find_named_same(
            after.gardens@[g].variables@,
            before.gardens@[g].variables@,
            name,
            after.gardens@[g].variables@.len() as int,
        );
    }
}

proof fn lemma_find_named_stays(vars: Seq<NamedVariable>, name: Seq<char>, n: int, m: int)
    requires
        0 <= n <= m <= vars.len(),
        spec_find_named(vars, name, n) < n,
    ensures
        spec_find_named(vars, name, m) == spec_find_named(vars, name, n),
    decreases m - n,
{
    if n < m {
        lemma_find_named_stays(vars, name, n, m - 1);
    }
}

/// The position of the first variable of the name; the length where there is
/// none.
pub fn find_named(vars: &Vec<NamedVariable>, name: &str) -> (at: usize)
    ensures
        at == spec_find_named(vars@, name@, vars@.len() as int),
        at <= vars@.len(),
        at < vars@.len() ==> vars@[at as int].name@ == name@,
{
    let n: usize = vars.len();
    let mut i: usize = 0;
    while i < n
        invariant
            i <= n,
            n == vars@.len(),
            spec_find_named(vars@, name@, i as int) == i,
        decreases n - i,
    {
        if str_eq(vars[i].name.as_str(), name) {
            proof {
                lemma_find_named_stays(vars@, name@, i as int + 1, n as int);
            }
            return i;
        }
        i = i + 1;
    }
    n
}

/// The variable that `name` refers to in the given tree and garden.
pub fn lookup(
    config: &Configuration,
    tree: Option<TreeIndex>,
    garden: Option<GardenIndex>,
    name: &str,
) -> (slot: Option<Slot>)
    ensures
        slot == spec_lookup(*config, tree, garden, name@),
        slot is Some ==> slot_ok(*config, slot->0) && slot_var(*config, slot->0).name@ == name@,
{
    if let Some(t) = tree {
        if t < config.trees.len() {
            let at = find_named(&config.trees[t].variables, name);
            if at < config.trees[t].variables.len() {
                return Some(Slot::Tree(t, at));
            }
        }
    }
    if let Some(g) = garden {
        if g < config.gardens.len() {
            let at = find_named(&config.gardens[g].variables, name);
            if at < config.gardens[g].variables.len() {
                return Some(Slot::Garden(g, at));
            }
        }
    }
    let at = find_named(&config.variables, name);
    if at < config.variables.len() {
        Some(Slot::Global(at))
    } else {
        None
    }
}

/// Removes the white space at the end.
pub fn trim_end(s: &Vec<char>) -> (out: Vec<char>)
    ensures
        out@ == spec_trim_end(s@),
{
    let mut n: usize = s.len();
    assert(s@.subrange(0, n as int) =~= s@);
    while n > 0 && is_space(s[n - 1])
        invariant
            n <= s@.len(),
            spec_trim_end(s@.subrange(0, n as int)) == spec_trim_end(s@),
        decreases n,
    {
        assert(s@.subrange(0, n as int).subrange(0, n - 1) =~= s@.subrange(0, n - 1));
        n = n - 1;
    }
    let mut out: Vec<char> = Vec::new();
    let mut i: usize = 0;
    while i < n
        invariant
            i <= n <= s@.len(),
            out@ == s@.subrange(0, i as int),
        decreases n - i,
    {
        out.push(s[i]);
        i = i + 1;
        assert(out@ =~= s@.subrange(0, i as int));
    }
    out
}

/// Whether `char::is_whitespace` accepts the character.
pub fn is_space(c: char) -> (res: bool)
    ensures
        res == spec_is_space(c),
{
    let n: u32 = c as u32;
    (0x09 <= n && n <= 0x0d) || n == 0x20 || n == 0x85 || n == 0xa0 || n == 0x1680 || (0x2000 <= n
        && n <= 0x200a) || n == 0x2028 || n == 0x2029 || n == 0x202f || n == 0x205f || n == 0x3000
}


/// The answer to `command`, if it has one: the first among `answers`.
pub open spec fn spec_answer(answers: Seq<Answer>, command: Seq<char>, n: int) -> Option<Seq<char>>
    decreases n,
{
    if n <= 0 || n > answers.len() {
        None
    } else {
        let before = spec_answer(answers, command, n - 1);
        if before is Some {
            before
        } else if answers[n - 1].command@ == command {
            Some(answers[n - 1].output@)
        } else {
            None
        }
    }
}

proof fn lemma_answer_stays(answers: Seq<Answer>, command: Seq<char>, n: int, m: int)
    requires
        0 <= n <= m <= answers.len(),
        spec_answer(answers, command, n) is Some,
    ensures
        spec_answer(answers, command, m) == spec_answer(answers, command, n),
    decreases m - n,
{
    if n < m {
        lemma_answer_stays(answers, command, n, m - 1);
    }
}

/// `res` is what the command comes to under the answers: the output of its
/// first answer, without the white space at its end; or the command itself, to
/// be launched, while it has no answer.
pub open spec fn is_finish_of(
    res: Result<Vec<char>, Vec<char>>,
    answers: Seq<Answer>,
    command: Seq<char>,
) -> bool {
    match spec_answer(answers, command, answers.len() as int) {
        Some(output) => res is Ok && res->Ok_0@ == spec_trim_end(output),
        None => res is Err && res->Err_0@ == command,
    }
}

/// The value of a command: the output of its first answer, without the white
/// space at its end; or the command itself, to be launched, while it has no
/// answer.
pub fn finish(command: Vec<char>, answers: &Vec<Answer>) -> (res: Result<Vec<char>, Vec<char>>)
    ensures
        is_finish_of(res, answers@, command@),
{
    let n: usize = answers.len();
    let mut i: usize = 0;
    while i < n
        invariant
            i <= n,
            n == answers@.len(),
            spec_answer(answers@, command@, i as int) is None,
        decreases n - i,
    {
        let asked = chars_of(answers[i].command.as_str());
        if same_chars(&asked, &command) {
            proof {
                lemma_answer_stays(answers@, command@, i as int + 1, n as int);
            }
            let output = chars_of(answers[i].output.as_str());
            return Ok(trim_end(&output));
        }
        i = i + 1;
    }
    Err(command)
}

/// Whether two texts hold the same characters.
pub fn same_chars(a: &Vec<char>, b: &Vec<char>) -> (same: bool)
    ensures
        same == (a@ == b@),
{
    if a.len() != b.len() {
        return false;
    }
    let n: usize = a.len();
    let mut i: usize = 0;
    while i < n
        invariant
            i <= n,
            n == a@.len(),
            n == b@.len(),
            a@.subrange(0, i as int) == b@.subrange(0, i as int),
        decreases n - i,
    {
        if a[i] != b[i] {
            assert(a@[i as int] != b@[i as int]);
            return false;
        }
        assert(a@.subrange(0, i + 1) =~= a@.subrange(0, i as int).push(a@[i as int]));
        assert(b@.subrange(0, i + 1) =~= b@.subrange(0, i as int).push(b@[i as int]));
        i = i + 1;
    }
    assert(a@.subrange(0, n as int) =~= a@);
    assert(b@.subrange(0, n as int) =~= b@);
    true
}

fn on_stack(stack: &Vec<Slot>, slot: Slot) -> (found: bool)
    ensures
        found == stack@.contains(slot),
{
    let n: usize = stack.len();
    let mut i: usize = 0;
    while i < n
        invariant
            i <= n,
            n == stack@.len(),
            forall|k: int| 0 <= k < i ==> stack@[k] != slot,
        decreases n - i,
    {
        if stack[i] == slot {
            return true;
        }
        i = i + 1;
    }
    false
}

fn with_slot(stack: &Vec<Slot>, slot: Slot) -> (out: Vec<Slot>)
    ensures
        out@ == stack@.push(slot),
{
    let mut out: Vec<Slot> = Vec::new();
    let n: usize = stack.len();
    let mut i: usize = 0;
    while i < n
        invariant
            i <= n,
            n == stack@.len(),
            out@ == stack@.subrange(0, i as int),
        decreases n - i,
    {
        out.push(stack[i]);
        i = i + 1;
        assert(out@ =~= stack@.subrange(0, i as int));
    }
    assert(stack@.subrange(0, n as int) =~= stack@);
    out.push(slot);
    out
}

fn slot_expr(config: &Configuration, slot: Slot) -> (expr: Vec<char>)
    requires
        slot_ok(*config, slot),
    ensures
        expr@ == slot_var(*config, slot).variable.expr@,
{
    match slot {
        Slot::Global(i) => chars_of(config.variables[i].variable.expr.as_str()),
        Slot::Garden(g, i) => chars_of(config.gardens[g].variables[i].variable.expr.as_str()),
        Slot::Tree(t, i) => chars_of(config.trees[t].variables[i].variable.expr.as_str()),
    }
}

fn slot_cached(config: &Configuration, slot: Slot) -> (value: Option<Vec<char>>)
    requires
        slot_ok(*config, slot),
    ensures
        value is Some == slot_var(*config, slot).variable.value is Some,
        value is Some ==> value->0@ == slot_var(*config, slot).variable.value->0@,
{
    let cached = match slot {
        Slot::Global(i) => config.variables[i].get_value(),
        Slot::Garden(g, i) => config.gardens[g].variables[i].get_value(),
        Slot::Tree(t, i) => config.trees[t].variables[i].get_value(),
    };
    match cached {
        Some(v) => Some(chars_of(v.as_str())),
        None => None,
    }
}

fn slot_store(config: &mut Configuration, slot: Slot, value: String, Ghost(base): Ghost<Configuration>)
    requires
        slot_ok(*old(config), slot),
        grown(*old(config), base),
        slot_var(base, slot).variable.value is None,
    ensures
        grown(*final(config), base),
        slot_ok(*final(config), slot),
        slot_var(*final(config), slot).variable.value == Some(value),
        forall|other: Slot|
            slot_ok(*old(config), other) && other != slot ==> #[trigger] slot_var(
                *final(config),
                other,
            ) == slot_var(*old(config), other),
{
    match slot {
        Slot::Global(i) => {
            config.variables[i].set_value(value);
        },
        Slot::Garden(g, i) => {
            let ghost before = config.gardens@[g as int];
            config.gardens[g].variables[i].set_value(value);
            assert(config.gardens@[g as int] == (Garden {
                variables: config.gardens@[g as int].variables,
                ..before
            }));
        },
        Slot::Tree(t, i) => {
            let ghost before = config.trees@[t as int];
            config.trees[t].variables[i].set_value(value);
            assert(config.trees@[t as int] == (Tree {
                variables: config.trees@[t as int].variables,
                ..before
            }));
        },
    }
}

fn append_chars(out: &mut Vec<char>, more: &Vec<char>)
    ensures
        final(out)@ == old(out)@ + more@,
{
    let n: usize = more.len();
    let mut i: usize = 0;
    while i < n
        invariant
            i <= n,
            n == more@.len(),
            out@ == old(out)@ + more@.subrange(0, i as int),
        decreases n - i,
    {
        out.push(more[i]);
        i = i + 1;
        assert(out@ =~= old(out)@ + more@.subrange(0, i as int));
    }
    assert(more@.subrange(0, n as int) =~= more@);
}

fn suffix(s: &Vec<char>, from: usize) -> (out: Vec<char>)
    requires
        from <= s@.len(),
    ensures
        out@ == s@.subrange(from as int, s@.len() as int),
{
    let mut out: Vec<char> = Vec::new();
    let n: usize = s.len();
    let mut i: usize = from;
    while i < n
        invariant
            from <= i <= n,
            n == s@.len(),
            out@ == s@.subrange(from as int, i as int),
        decreases n - i,
    {
        out.push(s[i]);
        i = i + 1;
        assert(out@ =~= s@.subrange(from as int, i as int));
    }
    out
}

/// The value of the variable that `name` refers to.
///
/// A name that refers to nothing, or to a variable that is being evaluated
/// already, has the empty value. A cached value is returned as it is, and the
/// configuration is left alone: nothing is launched for it. A value that had to
/// be worked out is cached before it is returned, so the next evaluation finds
/// it.
fn resolve(
    config: &mut Configuration,
    name: &str,
    tree: Option<TreeIndex>,
    garden: Option<GardenIndex>,
    stack: &Vec<Slot>,
    depth: usize,
    answers: &Vec<Answer>,
    Ghost(start): Ghost<Configuration>,
    Ghost(cache): Ghost<Map<Slot, Seq<char>>>,
) -> (res: Result<Vec<char>, Vec<char>>)
    requires
        overlaid(*old(config), start, cache),
    ensures
        grown(*final(config), *old(config)),
        resolved(*old(config), *final(config), tree, garden, name@, stack@, depth, res),
        overlaid(
            *final(config),
            start,
            spec_resolve(start, cache, tree, garden, name@, stack@, depth as nat, answers@).0,
        ),
        agrees(
            res,
            spec_resolve(start, cache, tree, garden, name@, stack@, depth as nat, answers@).1,
        ),
    decreases depth, 0nat,
{
    let ghost base = *config;
    proof {
        lemma_lookup_same(base, start, tree, garden, name@);
    }
    match lookup(config, tree, garden, name) {
        None => Ok(Vec::new()),
        Some(slot) => {
            proof {
                lemma_grown_keeps_slots(base, start, slot);
                assert(slot_value(base, slot) == spec_seen(start, cache, slot));
            }
            if let Some(v) = slot_cached(config, slot) {
                return Ok(v);
            }
            if depth == 0 || on_stack(stack, slot) {
                return Ok(Vec::new());
            }
            let expr = slot_expr(config, slot);
            let inner = with_slot(stack, slot);
            match evaluate(
                config,
                &expr,
                tree,
                garden,
                &inner,
                depth - 1,
                answers,
                Ghost(start),
                Ghost(cache),
            ) {
                Ok(v) => {
                    let ghost traced = spec_evaluate(
                        start,
                        cache,
                        tree,
                        garden,
                        expr@,
                        inner@,
                        (depth - 1) as nat,
                        answers@,
                    );
                    let ghost middle = *config;
                    let text = string_of(&v, 0, v.len());
                    assert(v@.subrange(0, v@.len() as int) =~= v@);
                    proof {
                        assert(slot_ok(*config, slot)) by {
                            match slot {
                                Slot::Global(i) => {},
                                Slot::Garden(g, i) => {
                                    assert(named_grown(
                                        config.gardens@[g as int].variables@,
                                        base.gardens@[g as int].variables@,
                                    ));
                                },
                                Slot::Tree(t, i) => {
                                    assert(named_grown(
                                        config.trees@[t as int].variables@,
                                        base.trees@[t as int].variables@,
                                    ));
                                },
                            }
                        }
                    }
                    slot_store(config, slot, text, Ghost(base));
                    proof {
                        lemma_grown_transitive(*config, base, start);
                        assert forall|other: Slot| slot_ok(start, other) implies #[trigger] slot_value(
                            *config,
                            other,
                        ) == spec_seen(start, traced.0.insert(slot, v@), other) by {
                            lemma_grown_keeps_slots(middle, start, other);
                            if other != slot {
                                assert(slot_value(middle, other) == spec_seen(
                                    start,
                                    traced.0,
                                    other,
                                ));
                            }
                        }
                    }
                    Ok(v)
                },
                Err(command) => Err(command),
            }
        },
    }
}

/// What stands for a reference to `name` without any evaluation: nothing for a
/// name that refers to no variable, and the cached value of a variable that
/// has one. `None` for a variable that is yet to be evaluated.
pub open spec fn spec_cached(
    cfg: Configuration,
    tree: Option<TreeIndex>,
    garden: Option<GardenIndex>,
    name: Seq<char>,
) -> Option<Seq<char>> {
    match spec_lookup(cfg, tree, garden, name) {
        None => Some(Seq::<char>::empty()),
        Some(slot) => match slot_var(cfg, slot).variable.value {
            Some(v) => Some(v@),
            None => None,
        },
    }
}

/// Every reference of `s` from position `from` on is settled: it refers to no
/// variable, or to one whose value is cached.
pub open spec fn spec_settled(
    cfg: Configuration,
    tree: Option<TreeIndex>,
    garden: Option<GardenIndex>,
    s: Seq<char>,
    from: int,
) -> bool
    decreases s.len() - from,
{
    if from < 0 || from >= s.len() {
        true
    } else if spec_opens(s, from) {
        let close = spec_close(s, from + 2);
        close >= from + 2 && spec_cached(cfg, tree, garden, s.subrange(from + 2, close)) is Some
            && spec_settled(cfg, tree, garden, s, close + 1)
    } else {
        spec_settled(cfg, tree, garden, s, from + 1)
    }
}

/// The text of `s` from position `from` on, with every reference replaced by
/// what stands for it: the cached value of its variable, or nothing.
pub open spec fn spec_expand(
    cfg: Configuration,
    tree: Option<TreeIndex>,
    garden: Option<GardenIndex>,
    s: Seq<char>,
    from: int,
) -> Seq<char>
    decreases s.len() - from,
{
    if from < 0 || from >= s.len() {
        Seq::<char>::empty()
    } else if spec_opens(s, from) {
        let close = spec_close(s, from + 2);
        if close >= from + 2 {
            let value = match spec_cached(cfg, tree, garden, s.subrange(from + 2, close)) {
                Some(v) => v,
                None => Seq::<char>::empty(),
            };
            value + spec_expand(cfg, tree, garden, s, close + 1)
        } else {
            Seq::<char>::empty()
        }
    } else {
        seq![s[from]] + spec_expand(cfg, tree, garden, s, from + 1)
    }
}

/// A text without references is settled in every configuration, and expands to
/// itself.
pub proof fn lemma_literal_expands_to_itself(
    cfg: Configuration,
    tree: Option<TreeIndex>,
    garden: Option<GardenIndex>,
    s: Seq<char>,
    from: int,
)
    requires
        spec_is_literal(s),
        0 <= from <= s.len(),
    ensures
        spec_settled(cfg, tree, garden, s, from),
        spec_expand(cfg, tree, garden, s, from) == s.subrange(from, s.len() as int),
    decreases s.len() - from,
{
    if from < s.len() {
        lemma_literal_expands_to_itself(cfg, tree, garden, s, from + 1);
        assert(!spec_opens(s, from));
        assert(seq![s[from]] + s.subrange(from + 1, s.len() as int) =~= s.subrange(
            from,
            s.len() as int,
        ));
    } else {
        assert(s.subrange(from, s.len() as int) =~= Seq::<char>::empty());
    }
}

/// What an evaluation comes to, as contracts see it.
pub enum Outcome {
    /// This value.
    Value(Seq<char>),
    /// The request to launch this command.
    Launch(Seq<char>),
}

/// What the evaluation of `expr` comes to, wherever the cached values and the
/// answers decide it: the expansion of `expr`; or, where that begins with the
/// command marker, the answer to the expansion of what follows the marker,
/// without the white space at its end, or the request to launch that command
/// while it has no answer. `None` where a variable is yet to be evaluated.
pub open spec fn spec_value(
    cfg: Configuration,
    tree: Option<TreeIndex>,
    garden: Option<GardenIndex>,
    expr: Seq<char>,
    answers: Seq<Answer>,
) -> Option<Outcome> {
    if !spec_settled(cfg, tree, garden, expr, 0) {
        None
    } else {
        let text = spec_expand(cfg, tree, garden, expr, 0);
        if !spec_is_exec(text) {
            Some(Outcome::Value(text))
        } else if !spec_settled(cfg, tree, garden, spec_rest(text, 2), 0) {
            None
        } else {
            let command = spec_expand(cfg, tree, garden, spec_rest(text, 2), 0);
            match spec_answer(answers, command, answers.len() as int) {
                Some(output) => Some(Outcome::Value(spec_trim_end(output))),
                None => Some(Outcome::Launch(command)),
            }
        }
    }
}

/// `res` says what `outcome` says.
pub open spec fn agrees(res: Result<Vec<char>, Vec<char>>, outcome: Outcome) -> bool {
    match outcome {
        Outcome::Value(v) => res is Ok && res->Ok_0@ == v,
        Outcome::Launch(c) => res is Err && res->Err_0@ == c,
    }
}

/// An expression without references that is no command evaluates to itself, in
/// every configuration and under any answers.
pub proof fn lemma_plain_value(
    cfg: Configuration,
    tree: Option<TreeIndex>,
    garden: Option<GardenIndex>,
    expr: Seq<char>,
    answers: Seq<Answer>,
)
    requires
        spec_is_literal(expr),
        !spec_is_exec(expr),
    ensures
        spec_value(cfg, tree, garden, expr, answers) == Some(Outcome::Value(expr)),
{
    lemma_literal_expands_to_itself(cfg, tree, garden, expr, 0);
    assert(expr.subrange(0, expr.len() as int) =~= expr);
}

/// What stands for a reference without evaluation still does after more
/// values have been cached.
pub proof fn lemma_grown_keeps_cached(
    after: Configuration,
    before: Configuration,
    tree: Option<TreeIndex>,
    garden: Option<GardenIndex>,
    name: Seq<char>,
)
    requires
        grown(after, before),
        spec_cached(before, tree, garden, name) is Some,
    ensures
        spec_cached(after, tree, garden, name) == spec_cached(before, tree, garden, name),
{
    lemma_lookup_same(after, before, tree, garden, name);
    lemma_find_named_same(after.variables@, before.variables@, name, after.variables@.len() as int);
    match spec_lookup(before, tree, garden, name) {
        None => {},
        Some(slot) => {
            match slot {
                Slot::Global(i) => {
                    assert(after.variables@[i as int].name == before.variables@[i as int].name);
                },
                Slot::Garden(g, i) => {
                    assert(named_grown(
                        after.gardens@[g as int].variables@,
                        before.gardens@[g as int].variables@,
                    ));
                    lemma_find_named_same(
                        after.gardens@[g as int].variables@,
                        before.gardens@[g as int].variables@,
                        name,
                        after.gardens@[g as int].variables@.len() as int,
                    );
                    assert(after.gardens@[g as int].variables@[i as int].name
                        == before.gardens@[g as int].variables@[i as int].name);
                },
                Slot::Tree(t, i) => {
                    assert(named_grown(
                        after.trees@[t as int].variables@,
                        before.trees@[t as int].variables@,
                    ));
                    lemma_find_named_same(
                        after.trees@[t as int].variables@,
                        before.trees@[t as int].variables@,
                        name,
                        after.trees@[t as int].variables@.len() as int,
                    );
                    assert(after.trees@[t as int].variables@[i as int].name
                        == before.trees@[t as int].variables@[i as int].name);
                },
            }
        },
    }
}

/// A text that is settled stays settled, with the same expansion, after more
/// values have been cached.
pub proof fn lemma_grown_keeps_expansion(
    after: Configuration,
    before: Configuration,
    tree: Option<TreeIndex>,
    garden: Option<GardenIndex>,
    s: Seq<char>,
    from: int,
)
    requires
        grown(after, before),
        spec_settled(before, tree, garden, s, from),
    ensures
        spec_settled(after, tree, garden, s, from),
        spec_expand(after, tree, garden, s, from) == spec_expand(before, tree, garden, s, from),
    decreases s.len() - from,
{
    if 0 <= from < s.len() {
        if spec_opens(s, from) {
            let close = spec_close(s, from + 2);
            lemma_grown_keeps_cached(after, before, tree, garden, s.subrange(from + 2, close));
            lemma_grown_keeps_expansion(after, before, tree, garden, s, close + 1);
        } else {
            lemma_grown_keeps_expansion(after, before, tree, garden, s, from + 1);
        }
    }
}

/// What the cached values and the answers decide stays decided, and the same,
/// after more values have been cached.
pub proof fn lemma_grown_keeps_value(
    after: Configuration,
    before: Configuration,
    tree: Option<TreeIndex>,
    garden: Option<GardenIndex>,
    expr: Seq<char>,
    answers: Seq<Answer>,
)
    requires
        grown(after, before),
        spec_value(before, tree, garden, expr, answers) is Some,
    ensures
        spec_value(after, tree, garden, expr, answers) == spec_value(
            before,
            tree,
            garden,
            expr,
            answers,
        ),
{
    lemma_grown_keeps_expansion(after, before, tree, garden, expr, 0);
    let text = spec_expand(before, tree, garden, expr, 0);
    if spec_is_exec(text) {
        lemma_grown_keeps_expansion(after, before, tree, garden, spec_rest(text, 2), 0);
    }
}

/// The cached value of the variable at `slot`, as contracts see it.
pub open spec fn slot_value(cfg: Configuration, slot: Slot) -> Option<Seq<char>> {
    match slot_var(cfg, slot).variable.value {
        Some(v) => Some(v@),
        None => None,
    }
}

/// The value of the variable at `slot` as an evaluation under way sees it: the
/// value that the evaluation has cached for it since it began, or else the one
/// that the configuration held when it began.
pub open spec fn spec_seen(cfg: Configuration, cache: Map<Slot, Seq<char>>, slot: Slot) -> Option<
    Seq<char>,
> {
    if cache.dom().contains(slot) {
        Some(cache[slot])
    } else {
        slot_value(cfg, slot)
    }
}

/// `after` is `before` with the values of `cache` cached where they belong, and
/// nothing else changed.
pub open spec fn overlaid(
    after: Configuration,
    before: Configuration,
    cache: Map<Slot, Seq<char>>,
) -> bool {
    &&& grown(after, before)
    &&& forall|slot: Slot|
        slot_ok(before, slot) ==> #[trigger] slot_value(after, slot) == spec_seen(
            before,
            cache,
            slot,
        )
}

/// What comes of evaluating the variable that `name` refers to, and the values
/// cached by then. A name that refers to nothing has the empty value; so has a
/// variable that is being evaluated already (it is among `open`), which ends
/// every cycle of references. A cached value is the value. Any other variable
/// has the value of its expression, which is cached once it is known.
pub open spec fn spec_resolve(
    cfg: Configuration,
    cache: Map<Slot, Seq<char>>,
    tree: Option<TreeIndex>,
    garden: Option<GardenIndex>,
    name: Seq<char>,
    open: Seq<Slot>,
    depth: nat,
    answers: Seq<Answer>,
) -> (Map<Slot, Seq<char>>, Outcome)
    decreases depth, 0nat, 0nat,
{
    match spec_lookup(cfg, tree, garden, name) {
        None => (cache, Outcome::Value(Seq::<char>::empty())),
        Some(slot) => match spec_seen(cfg, cache, slot) {
            Some(v) => (cache, Outcome::Value(v)),
            None => if depth == 0 || open.contains(slot) {
                (cache, Outcome::Value(Seq::<char>::empty()))
            } else {
                let inner = spec_evaluate(
                    cfg,
                    cache,
                    tree,
                    garden,
                    slot_var(cfg, slot).variable.expr@,
                    open.push(slot),
                    (depth - 1) as nat,
                    answers,
                );
                match inner.1 {
                    Outcome::Value(v) => (inner.0.insert(slot, v), Outcome::Value(v)),
                    Outcome::Launch(c) => (inner.0, Outcome::Launch(c)),
                }
            },
        },
    }
}

/// What comes of substituting the references of `s` from position `from` on,
/// one after the other, and the values cached by then. The first reference
/// that needs a command without an answer ends the substitution with the
/// request to launch it.
pub open spec fn spec_substitute(
    cfg: Configuration,
    cache: Map<Slot, Seq<char>>,
    tree: Option<TreeIndex>,
    garden: Option<GardenIndex>,
    s: Seq<char>,
    from: int,
    open: Seq<Slot>,
    depth: nat,
    answers: Seq<Answer>,
) -> (Map<Slot, Seq<char>>, Outcome)
    decreases depth, 1nat, s.len() - from,
{
    if from < 0 || from >= s.len() {
        (cache, Outcome::Value(Seq::<char>::empty()))
    } else if spec_opens(s, from) {
        let close = spec_close(s, from + 2);
        if close < from + 2 {
            (cache, Outcome::Value(Seq::<char>::empty()))
        } else {
            let first = spec_resolve(
                cfg,
                cache,
                tree,
                garden,
                s.subrange(from + 2, close),
                open,
                depth,
                answers,
            );
            match first.1 {
                Outcome::Launch(c) => first,
                Outcome::Value(v) => prepend(
                    v,
                    spec_substitute(cfg, first.0, tree, garden, s, close + 1, open, depth, answers),
                ),
            }
        }
    } else {
        prepend(
            seq![s[from]],
            spec_substitute(cfg, cache, tree, garden, s, from + 1, open, depth, answers),
        )
    }
}

/// The outcome `traced`, with `text` before its value if it is one.
pub open spec fn prepend(text: Seq<char>, traced: (Map<Slot, Seq<char>>, Outcome)) -> (
    Map<Slot, Seq<char>>,
    Outcome,
) {
    (
        traced.0,
        match traced.1 {
            Outcome::Value(v) => Outcome::Value(text + v),
            Outcome::Launch(c) => Outcome::Launch(c),
        },
    )
}

/// What comes of evaluating `expr`, and the values cached by then: its text
/// with every reference substituted; or, where that text begins with the
/// command marker, the answer to what follows the marker, substituted once
/// more, without the white space at its end; or the request to launch that
/// command while it has no answer.
pub open spec fn spec_evaluate(
    cfg: Configuration,
    cache: Map<Slot, Seq<char>>,
    tree: Option<TreeIndex>,
    garden: Option<GardenIndex>,
    expr: Seq<char>,
    open: Seq<Slot>,
    depth: nat,
    answers: Seq<Answer>,
) -> (Map<Slot, Seq<char>>, Outcome)
    decreases depth, 2nat, 0nat,
{
    let first = spec_substitute(cfg, cache, tree, garden, expr, 0, open, depth, answers);
    match first.1 {
        Outcome::Launch(c) => first,
        Outcome::Value(text) => if spec_is_exec(text) {
            let second = spec_substitute(
                cfg,
                first.0,
                tree,
                garden,
                spec_rest(text, 2),
                0,
                open,
                depth,
                answers,
            );
            match second.1 {
                Outcome::Launch(c) => second,
                Outcome::Value(command) => (
                    second.0,
                    match spec_answer(answers, command, answers.len() as int) {
                        Some(output) => Outcome::Value(spec_trim_end(output)),
                        None => Outcome::Launch(command),
                    },
                ),
            }
        } else {
            first
        },
    }
}

/// Caching values adds and removes no variable.
pub proof fn lemma_grown_keeps_slots(after: Configuration, before: Configuration, slot: Slot)
    requires
        grown(after, before),
    ensures
        slot_ok(after, slot) == slot_ok(before, slot),
        slot_ok(before, slot) ==> slot_var(after, slot).name == slot_var(before, slot).name
            && slot_var(after, slot).variable.expr == slot_var(before, slot).variable.expr,
{
    match slot {
        Slot::Global(i) => {},
        Slot::Garden(g, i) => {
            if g < before.gardens@.len() {
                assert(named_grown(
                    after.gardens@[g as int].variables@,
                    before.gardens@[g as int].variables@,
                ));
            }
        },
        Slot::Tree(t, i) => {
            if t < before.trees@.len() {
                assert(named_grown(
                    after.trees@[t as int].variables@,
                    before.trees@[t as int].variables@,
                ));
            }
        },
    }
}

/// What `resolve` owes for the name `name`, from the configuration `before` to
/// the configuration `after`.
pub open spec fn resolved(
    before: Configuration,
    after: Configuration,
    tree: Option<TreeIndex>,
    garden: Option<GardenIndex>,
    name: Seq<char>,
    stack: Seq<Slot>,
    depth: usize,
    res: Result<Vec<char>, Vec<char>>,
) -> bool {
    match spec_lookup(before, tree, garden, name) {
        None => after == before && res is Ok && res->Ok_0@.len() == 0,
        Some(slot) => match slot_var(before, slot).variable.value {
            Some(v) => after == before && res is Ok && res->Ok_0@ == v@,
            None => if depth == 0 || stack.contains(slot) {
                after == before && res is Ok && res->Ok_0@.len() == 0
            } else {
                res is Ok ==> slot_ok(after, slot) && slot_var(after, slot).variable.value is Some
                    && slot_var(after, slot).variable.value->0@ == res->Ok_0@
            },
        },
    }
}

/// Substitutes every reference of `expr` by the value of its variable.
fn substitute(
    config: &mut Configuration,
    expr: &Vec<char>,
    tree: Option<TreeIndex>,
    garden: Option<GardenIndex>,
    stack: &Vec<Slot>,
    depth: usize,
    answers: &Vec<Answer>,
    Ghost(start): Ghost<Configuration>,
    Ghost(cache): Ghost<Map<Slot, Seq<char>>>,
) -> (res: Result<Vec<char>, Vec<char>>)
    requires
        overlaid(*old(config), start, cache),
    ensures
        grown(*final(config), *old(config)),
        spec_is_literal(expr@) ==> *final(config) == *old(config) && res is Ok && res->Ok_0@
            == expr@,
        spec_settled(*old(config), tree, garden, expr@, 0) ==> *final(config) == *old(config)
            && res is Ok && res->Ok_0@ == spec_expand(*old(config), tree, garden, expr@, 0),
        overlaid(
            *final(config),
            start,
            spec_substitute(start, cache, tree, garden, expr@, 0, stack@, depth as nat, answers@).0,
        ),
        agrees(
            res,
            spec_substitute(start, cache, tree, garden, expr@, 0, stack@, depth as nat, answers@).1,
        ),
    decreases depth, 1nat,
{
    let n: usize = expr.len();
    let mut out: Vec<char> = Vec::new();
    let mut i: usize = 0;
    let ghost mut now = cache;
    let ghost whole = spec_substitute(
        start,
        cache,
        tree,
        garden,
        expr@,
        0,
        stack@,
        depth as nat,
        answers@,
    );
    proof {
        match whole.1 {
            Outcome::Value(v) => {
                assert(out@ + v =~= v);
            },
            Outcome::Launch(c) => {},
        }
    }
    while i < n
        invariant
            n == expr@.len(),
            i <= n,
            grown(*config, *old(config)),
            overlaid(*config, start, now),
            whole == spec_substitute(
                start,
                cache,
                tree,
                garden,
                expr@,
                0,
                stack@,
                depth as nat,
                answers@,
            ),
            whole == prepend(
                out@,
                spec_substitute(
                    start,
                    now,
                    tree,
                    garden,
                    expr@,
                    i as int,
                    stack@,
                    depth as nat,
                    answers@,
                ),
            ),
            spec_is_literal(expr@) ==> *config == *old(config) && out@ == expr@.subrange(
                0,
                i as int,
            ),
            spec_settled(*old(config), tree, garden, expr@, 0) ==> *config == *old(config)
                && spec_settled(*old(config), tree, garden, expr@, i as int) && out@
                + spec_expand(*old(config), tree, garden, expr@, i as int) == spec_expand(
                *old(config),
                tree,
                garden,
                expr@,
                0,
            ),
        decreases n - i,
    {
        let ghost mid = *config;
        let ghost had = out@;
        match closing(expr, i) {
            Some(close) => {
                let name = string_of(expr, i + 2, close);
                let ghost first = spec_resolve(
                    start,
                    now,
                    tree,
                    garden,
                    name@,
                    stack@,
                    depth as nat,
                    answers@,
                );
                let ghost after = spec_substitute(
                    start,
                    first.0,
                    tree,
                    garden,
                    expr@,
                    close + 1,
                    stack@,
                    depth as nat,
                    answers@,
                );
                match resolve(
                    config,
                    name.as_str(),
                    tree,
                    garden,
                    stack,
                    depth,
                    answers,
                    Ghost(start),
                    Ghost(now),
                ) {
                    Ok(v) => {
                        append_chars(&mut out, &v);
                        proof {
                            match after.1 {
                                Outcome::Value(rest) => {
                                    assert(had + (v@ + rest) =~= (had + v@) + rest);
                                },
                                Outcome::Launch(c) => {},
                            }
                            now = first.0;
                        }
                        proof {
                            if spec_settled(*old(config), tree, garden, expr@, 0) {
                                let rest = spec_expand(
                                    *old(config),
                                    tree,
                                    garden,
                                    expr@,
                                    close + 1,
                                );
                                assert((had + v@) + rest =~= had + (v@ + rest));
                            }
                        }
                    },
                    Err(command) => {
                        proof {
                            lemma_grown_transitive(*config, mid, *old(config));
                        }
                        return Err(command);
                    },
                }
                proof {
                    lemma_grown_transitive(*config, mid, *old(config));
                }
                i = close + 1;
            },
            None => {
                let ghost after = spec_substitute(
                    start,
                    now,
                    tree,
                    garden,
                    expr@,
                    i + 1,
                    stack@,
                    depth as nat,
                    answers@,
                );
                out.push(expr[i]);
                proof {
                    match after.1 {
                        Outcome::Value(rest) => {
                            assert(had + (seq![expr@[i as int]] + rest) =~= had.push(
                                expr@[i as int],
                            ) + rest);
                        },
                        Outcome::Launch(c) => {},
                    }
                    if spec_settled(*old(config), tree, garden, expr@, 0) {
                        let rest = spec_expand(*old(config), tree, garden, expr@, i + 1);
                        assert(had.push(expr@[i as int]) + rest =~= had + (seq![expr@[i as int]]
                            + rest));
                    }
                }
                i = i + 1;
                assert(spec_is_literal(expr@) ==> out@ =~= expr@.subrange(0, i as int));
            },
        }
    }
    assert(expr@.subrange(0, n as int) =~= expr@);
    assert(out@ + Seq::<char>::empty() =~= out@);
    Ok(out)
}

/// The value of an expression: its text with every reference substituted; and,
/// where that text begins with the command marker, the output of the command
/// that follows the marker, itself substituted once more.
fn evaluate(
    config: &mut Configuration,
    expr: &Vec<char>,
    tree: Option<TreeIndex>,
    garden: Option<GardenIndex>,
    stack: &Vec<Slot>,
    depth: usize,
    answers: &Vec<Answer>,
    Ghost(start): Ghost<Configuration>,
    Ghost(cache): Ghost<Map<Slot, Seq<char>>>,
) -> (res: Result<Vec<char>, Vec<char>>)
    requires
        overlaid(*old(config), start, cache),
    ensures
        overlaid(
            *final(config),
            start,
            spec_evaluate(start, cache, tree, garden, expr@, stack@, depth as nat, answers@).0,
        ),
        agrees(
            res,
            spec_evaluate(start, cache, tree, garden, expr@, stack@, depth as nat, answers@).1,
        ),
        grown(*final(config), *old(config)),
        spec_is_literal(expr@) && !spec_is_exec(expr@) ==> *final(config) == *old(config) && res
            is Ok && res->Ok_0@ == expr@,
        spec_is_literal(expr@) && spec_is_exec(expr@) ==> *final(config) == *old(config)
            && is_finish_of(res, answers@, spec_rest(expr@, 2)),
        spec_value(*old(config), tree, garden, expr@, answers@) is Some ==> *final(config) == *old(
            config,
        ) && agrees(res, spec_value(*old(config), tree, garden, expr@, answers@)->0),
    decreases depth, 2nat,
{
    let ghost base = *config;
    let ghost first = spec_substitute(
        start,
        cache,
        tree,
        garden,
        expr@,
        0,
        stack@,
        depth as nat,
        answers@,
    );
    let text = match substitute(
        config,
        expr,
        tree,
        garden,
        stack,
        depth,
        answers,
        Ghost(start),
        Ghost(cache),
    ) {
        Ok(text) => text,
        Err(command) => {
            return Err(command);
        },
    };
    if text.len() >= 2 && text[0] == '$' && text[1] == ' ' {
        let ghost mid = *config;
        let rest = suffix(&text, 2);
        proof {
            if spec_is_literal(expr@) {
                lemma_rest_is_literal(expr@, 2);
            }
        }
        let res = match substitute(
            config,
            &rest,
            tree,
            garden,
            stack,
            depth,
            answers,
            Ghost(start),
            Ghost(first.0),
        ) {
            Ok(command) => finish(command, answers),
            Err(command) => Err(command),
        };
        proof {
            lemma_grown_transitive(*config, mid, base);
        }
        res
    } else {
        Ok(text)
    }
}


/// `out` says what `res` says, in strings.
pub open spec fn is_outcome_of(out: Evaluated, res: Result<Vec<char>, Vec<char>>) -> bool {
    match res {
        Ok(v) => out matches Evaluated::Value(text) && text@ == v@,
        Err(c) => out matches Evaluated::Launch(command) && command@ == c@,
    }
}

fn outcome(res: Result<Vec<char>, Vec<char>>) -> (out: Evaluated)
    ensures
        is_outcome_of(out, res),
{
    match res {
        Ok(v) => {
            assert(v@.subrange(0, v@.len() as int) =~= v@);
            Evaluated::Value(string_of(&v, 0, v.len()))
        },
        Err(c) => {
            assert(c@.subrange(0, c@.len() as int) =~= c@);
            Evaluated::Launch(string_of(&c, 0, c.len()))
        },
    }
}

/// What comes of evaluating `expr` in the scope of a tree and a garden, from
/// the start, and the values that are cached by then.
pub open spec fn spec_tree_value(
    cfg: Configuration,
    tree: Option<TreeIndex>,
    garden: Option<GardenIndex>,
    expr: Seq<char>,
    answers: Seq<Answer>,
) -> (Map<Slot, Seq<char>>, Outcome) {
    spec_evaluate(
        cfg,
        Map::empty(),
        tree,
        garden,
        expr,
        Seq::<Slot>::empty(),
        DEPTH_LIMIT as nat,
        answers,
    )
}

/// What comes of evaluating the variable that `name` refers to, from the
/// start, and the values that are cached by then.
pub open spec fn spec_variable_value(
    cfg: Configuration,
    tree: Option<TreeIndex>,
    garden: Option<GardenIndex>,
    name: Seq<char>,
    answers: Seq<Answer>,
) -> (Map<Slot, Seq<char>>, Outcome) {
    spec_resolve(
        cfg,
        Map::empty(),
        tree,
        garden,
        name,
        Seq::<Slot>::empty(),
        DEPTH_LIMIT as nat,
        answers,
    )
}

/// `out` says what `outcome` says.
pub open spec fn says(out: Evaluated, outcome: Outcome) -> bool {
    match outcome {
        Outcome::Value(v) => out matches Evaluated::Value(text) && text@ == v,
        Outcome::Launch(c) => out matches Evaluated::Launch(command) && command@ == c,
    }
}

/// A configuration is itself with nothing cached on top.
pub proof fn lemma_overlaid_start(cfg: Configuration)
    ensures
        overlaid(cfg, cfg, Map::<Slot, Seq<char>>::empty()),
{
}

/// What an evaluation of `expr` owes: the outcome that `spec_tree_value` gives,
/// with the values that it names cached and nothing else changed. Caches only grow. Wherever the cached
/// values and the answers decide the outcome, it is that outcome, and the
/// configuration is left as it was. In particular an expression without
/// references is its own value; one that is a command without references comes
/// to the output of that command, or asks for it.
pub open spec fn evaluated(
    before: Configuration,
    after: Configuration,
    tree: Option<TreeIndex>,
    garden: Option<GardenIndex>,
    expr: Seq<char>,
    answers: Seq<Answer>,
    out: Evaluated,
) -> bool {
    &&& overlaid(after, before, spec_tree_value(before, tree, garden, expr, answers).0)
    &&& says(out, spec_tree_value(before, tree, garden, expr, answers).1)
    &&& grown(after, before)
    &&& match spec_value(before, tree, garden, expr, answers) {
        Some(Outcome::Value(v)) => after == before && (out matches Evaluated::Value(text) && text@
            == v),
        Some(Outcome::Launch(c)) => after == before && (out matches Evaluated::Launch(command)
            && command@ == c),
        None => true,
    }
    &&& spec_is_literal(expr) && !spec_is_exec(expr) ==> after == before && (out matches Evaluated::Value(
        text,
    ) && text@ == expr)
    &&& spec_is_literal(expr) && spec_is_exec(expr) ==> after == before && match spec_answer(
        answers,
        spec_rest(expr, 2),
        answers.len() as int,
    ) {
        Some(output) => out matches Evaluated::Value(text) && text@ == spec_trim_end(output),
        None => out matches Evaluated::Launch(command) && command@ == spec_rest(expr, 2),
    }
}

/// Evaluates an expression in the scope of a tree, and of a garden if one is
/// given: references are looked up in the tree, then the garden, then among the
/// global variables.
pub fn tree_value(
    config: &mut Configuration,
    expr: &str,
    tree: TreeIndex,
    garden: Option<GardenIndex>,
    answers: &Vec<Answer>,
) -> (out: Evaluated)
    ensures
        evaluated(*old(config), *final(config), Some(tree), garden, expr@, answers@, out),
{
    let chars = chars_of(expr);
    let stack: Vec<Slot> = Vec::new();
    proof {
        lemma_overlaid_start(*config);
    }
    let res = evaluate(
        config,
        &chars,
        Some(tree),
        garden,
        &stack,
        DEPTH_LIMIT,
        answers,
        Ghost(*config),
        Ghost(Map::empty()),
    );
    outcome(res)
}

/// Evaluates an expression in the global scope, in the course of a longer
/// evaluation that began in the configuration `start` and has cached the
/// values of `cache` since.
pub(crate) fn value_from(
    config: &mut Configuration,
    expr: &str,
    answers: &Vec<Answer>,
    Ghost(start): Ghost<Configuration>,
    Ghost(cache): Ghost<Map<Slot, Seq<char>>>,
) -> (out: Evaluated)
    requires
        overlaid(*old(config), start, cache),
    ensures
        overlaid(*final(config), start, spec_value_from(start, cache, expr@, answers@).0),
        says(out, spec_value_from(start, cache, expr@, answers@).1),
        grown(*final(config), *old(config)),
        spec_value(*old(config), None, None, expr@, answers@) is Some ==> *final(config) == *old(
            config,
        ) && says(out, spec_value(*old(config), None, None, expr@, answers@)->0),
{
    let chars = chars_of(expr);
    let stack: Vec<Slot> = Vec::new();
    let res = evaluate(
        config,
        &chars,
        None,
        None,
        &stack,
        DEPTH_LIMIT,
        answers,
        Ghost(start),
        Ghost(cache),
    );
    outcome(res)
}

/// What comes of evaluating `expr` in the global scope after the values of
/// `cache` have been cached, and the values cached by then.
pub open spec fn spec_value_from(
    cfg: Configuration,
    cache: Map<Slot, Seq<char>>,
    expr: Seq<char>,
    answers: Seq<Answer>,
) -> (Map<Slot, Seq<char>>, Outcome) {
    spec_evaluate(cfg, cache, None, None, expr, Seq::<Slot>::empty(), DEPTH_LIMIT as nat, answers)
}

/// Evaluates an expression in the global scope.
pub fn value(config: &mut Configuration, expr: &str, answers: &Vec<Answer>) -> (out: Evaluated)
    ensures
        evaluated(*old(config), *final(config), None, None, expr@, answers@, out),
{
    let chars = chars_of(expr);
    let stack: Vec<Slot> = Vec::new();
    proof {
        lemma_overlaid_start(*config);
    }
    let res = evaluate(
        config,
        &chars,
        None,
        None,
        &stack,
        DEPTH_LIMIT,
        answers,
        Ghost(*config),
        Ghost(Map::empty()),
    );
    outcome(res)
}

/// What an evaluation of the variable named `name` owes.
///
/// A name that refers to nothing has the empty value. A cached value is
/// returned as it is, with the configuration left alone and nothing to launch.
/// A value that had to be worked out is cached where the variable stands.
pub open spec fn variable_evaluated(
    before: Configuration,
    after: Configuration,
    tree: Option<TreeIndex>,
    garden: Option<GardenIndex>,
    name: Seq<char>,
    answers: Seq<Answer>,
    out: Evaluated,
) -> bool {
    &&& overlaid(after, before, spec_variable_value(before, tree, garden, name, answers).0)
    &&& says(out, spec_variable_value(before, tree, garden, name, answers).1)
    &&& grown(after, before)
    &&& match spec_lookup(before, tree, garden, name) {
        None => after == before && (out matches Evaluated::Value(text) && text@.len() == 0),
        Some(slot) => match slot_var(before, slot).variable.value {
            Some(v) => after == before && (out matches Evaluated::Value(text) && text@ == v@),
            None => out matches Evaluated::Value(text) ==> slot_ok(after, slot) && slot_var(
                after,
                slot,
            ).variable.value is Some && slot_var(after, slot).variable.value->0@ == text@,
        },
    }
}

/// Evaluates the variable that `name` refers to in the given tree and garden.
pub fn variable_value(
    config: &mut Configuration,
    name: &str,
    tree: Option<TreeIndex>,
    garden: Option<GardenIndex>,
    answers: &Vec<Answer>,
) -> (out: Evaluated)
    ensures
        variable_evaluated(*old(config), *final(config), tree, garden, name@, answers@, out),
{
    let stack: Vec<Slot> = Vec::new();
    proof {
        lemma_overlaid_start(*config);
    }
    let res = resolve(
        config,
        name,
        tree,
        garden,
        &stack,
        DEPTH_LIMIT,
        answers,
        Ghost(*config),
        Ghost(Map::empty()),
    );
    outcome(res)
}

/// A variable that has been evaluated to a value evaluates to that value again,
/// from its cache: the second evaluation changes nothing and launches nothing.
pub proof fn lemma_second_evaluation(
    start: Configuration,
    middle: Configuration,
    end: Configuration,
    tree: Option<TreeIndex>,
    garden: Option<GardenIndex>,
    name: Seq<char>,
    answers: Seq<Answer>,
    later: Seq<Answer>,
    first: Evaluated,
    second: Evaluated,
)
    requires
        variable_evaluated(start, middle, tree, garden, name, answers, first),
        variable_evaluated(middle, end, tree, garden, name, later, second),
        first is Value,
    ensures
        end == middle,
        second is Value,
        second->Value_0@ == first->Value_0@,
{
    lemma_lookup_same(middle, start, tree, garden, name);
}


/// The name and expression of each of the first `n` entries of a variable.
pub open spec fn spec_multi_entries(m: MultiVariable, n: int) -> Seq<(Seq<char>, Seq<char>)>
    decreases n,
{
    if n <= 0 || n > m.variables@.len() {
        Seq::<(Seq<char>, Seq<char>)>::empty()
    } else {
        spec_multi_entries(m, n - 1).push((m.name@, m.variables@[n - 1].expr@))
    }
}

/// The name and expression of each entry of the first `n` variables, in order.
pub open spec fn spec_entries(ms: Seq<MultiVariable>, n: int) -> Seq<(Seq<char>, Seq<char>)>
    decreases n,
{
    if n <= 0 || n > ms.len() {
        Seq::<(Seq<char>, Seq<char>)>::empty()
    } else {
        spec_entries(ms, n - 1) + spec_multi_entries(ms[n - 1], ms[n - 1].variables@.len() as int)
    }
}

/// The entries of the environment of a context, by name and expression: the
/// global ones, then those of the garden, then those of the tree, so that what
/// is applied later is nearer to the tree.
pub open spec fn spec_environment_entries(
    cfg: Configuration,
    tree: Option<TreeIndex>,
    garden: Option<GardenIndex>,
) -> Seq<(Seq<char>, Seq<char>)> {
    let global = spec_entries(cfg.environment@, cfg.environment@.len() as int);
    let of_garden = match garden {
        Some(g) => if g < cfg.gardens@.len() {
            spec_entries(
                cfg.gardens@[g as int].environment@,
                cfg.gardens@[g as int].environment@.len() as int,
            )
        } else {
            Seq::<(Seq<char>, Seq<char>)>::empty()
        },
        None => Seq::<(Seq<char>, Seq<char>)>::empty(),
    };
    let of_tree = match tree {
        Some(t) => if t < cfg.trees@.len() {
            spec_entries(
                cfg.trees@[t as int].environment@,
                cfg.trees@[t as int].environment@.len() as int,
            )
        } else {
            Seq::<(Seq<char>, Seq<char>)>::empty()
        },
        None => Seq::<(Seq<char>, Seq<char>)>::empty(),
    };
    global + of_garden + of_tree
}

/// The pairs as contracts see them.
pub open spec fn pairs_view(pairs: Seq<(String, String)>) -> Seq<(Seq<char>, Seq<char>)> {
    Seq::new(pairs.len(), |i: int| (pairs[i].0@, pairs[i].1@))
}

fn collect_entries(ms: &Vec<MultiVariable>, out: &mut Vec<(String, String)>)
    ensures
        pairs_view(final(out)@) == pairs_view(old(out)@) + spec_entries(ms@, ms@.len() as int),
{
    let n: usize = ms.len();
    let mut i: usize = 0;
    assert(pairs_view(out@) =~= pairs_view(old(out)@) + spec_entries(ms@, 0));
    while i < n
        invariant
            i <= n,
            n == ms@.len(),
            pairs_view(out@) == pairs_view(old(out)@) + spec_entries(ms@, i as int),
        decreases n - i,
    {
        let m = &ms[i];
        let ghost start = pairs_view(out@);
        let k: usize = m.variables.len();
        let mut j: usize = 0;
        assert(pairs_view(out@) =~= start + spec_multi_entries(*m, 0));
        while j < k
            invariant
                j <= k,
                k == m.variables@.len(),
                pairs_view(out@) == start + spec_multi_entries(*m, j as int),
            decreases k - j,
        {
            let ghost before = out@;
            let name = m.name.clone();
            let expr = m.variables[j].expr.clone();
            out.push((name, expr));
            j = j + 1;
            assert(pairs_view(out@) =~= pairs_view(before).push((m.name@, m.variables@[j - 1].expr@)));
            assert(pairs_view(out@) =~= start + spec_multi_entries(*m, j as int));
        }
        i = i + 1;
        assert(pairs_view(out@) =~= pairs_view(old(out)@) + spec_entries(ms@, i as int));
    }
}

/// The entries of the environment of a context, by name and expression.
pub fn environment_entries(
    config: &Configuration,
    tree: Option<TreeIndex>,
    garden: Option<GardenIndex>,
) -> (out: Vec<(String, String)>)
    ensures
        pairs_view(out@) == spec_environment_entries(*config, tree, garden),
{
    let mut out: Vec<(String, String)> = Vec::new();
    assert(pairs_view(out@) =~= Seq::<(Seq<char>, Seq<char>)>::empty());
    collect_entries(&config.environment, &mut out);
    let ghost global = pairs_view(out@);
    assert(global =~= spec_entries(config.environment@, config.environment@.len() as int));
    let mut in_garden = false;
    if let Some(g) = garden {
        if g < config.gardens.len() {
            collect_entries(&config.gardens[g].environment, &mut out);
            in_garden = true;
        }
    }
    if !in_garden {
        assert(pairs_view(out@) =~= global + Seq::<(Seq<char>, Seq<char>)>::empty());
    }
    let ghost middle = pairs_view(out@);
    let mut in_tree = false;
    if let Some(t) = tree {
        if t < config.trees.len() {
            collect_entries(&config.trees[t].environment, &mut out);
            in_tree = true;
        }
    }
    if !in_tree {
        assert(pairs_view(out@) =~= middle + Seq::<(Seq<char>, Seq<char>)>::empty());
    }
    out
}

/// `pairs` are values of the first `n` of the `entries`: as many, under the
/// same names in the same order, and each with the value that its expression
/// has in the scope of the tree and garden, wherever the cached values of
/// `cfg` and the answers decide it.
pub open spec fn is_environment_of(
    pairs: Seq<(String, String)>,
    entries: Seq<(Seq<char>, Seq<char>)>,
    cfg: Configuration,
    tree: Option<TreeIndex>,
    garden: Option<GardenIndex>,
    answers: Seq<Answer>,
    n: int,
) -> bool {
    &&& pairs.len() == n
    &&& n <= entries.len()
    &&& forall|k: int|
        0 <= k < n ==> {
            &&& (#[trigger] pairs[k]).0@ == entries[k].0
            &&& spec_value(cfg, tree, garden, entries[k].1, answers) is Some ==> spec_value(
                cfg,
                tree,
                garden,
                entries[k].1,
                answers,
            ) == Some(Outcome::Value(pairs[k].1@))
        }
}

/// What comes of evaluating the first `n` of the entries one after the other,
/// in the scope of a tree and a garden, and the values cached by then: the
/// values of the entries, in order; or, from the first entry that needs a
/// command without an answer, the request to launch that command.
pub open spec fn spec_entry_values(
    cfg: Configuration,
    entries: Seq<(Seq<char>, Seq<char>)>,
    n: int,
    tree: Option<TreeIndex>,
    garden: Option<GardenIndex>,
    answers: Seq<Answer>,
) -> (Map<Slot, Seq<char>>, Result<Seq<Seq<char>>, Seq<char>>)
    decreases n,
{
    if n <= 0 || n > entries.len() {
        (Map::empty(), Ok(Seq::<Seq<char>>::empty()))
    } else {
        let before = spec_entry_values(cfg, entries, n - 1, tree, garden, answers);
        match before.1 {
            Err(command) => before,
            Ok(values) => {
                let last = spec_evaluate(
                    cfg,
                    before.0,
                    tree,
                    garden,
                    entries[n - 1].1,
                    Seq::<Slot>::empty(),
                    DEPTH_LIMIT as nat,
                    answers,
                );
                match last.1 {
                    Outcome::Value(v) => (last.0, Ok(values.push(v))),
                    Outcome::Launch(c) => (last.0, Err(c)),
                }
            },
        }
    }
}

/// Once an entry asks for a command, nothing after it is evaluated.
pub proof fn lemma_entry_values_stop(
    cfg: Configuration,
    entries: Seq<(Seq<char>, Seq<char>)>,
    n: int,
    m: int,
    tree: Option<TreeIndex>,
    garden: Option<GardenIndex>,
    answers: Seq<Answer>,
)
    requires
        0 <= n <= m <= entries.len(),
        spec_entry_values(cfg, entries, n, tree, garden, answers).1 is Err,
    ensures
        spec_entry_values(cfg, entries, m, tree, garden, answers) == spec_entry_values(
            cfg,
            entries,
            n,
            tree,
            garden,
            answers,
        ),
    decreases m - n,
{
    if n < m {
        lemma_entry_values_stop(cfg, entries, n, m - 1, tree, garden, answers);
    }
}

/// What comes of evaluating the environment of a context, and the values
/// cached by then.
pub open spec fn spec_environment(
    cfg: Configuration,
    tree: TreeIndex,
    garden: Option<GardenIndex>,
    answers: Seq<Answer>,
) -> (Map<Slot, Seq<char>>, Result<Seq<Seq<char>>, Seq<char>>) {
    let entries = spec_environment_entries(cfg, Some(tree), garden);
    spec_entry_values(cfg, entries, entries.len() as int, Some(tree), garden, answers)
}

/// `res` is the environment that `traced` stands for: the names of the entries
/// with the values, in order; or the command to launch.
pub open spec fn is_environment(
    res: Result<Vec<(String, String)>, String>,
    entries: Seq<(Seq<char>, Seq<char>)>,
    traced: Result<Seq<Seq<char>>, Seq<char>>,
) -> bool {
    match traced {
        Ok(values) => res is Ok && are_pairs_of(res->Ok_0@, entries, values),
        Err(command) => res is Err && res->Err_0@ == command,
    }
}

/// `pairs` are the names of the entries with the values, in order.
pub open spec fn are_pairs_of(
    pairs: Seq<(String, String)>,
    entries: Seq<(Seq<char>, Seq<char>)>,
    values: Seq<Seq<char>>,
) -> bool {
    &&& pairs.len() == values.len()
    &&& values.len() <= entries.len()
    &&& forall|k: int|
        0 <= k < values.len() ==> (#[trigger] pairs[k]).0@ == entries[k].0 && pairs[k].1@
            == values[k]
}

/// The environment of a context: each entry of the global environment, then of
/// the garden's, then of the tree's, with its expression evaluated in the scope
/// of the context. Where a value is the output of a command without an answer,
/// that command is returned instead.
pub fn environment(config: &mut Configuration, context: &TreeContext, answers: &Vec<Answer>) -> (res:
    Result<Vec<(String, String)>, String>)
    ensures
        grown(*final(config), *old(config)),
        res is Ok ==> is_environment_of(
            res->Ok_0@,
            spec_environment_entries(*old(config), Some(context.tree), context.garden),
            *old(config),
            Some(context.tree),
            context.garden,
            answers@,
            spec_environment_entries(*old(config), Some(context.tree), context.garden).len() as int,
        ),
        overlaid(
            *final(config),
            *old(config),
            spec_environment(*old(config), context.tree, context.garden, answers@).0,
        ),
        is_environment(
            res,
            spec_environment_entries(*old(config), Some(context.tree), context.garden),
            spec_environment(*old(config), context.tree, context.garden, answers@).1,
        ),
{
    proof {
        lemma_overlaid_start(*config);
    }
    let ghost mut now: Map<Slot, Seq<char>> = Map::empty();
    let ghost mut values: Seq<Seq<char>> = Seq::empty();
    let entries = environment_entries(config, Some(context.tree), context.garden);
    let ghost specs = spec_environment_entries(*old(config), Some(context.tree), context.garden);
    let mut out: Vec<(String, String)> = Vec::new();
    let n: usize = entries.len();
    let mut i: usize = 0;
    while i < n
        invariant
            i <= n,
            n == entries@.len(),
            pairs_view(entries@) == specs,
            grown(*config, *old(config)),
            is_environment_of(
                out@,
                specs,
                *old(config),
                Some(context.tree),
                context.garden,
                answers@,
                i as int,
            ),
            overlaid(*config, *old(config), now),
            specs == spec_environment_entries(*old(config), Some(context.tree), context.garden),
            spec_entry_values(
                *old(config),
                specs,
                i as int,
                Some(context.tree),
                context.garden,
                answers@,
            ) == (now, Ok::<Seq<Seq<char>>, Seq<char>>(values)),
            values.len() == i,
            forall|k: int|
                0 <= k < i ==> (#[trigger] out@[k]).0@ == specs[k].0 && out@[k].1@ == values[k],
        decreases n - i,
    {
        let ghost mid = *config;
        assert(pairs_view(entries@)[i as int] == specs[i as int]);
        let name = entries[i].0.clone();
        let expr = entries[i].1.as_str();
        proof {
            if spec_value(*old(config), Some(context.tree), context.garden, expr@, answers@)
                is Some {
                lemma_grown_keeps_value(
                    mid,
                    *old(config),
                    Some(context.tree),
                    context.garden,
                    expr@,
                    answers@,
                );
            }
        }
        let ghost last = spec_evaluate(
            *old(config),
            now,
            Some(context.tree),
            context.garden,
            expr@,
            Seq::<Slot>::empty(),
            DEPTH_LIMIT as nat,
            answers@,
        );
        let chars = chars_of(expr);
        let stack: Vec<Slot> = Vec::new();
        let res = evaluate(
            config,
            &chars,
            Some(context.tree),
            context.garden,
            &stack,
            DEPTH_LIMIT,
            answers,
            Ghost(*old(config)),
            Ghost(now),
        );
        proof {
            lemma_grown_transitive(*config, mid, *old(config));
            now = last.0;
        }
        match outcome(res) {
            Evaluated::Value(text) => {
                proof {
                    values = values.push(text@);
                }
                out.push((name, text));
            },
            Evaluated::Launch(command) => {
                proof {
                    assert(specs.len() == n);
                    lemma_entry_values_stop(
                        *old(config),
                        specs,
                        i + 1,
                        n as int,
                        Some(context.tree),
                        context.garden,
                        answers@,
                    );
                }
                return Err(command);
            },
        }
        i = i + 1;
    }
    Ok(out)
}

} // verus!
