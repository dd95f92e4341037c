//! The compiler's interpreter: a stack of values, a table of definitions,
//! and the values printed. Names are resolved through chains of definitions.

use vstd::prelude::*;
use crate::compiler::expression::{
    BuiltIn, BuiltInFunction, Call, CodeBlock, Definition, ExprView, Expression, TopLevelExpression,
};
use crate::compiler::tokens::LiteralView;
use super::Backend;
use crate::definitions::Definitions;

verus! {

/// Why a call failed.
#[derive(Debug, Clone, Copy, PartialEq, Eq, Structural)]
pub enum CallError {
    /// The name called is not defined.
    UndefinedCallable,
    /// The expression called cannot be called.
    Uncallable,
    /// The arguments do not suit the function.
    BadArguments,
}

/// What resolving a name gives: the value it finally stands for (no name), a
/// name that is not defined, or not enough fuel to finish.
pub enum Resolved {
    Found(ExprView),
    Missing,
    OutOfFuel,
}

/// Resolving `e` through the definitions `defs`, one definition per unit of
/// fuel: a name is replaced by what it is defined as until something that is
/// no name is reached.
pub open spec fn resolve_run(defs: Map<Seq<char>, ExprView>, e: ExprView, fuel: nat) -> Resolved
    decreases fuel,
{
    match e {
        ExprView::Identifier(n) => if fuel == 0 {
            Resolved::OutOfFuel
        } else if defs.contains_key(n) {
            resolve_run(defs, defs[n], (fuel - 1) as nat)
        } else {
            Resolved::Missing
        },
        _ => Resolved::Found(e),
    }
}

/// Whether resolving `e` finishes with some fuel (no cycle of definitions).
pub open spec fn resolve_ends(defs: Map<Seq<char>, ExprView>, e: ExprView) -> bool {
    exists|f: nat| !(resolve_run(defs, e, f) is OutOfFuel)
}

/// What resolving `e` gives, with fuel enough to finish.
pub open spec fn resolve_outcome(defs: Map<Seq<char>, ExprView>, e: ExprView) -> Resolved {
    resolve_run(defs, e, choose|f: nat| !(resolve_run(defs, e, f) is OutOfFuel))
}

/// More fuel changes nothing once resolving finishes.
pub proof fn lemma_resolve_fuel(defs: Map<Seq<char>, ExprView>, e: ExprView, f1: nat, f2: nat)
    requires
        f1 <= f2,
        !(resolve_run(defs, e, f1) is OutOfFuel),
    ensures
        resolve_run(defs, e, f2) == resolve_run(defs, e, f1),
    decreases f1,
{
    if let ExprView::Identifier(n) = e {
        if defs.contains_key(n) {
            lemma_resolve_fuel(defs, defs[n], (f1 - 1) as nat, (f2 - 1) as nat);
        }
    }
}

/// Every fuel with which resolving finishes gives its outcome.
pub proof fn lemma_resolve_outcome(defs: Map<Seq<char>, ExprView>, e: ExprView, f: nat)
    requires
        !(resolve_run(defs, e, f) is OutOfFuel),
    ensures
        resolve_outcome(defs, e) == resolve_run(defs, e, f),
{
    let c = choose|g: nat| !(resolve_run(defs, e, g) is OutOfFuel);
    if c <= f {
        lemma_resolve_fuel(defs, e, c, f);
    } else {
        lemma_resolve_fuel(defs, e, f, c);
    }
}

/// The interpreter's state as a value: the stack (top last), the definitions,
/// and the values printed so far.
#[verifier::ext_equal]
pub struct Machine {
    pub stack: Seq<ExprView>,
    pub defs: Map<Seq<char>, ExprView>,
    pub printed: Seq<ExprView>,
}

/// What running gives: a new state, a call error (the state unchanged), a
/// panic of the computation, or not enough fuel to finish.
pub enum Run {
    Done(Machine),
    Failed(CallError),
    Panic,
    OutOfFuel,
}

/// Calling `e` with `fuel` steps of nesting left. `Print` pops the top of the
/// stack, resolves it and prints it (an empty stack or an undefined name
/// panics); an arithmetic operator panics (arithmetic on numbers is not
/// there); a block processes its expressions in order; a name is resolved and
/// its value called; anything else cannot be called.
pub open spec fn call_run(m: Machine, e: ExprView, fuel: nat) -> Run
    decreases fuel, 0nat,
{
    if fuel == 0 {
        Run::OutOfFuel
    } else {
        match e {
            ExprView::BuiltIn(BuiltIn::Function(BuiltInFunction::Print)) => if m.stack.len() == 0 {
                Run::Panic
            } else {
                match resolve_run(m.defs, m.stack.last(), (fuel - 1) as nat) {
                    Resolved::Found(v) => Run::Done(
                        Machine {
                            stack: m.stack.drop_last(),
                            defs: m.defs,
                            printed: m.printed.push(v),
                        },
                    ),
                    Resolved::Missing => Run::Panic,
                    Resolved::OutOfFuel => Run::OutOfFuel,
                }
            },
            ExprView::BuiltIn(BuiltIn::Function(BuiltInFunction::MathOperator(_))) => Run::Panic,
            ExprView::Block(es) => run_all(m, es, (fuel - 1) as nat),
            ExprView::Identifier(_) => match resolve_run(m.defs, e, (fuel - 1) as nat) {
                Resolved::Found(v) => call_run(m, v, (fuel - 1) as nat),
                Resolved::Missing => Run::Failed(CallError::UndefinedCallable),
                Resolved::OutOfFuel => Run::OutOfFuel,
            },
            _ => Run::Failed(CallError::Uncallable),
        }
    }
}

/// Processing `e`: a literal is pushed; a name has its value pushed (an
/// undefined name panics); a definition is recorded; a call is made, and its
/// failure panics; a block or a built-in panics.
pub open spec fn process_run(m: Machine, e: ExprView, fuel: nat) -> Run
    decreases fuel, 0nat,
{
    match e {
        ExprView::Block(_) => Run::Panic,
        ExprView::Identifier(n) => if m.defs.contains_key(n) {
            Run::Done(Machine { stack: m.stack.push(m.defs[n]), ..m })
        } else {
            Run::Panic
        },
        ExprView::BuiltIn(_) => Run::Panic,
        ExprView::Literal(_) => Run::Done(Machine { stack: m.stack.push(e), ..m }),
        ExprView::Definition(n, v) => Run::Done(Machine { defs: m.defs.insert(n, *v), ..m }),
        ExprView::Call(v) => if fuel == 0 {
            Run::OutOfFuel
        } else {
            match call_run(m, *v, (fuel - 1) as nat) {
                Run::Failed(_) => Run::Panic,
                r => r,
            }
        },
    }
}

/// Processing the expressions `es` in order, stopping at the first that does
/// not finish.
pub open spec fn run_all(m: Machine, es: Seq<ExprView>, fuel: nat) -> Run
    decreases fuel, es.len() + 1,
{
    if es.len() == 0 {
        Run::Done(m)
    } else {
        match process_run(m, es[0], fuel) {
            Run::Done(m2) => run_all(m2, es.drop_first(), fuel),
            r => r,
        }
    }
}

/// Whether calling `e` finishes with some fuel.
pub open spec fn call_ends(m: Machine, e: ExprView) -> bool {
    exists|f: nat| !(call_run(m, e, f) is OutOfFuel)
}

/// What calling `e` gives, with fuel enough to finish.
pub open spec fn call_outcome(m: Machine, e: ExprView) -> Run {
    call_run(m, e, choose|f: nat| !(call_run(m, e, f) is OutOfFuel))
}

/// Whether processing `e` finishes with some fuel.
pub open spec fn process_ends(m: Machine, e: ExprView) -> bool {
    exists|f: nat| !(process_run(m, e, f) is OutOfFuel)
}

/// What processing `e` gives, with fuel enough to finish.
pub open spec fn process_outcome(m: Machine, e: ExprView) -> Run {
    process_run(m, e, choose|f: nat| !(process_run(m, e, f) is OutOfFuel))
}

/// More fuel changes nothing once a call finishes: the outcome of a call does
/// not depend on the fuel given.
pub proof fn lemma_call_fuel(m: Machine, e: ExprView, f1: nat, f2: nat)
    requires
        f1 <= f2,
        !(call_run(m, e, f1) is OutOfFuel),
    ensures
        call_run(m, e, f2) == call_run(m, e, f1),
    decreases f1, 0nat,
{
    match e {
        ExprView::Block(es) => {
            lemma_run_all_fuel(m, es, (f1 - 1) as nat, (f2 - 1) as nat);
        },
        ExprView::Identifier(_) => {
            if !(resolve_run(m.defs, e, (f1 - 1) as nat) is OutOfFuel) {
                lemma_resolve_fuel(m.defs, e, (f1 - 1) as nat, (f2 - 1) as nat);
                if let Resolved::Found(v) = resolve_run(m.defs, e, (f1 - 1) as nat) {
                    lemma_call_fuel(m, v, (f1 - 1) as nat, (f2 - 1) as nat);
                }
            }
        },
        ExprView::BuiltIn(BuiltIn::Function(BuiltInFunction::Print)) => {
            if m.stack.len() > 0 {
                lemma_resolve_fuel(m.defs, m.stack.last(), (f1 - 1) as nat, (f2 - 1) as nat);
            }
        },
        _ => {},
    }
}

/// More fuel changes nothing once processing finishes.
pub proof fn lemma_process_fuel(m: Machine, e: ExprView, f1: nat, f2: nat)
    requires
        f1 <= f2,
        !(process_run(m, e, f1) is OutOfFuel),
    ensures
        process_run(m, e, f2) == process_run(m, e, f1),
    decreases f1, 0nat,
{
    if let ExprView::Call(v) = e {
        lemma_call_fuel(m, *v, (f1 - 1) as nat, (f2 - 1) as nat);
    }
}

/// More fuel changes nothing once a sequence of expressions finishes.
pub proof fn lemma_run_all_fuel(m: Machine, es: Seq<ExprView>, f1: nat, f2: nat)
    requires
        f1 <= f2,
        !(run_all(m, es, f1) is OutOfFuel),
    ensures
        run_all(m, es, f2) == run_all(m, es, f1),
    decreases f1, es.len() + 1,
{
    if es.len() > 0 {
        lemma_process_fuel(m, es[0], f1, f2);
        if let Run::Done(m2) = process_run(m, es[0], f1) {
            lemma_run_all_fuel(m2, es.drop_first(), f1, f2);
        }
    }
}

/// Processing never fails with a call error: a failed call inside it panics.
pub proof fn lemma_run_all_not_failed(m: Machine, es: Seq<ExprView>, fuel: nat)
    ensures
        !(run_all(m, es, fuel) is Failed),
    decreases es.len(),
{
    if es.len() > 0 {
        if let Run::Done(m2) = process_run(m, es[0], fuel) {
            lemma_run_all_not_failed(m2, es.drop_first(), fuel);
        }
    }
}

/// Every fuel with which a call finishes gives the call's outcome.
pub proof fn lemma_call_outcome(m: Machine, e: ExprView, f: nat)
    requires
        !(call_run(m, e, f) is OutOfFuel),
    ensures
        call_outcome(m, e) == call_run(m, e, f),
{
    let c = choose|g: nat| !(call_run(m, e, g) is OutOfFuel);
    if c <= f {
        lemma_call_fuel(m, e, c, f);
    } else {
        lemma_call_fuel(m, e, f, c);
    }
}

/// Every fuel with which processing finishes gives its outcome.
pub proof fn lemma_process_outcome(m: Machine, e: ExprView, f: nat)
    requires
        !(process_run(m, e, f) is OutOfFuel),
    ensures
        process_outcome(m, e) == process_run(m, e, f),
{
    let c = choose|g: nat| !(process_run(m, e, g) is OutOfFuel);
    if c <= f {
        lemma_process_fuel(m, e, c, f);
    } else {
        lemma_process_fuel(m, e, f, c);
    }
}

/// Resolving never ends on a name, and resolving what it gives gives the same
/// value again.
pub proof fn lemma_resolve_gives_no_name(defs: Map<Seq<char>, ExprView>, e: ExprView, fuel: nat)
    ensures
        resolve_run(defs, e, fuel) matches Resolved::Found(v) ==> !(v is Identifier)
            && resolve_ends(defs, v) && resolve_outcome(defs, v) == Resolved::Found(v),
    decreases fuel,
{
    if let ExprView::Identifier(n) = e {
        if fuel > 0 && defs.contains_key(n) {
            lemma_resolve_gives_no_name(defs, defs[n], (fuel - 1) as nat);
        }
    }
    if let Resolved::Found(v) = resolve_run(defs, e, fuel) {
        lemma_found_is_no_name(defs, e, fuel);
        assert(!(resolve_run(defs, v, 0) is OutOfFuel));
        lemma_resolve_outcome(defs, v, 0);
    }
}

/// What resolving finds is no name.
proof fn lemma_found_is_no_name(defs: Map<Seq<char>, ExprView>, e: ExprView, fuel: nat)
    ensures
        resolve_run(defs, e, fuel) matches Resolved::Found(v) ==> !(v is Identifier),
    decreases fuel,
{
    if let ExprView::Identifier(n) = e {
        if fuel > 0 && defs.contains_key(n) {
            lemma_found_is_no_name(defs, defs[n], (fuel - 1) as nat);
        }
    }
}

/// A definition followed by its name: the definition records the value, and
/// the name then pushes that value on the stack.
pub proof fn lemma_define_then_use(m: Machine, name: Seq<char>, value: ExprView)
    ensures
        ({
            let define = ExprView::Definition(name, Box::new(value));
            let defined = Machine { defs: m.defs.insert(name, value), ..m };
            &&& process_ends(m, define)
            &&& process_outcome(m, define) == Run::Done(defined)
            &&& process_ends(defined, ExprView::Identifier(name))
            &&& process_outcome(defined, ExprView::Identifier(name)) == Run::Done(
                Machine { stack: m.stack.push(value), ..defined },
            )
        }),
{
    let define = ExprView::Definition(name, Box::new(value));
    let defined = Machine { defs: m.defs.insert(name, value), ..m };
    assert(!(process_run(m, define, 0) is OutOfFuel));
    lemma_process_outcome(m, define, 0);
    assert(!(process_run(defined, ExprView::Identifier(name), 0) is OutOfFuel));
    lemma_process_outcome(defined, ExprView::Identifier(name), 0);
}

/// A literal followed by a call of `Print`: the literal is pushed, then
/// printed, and the stack is as it was before.
pub proof fn lemma_push_then_print(m: Machine, lit: LiteralView)
    ensures
        ({
            let pushed = Machine { stack: m.stack.push(ExprView::Literal(lit)), ..m };
            let print = ExprView::Call(Box::new(ExprView::BuiltIn(BuiltIn::Function(BuiltInFunction::Print))));
            &&& process_ends(m, ExprView::Literal(lit))
            &&& process_outcome(m, ExprView::Literal(lit)) == Run::Done(pushed)
            &&& process_ends(pushed, print)
            &&& process_outcome(pushed, print) == Run::Done(
                Machine { printed: m.printed.push(ExprView::Literal(lit)), ..m },
            )
        }),
{
    let pushed = Machine { stack: m.stack.push(ExprView::Literal(lit)), ..m };
    let print = ExprView::Call(Box::new(ExprView::BuiltIn(BuiltIn::Function(BuiltInFunction::Print))));
    assert(!(process_run(m, ExprView::Literal(lit), 0) is OutOfFuel));
    lemma_process_outcome(m, ExprView::Literal(lit), 0);
    assert(pushed.stack.drop_last() =~= m.stack);
    assert(process_run(pushed, print, 2) == Run::Done(
        Machine { printed: m.printed.push(ExprView::Literal(lit)), ..m },
    ));
    lemma_process_outcome(pushed, print, 2);
}

/// Calling a name that resolves to a value is calling that value.
pub proof fn lemma_call_name(m: Machine, name: Seq<char>, value: ExprView)
    requires
        resolve_ends(m.defs, ExprView::Identifier(name)),
        resolve_outcome(m.defs, ExprView::Identifier(name)) == Resolved::Found(value),
        call_ends(m, value),
    ensures
        call_ends(m, ExprView::Identifier(name)),
        call_outcome(m, ExprView::Identifier(name)) == call_outcome(m, value),
{
    let e = ExprView::Identifier(name);
    let fr = choose|f: nat| !(resolve_run(m.defs, e, f) is OutOfFuel);
    let fc = choose|f: nat| !(call_run(m, value, f) is OutOfFuel);
    let f: nat = if fr <= fc { fc } else { fr };
    lemma_resolve_fuel(m.defs, e, fr, f);
    lemma_call_fuel(m, value, fc, f);
    lemma_call_outcome(m, value, f);
    assert(call_run(m, e, f + 1) == call_run(m, value, f));
    lemma_call_outcome(m, e, f + 1);
}

/// Calling a block processes its expressions one after another, each as it
/// would be processed at the top level: the first is processed, then the rest
/// of the block is called from the state it leads to; the first expression
/// that does not finish ends the call with its outcome. An empty block changes
/// nothing.
pub proof fn lemma_call_block_step(m: Machine, e: ExprView, es: Seq<ExprView>, fuel: nat)
    ensures
        call_run(m, ExprView::Block(seq![e] + es), fuel + 1) == match process_run(m, e, fuel) {
            Run::Done(m2) => call_run(m2, ExprView::Block(es), fuel + 1),
            r => r,
        },
        call_run(m, ExprView::Block(Seq::empty()), fuel + 1) == Run::Done(m),
{
    let block = seq![e] + es;
    assert(block[0] == e);
    assert(block.drop_first() =~= es);
    assert(call_run(m, ExprView::Block(block), fuel + 1) == run_all(m, block, fuel));
    assert(call_run(m, ExprView::Block(Seq::empty()), fuel + 1) == run_all(m, Seq::empty(), fuel));
    if let Run::Done(m2) = process_run(m, e, fuel) {
        assert(call_run(m2, ExprView::Block(es), fuel + 1) == run_all(m2, es, fuel));
    }
}

/// A block that pushes a literal and then calls `Print` prints the literal
/// and leaves the stack and the definitions as they were.
pub proof fn lemma_call_block_push_print(m: Machine, lit: LiteralView)
    ensures
        ({
            let block = ExprView::Block(
                seq![ExprView::Literal(lit), ExprView::Call(Box::new(ExprView::BuiltIn(BuiltIn::Function(BuiltInFunction::Print))))],
            );
            &&& call_ends(m, block)
            &&& call_outcome(m, block) == Run::Done(
                Machine { printed: m.printed.push(ExprView::Literal(lit)), ..m },
            )
        }),
{
    let print = ExprView::Call(Box::new(ExprView::BuiltIn(BuiltIn::Function(BuiltInFunction::Print))));
    let block = ExprView::Block(seq![ExprView::Literal(lit), print]);
    let pushed = Machine { stack: m.stack.push(ExprView::Literal(lit)), ..m };
    let es = seq![ExprView::Literal(lit), print];
    assert(es[0] == ExprView::Literal(lit));
    assert(es.drop_first() =~= seq![print]);
    assert(seq![print].drop_first() =~= Seq::<ExprView>::empty());
    assert(pushed.stack.drop_last() =~= m.stack);
    assert(process_run(pushed, print, 2) == Run::Done(
        Machine { printed: m.printed.push(ExprView::Literal(lit)), ..m },
    ));
    assert(process_run(m, ExprView::Literal(lit), 2) == Run::Done(pushed));
    assert(run_all(pushed, seq![print], 2) == run_all(
        Machine { printed: m.printed.push(ExprView::Literal(lit)), ..m },
        Seq::<ExprView>::empty(),
        2,
    ));
    assert(run_all(m, es, 2) == Run::Done(
        Machine { printed: m.printed.push(ExprView::Literal(lit)), ..m },
    ));
    assert(!(call_run(m, block, 3) is OutOfFuel));
    lemma_call_outcome(m, block, 3);
}

/// The interpreter: a stack of values, the definitions made, and the values
/// printed (for the caller to show).
#[derive(Debug)]
pub struct Interpreter {
    stack: Vec<Expression>,
    var_defs: Definitions<Expression>,
    printed: Vec<Expression>,
}

impl View for Interpreter {
    type V = Machine;

    closed spec fn view(&self) -> Machine {
        Machine {
            stack: self.stack@.map_values(|e: Expression| e@),
            defs: self.var_defs.map().map_values(|e: Expression| e@),
            printed: self.printed@.map_values(|e: Expression| e@),
        }
    }
}

impl Interpreter {
    /// The interpreter's invariant: no name is defined twice.
    pub closed spec fn wf(&self) -> bool {
        self.var_defs.wf()
    }

    /// An interpreter with an empty stack and no definitions.
    pub fn new() -> (r: Self)
        ensures
            r.wf(),
            r@.stack == Seq::<ExprView>::empty(),
            r@.defs == Map::<Seq<char>, ExprView>::empty(),
            r@.printed == Seq::<ExprView>::empty(),
    {
        let r = Interpreter { stack: Vec::new(), var_defs: Definitions::new(), printed: Vec::new() };
        assert(r@.stack =~= Seq::<ExprView>::empty());
        assert(r@.defs =~= Map::<Seq<char>, ExprView>::empty());
        assert(r@.printed =~= Seq::<ExprView>::empty());
        r
    }

    /// The stack, top last.
    pub fn stack(&self) -> (r: &Vec<Expression>)
        ensures
            r@.map_values(|e: Expression| e@) == self@.stack,
    {
        &self.stack
    }

    /// Takes the values printed so far, leaving none.
    pub fn take_printed(&mut self) -> (r: Vec<Expression>)
        requires
            old(self).wf(),
        ensures
            final(self).wf(),
            r@.map_values(|e: Expression| e@) == old(self)@.printed,
            final(self)@ == (Machine { printed: Seq::empty(), ..old(self)@ }),
    {
        let mut r: Vec<Expression> = Vec::new();
        std::mem::swap(&mut r, &mut self.printed);
        assert(self@ =~= (Machine { printed: Seq::empty(), ..old(self)@ }));
        r
    }

    /// Defines `name` as `value`, replacing an earlier definition.
    fn define(&mut self, name: String, value: Expression)
        requires
            old(self).wf(),
        ensures
            final(self).wf(),
            final(self)@ == (Machine {
                defs: old(self)@.defs.insert(name@, value@),
                ..old(self)@
            }),
    {
        let ghost k = name@;
        let ghost v = value@;
        let ghost m0 = self.var_defs.map();
        self.var_defs.define(name, value);
        assert(self.var_defs.map().map_values(|e: Expression| e@) =~= m0.map_values(|e: Expression| e@).insert(k, v));
        assert(self@ =~= (Machine { defs: old(self)@.defs.insert(k, v), ..old(self)@ }));
    }

    /// Resolves `expr` with `fuel` steps (see `resolve_run`).
    fn resolve_fueled(&self, expr: Expression, Ghost(fuel): Ghost<nat>) -> (r: Option<Expression>)
        requires
            self.wf(),
            !(resolve_run(self@.defs, expr@, fuel) is OutOfFuel),
        ensures
            match resolve_run(self@.defs, expr@, fuel) {
                Resolved::Found(v) => r matches Some(x) && x@ == v,
                _ => r is None,
            },
        decreases fuel,
    {
        match expr {
            Expression::Identifier(name) => {
                match self.var_defs.get(&name) {
                    Some(v) => {
                        let value = v.clone();
                        self.resolve_fueled(value, Ghost((fuel - 1) as nat))
                    },
                    None => None,
                }
            },
            e => Some(e),
        }
    }

    /// Resolves `expr` through the definitions: the value it finally stands
    /// for, or `None` when a name on the way is not defined. Cycles of
    /// definitions, on which the resolution never ends, are left out.
    pub fn resolve(&self, expr: Expression) -> (r: Option<Expression>)
        requires
            self.wf(),
            resolve_ends(self@.defs, expr@),
        ensures
            match resolve_outcome(self@.defs, expr@) {
                Resolved::Found(v) => r matches Some(x) && x@ == v,
                _ => r is None,
            },
    {
        let ghost f = choose|f: nat| !(resolve_run(self@.defs, expr@, f) is OutOfFuel);
        self.resolve_fueled(expr, Ghost(f))
    }

    /// Pops the top of the stack and resolves it (see `pop_resolve`).
    fn pop_resolve_fueled(&mut self, Ghost(fuel): Ghost<nat>) -> (r: Option<Expression>)
        requires
            old(self).wf(),
            old(self)@.stack.len() > 0 ==> !(resolve_run(
                old(self)@.defs,
                old(self)@.stack.last(),
                fuel,
            ) is OutOfFuel),
        ensures
            final(self).wf(),
            old(self)@.stack.len() == 0 ==> r is None && final(self)@ == old(self)@,
            old(self)@.stack.len() > 0 ==> final(self)@ == (Machine {
                stack: old(self)@.stack.drop_last(),
                ..old(self)@
            }) && match resolve_run(old(self)@.defs, old(self)@.stack.last(), fuel) {
                Resolved::Found(v) => r matches Some(x) && x@ == v,
                _ => r is None,
            },
    {
        let expression = match self.stack.pop() {
            Some(e) => e,
            None => return None,
        };
        assert(self@ =~= (Machine { stack: old(self)@.stack.drop_last(), ..old(self)@ }));
        self.resolve_fueled(expression, Ghost(fuel))
    }

    /// Pops the top of the stack and resolves it: `None` when the stack is
    /// empty or a name on the way is not defined. Cycles of definitions are
    /// left out.
    pub fn pop_resolve(&mut self) -> (r: Option<Expression>)
        requires
            old(self).wf(),
            old(self)@.stack.len() > 0 ==> resolve_ends(old(self)@.defs, old(self)@.stack.last()),
        ensures
            final(self).wf(),
            old(self)@.stack.len() == 0 ==> r is None && final(self)@ == old(self)@,
            old(self)@.stack.len() > 0 ==> final(self)@ == (Machine {
                stack: old(self)@.stack.drop_last(),
                ..old(self)@
            }) && match resolve_outcome(old(self)@.defs, old(self)@.stack.last()) {
                Resolved::Found(v) => r matches Some(x) && x@ == v,
                _ => r is None,
            },
    {
        let ghost f: nat = if self@.stack.len() > 0 {
            choose|f: nat| !(resolve_run(self@.defs, self@.stack.last(), f) is OutOfFuel)
        } else {
            0
        };
        self.pop_resolve_fueled(Ghost(f))
    }

    /// Calls `expr` with `fuel` steps of nesting (see `call_run`).
    fn call_fueled(&mut self, expr: Expression, Ghost(fuel): Ghost<nat>) -> (r: Result<(), CallError>)
        requires
            old(self).wf(),
            call_run(old(self)@, expr@, fuel) is Done || call_run(old(self)@, expr@, fuel) is Failed,
        ensures
            final(self).wf(),
            match call_run(old(self)@, expr@, fuel) {
                Run::Done(m) => r is Ok && final(self)@ == m,
                Run::Failed(e) => r == Err::<(), CallError>(e) && final(self)@ == old(self)@,
                _ => false,
            },
        decreases fuel,
    {
        let ghost ev = expr@;
        match expr {
            Expression::BuiltIn(BuiltIn::Function(BuiltInFunction::Print)) => {
                let ghost top = self@.stack.last();
                let to_print = match self.pop_resolve_fueled(Ghost((fuel - 1) as nat)) {
                    Some(v) => v,
                    None => return Ok(()),
                };
                self.printed.push(to_print);
                assert(self@ =~= (Machine {
                    stack: old(self)@.stack.drop_last(),
                    defs: old(self)@.defs,
                    printed: old(self)@.printed.push(to_print@),
                }));
                Ok(())
            },
            Expression::CodeBlock(code) => {
                let expressions = code.expressions;
                let ghost es = Seq::new(
                    expressions@.len(),
                    |i: int|
                        if 0 <= i < expressions@.len() {
                            expressions@[i]@
                        } else {
                            ExprView::Block(Seq::empty())
                        },
                );
                proof {
                    if let ExprView::Block(inner) = ev {
                        assert(inner =~= es);
                    }
                }
                assert(ev == ExprView::Block(es));
                proof { lemma_run_all_not_failed(old(self)@, es, (fuel - 1) as nat); }
                let ghost f = (fuel - 1) as nat;
                let ghost total = run_all(old(self)@, es, f);
                let mut i: usize = 0;
                assert(es.skip(0) =~= es);
                while i < expressions.len()
                    invariant
                        i <= expressions.len(),
                        es.len() == expressions@.len(),
                        forall|j: int| 0 <= j < es.len() ==> es[j] == (#[trigger] expressions@[j])@,
                        self.wf(),
                        fuel > 0,
                        f == fuel - 1,
                        total is Done,
                        run_all(self@, es.skip(i as int), f) == total,
                    decreases expressions.len() - i,
                {
                    let e = expressions[i].clone();
                    let ghost rest = es.skip(i as int);
                    assert(rest[0] == es[i as int]);
                    assert(rest.drop_first() =~= es.skip(i + 1 as int));
                    self.process_fueled(e, Ghost(f));
                    i = i + 1;
                }
                assert(es.skip(i as int).len() == 0);
                Ok(())
            },
            Expression::Identifier(name) => {
                let ident = Expression::Identifier(name);
                let value = match self.resolve_fueled(ident, Ghost((fuel - 1) as nat)) {
                    Some(v) => v,
                    None => return Err(CallError::UndefinedCallable),
                };
                self.call_fueled(value, Ghost((fuel - 1) as nat))
            },
            _ => Err(CallError::Uncallable),
        }
    }

    /// Processes `expr` with `fuel` steps of nesting (see `process_run`).
    fn process_fueled(&mut self, expr: Expression, Ghost(fuel): Ghost<nat>)
        requires
            old(self).wf(),
            process_run(old(self)@, expr@, fuel) is Done,
        ensures
            final(self).wf(),
            process_run(old(self)@, expr@, fuel) == Run::Done(final(self)@),
        decreases fuel,
    {
        let ghost ev = expr@;
        match expr {
            Expression::Identifier(name) => {
                match self.var_defs.get(&name) {
                    Some(v) => {
                        let value = v.clone();
                        self.stack.push(value);
                        assert(self@ =~= (Machine {
                            stack: old(self)@.stack.push(old(self)@.defs[name@]),
                            ..old(self)@
                        }));
                    },
                    None => {},
                }
            },
            Expression::TopLevelExpression(TopLevelExpression::Literal(l)) => {
                self.stack.push(Expression::TopLevelExpression(TopLevelExpression::Literal(l)));
                assert(self@ =~= (Machine { stack: old(self)@.stack.push(ev), ..old(self)@ }));
            },
            Expression::TopLevelExpression(TopLevelExpression::Definition(d)) => {
                let Definition { name, value } = d;
                self.define(name, *value);
            },
            Expression::TopLevelExpression(TopLevelExpression::Call(c)) => {
                let Call { value } = c;
                let _ = self.call_fueled(*value, Ghost((fuel - 1) as nat));
            },
            _ => {},
        }
    }

    /// Calls `expr`. The calls that panic or never finish are left out; a call
    /// gives its outcome with any fuel that lets it finish (`call_outcome`).
    pub fn try_call(&mut self, expr: Expression) -> (r: Result<(), CallError>)
        requires
            old(self).wf(),
            call_ends(old(self)@, expr@),
            !(call_outcome(old(self)@, expr@) is Panic),
        ensures
            final(self).wf(),
            match call_outcome(old(self)@, expr@) {
                Run::Done(m) => r is Ok && final(self)@ == m,
                Run::Failed(e) => r == Err::<(), CallError>(e) && final(self)@ == old(self)@,
                _ => false,
            },
    {
        let ghost f = choose|f: nat| !(call_run(self@, expr@, f) is OutOfFuel);
        self.call_fueled(expr, Ghost(f))
    }
}

impl Default for Interpreter {
    /// An interpreter with an empty stack and no definitions.
    fn default() -> (r: Self)
        ensures
            r.wf(),
            r@.stack == Seq::<ExprView>::empty(),
            r@.defs == Map::<Seq<char>, ExprView>::empty(),
            r@.printed == Seq::<ExprView>::empty(),
    {
        Interpreter::new()
    }
}

impl Backend for Interpreter {
    open spec fn can_process(&self, expression: Expression) -> bool {
        &&& self.wf()
        &&& process_ends(self@, expression@)
        &&& process_outcome(self@, expression@) is Done
    }

    open spec fn processed(&self, expression: Expression, after: Self) -> bool {
        &&& after.wf()
        &&& process_outcome(self@, expression@) == Run::Done(after@)
    }

    fn process(&mut self, expression: Expression) {
        let ghost f = choose|f: nat| !(process_run(self@, expression@, f) is OutOfFuel);
        self.process_fueled(expression, Ghost(f));
    }
}

} // verus!
