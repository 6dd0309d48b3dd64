//! The evaluator: it takes the steps of the machine, one at a time.
//!
//! An evaluation does not print, and it does not compute with
//! floating-point numbers: it tells its host what to print and what to
//! compute, and goes on with the host's answer.
use crate::ast::{AssignTarget, BinaryOp, Expr, LogicalOp, Program, Stmt, UnaryOp};
use crate::environment::{insert, Environment, Scopes};
use crate::error::{BccError, Span};
use crate::host::{piece_views, Answer, Comparison, Piece, Reply, Request};
use crate::keys::{
    keyed, keyed_scopes, lemma_expression_starts_keyed, lemma_keys_stay_unique,
    lemma_program_starts_keyed, lemma_start_is_keyed, lemma_step_keeps_keys,
    lemma_step_keeps_plain, plain, plain_statements, plain_works,
};
use crate::machine;
use crate::laws::{balanced, lemma_start_is_balanced};
use crate::machine::{Act, ActView, State, Stepped, Work};
use crate::soundness::{
    answers, lemma_expression_starts_sound, lemma_never_lost, lemma_program_starts_sound,
    lemma_step_is_sound, sound,
};
use crate::operations::{
    builtin_divmod, builtin_len, builtin_type, evaluate_binary_op, evaluate_unary_op, is_equal,
    property_access, Outcome, Paired,
};
use crate::text::{concat2, concat3, concat5, equal, owned, replace, usize_to_string};
use crate::value::{
    clone_values, entry_views, group_value_views, value_views, CaseResult, DictEntry, Double,
    Value, ValueView, well_keyed,
};
use vstd::prelude::*;
use vstd::string::*;

verus! {

broadcast use group_value_views;

/// What the host is to do after a step.
pub enum Action {
    /// Take the next step.
    Continue,
    /// Write the pieces and a line end, then take the next step.
    Print(Vec<Piece<String>>),
    /// Compute what is asked, then take the next step with the answer.
    Ask(Request<String>),
    /// The evaluation has ended, with a value or a runtime error.
    Done(Result<Value, BccError>),
    /// The evaluation cannot go on: the reply is none that answers the
    /// request, or the state is none that an evaluation reaches.
    Lost,
}

impl View for Action {
    type V = ActView;

    open spec fn view(&self) -> ActView {
        match self {
            Action::Continue => Act::Continue,
            Action::Print(pieces) => Act::Print(piece_views(pieces@)),
            Action::Ask(request) => Act::Ask(request@),
            Action::Done(result) => Act::Done(
                match result {
                    Ok(v) => Ok(v@),
                    Err(e) => Err(e@),
                },
            ),
            Action::Lost => Act::Lost,
        }
    }
}

/// The state between evaluations: the scopes with their bindings.
pub struct Evaluator {
    environment: Environment,
}

impl View for Evaluator {
    type V = Scopes;

    closed spec fn view(&self) -> Scopes {
        self.environment@
    }
}

/// The evaluation of a program or of an expression, step by step. The
/// host takes steps until one tells it that the evaluation is done.
pub struct Evaluation<'a> {
    environment: Environment,
    work: Vec<Work<'a>>,
    values: Vec<Value>,
}

impl<'a> View for Evaluation<'a> {
    type V = State<'a>;

    closed spec fn view(&self) -> State<'a> {
        State { scopes: self.environment@, work: self.work@, values: value_views(self.values@) }
    }
}

/// The state and the action of a step, taken together.
pub open spec fn stepped<'a>(state: State<'a>, action: ActView) -> Stepped<'a> {
    Stepped { state, action }
}

impl Evaluator {
    /// An evaluator whose one scope binds the built-in functions.
    pub fn new() -> (evaluator: Evaluator)
        ensures
            evaluator@ == machine::initial_scopes(),
            keyed_scopes(evaluator@),
    {
        proof {
            lemma_start_is_keyed();
        }
        let mut environment = Environment::new();
        let _ = environment.assign("print", Value::String(owned("__builtin_print__")));
        let _ = environment.assign("len", Value::String(owned("__builtin_len__")));
        let _ = environment.assign("type", Value::String(owned("__builtin_type__")));
        let _ = environment.assign("case", Value::String(owned("__builtin_case__")));
        let _ = environment.assign("divmod", Value::String(owned("__builtin_divmod__")));
        Evaluator { environment }
    }

    /// A copy of what a name is bound to.
    pub fn get(&self, name: &str) -> (value: Option<Value>)
        ensures
            match value {
                Some(v) => crate::environment::lookup(self@, name@) == Some(v@),
                None => crate::environment::lookup(self@, name@) is None,
            },
    {
        self.environment.get(name)
    }

    /// Begins the evaluation of a program: its statements are executed
    /// in order.
    pub fn evaluate_program<'a>(self, program: &'a Program) -> (run: Evaluation<'a>)
        ensures
            run@ == machine::program_start(self@, &program.statements),
            sound(run@),
            self@.len() >= 1 ==> balanced(run@, self@.len() as int),
            keyed_scopes(self@) && plain_statements(program.statements@) ==> keyed(run@)
                && plain_works(run@.work),
    {
        proof {
            if keyed_scopes(self@) && plain_statements(program.statements@) {
                lemma_program_starts_keyed(self@, &program.statements);
            }
            lemma_program_starts_sound(self@, &program.statements);
            if self@.len() >= 1 {
                lemma_start_is_balanced(self@, &program.statements);
            }
        }
        let mut run = Evaluation { environment: self.environment, work: Vec::new(), values: Vec::new() };
        assert(value_views(run.values@) =~= Seq::empty());
        run.schedule_statements(&program.statements);
        assert(Seq::<Work<'a>>::empty() + machine::executions(&program.statements)
            =~= machine::executions(&program.statements));
        run
    }

    /// Begins the evaluation of an expression.
    pub fn evaluate_expression<'a>(self, expr: &'a Expr) -> (run: Evaluation<'a>)
        ensures
            run@ == machine::expression_start(self@, expr),
            sound(run@),
            keyed_scopes(self@) && plain(*expr) ==> keyed(run@) && plain_works(run@.work),
    {
        proof {
            if keyed_scopes(self@) && plain(*expr) {
                lemma_expression_starts_keyed(self@, expr);
            }
            lemma_expression_starts_sound(self@, expr);
        }
        let mut work: Vec<Work<'a>> = Vec::new();
        work.push(Work::Eval(expr));
        let run = Evaluation { environment: self.environment, work, values: Vec::new() };
        assert(value_views(run.values@) =~= Seq::empty());
        assert(run.work@ =~= seq![Work::Eval(expr)]);
        run
    }
}

impl<'a> Evaluation<'a> {
    /// The evaluator with the scopes as the evaluation left them.
    pub fn into_evaluator(self) -> (evaluator: Evaluator)
        ensures
            evaluator@ == self@.scopes,
    {
        Evaluator { environment: self.environment }
    }

    /// Whether no work is left.
    pub fn is_finished(&self) -> (b: bool)
        ensures
            b == (self@.work.len() == 0),
    {
        self.work.len() == 0
    }

    // -----------------------------------------------------------------------
    // Building blocks
    // -----------------------------------------------------------------------
    fn plan(&mut self, w: Work<'a>)
        ensures
            final(self)@ == machine::with_work(old(self)@, w),
    {
        self.work.push(w);
    }

    fn give(&mut self, v: Value)
        ensures
            final(self)@ == machine::with_value(old(self)@, v@),
    {
        let ghost before = self.values@;
        self.values.push(v);
        assert(value_views(self.values@) =~= value_views(before).push(v@));
    }

    /// Takes the last value, if there is one.
    fn take(&mut self) -> (value: Option<Value>)
        ensures
            match value {
                Some(v) => old(self)@.values.len() >= 1 && v@ == machine::from_end(old(self)@, 0)
                    && final(self)@ == machine::without(old(self)@, 1),
                None => old(self)@.values.len() == 0 && final(self)@ == old(self)@,
            },
    {
        let ghost before = self.values@;
        let value = self.values.pop();
        assert(value is Some ==> value_views(self.values@) =~= value_views(before).subrange(
            0,
            before.len() - 1,
        ));
        value
    }

    /// Drops the last `n` values.
    fn drop_values(&mut self, n: usize)
        requires
            n <= old(self)@.values.len(),
        ensures
            final(self)@ == machine::without(old(self)@, n as int),
    {
        let ghost before = self.values@;
        let keep = self.values.len() - n;
        self.values.truncate(keep);
        assert(value_views(self.values@) =~= value_views(before).subrange(0, keep as int));
    }

    /// Ends the evaluation early: closes the scopes that blocks opened,
    /// drops work and values.
    fn stop(&mut self)
        ensures
            final(self)@ == machine::stopped(old(self)@),
    {
        loop
            invariant
                machine::unwound(self.environment@, machine::closes(self.work@)) == machine::unwound(
                    old(self).environment@,
                    machine::closes(old(self).work@),
                ),
            ensures
                self.work@.len() == 0,
                self.environment@ == machine::unwound(
                    old(self).environment@,
                    machine::closes(old(self).work@),
                ),
            decreases self.work.len(),
        {
            match self.work.pop() {
                Some(Work::CloseScope) => {
                    self.environment.pop_scope();
                },
                Some(_) => {},
                None => {
                    break;
                },
            }
        }
        self.values = Vec::new();
        assert(value_views(self.values@) =~= Seq::empty());
        assert(self.work@ =~= Seq::empty());
    }

    /// Ends the evaluation with an error.
    fn fail(&mut self, e: BccError) -> (action: Action)
        ensures
            stepped(final(self)@, action@) == machine::failed(old(self)@, e@),
    {
        self.stop();
        Action::Done(Err(e))
    }

    fn corrupt(&mut self) -> (action: Action)
        ensures
            stepped(final(self)@, action@) == machine::corrupt(old(self)@),
    {
        self.stop();
        Action::Lost
    }

    fn crowded(&mut self) -> (action: Action)
        ensures
            stepped(final(self)@, action@) == machine::failed(old(self)@, machine::crowded()),
    {
        self.fail(BccError::runtime_error(Span::new(0, 0), owned("Too many values")))
    }

    fn settle(&mut self, result: Result<Value, BccError>) -> (action: Action)
        ensures
            stepped(final(self)@, action@) == machine::settle(
                old(self)@,
                match result {
                    Ok(v) => Ok(v@),
                    Err(e) => Err(e@),
                },
            ),
    {
        match result {
            Ok(v) => {
                self.give(v);
                Action::Continue
            },
            Err(e) => self.fail(e),
        }
    }

    /// Schedules the evaluation of the expressions, the first on top.
    fn schedule_expressions(&mut self, exprs: &'a Vec<Expr>)
        ensures
            final(self)@ == (State {
                work: old(self)@.work + machine::evaluations(exprs),
                ..old(self)@
            }),
    {
        let ghost before = self.work@;
        let mut i: usize = exprs.len();
        assert(before + machine::evaluations(exprs).subrange(0, 0) =~= before);
        while i > 0
            invariant
                i <= exprs.len(),
                self.environment == old(self).environment,
                self.values == old(self).values,
                self.work@ == before + machine::evaluations(exprs).subrange(0, exprs.len() - i),
            decreases i,
        {
            i -= 1;
            self.work.push(Work::Eval(&exprs[i]));
            assert(self.work@ =~= before + machine::evaluations(exprs).subrange(
                0,
                exprs.len() - i,
            ));
        }
        assert(machine::evaluations(exprs).subrange(0, exprs.len() as int)
            =~= machine::evaluations(exprs));
    }

    /// Schedules the execution of the statements, the first on top.
    fn schedule_statements(&mut self, stmts: &'a Vec<Stmt>)
        ensures
            final(self)@ == (State {
                work: old(self)@.work + machine::executions(stmts),
                ..old(self)@
            }),
    {
        let ghost before = self.work@;
        let mut i: usize = stmts.len();
        assert(before + machine::executions(stmts).subrange(0, 0) =~= before);
        while i > 0
            invariant
                i <= stmts.len(),
                self.environment == old(self).environment,
                self.values == old(self).values,
                self.work@ == before + machine::executions(stmts).subrange(0, stmts.len() - i),
            decreases i,
        {
            i -= 1;
            self.work.push(Work::Exec(&stmts[i]));
            assert(self.work@ =~= before + machine::executions(stmts).subrange(
                0,
                stmts.len() - i,
            ));
        }
        assert(machine::executions(stmts).subrange(0, stmts.len() as int) =~= machine::executions(
            stmts,
        ));
    }

    // -----------------------------------------------------------------------
    // Expressions
    // -----------------------------------------------------------------------
    /// The first step of an expression.
    fn evaluate(&mut self, e: &'a Expr) -> (action: Action)
        ensures
            stepped(final(self)@, action@) == machine::evaluate(old(self)@, e),
    {
        match e {
            Expr::Literal { value, .. } => {
                self.give(value.clone());
                Action::Continue
            },
            Expr::DoubleLiteral { text, .. } => {
                self.plan(Work::Reply(Answer::Double));
                Action::Ask(Request::Parse(text.clone()))
            },
            Expr::Variable { name, span } => {
                match self.environment.get(name.as_str()) {
                    Some(v) => {
                        self.give(v);
                        Action::Continue
                    },
                    None => {
                        let message = concat3("Undefined variable '", name.as_str(), "'");
                        self.fail(BccError::runtime_error(*span, message))
                    },
                }
            },
            Expr::Assign { value, .. } => {
                self.plan(Work::Then(e, 1));
                self.plan(Work::Eval(&**value));
                Action::Continue
            },
            Expr::MultiAssign { value, .. } => {
                self.plan(Work::Then(e, 1));
                self.plan(Work::Eval(&**value));
                Action::Continue
            },
            Expr::Binary { left, right, .. } => {
                self.plan(Work::Then(e, 1));
                self.plan(Work::Eval(&**right));
                self.plan(Work::Eval(&**left));
                Action::Continue
            },
            Expr::Unary { operand, .. } => {
                self.plan(Work::Then(e, 1));
                self.plan(Work::Eval(&**operand));
                Action::Continue
            },
            Expr::Logical { left, .. } => {
                self.plan(Work::Then(e, 1));
                self.plan(Work::Eval(&**left));
                Action::Continue
            },
            Expr::Call { callee, args, span } => {
                self.plan(Work::Call { args, span: *span });
                self.plan(Work::Eval(&**callee));
                Action::Continue
            },
            Expr::CallWithKwargs { callee, .. } => {
                self.plan(Work::Then(e, 1));
                self.plan(Work::Eval(&**callee));
                Action::Continue
            },
            Expr::MultiReturn { values, .. } => {
                self.plan(Work::Then(e, 1));
                self.schedule_expressions(values);
                Action::Continue
            },
            Expr::Grouping { expr, .. } => {
                self.plan(Work::Eval(&**expr));
                Action::Continue
            },
            Expr::List { elements, .. } => {
                self.plan(Work::Then(e, 1));
                self.schedule_expressions(elements);
                Action::Continue
            },
            Expr::Tuple { elements, .. } => {
                self.plan(Work::Then(e, 1));
                self.schedule_expressions(elements);
                Action::Continue
            },
            Expr::Dict { pairs, .. } => {
                let entries: Vec<DictEntry> = Vec::new();
                assert(entry_views(entries@) =~= Seq::empty());
                self.give(Value::Dict(entries));
                if pairs.len() > 0 {
                    self.plan(Work::Then(e, 0));
                    self.plan(Work::Eval(&pairs[0].1));
                    self.plan(Work::Eval(&pairs[0].0));
                }
                Action::Continue
            },
            Expr::PropertyAccess { object, .. } => {
                self.plan(Work::Then(e, 1));
                self.plan(Work::Eval(&**object));
                Action::Continue
            },
        }
    }

    /// An assignment, after its value was evaluated.
    fn assign(&mut self, name: &str) -> (action: Action)
        ensures
            stepped(final(self)@, action@) == machine::assign(old(self)@, name@),
    {
        if self.values.len() < 1 {
            return self.corrupt();
        }
        let value = self.values[self.values.len() - 1].clone();
        let _ = self.environment.assign(name, value);
        Action::Continue
    }

    /// What an operation's outcome does to the state.
    fn operate(&mut self, outcome: Outcome) -> (action: Action)
        ensures
            stepped(final(self)@, action@) == machine::operate(old(self)@, outcome@),
    {
        match outcome {
            Outcome::Value(v) => {
                self.give(v);
                Action::Continue
            },
            Outcome::Fail(e) => self.fail(e),
            Outcome::Ask(request) => {
                match request {
                    Request::NearestQuotient(a, b) => {
                        self.plan(Work::Quotient { a, b });
                    },
                    _ => {
                        self.plan(Work::Reply(request.answer()));
                    },
                }
                Action::Ask(request)
            },
            Outcome::Equals { left, right, negate } => {
                self.give(left);
                self.give(right);
                if negate {
                    self.plan(Work::Negate);
                }
                self.plan(Work::Equal { pairs: 1 });
                Action::Continue
            },
            Outcome::Search { needle, items } => {
                let count = items.len();
                self.give(needle);
                self.give_reversed(items);
                self.plan(Work::Member { items: count });
                Action::Continue
            },
        }
    }

    /// Adds the items to the values, the last item first.
    fn give_reversed(&mut self, items: Vec<Value>)
        ensures
            final(self)@ == (State {
                values: old(self)@.values + value_views(items@).reverse(),
                ..old(self)@
            }),
    {
        let ghost before = value_views(self.values@);
        let ghost all = value_views(items@);
        let mut items = items;
        assert(before + all.reverse().subrange(0, 0) =~= before);
        while items.len() > 0
            invariant
                self.environment == old(self).environment,
                self.work == old(self).work,
                items.len() <= all.len(),
                value_views(items@) == all.subrange(0, items.len() as int),
                value_views(self.values@) == before + all.reverse().subrange(
                    0,
                    all.len() - items.len(),
                ),
            decreases items.len(),
        {
            let ghost values_before = self.values@;
            let ghost items_before = items@;
            let item = items.pop().unwrap();
            assert(item@ == value_views(items_before)[items_before.len() - 1]);
            assert(value_views(items@) =~= all.subrange(0, items.len() as int));
            self.values.push(item);
            assert(value_views(self.values@) =~= value_views(values_before).push(item@));
            assert(value_views(self.values@) =~= before + all.reverse().subrange(
                0,
                all.len() - items.len(),
            ));
        }
        assert(all.reverse().subrange(0, all.len() as int) =~= all.reverse());
    }

    fn apply_binary(&mut self, op: BinaryOp, span: Span) -> (action: Action)
        ensures
            stepped(final(self)@, action@) == machine::apply_binary(old(self)@, op, span),
    {
        if self.values.len() < 2 {
            return self.corrupt();
        }
        let right = self.take().unwrap();
        let left = self.take().unwrap();
        assert(self@ == machine::without(old(self)@, 2)) by {
            assert(self@.values =~= machine::without(old(self)@, 2).values);
        }
        self.operate(evaluate_binary_op(op, left, right, span))
    }

    fn apply_unary(&mut self, op: UnaryOp, span: Span) -> (action: Action)
        ensures
            stepped(final(self)@, action@) == machine::apply_unary(old(self)@, op, span),
    {
        match self.take() {
            Some(operand) => {
                let result = evaluate_unary_op(op, operand, span);
                self.settle(result)
            },
            None => self.corrupt(),
        }
    }

    fn apply_logical(&mut self, op: LogicalOp, right: &'a Expr) -> (action: Action)
        ensures
            stepped(final(self)@, action@) == machine::apply_logical(old(self)@, op, right),
    {
        if self.values.len() < 1 {
            return self.corrupt();
        }
        let truth = self.values[self.values.len() - 1].is_truthy();
        let decided = match op {
            LogicalOp::Or => truth,
            LogicalOp::And => !truth,
        };
        if !decided {
            self.drop_values(1);
            self.plan(Work::Eval(right));
        }
        Action::Continue
    }

    /// A list, a tuple or a multi-return, after its elements were
    /// evaluated.
    fn collect(&mut self, n: usize, tuple: bool) -> (action: Action)
        ensures
            stepped(final(self)@, action@) == machine::collect(old(self)@, n as int, tuple),
    {
        if self.values.len() < n {
            return self.corrupt();
        }
        let ghost before = self.values@;
        let at = self.values.len() - n;
        let items = self.values.split_off(at);
        assert(value_views(items@) =~= value_views(before).subrange(
            at as int,
            before.len() as int,
        ));
        assert(value_views(self.values@) =~= value_views(before).subrange(0, at as int));
        if tuple {
            self.give(Value::Tuple(items));
        } else {
            self.give(Value::List(items));
        }
        Action::Continue
    }

    /// A dictionary, after the key and the value of an entry were
    /// evaluated.
    fn insert_entry(&mut self, e: &'a Expr, index: usize) -> (action: Action)
        ensures
            stepped(final(self)@, action@) == machine::insert_entry(old(self)@, e, index),
    {
        match e {
            Expr::Dict { pairs, span } => {
                if self.values.len() < 3 || index >= pairs.len() {
                    return self.corrupt();
                }
                let value = self.take().unwrap();
                let key = self.take().unwrap();
                let dict = self.take().unwrap();
                assert(self@ == machine::without(old(self)@, 3)) by {
                    assert(self@.values =~= machine::without(old(self)@, 3).values);
                }
                match (dict, key) {
                    (Value::Dict(entries), Value::String(name)) => {
                        let mut entries = entries;
                        insert(&mut entries, name, value);
                        self.give(Value::Dict(entries));
                        if index + 1 < pairs.len() {
                            self.plan(Work::Then(e, index + 1));
                            self.plan(Work::Eval(&pairs[index + 1].1));
                            self.plan(Work::Eval(&pairs[index + 1].0));
                        }
                        Action::Continue
                    },
                    (Value::Dict(_), other) => {
                        let message = concat2(
                            "Dictionary keys must be strings, got ",
                            other.kind_name(),
                        );
                        self.fail(BccError::runtime_error(*span, message))
                    },
                    _ => self.corrupt(),
                }
            },
            _ => self.corrupt(),
        }
    }

    /// A multi-assignment, after its value was evaluated.
    fn multi_assign(&mut self, targets: &'a Vec<AssignTarget>, span: Span) -> (action: Action)
        ensures
            stepped(final(self)@, action@) == machine::multi_assign(old(self)@, targets@, span),
    {
        if self.values.len() < 1 {
            return self.corrupt();
        }
        let values: Vec<Value> = match &self.values[self.values.len() - 1] {
            Value::Tuple(items) => clone_values(items),
            Value::List(items) => clone_values(items),
            other => {
                let mut single: Vec<Value> = Vec::new();
                single.push(other.clone());
                assert(value_views(single@) =~= seq![other@]);
                single
            },
        };
        assert(value_views(values@) == machine::unpacked(old(self)@.values.last()));
        let mut needed: usize = 0;
        let mut i: usize = 0;
        while i < targets.len()
            invariant
                i <= targets.len(),
                needed == machine::variables(targets@, i as int),
                needed <= i,
            decreases targets.len() - i,
        {
            match &targets[i] {
                AssignTarget::Variable { .. } => {
                    needed += 1;
                },
                AssignTarget::Ignore { .. } => {},
            }
            i += 1;
        }
        if values.len() < needed {
            let message = concat5(
                "Not enough values to unpack (expected ",
                usize_to_string(targets.len()).as_str(),
                ", got ",
                usize_to_string(values.len()).as_str(),
                ")",
            );
            return self.fail(
                BccError::runtime_error_with_help(
                    span,
                    message,
                    owned(
                        "Multi-assignment requires the same number of values as targets. Use _ to ignore extra values.",
                    ),
                ),
            );
        }
        let mut k: usize = 0;
        while k < targets.len()
            invariant
                k <= targets.len(),
                self.work == old(self).work,
                self.values == old(self).values,
                self.environment@ == machine::bind(
                    old(self).environment@,
                    targets@,
                    value_views(values@),
                    k as int,
                ),
            decreases targets.len() - k,
        {
            match &targets[k] {
                AssignTarget::Variable { name, .. } => {
                    if k < values.len() {
                        let _ = self.environment.assign(name.as_str(), values[k].clone());
                    }
                },
                AssignTarget::Ignore { .. } => {},
            }
            k += 1;
        }
        Action::Continue
    }

    /// A property access, after its object was evaluated.
    fn access(&mut self, name: &str, span: Span) -> (action: Action)
        ensures
            stepped(final(self)@, action@) == machine::access(old(self)@, name@, span),
    {
        match self.take() {
            Some(object) => {
                let result = property_access(object, name, span);
                self.settle(result)
            },
            None => self.corrupt(),
        }
    }

    /// A call with keyword arguments, after its callee was evaluated.
    fn keyword_call(&mut self, e: &'a Expr) -> (action: Action)
        ensures
            stepped(final(self)@, action@) == machine::keyword_call(old(self)@, e),
    {
        match e {
            Expr::CallWithKwargs { callee, positional_args, keyword_args, span } => {
                let function = match self.take() {
                    Some(f) => f,
                    None => {
                        return self.corrupt();
                    },
                };
                match function {
                    Value::String(name) => {
                        if equal(name.as_str(), "__builtin_divmod__") {
                            if positional_args.len() != 2 {
                                let message = concat2(
                                    "divmod() takes exactly 2 positional arguments, got ",
                                    usize_to_string(positional_args.len()).as_str(),
                                );
                                return self.fail(
                                    BccError::runtime_error_with_help(
                                        *span,
                                        message,
                                        owned(
                                            "Usage: divmod(dividend, divisor, round_mode=\"down\")",
                                        ),
                                    ),
                                );
                            }
                            self.plan(Work::Keyword { call: e, index: 0 });
                            self.plan(Work::Mode);
                            self.plan(Work::Eval(&positional_args[1]));
                            self.plan(Work::Eval(&positional_args[0]));
                            Action::Continue
                        } else if keyword_args.len() > 0 {
                            proof {
                                reveal_strlit("__builtin_");
                                reveal_strlit("__");
                            }
                            let plain = replace(
                                replace(name.as_str(), "__builtin_", "").as_str(),
                                "__",
                                "",
                            );
                            let message = concat3(
                                "Function '",
                                plain.as_str(),
                                "' does not accept keyword arguments",
                            );
                            self.fail(
                                BccError::runtime_error_with_help(
                                    *span,
                                    message,
                                    owned(
                                        "Only some built-in functions support keyword arguments.",
                                    ),
                                ),
                            )
                        } else {
                            match self.environment.get(name.as_str()) {
                                Some(v) => {
                                    self.give(v);
                                    self.plan(Work::Call { args: positional_args, span: *span });
                                    Action::Continue
                                },
                                None => {
                                    let message = concat3(
                                        "Undefined variable '",
                                        name.as_str(),
                                        "'",
                                    );
                                    self.fail(BccError::runtime_error(callee.span(), message))
                                },
                            }
                        }
                    },
                    _ => self.fail(
                        BccError::runtime_error_with_help(
                            *span,
                            owned("User-defined functions with kwargs not yet implemented"),
                            owned("Only built-in functions support keyword arguments currently."),
                        ),
                    ),
                }
            },
            _ => self.corrupt(),
        }
    }

    /// An expression goes on, after what it consists of was evaluated.
    fn resume(&mut self, e: &'a Expr, stage: usize) -> (action: Action)
        ensures
            stepped(final(self)@, action@) == machine::resume(old(self)@, e, stage),
    {
        match e {
            Expr::Assign { name, .. } => self.assign(name.as_str()),
            Expr::MultiAssign { targets, span, .. } => self.multi_assign(targets, *span),
            Expr::Binary { operator, span, .. } => self.apply_binary(*operator, *span),
            Expr::Unary { operator, span, .. } => self.apply_unary(*operator, *span),
            Expr::Logical { operator, right, .. } => self.apply_logical(*operator, &**right),
            Expr::CallWithKwargs { .. } => self.keyword_call(e),
            Expr::MultiReturn { values, .. } => self.collect(values.len(), true),
            Expr::List { elements, .. } => self.collect(elements.len(), false),
            Expr::Tuple { elements, .. } => self.collect(elements.len(), true),
            Expr::Dict { .. } => self.insert_entry(e, stage),
            Expr::PropertyAccess { property, span, .. } => self.access(property.as_str(), *span),
            _ => self.corrupt(),
        }
    }

    // -----------------------------------------------------------------------
    // Calls
    // -----------------------------------------------------------------------
    fn arity(&mut self, message: &str, got: usize, help: &str, span: Span) -> (action: Action)
        ensures
            stepped(final(self)@, action@) == machine::arity(
                old(self)@,
                message@,
                got as nat,
                help@,
                span,
            ),
    {
        let text = concat2(message, usize_to_string(got).as_str());
        self.fail(BccError::runtime_error_with_help(span, text, owned(help)))
    }

    fn no_function(&mut self, span: Span) -> (action: Action)
        ensures
            stepped(final(self)@, action@) == machine::failed(
                old(self)@,
                machine::no_function(span),
            ),
    {
        self.fail(
            BccError::runtime_error_with_help(
                span,
                owned("User-defined functions not yet implemented"),
                owned(
                    "Only built-in functions like print(), len(), and type() are currently supported.",
                ),
            ),
        )
    }

    /// A call, after its callee was evaluated.
    fn call(&mut self, args: &'a Vec<Expr>, span: Span) -> (action: Action)
        ensures
            stepped(final(self)@, action@) == machine::call(old(self)@, args, span),
    {
        let function = match self.take() {
            Some(f) => f,
            None => {
                return self.corrupt();
            },
        };
        let n = args.len();
        match function {
            Value::String(name) => {
                if equal(name.as_str(), "__builtin_print__") {
                    if n == 0 {
                        self.give(Value::Nil);
                    } else {
                        self.plan(Work::Print { args, next: 1 });
                        self.plan(Work::Eval(&args[0]));
                    }
                    Action::Continue
                } else if equal(name.as_str(), "__builtin_len__") {
                    if n != 1 {
                        self.arity(
                            "len() takes exactly 1 argument, got ",
                            n,
                            "Usage: len(value) where value is a string, list, or dictionary.",
                            span,
                        )
                    } else {
                        self.plan(Work::Len { span });
                        self.plan(Work::Eval(&args[0]));
                        Action::Continue
                    }
                } else if equal(name.as_str(), "__builtin_type__") {
                    if n != 1 {
                        self.arity(
                            "type() takes exactly 1 argument, got ",
                            n,
                            "Usage: type(value) returns the type name as a string.",
                            span,
                        )
                    } else {
                        self.plan(Work::TypeOf);
                        self.plan(Work::Eval(&args[0]));
                        Action::Continue
                    }
                } else if equal(name.as_str(), "__builtin_case__") {
                    if n < 2 || n % 2 != 0 {
                        self.arity(
                            "case() requires an even number of arguments (at least 2), got ",
                            n,
                            "Usage: case(condition1, result1, condition2, result2, ...). Each condition is paired with its result.",
                            span,
                        )
                    } else {
                        self.plan(Work::Case { args, index: 0 });
                        self.plan(Work::Eval(&args[0]));
                        Action::Continue
                    }
                } else if equal(name.as_str(), "__builtin_divmod__") {
                    if n != 2 {
                        self.arity(
                            "divmod() takes exactly 2 arguments, got ",
                            n,
                            "Usage: divmod(dividend, divisor) - use divmod(a, b, round_mode=\"up\") for keyword arguments.",
                            span,
                        )
                    } else {
                        self.plan(Work::Divmod { span });
                        self.plan(Work::Mode);
                        self.plan(Work::Eval(&args[1]));
                        self.plan(Work::Eval(&args[0]));
                        Action::Continue
                    }
                } else {
                    self.no_function(span)
                }
            },
            _ => self.no_function(span),
        }
    }

    /// `print`, after an argument was evaluated.
    fn print(&mut self, args: &'a Vec<Expr>, next: usize) -> (action: Action)
        ensures
            stepped(final(self)@, action@) == machine::print(old(self)@, args, next),
    {
        match self.take() {
            Some(value) => {
                if next < args.len() {
                    self.plan(Work::Print { args, next: next + 1 });
                    self.plan(Work::Eval(&args[next]));
                } else {
                    self.give(Value::Nil);
                }
                Action::Print(value.render())
            },
            None => self.corrupt(),
        }
    }

    /// `case`, after a condition was evaluated.
    fn case(&mut self, args: &'a Vec<Expr>, index: usize) -> (action: Action)
        ensures
            stepped(final(self)@, action@) == machine::case(old(self)@, args, index),
    {
        if self.values.len() < 1 || args.len() < 2 || index >= args.len() - 1 {
            return self.corrupt();
        }
        let condition = self.take().unwrap();
        if condition.is_truthy() {
            self.plan(Work::Wrap);
            self.plan(Work::Eval(&args[index + 1]));
        } else if args.len() - index > 3 {
            self.plan(Work::Case { args, index: index + 2 });
            self.plan(Work::Eval(&args[index + 2]));
        } else {
            let nothing = Value::Nil;
            assert(nothing@ == ValueView::Nil);
            self.give(Value::CaseResult(CaseResult { result: Box::new(nothing) }));
        }
        Action::Continue
    }

    /// `divmod`, after dividend, divisor and rounding mode were evaluated.
    fn apply_divmod(&mut self, span: Span) -> (action: Action)
        ensures
            stepped(final(self)@, action@) == machine::apply_divmod(old(self)@, span),
    {
        if self.values.len() < 3 {
            return self.corrupt();
        }
        match &self.values[self.values.len() - 1] {
            Value::String(_) => {},
            _ => {
                return self.corrupt();
            },
        }
        let mode = self.take().unwrap();
        let divisor = self.take().unwrap();
        let dividend = self.take().unwrap();
        assert(self@ == machine::without(old(self)@, 3)) by {
            assert(self@.values =~= machine::without(old(self)@, 3).values);
        }
        match mode {
            Value::String(text) => {
                let outcome = builtin_divmod(dividend, divisor, text.as_str(), span);
                self.operate(outcome)
            },
            _ => self.corrupt(),
        }
    }

    /// The keyword arguments of `divmod` from `index` on.
    fn keyword(&mut self, e: &'a Expr, index: usize) -> (action: Action)
        ensures
            stepped(final(self)@, action@) == machine::keyword(old(self)@, e, index),
    {
        match e {
            Expr::CallWithKwargs { keyword_args, span, .. } => {
                if index >= keyword_args.len() {
                    self.plan(Work::Divmod { span: *span });
                    Action::Continue
                } else if equal(keyword_args[index].name.as_str(), "round_mode") {
                    self.plan(Work::KeywordValue { call: e, index });
                    self.plan(Work::Eval(&keyword_args[index].value));
                    Action::Continue
                } else {
                    let message = concat3(
                        "Unknown keyword argument '",
                        keyword_args[index].name.as_str(),
                        "' for divmod()",
                    );
                    self.fail(
                        BccError::runtime_error_with_help(
                            *span,
                            message,
                            owned("Valid keyword arguments: round_mode"),
                        ),
                    )
                }
            },
            _ => self.corrupt(),
        }
    }

    /// After the value of `round_mode` was evaluated.
    fn keyword_value(&mut self, e: &'a Expr, index: usize) -> (action: Action)
        ensures
            stepped(final(self)@, action@) == machine::keyword_value(old(self)@, e, index),
    {
        match e {
            Expr::CallWithKwargs { span, .. } => {
                if self.values.len() < 2 || index == usize::MAX {
                    return self.corrupt();
                }
                let value = self.take().unwrap();
                let _ = self.take();
                assert(self@ == machine::without(old(self)@, 2)) by {
                    assert(self@.values =~= machine::without(old(self)@, 2).values);
                }
                match value {
                    Value::String(mode) => {
                        self.give(Value::String(mode));
                        self.plan(Work::Keyword { call: e, index: index + 1 });
                        Action::Continue
                    },
                    _ => self.fail(
                        BccError::runtime_error_with_help(
                            *span,
                            owned("round_mode must be a string"),
                            owned("Valid round modes: \"down\", \"up\", \"nearest\""),
                        ),
                    ),
                }
            },
            _ => self.corrupt(),
        }
    }

    // -----------------------------------------------------------------------
    // Equality and membership
    // -----------------------------------------------------------------------
    /// The comparison has found a difference.
    fn differ(&mut self, pairs: usize) -> (action: Action)
        ensures
            stepped(final(self)@, action@) == machine::differ(old(self)@, pairs as int),
    {
        if pairs > self.values.len() / 2 {
            return self.corrupt();
        }
        self.drop_values(2 * pairs);
        self.give(Value::Bool(false));
        Action::Continue
    }

    /// Adds the elements of two vectors of one length as pairs, the
    /// first pair last.
    fn give_pairs(&mut self, left: Vec<Value>, right: Vec<Value>)
        requires
            left.len() == right.len(),
        ensures
            final(self)@ == (State {
                values: old(self)@.values + machine::paired(
                    value_views(left@),
                    value_views(right@),
                ),
                ..old(self)@
            }),
    {
        let ghost before = value_views(self.values@);
        let ghost l = value_views(left@);
        let ghost r = value_views(right@);
        let ghost n = left.len() as int;
        let mut left = left;
        let mut right = right;
        assert(before + machine::paired(l, r).subrange(0, 0) =~= before);
        while left.len() > 0
            invariant
                self.environment == old(self).environment,
                self.work == old(self).work,
                left.len() == right.len(),
                left.len() <= n,
                n == l.len(),
                n == r.len(),
                value_views(left@) == l.subrange(0, left.len() as int),
                value_views(right@) == r.subrange(0, right.len() as int),
                value_views(self.values@) == before + machine::paired(l, r).subrange(
                    0,
                    2 * (n - left.len()),
                ),
            decreases left.len(),
        {
            let ghost values_before = self.values@;
            let ghost left_before = left@;
            let ghost right_before = right@;
            let x = left.pop().unwrap();
            let y = right.pop().unwrap();
            assert(x@ == value_views(left_before)[left_before.len() - 1]);
            assert(y@ == value_views(right_before)[right_before.len() - 1]);
            assert(value_views(left@) =~= l.subrange(0, left.len() as int));
            assert(value_views(right@) =~= r.subrange(0, right.len() as int));
            self.values.push(x);
            self.values.push(y);
            assert(value_views(self.values@) =~= value_views(values_before).push(x@).push(y@));
            assert(value_views(self.values@) =~= before + machine::paired(l, r).subrange(
                0,
                2 * (n - left.len()),
            ));
        }
        assert(machine::paired(l, r).subrange(0, 2 * n) =~= machine::paired(l, r));
    }

    /// Compares the last pair of `pairs` pairs.
    fn equal(&mut self, pairs: usize) -> (action: Action)
        ensures
            stepped(final(self)@, action@) == machine::equal(old(self)@, pairs),
    {
        if pairs == 0 {
            self.give(Value::Bool(true));
            return Action::Continue;
        }
        if self.values.len() < 2 {
            return self.corrupt();
        }
        let right = self.take().unwrap();
        let left = self.take().unwrap();
        assert(self@ == machine::without(old(self)@, 2)) by {
            assert(self@.values =~= machine::without(old(self)@, 2).values);
        }
        match is_equal(left, right) {
            Paired::Equal => {
                self.plan(Work::Equal { pairs: pairs - 1 });
                Action::Continue
            },
            Paired::Unequal => self.differ(pairs - 1),
            Paired::Numbers(l, r) => {
                self.plan(Work::Verdict { pairs: pairs - 1 });
                Action::Ask(Request::Compare(Comparison::Equal, l, r))
            },
            Paired::Elements(l, r) => {
                match (pairs - 1).checked_add(l.len()) {
                    Some(total) => {
                        self.give_pairs(l, r);
                        self.plan(Work::Equal { pairs: total });
                        Action::Continue
                    },
                    None => self.crowded(),
                }
            },
        }
    }

    /// The host's verdict on a pair of numbers.
    fn verdict(&mut self, pairs: usize, reply: Reply) -> (action: Action)
        ensures
            stepped(final(self)@, action@) == machine::verdict(old(self)@, pairs, reply),
    {
        match reply {
            Reply::Bool(same) => {
                if same {
                    self.plan(Work::Equal { pairs });
                    Action::Continue
                } else {
                    self.differ(pairs)
                }
            },
            _ => self.corrupt(),
        }
    }

    fn negate(&mut self) -> (action: Action)
        ensures
            stepped(final(self)@, action@) == machine::negate(old(self)@),
    {
        if self.values.len() < 1 {
            return self.corrupt();
        }
        match &self.values[self.values.len() - 1] {
            Value::Bool(b) => {
                let opposite = !*b;
                self.drop_values(1);
                self.give(Value::Bool(opposite));
                Action::Continue
            },
            _ => self.corrupt(),
        }
    }

    /// Looks at the last of `items` values.
    fn member(&mut self, items: usize) -> (action: Action)
        ensures
            stepped(final(self)@, action@) == machine::member(old(self)@, items),
    {
        if self.values.len() <= items {
            return self.corrupt();
        }
        if items == 0 {
            self.drop_values(1);
            self.give(Value::Bool(false));
            return Action::Continue;
        }
        let needle = self.values[self.values.len() - 1 - items].clone();
        let item = self.take().unwrap();
        self.give(needle);
        self.give(item);
        self.plan(Work::Found { items: items - 1 });
        self.plan(Work::Equal { pairs: 1 });
        Action::Continue
    }

    /// After the needle was compared with an item.
    fn found(&mut self, items: usize) -> (action: Action)
        ensures
            stepped(final(self)@, action@) == machine::found(old(self)@, items),
    {
        if self.values.len() < 2 || self.values.len() - 2 < items {
            return self.corrupt();
        }
        match &self.values[self.values.len() - 1] {
            Value::Bool(same) => {
                if *same {
                    self.drop_values(items + 2);
                    self.give(Value::Bool(true));
                } else {
                    self.drop_values(1);
                    self.plan(Work::Member { items });
                }
                Action::Continue
            },
            _ => self.corrupt(),
        }
    }

    // -----------------------------------------------------------------------
    // Replies
    // -----------------------------------------------------------------------
    fn answer(&mut self, kind: Answer, reply: Reply) -> (action: Action)
        ensures
            stepped(final(self)@, action@) == machine::answer(old(self)@, kind, reply),
    {
        if !reply.fits(kind) {
            return self.corrupt();
        }
        match reply {
            Reply::Nothing => self.corrupt(),
            Reply::Bool(b) => {
                self.give(Value::Bool(b));
                Action::Continue
            },
            Reply::Int(n) => {
                self.give(Value::Int(n));
                Action::Continue
            },
            Reply::Double(d) => {
                self.give(Value::Double(d));
                Action::Continue
            },
            Reply::Pair(q, r) => {
                let mut items: Vec<Value> = Vec::new();
                items.push(Value::Double(q));
                items.push(Value::Double(r));
                assert(value_views(items@) =~= seq![
                    ValueView::Double(q.bits),
                    ValueView::Double(r.bits),
                ]);
                self.give(Value::Tuple(items));
                Action::Continue
            },
        }
    }

    fn quotient(&mut self, a: i64, b: i64, reply: Reply) -> (action: Action)
        ensures
            stepped(final(self)@, action@) == machine::quotient(old(self)@, a, b, reply),
    {
        match reply {
            Reply::Int(q) => {
                let r = a.wrapping_sub(q.wrapping_mul(b));
                let mut items: Vec<Value> = Vec::new();
                items.push(Value::Int(q));
                items.push(Value::Int(r));
                assert(value_views(items@) =~= seq![ValueView::Int(q), ValueView::Int(r)]);
                self.give(Value::Tuple(items));
                Action::Continue
            },
            _ => self.corrupt(),
        }
    }

    // -----------------------------------------------------------------------
    // Statements
    // -----------------------------------------------------------------------
    /// The first step of a statement.
    fn execute(&mut self, st: &'a Stmt) -> (action: Action)
        ensures
            stepped(final(self)@, action@) == machine::execute(old(self)@, st),
    {
        match st {
            Stmt::Expression { expr, .. } => {
                self.plan(Work::Discard);
                self.plan(Work::Eval(expr));
            },
            Stmt::Block { statements, .. } => {
                self.environment.push_scope();
                self.plan(Work::CloseScope);
                self.schedule_statements(statements);
            },
            Stmt::If { condition, .. } => {
                self.plan(Work::ThenStmt(st, 1));
                self.plan(Work::Eval(condition));
            },
            Stmt::While { condition, .. } => {
                self.plan(Work::ThenStmt(st, 1));
                self.plan(Work::Eval(condition));
            },
            Stmt::For { initializer, .. } => {
                self.plan(Work::ThenStmt(st, 1));
                match initializer {
                    Some(first) => {
                        self.plan(Work::Exec(&**first));
                    },
                    None => {},
                }
            },
        }
        Action::Continue
    }

    /// A loop goes round once.
    fn round(&mut self, st: &'a Stmt, body: &'a Stmt, stage: usize) -> (action: Action)
        ensures
            stepped(final(self)@, action@) == machine::round(old(self)@, st, body, stage),
    {
        self.plan(Work::ThenStmt(st, stage));
        self.plan(Work::Exec(body));
        Action::Continue
    }

    /// A statement goes on.
    fn proceed(&mut self, st: &'a Stmt, stage: usize) -> (action: Action)
        ensures
            stepped(final(self)@, action@) == machine::proceed(old(self)@, st, stage),
    {
        match st {
            Stmt::If { then_branch, else_branch, .. } => {
                match self.take() {
                    Some(condition) => {
                        if condition.is_truthy() {
                            self.plan(Work::Exec(&**then_branch));
                        } else {
                            match else_branch {
                                Some(other) => {
                                    self.plan(Work::Exec(&**other));
                                },
                                None => {},
                            }
                        }
                        Action::Continue
                    },
                    None => self.corrupt(),
                }
            },
            Stmt::While { body, .. } => {
                match self.take() {
                    Some(condition) => {
                        if condition.is_truthy() {
                            self.plan(Work::Exec(st));
                            self.plan(Work::Exec(&**body));
                        }
                        Action::Continue
                    },
                    None => self.corrupt(),
                }
            },
            Stmt::For { condition, increment, body, .. } => {
                if stage == 1 {
                    match condition {
                        Some(c) => {
                            self.plan(Work::ThenStmt(st, 2));
                            self.plan(Work::Eval(c));
                            Action::Continue
                        },
                        None => self.round(st, &**body, 3),
                    }
                } else if stage == 2 {
                    match self.take() {
                        Some(value) => {
                            if value.is_truthy() {
                                self.round(st, &**body, 3)
                            } else {
                                Action::Continue
                            }
                        },
                        None => self.corrupt(),
                    }
                } else if stage == 3 {
                    self.plan(Work::ThenStmt(st, 1));
                    match increment {
                        Some(i) => {
                            self.plan(Work::Discard);
                            self.plan(Work::Eval(i));
                        },
                        None => {},
                    }
                    Action::Continue
                } else {
                    self.corrupt()
                }
            },
            _ => self.corrupt(),
        }
    }

    // -----------------------------------------------------------------------
    // The step
    // -----------------------------------------------------------------------
    /// The end of an evaluation.
    fn finish(&mut self) -> (action: Action)
        ensures
            stepped(final(self)@, action@) == machine::finish(old(self)@),
    {
        let value = match self.values.pop() {
            Some(v) => v,
            None => Value::Nil,
        };
        self.values = Vec::new();
        assert(value_views(self.values@) =~= Seq::empty());
        Action::Done(Ok(value))
    }

    /// Takes steps until one asks something of the host, or the budget
    /// of steps is used up. `reply` is the host's answer to the request
    /// of the step before, if that step made one.
    pub fn run(&mut self, reply: Reply, budget: usize) -> (action: Action)
        ensures
            stepped(final(self)@, action@) == machine::steps(old(self)@, reply, budget as nat),
            sound(old(self)@) && answers(old(self)@, reply) ==> sound(final(self)@) && !(action
                is Lost),
            keyed(old(self)@) && plain_works(old(self)@.work) ==> keyed(final(self)@)
                && plain_works(final(self)@.work) && (action@ matches Act::Done(Ok(v))
                ==> well_keyed(v)),
    {
        proof {
            if keyed(self@) && plain_works(self@.work) {
                lemma_keys_stay_unique(self@, reply, budget as nat);
            }
            if sound(self@) && answers(self@, reply) {
                lemma_never_lost(self@, reply, budget as nat);
            }
        }
        let mut left: usize = budget;
        let mut next = reply;
        while left > 0
            invariant
                machine::steps(old(self)@, reply, budget as nat) == machine::steps(
                    self@,
                    next,
                    left as nat,
                ),
                sound(old(self)@) && answers(old(self)@, reply) ==> sound(
                    machine::steps(old(self)@, reply, budget as nat).state,
                ) && !(machine::steps(old(self)@, reply, budget as nat).action is Lost),
                keyed(old(self)@) && plain_works(old(self)@.work) ==> keyed(
                    machine::steps(old(self)@, reply, budget as nat).state,
                ) && plain_works(machine::steps(old(self)@, reply, budget as nat).state.work) && (
                machine::steps(old(self)@, reply, budget as nat).action matches Act::Done(Ok(v))
                    ==> well_keyed(v)),
            decreases left,
        {
            let action = self.step(next);
            match action {
                Action::Continue => {},
                _ => {
                    return action;
                },
            }
            next = Reply::Nothing;
            left -= 1;
        }
        Action::Continue
    }

    /// Takes one step: does the work on top. `reply` is the host's
    /// answer to the request of the step before, if that step made one.
    pub fn step(&mut self, reply: Reply) -> (action: Action)
        ensures
            stepped(final(self)@, action@) == machine::step(old(self)@, reply),
            sound(old(self)@) && answers(old(self)@, reply) ==> sound(final(self)@) && !(action
                is Lost),
            keyed(old(self)@) && plain_works(old(self)@.work) ==> keyed(final(self)@)
                && plain_works(final(self)@.work) && (action@ matches Act::Done(Ok(v))
                ==> well_keyed(v)),
    {
        proof {
            if keyed(self@) && plain_works(self@.work) {
                lemma_step_keeps_plain(self@, reply);
                lemma_step_keeps_keys(self@, reply);
            }
            if sound(self@) && answers(self@, reply) {
                lemma_step_is_sound(self@, reply);
            }
        }
        let work = match self.work.pop() {
            Some(w) => w,
            None => {
                return self.finish();
            },
        };
        match work {
            Work::Eval(e) => self.evaluate(e),
            Work::Then(e, stage) => self.resume(e, stage),
            Work::Exec(st) => self.execute(st),
            Work::ThenStmt(st, stage) => self.proceed(st, stage),
            Work::Discard => {
                match self.take() {
                    Some(_) => Action::Continue,
                    None => self.corrupt(),
                }
            },
            Work::CloseScope => {
                self.environment.pop_scope();
                Action::Continue
            },
            Work::Call { args, span } => self.call(args, span),
            Work::Print { args, next } => self.print(args, next),
            Work::Len { span } => {
                match self.take() {
                    Some(v) => {
                        let result = builtin_len(v, span);
                        self.settle(result)
                    },
                    None => self.corrupt(),
                }
            },
            Work::TypeOf => {
                match self.take() {
                    Some(v) => {
                        self.give(builtin_type(v));
                        Action::Continue
                    },
                    None => self.corrupt(),
                }
            },
            Work::Case { args, index } => self.case(args, index),
            Work::Wrap => {
                match self.take() {
                    Some(v) => {
                        self.give(Value::CaseResult(CaseResult { result: Box::new(v) }));
                        Action::Continue
                    },
                    None => self.corrupt(),
                }
            },
            Work::Mode => {
                self.give(Value::String(owned("down")));
                Action::Continue
            },
            Work::Divmod { span } => self.apply_divmod(span),
            Work::Keyword { call, index } => self.keyword(call, index),
            Work::KeywordValue { call, index } => self.keyword_value(call, index),
            Work::Equal { pairs } => self.equal(pairs),
            Work::Verdict { pairs } => self.verdict(pairs, reply),
            Work::Negate => self.negate(),
            Work::Member { items } => self.member(items),
            Work::Found { items } => self.found(items),
            Work::Reply(kind) => self.answer(kind, reply),
            Work::Quotient { a, b } => self.quotient(a, b, reply),
        }
    }
}

} // verus!
