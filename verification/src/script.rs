//! Script statements: `def` bindings and `assert` checks, and their
//! execution against a context.
use crate::context::ScriptContext;
use crate::error::Error;
use crate::function::apply_may_succeed;
use crate::function::apply_must_succeed;
use crate::function::apply_ok_value;
use crate::function::Function;
use crate::text::i32_to_string;
use crate::text::int_dec_str;
use crate::text::string_of;
use crate::value::assoc_contains;
use crate::value::assoc_set;
use crate::value::Value;
use crate::value::ValueModel;
use crate::variable::eval_variable;
use crate::variable::Variable;
use crate::variable::VariableModel;
use vstd::prelude::*;

verus! {

use vstd::string::StringExecFns;

/// How a value prints inside assertion messages: strings and integers as
/// themselves, null as `null`, maps and lists with braces and brackets.
pub open spec fn display_model(m: ValueModel) -> Seq<char>
    decreases m,
{
    match m {
        ValueModel::String(s) => s,
        ValueModel::Int(i) => int_dec_str(i),
        ValueModel::Null => "null"@,
        ValueModel::Dict(es) => "{"@ + display_entries(es) + "}"@,
        ValueModel::List(is) => "["@ + display_items(is) + "]"@,
    }
}

pub open spec fn display_entries(es: Seq<(Seq<char>, ValueModel)>) -> Seq<char>
    decreases es,
{
    if es.len() == 0 {
        Seq::empty()
    } else if es.len() == 1 {
        es[0].0 + ": "@ + display_model(es[0].1)
    } else {
        display_entries(es.drop_last()) + ", "@ + es.last().0 + ": "@ + display_model(es.last().1)
    }
}

pub open spec fn display_items(is: Seq<ValueModel>) -> Seq<char>
    decreases is,
{
    if is.len() == 0 {
        Seq::empty()
    } else if is.len() == 1 {
        display_model(is[0])
    } else {
        display_items(is.drop_last()) + ", "@ + display_model(is.last())
    }
}

/// Renders a value for an assertion message; mirrors [`display_model`].
pub fn value_display(v: &Value) -> (r: String)
    ensures
        r@ == display_model(v.model()),
    decreases v,
{
    broadcast use crate::value::lemma_model_seq_props, crate::value::lemma_model_entries_props;

    match v {
        Value::String(s) => {
            let cs = crate::text::chars_of(s.as_str());
            string_of(&cs)
        },
        Value::Int(i) => i32_to_string(*i),
        Value::Null => String::from_str("null"),
        Value::Dict(m) => {
            let entries = &m.entries;
            let ghost es = crate::value::Value::model_entries(entries@);
            let mut body = String::new();
            let mut i: usize = 0;
            proof {
                assert(es.take(0) =~= Seq::<(Seq<char>, ValueModel)>::empty());
            }
            #[verifier::loop_isolation(false)]
            while i < entries.len()
                invariant
                    i <= entries.len(),
                    body@ == display_entries(es.take(i as int)),
                decreases entries.len() - i,
            {
                proof {
                    assert(es.take(i + 1).drop_last() =~= es.take(i as int));
                    assert(es.take(i + 1).last() == es[i as int]);
                }
                if i > 0 {
                    body.append(", ");
                }
                body.append(entries[i].0.as_str());
                body.append(": ");
                let rendered = value_display(&entries[i].1);
                body.append(rendered.as_str());
                proof {
                    assert(body@ =~= display_entries(es.take(i + 1)));
                }
                i = i + 1;
            }
            proof {
                assert(es.take(entries@.len() as int) =~= es);
            }
            let out = String::from_str("{").concat(body.as_str()).concat("}");
            proof {
                assert(out@ =~= "{"@ + display_entries(es) + "}"@);
            }
            out
        },
        Value::List(items) => {
            let ghost is = crate::value::Value::model_seq(items@);
            let mut body = String::new();
            let mut i: usize = 0;
            proof {
                assert(is.take(0) =~= Seq::<ValueModel>::empty());
            }
            #[verifier::loop_isolation(false)]
            while i < items.len()
                invariant
                    i <= items.len(),
                    body@ == display_items(is.take(i as int)),
                decreases items.len() - i,
            {
                proof {
                    assert(is.take(i + 1).drop_last() =~= is.take(i as int));
                    assert(is.take(i + 1).last() == is[i as int]);
                }
                if i > 0 {
                    body.append(", ");
                }
                let rendered = value_display(&items[i]);
                body.append(rendered.as_str());
                proof {
                    assert(body@ =~= display_items(is.take(i + 1)));
                }
                i = i + 1;
            }
            proof {
                assert(is.take(items@.len() as int) =~= is);
            }
            let out = String::from_str("[").concat(body.as_str()).concat("]");
            proof {
                assert(out@ =~= "["@ + display_items(is) + "]"@);
            }
            out
        },
    }
}

} // verus!

verus! {

/// The models of a reference list.
pub open spec fn model_vars(s: Seq<Variable>) -> Seq<VariableModel> {
    s.map_values(|a: Variable| a.model())
}

/// Evaluates references left to right; the first failure wins.
pub open spec fn eval_args_model(args: Seq<VariableModel>, ctx: ScriptContext) -> Result<
    Seq<ValueModel>,
    Seq<char>,
>
    decreases args.len(),
{
    if args.len() == 0 {
        Ok(Seq::empty())
    } else {
        match eval_variable(args[0], ctx) {
            Err(m) => Err(m),
            Ok(v) => match eval_args_model(args.drop_first(), ctx) {
                Err(m) => Err(m),
                Ok(rest) => Ok(seq![v] + rest),
            },
        }
    }
}

/// The context after binding `name` to `vm` through `set_variable`: the
/// local layer always takes the binding, the global layer only if it held
/// the name before.
pub open spec fn ctx_after_set(
    c0: ScriptContext,
    c1: ScriptContext,
    name: Seq<char>,
    vm: ValueModel,
) -> bool {
    &&& c1.local.variables@ == assoc_set(c0.local.variables@, name, vm)
    &&& c1.global.variables@ == (if assoc_contains(c0.global.variables@, name) {
        assoc_set(c0.global.variables@, name, vm)
    } else {
        c0.global.variables@
    })
}

/// What executing a `def` statement does: argument evaluation errors pass
/// through untouched; an applicable function binds its result; a failing
/// application leaves the context alone and reports a `ScriptError`.
pub open spec fn def_post(
    f: Function,
    argms: Seq<VariableModel>,
    name: Seq<char>,
    c0: ScriptContext,
    c1: ScriptContext,
    r: Result<(), Error>,
) -> bool {
    match eval_args_model(argms, c0) {
        Err(msg) => r matches Err(e) && e matches Error::ScriptError(m) && m@ == msg && c1 == c0,
        Ok(am) => match r {
            Ok(_) => apply_may_succeed(f, am) && (exists|vm: ValueModel|
                #[trigger] apply_ok_value(f, am, vm) && ctx_after_set(c0, c1, name, vm)),
            Err(e) => !apply_must_succeed(f, am) && !(e is AssertError) && c1 == c0,
        },
    }
}

/// A `def` statement: evaluate the arguments, apply the function, bind
/// the result.
#[derive(Debug)]
pub struct DefScript {
    pub return_var_name: String,
    pub function: Function,
    pub args: Vec<Variable>,
}

impl DefScript {
    pub fn execute(&self, ctx: &mut ScriptContext) -> (r: Result<(), Error>)
        ensures
            def_post(
                self.function,
                model_vars(self.args@),
                self.return_var_name@,
                *old(ctx),
                *final(ctx),
                r,
            ),
    {
        broadcast use Seq::lemma_push_map_commute, Seq::lemma_map_take_succ;

        let ghost argms = model_vars(self.args@);
        let ghost c0 = *ctx;
        let mut vals: Vec<Value> = Vec::new();
        let mut i: usize = 0;
        proof {
            assert(argms.skip(0) =~= argms);
            assert(crate::value::Value::model_seq(vals@) =~= Seq::<ValueModel>::empty());
        }
        #[verifier::loop_isolation(false)]
        while i < self.args.len()
            invariant
                i <= self.args@.len(),
                *ctx == c0,
                c0 == *old(ctx),
                vals@.len() == i,
                eval_args_model(argms, c0) == (match eval_args_model(
                    argms.skip(i as int),
                    c0,
                ) {
                    Ok(rest) => Ok::<Seq<ValueModel>, Seq<char>>(
                        crate::value::Value::model_seq(vals@) + rest,
                    ),
                    Err(m) => Err::<Seq<ValueModel>, Seq<char>>(m),
                }),
            decreases self.args@.len() - i,
        {
            broadcast use crate::value::lemma_model_seq_props;

            proof {
                assert(argms.skip(i as int)[0] == self.args@[i as int].model());
                assert(argms.skip(i as int).drop_first() =~= argms.skip(i + 1));
            }
            match self.args[i].get_value(ctx) {
                Ok(v) => {
                    let ghost before = vals@;
                    vals.push(v);
                    proof {
                        assert(crate::value::Value::model_seq(vals@) =~= crate::value::Value::model_seq(
                            before,
                        ).push(vals@.last().model()));
                        let ea = eval_args_model(argms.skip(i + 1), c0);
                        if ea is Ok {
                            let rest = ea->Ok_0;
                            assert(crate::value::Value::model_seq(before) + (seq![
                                vals@.last().model(),
                            ] + rest) =~= crate::value::Value::model_seq(vals@) + rest);
                        }
                    }
                },
                Err(e) => {
                    return Err(e);
                },
            }
            i = i + 1;
        }
        proof {
            assert(argms.skip(self.args@.len() as int).len() == 0);
            assert(crate::value::Value::model_seq(vals@) + Seq::<ValueModel>::empty()
                =~= crate::value::Value::model_seq(vals@));
        }
        let value = match self.function.apply(vals) {
            Ok(v) => v,
            Err(e) => {
                return Err(e);
            },
        };
        let ghost vm = value.model();
        ctx.set_variable(self.return_var_name.as_str(), value);
        proof {
            assert(apply_ok_value(self.function, eval_args_model(argms, c0)->Ok_0, vm));
        }
        Ok(())
    }
}

} // verus!

verus! {

/// Equality or inequality, the two assertion operators.
#[derive(Debug, PartialEq, Eq, Structural, Copy, Clone)]
pub enum AssertOperator {
    Equal,
    NotEqual,
}

/// What executing an `assert` statement does: the context is never
/// changed; reference errors pass through; a false comparison reports an
/// `AssertError` naming both sides.
pub open spec fn assert_post(
    lhs: VariableModel,
    rhs: VariableModel,
    op: AssertOperator,
    c0: ScriptContext,
    c1: ScriptContext,
    r: Result<(), Error>,
) -> bool {
    &&& c1 == c0
    &&& match eval_variable(lhs, c0) {
        Err(m) => r matches Err(e) && e matches Error::ScriptError(mm) && mm@ == m,
        Ok(lv) => match eval_variable(rhs, c0) {
            Err(m) => r matches Err(e) && e matches Error::ScriptError(mm) && mm@ == m,
            Ok(rv) => match op {
                AssertOperator::Equal => if lv == rv {
                    r is Ok
                } else {
                    r matches Err(e) && e matches Error::AssertError(mm) && mm@
                        == "assert equal failed: "@ + display_model(lv) + " != "@ + display_model(
                        rv,
                    )
                },
                AssertOperator::NotEqual => if lv != rv {
                    r is Ok
                } else {
                    r matches Err(e) && e matches Error::AssertError(mm) && mm@
                        == "assert not equal failed: "@ + display_model(lv) + " == "@
                        + display_model(rv)
                },
            },
        },
    }
}

/// An `assert` statement: two references and an operator.
#[derive(Debug)]
pub struct AssertScript {
    pub lhs: Variable,
    pub rhs: Variable,
    pub operator: AssertOperator,
}

impl AssertScript {
    pub fn execute(&self, ctx: &mut ScriptContext) -> (r: Result<(), Error>)
        ensures
            assert_post(
                self.lhs.model(),
                self.rhs.model(),
                self.operator,
                *old(ctx),
                *final(ctx),
                r,
            ),
    {
        let lhs = match self.lhs.get_value(ctx) {
            Ok(v) => v,
            Err(e) => {
                return Err(e);
            },
        };
        let rhs = match self.rhs.get_value(ctx) {
            Ok(v) => v,
            Err(e) => {
                return Err(e);
            },
        };
        let equal = lhs == rhs;
        match self.operator {
            AssertOperator::Equal => {
                if equal {
                    Ok(())
                } else {
                    let l = value_display(&lhs);
                    let rr = value_display(&rhs);
                    let msg = String::from_str("assert equal failed: ").concat(l.as_str()).concat(
                        " != ",
                    ).concat(rr.as_str());
                    proof {
                        assert(msg@ =~= "assert equal failed: "@ + display_model(lhs.model())
                            + " != "@ + display_model(rhs.model()));
                    }
                    Err(Error::AssertError(msg))
                }
            },
            AssertOperator::NotEqual => {
                if !equal {
                    Ok(())
                } else {
                    let l = value_display(&lhs);
                    let rr = value_display(&rhs);
                    let msg = String::from_str("assert not equal failed: ").concat(
                        l.as_str(),
                    ).concat(" == ").concat(rr.as_str());
                    proof {
                        assert(msg@ =~= "assert not equal failed: "@ + display_model(lhs.model())
                            + " == "@ + display_model(rhs.model()));
                    }
                    Err(Error::AssertError(msg))
                }
            },
        }
    }
}

/// One parsed statement: a binding or an assertion.
#[derive(Debug)]
pub enum Statement {
    Def(DefScript),
    Assert(AssertScript),
}

/// What executing one statement does, by its kind.
pub open spec fn stmt_post(
    s: Statement,
    c0: ScriptContext,
    c1: ScriptContext,
    r: Result<(), Error>,
) -> bool {
    match s {
        Statement::Def(d) => def_post(
            d.function,
            model_vars(d.args@),
            d.return_var_name@,
            c0,
            c1,
            r,
        ),
        Statement::Assert(a) => assert_post(a.lhs.model(), a.rhs.model(), a.operator, c0, c1, r),
    }
}

impl Statement {
    pub fn execute(&self, ctx: &mut ScriptContext) -> (r: Result<(), Error>)
        ensures
            stmt_post(*self, *old(ctx), *final(ctx), r),
    {
        match self {
            Statement::Def(d) => d.execute(ctx),
            Statement::Assert(a) => a.execute(ctx),
        }
    }
}

} // verus!

verus! {

use crate::function::FunctionModel;

/// The mathematical mirror of [`Statement`].
pub enum StatementModel {
    Def(Seq<char>, FunctionModel, Seq<VariableModel>),
    Assert(VariableModel, AssertOperator, VariableModel),
}

impl Statement {
    pub open spec fn model(self) -> StatementModel {
        match self {
            Statement::Def(d) => StatementModel::Def(
                d.return_var_name@,
                d.function.model(),
                model_vars(d.args@),
            ),
            Statement::Assert(a) => StatementModel::Assert(
                a.lhs.model(),
                a.operator,
                a.rhs.model(),
            ),
        }
    }
}

/// Running a statement list from `c0`: statements execute in order, each
/// step satisfying its statement's contract; the first error stops the
/// run with that error's rendering and leaves the context as that step
/// left it.
pub open spec fn script_run(
    ss: Seq<Statement>,
    c0: ScriptContext,
    c1: ScriptContext,
    r: Result<(), Error>,
) -> bool
    decreases ss.len(),
{
    if ss.len() == 0 {
        r is Ok && c1 == c0
    } else {
        exists|cmid: ScriptContext, r0: Result<(), Error>|
            {
                &&& #[trigger] stmt_post(ss[0], c0, cmid, r0)
                &&& match r0 {
                    Ok(_) => script_run(ss.drop_first(), cmid, c1, r),
                    Err(e0) => c1 == cmid && (r matches Err(e) && e.message() == e0.message()),
                }
            }
    }
}

} // verus!
