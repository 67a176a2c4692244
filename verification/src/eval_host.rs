use vstd::prelude::*;
use crate::engine::Host;

verus! {

// ---------------------------------------------------------------------------
// A concrete host backed by the evalexpr crate: variables live in an
// evalexpr context, rule conditions are evalexpr boolean expressions, and
// opaque statements are evalexpr expressions whose assignments update the
// context. The engine's guarantees hold for every host; this one makes the
// language runnable out of the box.
//
// The context type `HashMapContext<DefaultNumericTypes>` cannot be declared
// to the verifier (its generics carry an outside trait bound), so it lives
// in this opaque struct and every touch of it goes through the trusted
// methods below, each a single evalexpr call.
// ---------------------------------------------------------------------------

/// A host whose environment is an evalexpr variable context.
#[verifier::external_body]
pub struct EvalHost {
    ctx: evalexpr::HashMapContext<evalexpr::DefaultNumericTypes>,
}

impl EvalHost {
    /// Relies on evalexpr's `HashMapContext::new`: a context with no
    /// variable mappings. Programs usually seed their own variables in
    /// conditionless rules; `set_int` seeds them from outside.
    #[verifier::external_body]
    pub fn new() -> EvalHost {
        EvalHost { ctx: evalexpr::HashMapContext::new() }
    }

    /// Relies on evalexpr's `ContextWithMutableVariables::set_value` on
    /// `HashMapContext`: binds the name to the integer value; false comes
    /// only when the name already holds a value of another type.
    #[verifier::external_body]
    pub fn set_int(&mut self, name: &str, v: i64) -> bool {
        evalexpr::ContextWithMutableVariables::set_value(
            &mut self.ctx,
            name.to_owned(),
            evalexpr::Value::Int(v),
        ).is_ok()
    }

    /// Relies on evalexpr's `Context::get_value` on `HashMapContext`: the
    /// value currently bound to the name, if any; hands its payload back
    /// only when it is an integer.
    #[verifier::external_body]
    pub fn get_int(&self, name: &str) -> Option<i64> {
        match evalexpr::Context::get_value(&self.ctx, name) {
            Some(evalexpr::Value::Int(i)) => Some(*i),
            _ => None,
        }
    }
}

/// Relies on evalexpr's `eval_boolean_with_context`: parses and evaluates
/// the expression against the context; `Ok` exactly when it evaluates to a
/// boolean, `Err` on malformed expressions, unknown variables and results
/// of other types.
#[verifier::external_body]
fn eval_bool(h: &EvalHost, cond: &str) -> Result<bool, String> {
    match evalexpr::eval_boolean_with_context(cond, &h.ctx) {
        Ok(b) => Ok(b),
        Err(e) => Err(e.to_string()),
    }
}

/// Relies on evalexpr's `eval_with_context_mut`: parses and evaluates the
/// expression, applying its assignments (`x = 1`, `x += 1`, ...) to the
/// context; `Err` on malformed expressions and unknown variables.
#[verifier::external_body]
fn eval_stmt(h: &mut EvalHost, stmt: &str) -> Result<(), String> {
    match evalexpr::eval_with_context_mut(stmt, &mut h.ctx) {
        Ok(_) => Ok(()),
        Err(e) => Err(e.to_string()),
    }
}

impl Host for EvalHost {
    fn eval_condition(&mut self, cond: &str) -> Result<bool, String> {
        eval_bool(self, cond)
    }

    fn exec_statement(&mut self, stmt: &str) -> Result<(), String> {
        eval_stmt(self, stmt)
    }
}

} // verus!
