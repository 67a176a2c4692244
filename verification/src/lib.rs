//! A small declarative language for rule-driven state machines: a program is
//! a sequence of named states, each an ordered list of rules that fire
//! repeatedly until no rule triggers, after which control falls through to
//! the next state, jumps to another state, or returns and halts.
//!
//! The crate parses program text into an abstract syntax tree, validates it
//! (unique names, resolvable transition targets, legal else clauses), and
//! runs the validated program against a host-supplied environment that
//! evaluates conditions and executes opaque statements. Like conditions and
//! statements, the value of a `return value;` statement is opaque host
//! material: the engine hands the expression text back unevaluated, and
//! evaluating it is the caller's affair.
//!
//! - `grammar` states the surface syntax mathematically; `parser` reads it
//!   and is proved to return exactly what the grammar assigns to the text.
//! - `validator` resolves transition targets and rejects exactly the
//!   programs that break a structural demand.
//! - `semantics` gives the engine a small-step trace semantics; `engine`
//!   interprets a validated program and returns a trace proved to be a
//!   legal history of it.
//! - `laws` proves what holds of every legal trace: conditionless rules
//!   fire once per state entry, else bodies are re-evaluated every pass,
//!   transitions cut their pass short, a return halts the run, and a quiet
//!   pass leaves the state.
//! - `eval_host` backs the host boundary with the evalexpr crate.

pub mod ast;
pub mod engine;
pub mod errors;
pub mod eval_host;
pub mod grammar;
pub mod laws;
pub mod parser;
pub mod semantics;
pub mod validator;
