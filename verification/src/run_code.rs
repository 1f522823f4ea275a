//! The script runner: source text in, finished project out.
//!
//! Orchestration: lex, parse, construct an evaluation context with the
//! intrinsics bound to a fresh project, execute. On success the project,
//! the final value and the collected diagnostics are handed back; on
//! failure only the first uncaught error — no partial project escapes.

use vstd::prelude::*;

use crate::errors::{ErrorModel, ScriptError};
use crate::eval::{init_context, run_stmts, ContextModel, EvalContext};
use crate::lexer::{lex, spec_lex};
use crate::parser::{parse, spec_parse};
use crate::project::{project_wf, Project, ProjectModel};
use crate::values::{Value, ValueModel};

verus! {

/// Everything a successful run produces: the finished project, the final
/// value (`undefined` unless the script ended in `return`), and the
/// diagnostic lines `log` emitted, in order.
#[derive(Debug)]
pub struct RunOutcome {
    pub project: Project,
    pub final_value: Value,
    pub log: Vec<String>,
}

/// The mathematical form of a `RunOutcome`.
pub struct RunOutcomeModel {
    pub project: ProjectModel,
    pub final_value: ValueModel,
    pub log: Seq<Seq<char>>,
}

impl View for RunOutcome {
    type V = RunOutcomeModel;

    open spec fn view(&self) -> RunOutcomeModel {
        RunOutcomeModel {
            project: self.project@,
            final_value: self.final_value@,
            log: self.log.deep_view(),
        }
    }
}

/// What running a source text means: lex it, parse it, and execute the
/// statements against a fresh context. Parse-time failures abort before any
/// evaluation; evaluation-time failures abort the remaining statements.
pub open spec fn spec_run_code(src: Seq<char>) -> Result<RunOutcomeModel, ErrorModel> {
    match spec_lex(src) {
        Err(e) => Err(e),
        Ok(toks) => match spec_parse(toks, src.len() as int) {
            Err(e) => Err(e),
            Ok(stmts) => {
                let r = run_stmts(init_context(), stmts, 0);
                match r.1 {
                    Ok(v) => Ok(
                        RunOutcomeModel { project: r.0.project, final_value: v, log: r.0.log },
                    ),
                    Err(e) => Err(e),
                }
            },
        },
    }
}

/// The model of an executable run result.
pub open spec fn run_res_model(r: Result<RunOutcome, ScriptError>) -> Result<
    RunOutcomeModel,
    ErrorModel,
> {
    match r {
        Ok(out) => Ok(out@),
        Err(e) => Err(e@),
    }
}

/// Runs a script: `spec_run_code` made executable. On success the project
/// satisfies its invariant and its timeline is empty — no intrinsic places
/// clips; timeline placement is a separate, explicit append operation.
pub fn run_code(source: &str) -> (r: Result<RunOutcome, ScriptError>)
    ensures
        run_res_model(r) == spec_run_code(source@),
        r matches Ok(out) ==> project_wf(out.project@) && out.project@.timeline
            == Seq::<crate::project::ClipModel>::empty(),
{
    let toks = match lex(source) {
        Ok(t) => t,
        Err(e) => {
            return Err(e);
        },
    };
    let eof = source.unicode_len();
    let stmts = match parse(&toks, eof) {
        Ok(s) => s,
        Err(e) => {
            return Err(e);
        },
    };
    let mut ctx = EvalContext::new();
    proof {
        crate::eval::lemma_run_preserves_project(init_context(), stmts.deep_view(), 0);
    }
    match ctx.run(&stmts) {
        Ok(v) => Ok(RunOutcome { project: ctx.project, final_value: v, log: ctx.log }),
        Err(e) => Err(e),
    }
}

} // verus!
