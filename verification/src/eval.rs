//! The evaluation context and the interpreter.
//!
//! A context is a chain of lexical scopes (the global scope holds the
//! intrinsic bindings), the project under construction, and the collected
//! diagnostic lines. Statements run strictly in source order; the first
//! uncaught error aborts the rest. The spec functions here are the
//! authoritative semantics; the methods of `EvalContext` compute them.

use vstd::prelude::*;

use crate::ast::{Arg, ArgModel, Expr, ExprModel, Stmt, StmtModel};
use crate::errors::{ErrorModel, ScriptError};
use crate::project::{empty_project, project_wf, register_path, Project, ProjectModel};
use crate::values::{
    display_of, find_binding, lookup_binding, set_binding, str_eq, to_display_string,
    write_binding, Binding, ClipHandle, IntrinsicKind, Value, ValueModel,
};

verus! {

/// The mathematical form of an `EvalContext`.
pub struct ContextModel {
    pub scopes: Seq<Seq<(Seq<char>, ValueModel)>>,
    pub project: ProjectModel,
    pub log: Seq<Seq<char>>,
}

/// A context always has at least the global scope.
pub open spec fn ctx_wf(c: ContextModel) -> bool {
    c.scopes.len() > 0
}

/// Resolves `name` through the scope chain, innermost scope first; child
/// scopes shadow parents.
pub open spec fn env_lookup(scopes: Seq<Seq<(Seq<char>, ValueModel)>>, name: Seq<char>) -> Option<
    ValueModel,
>
    decreases scopes.len(),
{
    if scopes.len() == 0 {
        None
    } else {
        match find_binding(scopes.last(), name) {
            Some(v) => Some(v),
            None => env_lookup(scopes.drop_last(), name),
        }
    }
}

/// Binds `name` to `value` in the current (innermost) scope; re-declaration
/// in the same scope overwrites.
pub open spec fn declare_model(c: ContextModel, name: Seq<char>, value: ValueModel) -> ContextModel {
    if c.scopes.len() == 0 {
        c
    } else {
        ContextModel {
            scopes: c.scopes.update(
                c.scopes.len() - 1,
                set_binding(c.scopes.last(), name, value),
            ),
            ..c
        }
    }
}

/// Argument `i` of a call, `undefined` when the call site gave fewer.
pub open spec fn arg_or_undefined(args: Seq<ValueModel>, i: int) -> ValueModel {
    if 0 <= i < args.len() {
        args[i]
    } else {
        ValueModel::Undefined
    }
}

/// What one intrinsic call does to the context, and what it returns; every
/// conversion is fail-closed, a type mismatch raises `TypeError` and leaves
/// the context unchanged.
pub open spec fn apply_intrinsic(
    k: IntrinsicKind,
    args: Seq<ValueModel>,
    c: ContextModel,
) -> (ContextModel, Result<ValueModel, ErrorModel>) {
    match k {
        IntrinsicKind::Log => (
            ContextModel { log: c.log.push(display_of(arg_or_undefined(args, 0))), ..c },
            Ok(ValueModel::Undefined),
        ),
        IntrinsicKind::LoadClip => match arg_or_undefined(args, 0) {
            ValueModel::Str(path) => (
                ContextModel {
                    project: ProjectModel {
                        paths: register_path(c.project.paths, path),
                        ..c.project
                    },
                    ..c
                },
                Ok(ValueModel::Handle(path)),
            ),
            _ => (
                c,
                Err(
                    ErrorModel::Type {
                        message: "First argument of load_clip must be a string"@,
                    },
                ),
            ),
        },
        IntrinsicKind::CreateVariable => match arg_or_undefined(args, 0) {
            ValueModel::Str(name) => (
                ContextModel {
                    project: ProjectModel {
                        variables: set_binding(
                            c.project.variables,
                            name,
                            arg_or_undefined(args, 1),
                        ),
                        ..c.project
                    },
                    ..c
                },
                Ok(ValueModel::Undefined),
            ),
            _ => (
                c,
                Err(
                    ErrorModel::Type {
                        message: "First argument of create_variable must be a string"@,
                    },
                ),
            ),
        },
    }
}

/// The value of a primary: literals are themselves, an identifier resolves
/// through the scope chain or raises `ReferenceError`.
pub open spec fn eval_arg(scopes: Seq<Seq<(Seq<char>, ValueModel)>>, a: ArgModel) -> Result<
    ValueModel,
    ErrorModel,
> {
    match a {
        ArgModel::Str(s) => Ok(ValueModel::Str(s)),
        ArgModel::Num(n) => Ok(ValueModel::Num(n)),
        ArgModel::Ident(id) => match env_lookup(scopes, id) {
            Some(v) => Ok(v),
            None => Err(ErrorModel::Reference { name: id }),
        },
    }
}

/// The values of the arguments from position `i` on, appended to `acc`,
/// evaluated left to right; the first failure wins.
pub open spec fn eval_args_from(
    scopes: Seq<Seq<(Seq<char>, ValueModel)>>,
    args: Seq<ArgModel>,
    i: int,
    acc: Seq<ValueModel>,
) -> Result<Seq<ValueModel>, ErrorModel>
    decreases args.len() - i,
    when 0 <= i <= args.len()
{
    if i >= args.len() {
        Ok(acc)
    } else {
        match eval_arg(scopes, args[i]) {
            Ok(v) => eval_args_from(scopes, args, i + 1, acc.push(v)),
            Err(e) => Err(e),
        }
    }
}

/// What evaluating one expression does to the context, and its value. A
/// call resolves its callee in the scope chain (`ReferenceError` when
/// unbound, `TypeError` when not callable), evaluates the arguments left to
/// right, then invokes the intrinsic.
pub open spec fn eval_expr(c: ContextModel, e: ExprModel) -> (
    ContextModel,
    Result<ValueModel, ErrorModel>,
) {
    match e {
        ExprModel::Primary(a) => (c, eval_arg(c.scopes, a)),
        ExprModel::Call { callee, args } => match env_lookup(c.scopes, callee) {
            None => (c, Err(ErrorModel::Reference { name: callee })),
            Some(v) => match v {
                ValueModel::Intrinsic(k) => match eval_args_from(c.scopes, args, 0, Seq::empty()) {
                    Ok(vals) => apply_intrinsic(k, vals, c),
                    Err(e) => (c, Err(e)),
                },
                _ => (c, Err(ErrorModel::Type { message: "called value is not a function"@ })),
            },
        },
    }
}

/// What one statement does to the context; `Ok(Some(v))` is a `return`
/// ending the run with final value `v`.
pub open spec fn step_stmt(c: ContextModel, st: StmtModel) -> (
    ContextModel,
    Result<Option<ValueModel>, ErrorModel>,
) {
    match st {
        StmtModel::VarDecl { name, init } => {
            let r = eval_expr(c, init);
            match r.1 {
                Ok(v) => (declare_model(r.0, name, v), Ok(None)),
                Err(e) => (r.0, Err(e)),
            }
        },
        StmtModel::Expr(e) => {
            let r = eval_expr(c, e);
            match r.1 {
                Ok(_) => (r.0, Ok(None)),
                Err(er) => (r.0, Err(er)),
            }
        },
        StmtModel::Return(opt) => match opt {
            None => (c, Ok(Some(ValueModel::Undefined))),
            Some(e) => {
                let r = eval_expr(c, e);
                match r.1 {
                    Ok(v) => (r.0, Ok(Some(v))),
                    Err(er) => (r.0, Err(er)),
                }
            },
        },
    }
}

/// Runs the statements from position `i` on, strictly in order, stopping at
/// the first error or `return`; a run that falls off the end yields
/// `undefined`.
pub open spec fn run_stmts(c: ContextModel, stmts: Seq<StmtModel>, i: int) -> (
    ContextModel,
    Result<ValueModel, ErrorModel>,
)
    decreases stmts.len() - i,
    when 0 <= i <= stmts.len()
{
    if i >= stmts.len() {
        (c, Ok(ValueModel::Undefined))
    } else {
        let r = step_stmt(c, stmts[i]);
        match r.1 {
            Ok(None) => run_stmts(r.0, stmts, i + 1),
            Ok(Some(v)) => (r.0, Ok(v)),
            Err(e) => (r.0, Err(e)),
        }
    }
}

/// The context a run starts from: a fresh empty project and the three
/// intrinsics bound in the global scope.
pub open spec fn init_context() -> ContextModel {
    ContextModel {
        scopes: seq![
            seq![
                ("log"@, ValueModel::Intrinsic(IntrinsicKind::Log)),
                ("load_clip"@, ValueModel::Intrinsic(IntrinsicKind::LoadClip)),
                ("create_variable"@, ValueModel::Intrinsic(IntrinsicKind::CreateVariable)),
            ],
        ],
        project: empty_project(),
        log: Seq::empty(),
    }
}

/// `log` never alters the project — not its asset paths, not its timeline,
/// not its variables — whatever its argument; it only emits one diagnostic
/// line and returns `undefined`.
pub proof fn lemma_log_leaves_project(args: Seq<ValueModel>, c: ContextModel)
    ensures
        apply_intrinsic(IntrinsicKind::Log, args, c).0.project == c.project,
        apply_intrinsic(IntrinsicKind::Log, args, c).0.scopes == c.scopes,
        apply_intrinsic(IntrinsicKind::Log, args, c).0.log == c.log.push(
            display_of(arg_or_undefined(args, 0)),
        ),
        apply_intrinsic(IntrinsicKind::Log, args, c).1 == Ok::<ValueModel, ErrorModel>(
            ValueModel::Undefined,
        ),
{
}

/// `load_clip` invoked with a non-string first argument (or none) always
/// fails with `TypeError` and its fixed message, and the whole context —
/// paths, timeline, variables, scopes and log — is left unchanged: the
/// failed call is atomic.
pub proof fn lemma_load_clip_type_error(args: Seq<ValueModel>, c: ContextModel)
    requires
        !(arg_or_undefined(args, 0) is Str),
    ensures
        apply_intrinsic(IntrinsicKind::LoadClip, args, c).0 == c,
        apply_intrinsic(IntrinsicKind::LoadClip, args, c).1 == Err::<ValueModel, ErrorModel>(
            ErrorModel::Type { message: "First argument of load_clip must be a string"@ },
        ),
{
}

/// `load_clip` with a string argument registers the path among the asset
/// references and returns a handle exposing that path; the timeline and the
/// variables are untouched.
pub proof fn lemma_load_clip_registers(args: Seq<ValueModel>, c: ContextModel, path: Seq<char>)
    requires
        arg_or_undefined(args, 0) == ValueModel::Str(path),
    ensures
        apply_intrinsic(IntrinsicKind::LoadClip, args, c).0.project.paths == register_path(
            c.project.paths,
            path,
        ),
        apply_intrinsic(IntrinsicKind::LoadClip, args, c).0.project.timeline
            == c.project.timeline,
        apply_intrinsic(IntrinsicKind::LoadClip, args, c).0.project.variables
            == c.project.variables,
        apply_intrinsic(IntrinsicKind::LoadClip, args, c).1 == Ok::<ValueModel, ErrorModel>(
            ValueModel::Handle(path),
        ),
{
}

/// No intrinsic appends to the timeline: timeline placement is a separate,
/// explicit append operation of the project builder, so evaluation leaves
/// the timeline exactly as it found it.
pub proof fn lemma_step_keeps_timeline(c: ContextModel, st: StmtModel)
    ensures
        step_stmt(c, st).0.project.timeline == c.project.timeline,
{
    match st {
        StmtModel::VarDecl { name, init } => lemma_eval_keeps_timeline(c, init),
        StmtModel::Expr(e) => lemma_eval_keeps_timeline(c, e),
        StmtModel::Return(opt) => match opt {
            None => {},
            Some(e) => lemma_eval_keeps_timeline(c, e),
        },
    }
}

proof fn lemma_eval_keeps_timeline(c: ContextModel, e: ExprModel)
    ensures
        eval_expr(c, e).0.project.timeline == c.project.timeline,
{
}

/// A whole run leaves the timeline as it found it, and keeps the project
/// invariant: unique variable names and a well-formed timeline.
pub proof fn lemma_run_preserves_project(c: ContextModel, stmts: Seq<StmtModel>, i: int)
    requires
        0 <= i <= stmts.len(),
    ensures
        run_stmts(c, stmts, i).0.project.timeline == c.project.timeline,
        project_wf(c.project) ==> project_wf(run_stmts(c, stmts, i).0.project),
    decreases stmts.len() - i,
{
    if i < stmts.len() {
        lemma_step_keeps_timeline(c, stmts[i]);
        lemma_step_preserves_wf(c, stmts[i]);
        let r = step_stmt(c, stmts[i]);
        match r.1 {
            Ok(None) => lemma_run_preserves_project(r.0, stmts, i + 1),
            _ => {},
        }
    }
}

proof fn lemma_step_preserves_wf(c: ContextModel, st: StmtModel)
    ensures
        project_wf(c.project) ==> project_wf(step_stmt(c, st).0.project),
{
    match st {
        StmtModel::VarDecl { name, init } => lemma_eval_preserves_wf(c, init),
        StmtModel::Expr(e) => lemma_eval_preserves_wf(c, e),
        StmtModel::Return(opt) => match opt {
            None => {},
            Some(e) => lemma_eval_preserves_wf(c, e),
        },
    }
}

proof fn lemma_eval_preserves_wf(c: ContextModel, e: ExprModel)
    ensures
        project_wf(c.project) ==> project_wf(eval_expr(c, e).0.project),
{
    match e {
        ExprModel::Primary(_) => {},
        ExprModel::Call { callee, args } => match env_lookup(c.scopes, callee) {
            None => {},
            Some(v) => match v {
                ValueModel::Intrinsic(k) => match eval_args_from(c.scopes, args, 0, Seq::empty()) {
                    Ok(vals) => {
                        if k is CreateVariable {
                            match arg_or_undefined(vals, 0) {
                                ValueModel::Str(name) => {
                                    if project_wf(c.project) {
                                        crate::values::lemma_set_binding_unique(
                                            c.project.variables,
                                            name,
                                            arg_or_undefined(vals, 1),
                                        );
                                    }
                                },
                                _ => {},
                            }
                        }
                    },
                    Err(_) => {},
                },
                _ => {},
            },
        },
    }
}

/// The model of an executable value result.
pub open spec fn res_val_model(r: Result<Value, ScriptError>) -> Result<ValueModel, ErrorModel> {
    match r {
        Ok(v) => Ok(v@),
        Err(e) => Err(e@),
    }
}

/// The model of an executable statement result.
pub open spec fn res_opt_model(r: Result<Option<Value>, ScriptError>) -> Result<
    Option<ValueModel>,
    ErrorModel,
> {
    match r {
        Ok(None) => Ok(None),
        Ok(Some(v)) => Ok(Some(v@)),
        Err(e) => Err(e@),
    }
}

/// The model of an executable argument-list result.
pub open spec fn res_vals_model(r: Result<Vec<Value>, ScriptError>) -> Result<
    Seq<ValueModel>,
    ErrorModel,
> {
    match r {
        Ok(vs) => Ok(vs.deep_view()),
        Err(e) => Err(e@),
    }
}

/// The runtime state driving script execution: the scope chain, the project
/// under construction, and the diagnostic lines `log` has emitted.
#[derive(Debug)]
pub struct EvalContext {
    pub scopes: Vec<Vec<Binding>>,
    pub project: Project,
    pub log: Vec<String>,
}

impl View for EvalContext {
    type V = ContextModel;

    open spec fn view(&self) -> ContextModel {
        ContextModel {
            scopes: self.scopes.deep_view(),
            project: self.project@,
            log: self.log.deep_view(),
        }
    }
}

/// Resolves `name` in the first `k` scopes, innermost (last) first.
fn lookup_env_prefix<'a>(scopes: &'a Vec<Vec<Binding>>, k: usize, name: &str) -> (r: Option<
    &'a Value,
>)
    requires
        k <= scopes.len(),
    ensures
        match r {
            Some(v) => env_lookup(scopes.deep_view().take(k as int), name@) == Some(v@),
            None => env_lookup(scopes.deep_view().take(k as int), name@) is None,
        },
    decreases k,
{
    if k == 0 {
        proof {
            assert(scopes.deep_view().take(0) =~= Seq::<Seq<(Seq<char>, ValueModel)>>::empty());
        }
        None
    } else {
        proof {
            assert(scopes.deep_view().take(k as int).last() == scopes.deep_view()[k - 1]);
            assert(scopes.deep_view().take(k as int).drop_last() =~= scopes.deep_view().take(
                k - 1,
            ));
        }
        match lookup_binding(&scopes[k - 1], name) {
            Some(v) => Some(v),
            None => lookup_env_prefix(scopes, k - 1, name),
        }
    }
}

/// Resolves `name` through the whole scope chain.
fn lookup_env<'a>(scopes: &'a Vec<Vec<Binding>>, name: &str) -> (r: Option<&'a Value>)
    ensures
        match r {
            Some(v) => env_lookup(scopes.deep_view(), name@) == Some(v@),
            None => env_lookup(scopes.deep_view(), name@) is None,
        },
{
    proof {
        assert(scopes.deep_view().take(scopes.deep_view().len() as int) =~= scopes.deep_view());
    }
    lookup_env_prefix(scopes, scopes.len(), name)
}

/// Evaluates one primary expression against the scope chain.
fn eval_arg_exec(scopes: &Vec<Vec<Binding>>, a: &Arg) -> (r: Result<Value, ScriptError>)
    ensures
        res_val_model(r) == eval_arg(scopes.deep_view(), a.deep_view()),
{
    match a {
        Arg::Str(s) => Ok(Value::Str(s.clone())),
        Arg::Num(n) => Ok(Value::Num(*n)),
        Arg::Ident(id) => match lookup_env(scopes, id.as_str()) {
            Some(v) => Ok(v.clone()),
            None => Err(ScriptError::Reference { name: id.clone() }),
        },
    }
}

/// Evaluates the arguments from position `i` on, left to right.
fn eval_args_rec(scopes: &Vec<Vec<Binding>>, args: &Vec<Arg>, i: usize, acc: Vec<Value>) -> (r:
    Result<Vec<Value>, ScriptError>)
    requires
        i <= args.len(),
    ensures
        res_vals_model(r) == eval_args_from(
            scopes.deep_view(),
            args.deep_view(),
            i as int,
            acc.deep_view(),
        ),
    decreases args.len() - i,
{
    let ghost acc0 = acc.deep_view();
    if i >= args.len() {
        return Ok(acc);
    }
    match eval_arg_exec(scopes, &args[i]) {
        Ok(v) => {
            let ghost vm = v@;
            let mut acc2 = acc;
            acc2.push(v);
            proof {
                assert(acc2.deep_view() =~= acc0.push(vm));
            }
            eval_args_rec(scopes, args, i + 1, acc2)
        },
        Err(e) => Err(e),
    }
}

impl EvalContext {
    /// A fresh context: empty project, empty diagnostics, and one global
    /// scope holding `log`, `load_clip` and `create_variable`.
    pub fn new() -> (c: EvalContext)
        ensures
            c@ == init_context(),
            ctx_wf(c@),
    {
        let mut globals: Vec<Binding> = Vec::new();
        globals.push(
            Binding { name: "log".to_owned(), value: Value::Intrinsic(IntrinsicKind::Log) },
        );
        globals.push(
            Binding {
                name: "load_clip".to_owned(),
                value: Value::Intrinsic(IntrinsicKind::LoadClip),
            },
        );
        globals.push(
            Binding {
                name: "create_variable".to_owned(),
                value: Value::Intrinsic(IntrinsicKind::CreateVariable),
            },
        );
        let mut scopes: Vec<Vec<Binding>> = Vec::new();
        scopes.push(globals);
        let mut log: Vec<String> = Vec::new();
        let c = EvalContext { scopes, project: Project::new(), log };
        proof {
            assert(c.scopes.deep_view()[0] =~= init_context().scopes[0]);
            assert(c.scopes.deep_view() =~= init_context().scopes);
            assert(c.log.deep_view() =~= init_context().log);
        }
        c
    }

    /// Binds `name` to `value` in the current scope.
    fn declare(&mut self, name: String, value: Value)
        requires
            ctx_wf(old(self)@),
        ensures
            final(self)@ == declare_model(old(self)@, name@, value@),
            ctx_wf(final(self)@),
    {
        let ghost nv = (name@, value@);
        let idx = self.scopes.len() - 1;
        write_binding(&mut self.scopes[idx], name, value);
        proof {
            let s0 = old(self)@.scopes;
            assert(self.scopes.deep_view() =~= s0.update(
                idx as int,
                set_binding(s0.last(), nv.0, nv.1),
            ));
        }
    }

    /// Performs one intrinsic call against the project and the log.
    fn apply(&mut self, k: IntrinsicKind, args: Vec<Value>) -> (r: Result<Value, ScriptError>)
        requires
            ctx_wf(old(self)@),
        ensures
            final(self)@ == apply_intrinsic(k, args.deep_view(), old(self)@).0,
            res_val_model(r) == apply_intrinsic(k, args.deep_view(), old(self)@).1,
            ctx_wf(final(self)@),
    {
        let ghost argm = args.deep_view();
        match k {
            IntrinsicKind::Log => {
                let line = if args.len() > 0 {
                    to_display_string(&args[0])
                } else {
                    let undef = Value::Undefined;
                    to_display_string(&undef)
                };
                self.log.push(line);
                proof {
                    assert(self.log.deep_view() =~= old(self)@.log.push(
                        display_of(arg_or_undefined(argm, 0)),
                    ));
                }
                Ok(Value::Undefined)
            },
            IntrinsicKind::LoadClip => {
                if args.len() > 0 && matches!(&args[0], Value::Str(_)) {
                    let path = match &args[0] {
                        Value::Str(s) => s.clone(),
                        _ => String::new(),
                    };
                    let handle_path = path.clone();
                    self.project.register_path(path);
                    Ok(Value::Handle(ClipHandle { path: handle_path }))
                } else {
                    Err(
                        ScriptError::Type {
                            message: "First argument of load_clip must be a string".to_owned(),
                        },
                    )
                }
            },
            IntrinsicKind::CreateVariable => {
                if args.len() > 0 && matches!(&args[0], Value::Str(_)) {
                    let name = match &args[0] {
                        Value::Str(s) => s.clone(),
                        _ => String::new(),
                    };
                    let value = if args.len() > 1 {
                        args[1].clone()
                    } else {
                        Value::Undefined
                    };
                    self.project.set_variable(name, value);
                    Ok(Value::Undefined)
                } else {
                    Err(
                        ScriptError::Type {
                            message: "First argument of create_variable must be a string".to_owned(),
                        },
                    )
                }
            },
        }
    }

    /// Evaluates one expression.
    fn eval(&mut self, e: &Expr) -> (r: Result<Value, ScriptError>)
        requires
            ctx_wf(old(self)@),
        ensures
            final(self)@ == eval_expr(old(self)@, e.deep_view()).0,
            res_val_model(r) == eval_expr(old(self)@, e.deep_view()).1,
            ctx_wf(final(self)@),
    {
        match e {
            Expr::Primary(a) => eval_arg_exec(&self.scopes, a),
            Expr::Call { callee, args } => {
                let k: IntrinsicKind = match lookup_env(&self.scopes, callee.as_str()) {
                    None => {
                        return Err(ScriptError::Reference { name: callee.clone() });
                    },
                    Some(v) => match v {
                        Value::Intrinsic(k) => *k,
                        _ => {
                            return Err(
                                ScriptError::Type {
                                    message: "called value is not a function".to_owned(),
                                },
                            );
                        },
                    },
                };
                let empty_acc: Vec<Value> = Vec::new();
                proof {
                    assert(empty_acc.deep_view() =~= Seq::<ValueModel>::empty());
                }
                match eval_args_rec(&self.scopes, args, 0, empty_acc) {
                    Ok(vals) => self.apply(k, vals),
                    Err(e) => Err(e),
                }
            },
        }
    }

    /// Executes one statement; `Ok(Some(v))` is a `return`.
    fn exec_stmt(&mut self, st: &Stmt) -> (r: Result<Option<Value>, ScriptError>)
        requires
            ctx_wf(old(self)@),
        ensures
            final(self)@ == step_stmt(old(self)@, st.deep_view()).0,
            res_opt_model(r) == step_stmt(old(self)@, st.deep_view()).1,
            ctx_wf(final(self)@),
    {
        match st {
            Stmt::VarDecl { name, init } => match self.eval(init) {
                Ok(v) => {
                    self.declare(name.clone(), v);
                    Ok(None)
                },
                Err(e) => Err(e),
            },
            Stmt::Expr(e) => match self.eval(e) {
                Ok(_) => Ok(None),
                Err(er) => Err(er),
            },
            Stmt::Return(opt) => match opt {
                None => Ok(Some(Value::Undefined)),
                Some(e) => match self.eval(e) {
                    Ok(v) => Ok(Some(v)),
                    Err(er) => Err(er),
                },
            },
        }
    }

    fn run_from(&mut self, stmts: &Vec<Stmt>, i: usize) -> (r: Result<Value, ScriptError>)
        requires
            ctx_wf(old(self)@),
            i <= stmts.len(),
        ensures
            final(self)@ == run_stmts(old(self)@, stmts.deep_view(), i as int).0,
            res_val_model(r) == run_stmts(old(self)@, stmts.deep_view(), i as int).1,
            ctx_wf(final(self)@),
        decreases stmts.len() - i,
    {
        if i >= stmts.len() {
            return Ok(Value::Undefined);
        }
        match self.exec_stmt(&stmts[i]) {
            Ok(None) => self.run_from(stmts, i + 1),
            Ok(Some(v)) => Ok(v),
            Err(e) => Err(e),
        }
    }

    /// Executes a whole syntax tree, statement by statement, stopping at the
    /// first uncaught error or `return`.
    pub fn run(&mut self, stmts: &Vec<Stmt>) -> (r: Result<Value, ScriptError>)
        requires
            ctx_wf(old(self)@),
        ensures
            final(self)@ == run_stmts(old(self)@, stmts.deep_view(), 0).0,
            res_val_model(r) == run_stmts(old(self)@, stmts.deep_view(), 0).1,
            ctx_wf(final(self)@),
    {
        self.run_from(stmts, 0)
    }
}

} // verus!
