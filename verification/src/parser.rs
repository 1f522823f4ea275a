//! The parser: token sequence to syntax tree.
//!
//! The grammar, LL(1):
//! ```text
//! program := stmt* EOF
//! stmt    := 'var' Ident '=' expr ';'
//!          | 'return' expr? ';'
//!          | expr ';'
//! expr    := Ident '(' args ')' | primary
//! args    := (primary (',' primary)*)?
//! primary := StrLit | Num | Ident
//! ```
//! `spec_parse` is the authoritative definition; `parse` computes it. A
//! failure is a `SyntaxError` carrying the offending character offset;
//! `eof` is the offset reported when the text ends too early.

use vstd::prelude::*;

use crate::ast::{Arg, ArgModel, Expr, ExprModel, Stmt, StmtModel};
use crate::errors::{ErrorModel, ScriptError};
use crate::lexer::{Token, TokenKindModel, TokenModel, TokenKind};

verus! {

/// The source position of token `i`, or `eof` past the end.
pub open spec fn tok_pos(toks: Seq<TokenModel>, i: int, eof: int) -> int {
    if 0 <= i < toks.len() {
        toks[i].pos
    } else {
        eof
    }
}

/// A primary expression at `i`: a string, number or identifier token.
pub open spec fn spec_parse_primary(toks: Seq<TokenModel>, eof: int, i: int) -> Result<
    (ArgModel, int),
    ErrorModel,
> {
    if i >= toks.len() {
        Err(ErrorModel::Syntax { pos: eof, message: "expected expression"@ })
    } else {
        match toks[i].kind {
            TokenKindModel::StrLit(s) => Ok((ArgModel::Str(s), i + 1)),
            TokenKindModel::Num(n) => Ok((ArgModel::Num(n), i + 1)),
            TokenKindModel::Ident(id) => Ok((ArgModel::Ident(id), i + 1)),
            _ => Err(ErrorModel::Syntax { pos: toks[i].pos, message: "expected expression"@ }),
        }
    }
}

proof fn lemma_parse_primary_adv(toks: Seq<TokenModel>, eof: int, i: int)
    requires
        0 <= i,
    ensures
        match spec_parse_primary(toks, eof, i) {
            Ok((a, j)) => j == i + 1 && i < toks.len(),
            Err(_) => true,
        },
{
}

/// The argument list after an opening parenthesis, `acc` already read;
/// ends at the closing parenthesis.
pub open spec fn spec_parse_args(toks: Seq<TokenModel>, eof: int, i: int, acc: Seq<ArgModel>) -> Result<
    (Seq<ArgModel>, int),
    ErrorModel,
>
    decreases toks.len() - i,
    when 0 <= i <= toks.len()
    via spec_parse_args_dec
{
    if i < toks.len() && toks[i].kind is RParen {
        Ok((acc, i + 1))
    } else {
        match spec_parse_primary(toks, eof, i) {
            Ok((a, j)) => {
                if j < toks.len() && toks[j].kind is Comma {
                    spec_parse_args(toks, eof, j + 1, acc.push(a))
                } else if j < toks.len() && toks[j].kind is RParen {
                    Ok((acc.push(a), j + 1))
                } else {
                    Err(
                        ErrorModel::Syntax {
                            pos: tok_pos(toks, j, eof),
                            message: "expected ')' or ','"@,
                        },
                    )
                }
            },
            Err(e) => Err(e),
        }
    }
}

#[via_fn]
proof fn spec_parse_args_dec(toks: Seq<TokenModel>, eof: int, i: int, acc: Seq<ArgModel>) {
    lemma_parse_primary_adv(toks, eof, i);
}

proof fn lemma_parse_args_adv(toks: Seq<TokenModel>, eof: int, i: int, acc: Seq<ArgModel>)
    requires
        0 <= i <= toks.len(),
    ensures
        match spec_parse_args(toks, eof, i, acc) {
            Ok((r, j)) => i < j <= toks.len(),
            Err(_) => true,
        },
    decreases toks.len() - i,
{
    lemma_parse_primary_adv(toks, eof, i);
    if !(i < toks.len() && toks[i].kind is RParen) {
        match spec_parse_primary(toks, eof, i) {
            Ok((a, j)) => {
                if j < toks.len() && toks[j].kind is Comma {
                    lemma_parse_args_adv(toks, eof, j + 1, acc.push(a));
                }
            },
            Err(_) => {},
        }
    }
}

/// An expression at `i`: an identifier followed by `(` starts a call, any
/// other shape is a primary.
pub open spec fn spec_parse_expr(toks: Seq<TokenModel>, eof: int, i: int) -> Result<
    (ExprModel, int),
    ErrorModel,
> {
    if 0 <= i < toks.len() {
        match toks[i].kind {
            TokenKindModel::Ident(callee) => {
                if i + 1 < toks.len() && toks[i + 1].kind is LParen {
                    match spec_parse_args(toks, eof, i + 2, Seq::empty()) {
                        Ok((args, j)) => Ok((ExprModel::Call { callee, args }, j)),
                        Err(e) => Err(e),
                    }
                } else {
                    Ok((ExprModel::Primary(ArgModel::Ident(callee)), i + 1))
                }
            },
            _ => match spec_parse_primary(toks, eof, i) {
                Ok((a, j)) => Ok((ExprModel::Primary(a), j)),
                Err(e) => Err(e),
            },
        }
    } else {
        match spec_parse_primary(toks, eof, i) {
            Ok((a, j)) => Ok((ExprModel::Primary(a), j)),
            Err(e) => Err(e),
        }
    }
}

proof fn lemma_parse_expr_adv(toks: Seq<TokenModel>, eof: int, i: int)
    requires
        0 <= i,
    ensures
        match spec_parse_expr(toks, eof, i) {
            Ok((e, j)) => i < j <= toks.len(),
            Err(_) => true,
        },
{
    lemma_parse_primary_adv(toks, eof, i);
    if i < toks.len() {
        match toks[i].kind {
            TokenKindModel::Ident(callee) => {
                if i + 1 < toks.len() && toks[i + 1].kind is LParen {
                    lemma_parse_args_adv(toks, eof, i + 2, Seq::empty());
                }
            },
            _ => {},
        }
    }
}

/// A statement at `i`, which must not be past the end.
pub open spec fn spec_parse_stmt(toks: Seq<TokenModel>, eof: int, i: int) -> Result<
    (StmtModel, int),
    ErrorModel,
> {
    if i >= toks.len() {
        Err(ErrorModel::Syntax { pos: eof, message: "expected statement"@ })
    } else {
        match toks[i].kind {
            TokenKindModel::Var => {
                if i + 1 < toks.len() {
                    match toks[i + 1].kind {
                        TokenKindModel::Ident(name) => {
                            if i + 2 < toks.len() && toks[i + 2].kind is Eq {
                                match spec_parse_expr(toks, eof, i + 3) {
                                    Ok((e, j)) => {
                                        if j < toks.len() && toks[j].kind is Semi {
                                            Ok((StmtModel::VarDecl { name, init: e }, j + 1))
                                        } else {
                                            Err(
                                                ErrorModel::Syntax {
                                                    pos: tok_pos(toks, j, eof),
                                                    message: "expected ';'"@,
                                                },
                                            )
                                        }
                                    },
                                    Err(e) => Err(e),
                                }
                            } else {
                                Err(
                                    ErrorModel::Syntax {
                                        pos: tok_pos(toks, i + 2, eof),
                                        message: "expected '='"@,
                                    },
                                )
                            }
                        },
                        _ => Err(
                            ErrorModel::Syntax {
                                pos: toks[i + 1].pos,
                                message: "expected identifier after 'var'"@,
                            },
                        ),
                    }
                } else {
                    Err(
                        ErrorModel::Syntax {
                            pos: eof,
                            message: "expected identifier after 'var'"@,
                        },
                    )
                }
            },
            TokenKindModel::Return => {
                if i + 1 < toks.len() && toks[i + 1].kind is Semi {
                    Ok((StmtModel::Return(None), i + 2))
                } else {
                    match spec_parse_expr(toks, eof, i + 1) {
                        Ok((e, j)) => {
                            if j < toks.len() && toks[j].kind is Semi {
                                Ok((StmtModel::Return(Some(e)), j + 1))
                            } else {
                                Err(
                                    ErrorModel::Syntax {
                                        pos: tok_pos(toks, j, eof),
                                        message: "expected ';'"@,
                                    },
                                )
                            }
                        },
                        Err(e) => Err(e),
                    }
                }
            },
            _ => {
                match spec_parse_expr(toks, eof, i) {
                    Ok((e, j)) => {
                        if j < toks.len() && toks[j].kind is Semi {
                            Ok((StmtModel::Expr(e), j + 1))
                        } else {
                            Err(
                                ErrorModel::Syntax {
                                    pos: tok_pos(toks, j, eof),
                                    message: "expected ';'"@,
                                },
                            )
                        }
                    },
                    Err(e) => Err(e),
                }
            },
        }
    }
}

proof fn lemma_parse_stmt_adv(toks: Seq<TokenModel>, eof: int, i: int)
    requires
        0 <= i,
    ensures
        match spec_parse_stmt(toks, eof, i) {
            Ok((st, j)) => i < j <= toks.len(),
            Err(_) => true,
        },
{
    lemma_parse_expr_adv(toks, eof, i);
    lemma_parse_expr_adv(toks, eof, i + 1);
    lemma_parse_expr_adv(toks, eof, i + 3);
}

/// The whole program: statements to the end of the tokens, appended to
/// `acc`; or the first syntax error.
pub open spec fn spec_parse_program(
    toks: Seq<TokenModel>,
    eof: int,
    i: int,
    acc: Seq<StmtModel>,
) -> Result<Seq<StmtModel>, ErrorModel>
    decreases toks.len() - i,
    when 0 <= i <= toks.len()
    via spec_parse_program_dec
{
    if i >= toks.len() {
        Ok(acc)
    } else {
        match spec_parse_stmt(toks, eof, i) {
            Ok((st, j)) => spec_parse_program(toks, eof, j, acc.push(st)),
            Err(e) => Err(e),
        }
    }
}

#[via_fn]
proof fn spec_parse_program_dec(toks: Seq<TokenModel>, eof: int, i: int, acc: Seq<StmtModel>) {
    lemma_parse_stmt_adv(toks, eof, i);
}

/// The syntax tree of a token sequence, or its first syntax error.
pub open spec fn spec_parse(toks: Seq<TokenModel>, eof: int) -> Result<Seq<StmtModel>, ErrorModel> {
    spec_parse_program(toks, eof, 0, Seq::empty())
}

fn parse_primary(toks: &Vec<Token>, eof: usize, i: usize) -> (r: Result<(Arg, usize), ScriptError>)
    requires
        i <= toks.len(),
    ensures
        match r {
            Ok((a, j)) => spec_parse_primary(toks.deep_view(), eof as int, i as int) == Ok::<
                _,
                ErrorModel,
            >((a.deep_view(), j as int)) && i < j <= toks.len() && j == i + 1,
            Err(e) => spec_parse_primary(toks.deep_view(), eof as int, i as int) == Err::<
                (ArgModel, int),
                _,
            >(e@),
        },
{
    if i >= toks.len() {
        Err(ScriptError::Syntax { pos: eof, message: "expected expression".to_owned() })
    } else {
        let t = &toks[i];
        match &t.kind {
            TokenKind::StrLit(s) => Ok((Arg::Str(s.clone()), i + 1)),
            TokenKind::Num(n) => Ok((Arg::Num(*n), i + 1)),
            TokenKind::Ident(id) => Ok((Arg::Ident(id.clone()), i + 1)),
            _ => Err(ScriptError::Syntax { pos: t.pos, message: "expected expression".to_owned() }),
        }
    }
}

fn parse_args(toks: &Vec<Token>, eof: usize, i: usize, acc: Vec<Arg>) -> (r: Result<
    (Vec<Arg>, usize),
    ScriptError,
>)
    requires
        i <= toks.len(),
    ensures
        match r {
            Ok((args, j)) => spec_parse_args(toks.deep_view(), eof as int, i as int, acc.deep_view())
                == Ok::<_, ErrorModel>((args.deep_view(), j as int)) && i < j <= toks.len(),
            Err(e) => spec_parse_args(toks.deep_view(), eof as int, i as int, acc.deep_view())
                == Err::<(Seq<ArgModel>, int), _>(e@),
        },
    decreases toks.len() - i,
{
    let ghost acc0 = acc.deep_view();
    if i < toks.len() && matches!(&toks[i].kind, TokenKind::RParen) {
        return Ok((acc, i + 1));
    }
    match parse_primary(toks, eof, i) {
        Ok((a, j)) => {
            let ghost am = a.deep_view();
            if j < toks.len() && matches!(&toks[j].kind, TokenKind::Comma) {
                let mut acc2 = acc;
                acc2.push(a);
                proof {
                    assert(acc2.deep_view() =~= acc0.push(am));
                }
                parse_args(toks, eof, j + 1, acc2)
            } else if j < toks.len() && matches!(&toks[j].kind, TokenKind::RParen) {
                let mut acc2 = acc;
                acc2.push(a);
                proof {
                    assert(acc2.deep_view() =~= acc0.push(am));
                }
                Ok((acc2, j + 1))
            } else {
                let pos = if j < toks.len() {
                    toks[j].pos
                } else {
                    eof
                };
                Err(ScriptError::Syntax { pos, message: "expected ')' or ','".to_owned() })
            }
        },
        Err(e) => Err(e),
    }
}

fn parse_expr(toks: &Vec<Token>, eof: usize, i: usize) -> (r: Result<(Expr, usize), ScriptError>)
    requires
        i <= toks.len(),
    ensures
        match r {
            Ok((e, j)) => spec_parse_expr(toks.deep_view(), eof as int, i as int) == Ok::<
                _,
                ErrorModel,
            >((e.deep_view(), j as int)) && i < j <= toks.len(),
            Err(e) => spec_parse_expr(toks.deep_view(), eof as int, i as int) == Err::<
                (ExprModel, int),
                _,
            >(e@),
        },
{
    if i < toks.len() && matches!(&toks[i].kind, TokenKind::Ident(_)) {
        let callee = match &toks[i].kind {
            TokenKind::Ident(id) => id.clone(),
            _ => String::new(),
        };
        if i + 1 < toks.len() && matches!(&toks[i + 1].kind, TokenKind::LParen) {
            let empty_args: Vec<Arg> = Vec::new();
            proof {
                assert(empty_args.deep_view() =~= Seq::<ArgModel>::empty());
            }
            match parse_args(toks, eof, i + 2, empty_args) {
                Ok((args, j)) => Ok((Expr::Call { callee, args }, j)),
                Err(e) => Err(e),
            }
        } else {
            Ok((Expr::Primary(Arg::Ident(callee)), i + 1))
        }
    } else {
        match parse_primary(toks, eof, i) {
            Ok((a, j)) => Ok((Expr::Primary(a), j)),
            Err(e) => Err(e),
        }
    }
}

fn parse_stmt(toks: &Vec<Token>, eof: usize, i: usize) -> (r: Result<(Stmt, usize), ScriptError>)
    requires
        i < toks.len(),
    ensures
        match r {
            Ok((st, j)) => spec_parse_stmt(toks.deep_view(), eof as int, i as int) == Ok::<
                _,
                ErrorModel,
            >((st.deep_view(), j as int)) && i < j <= toks.len(),
            Err(e) => spec_parse_stmt(toks.deep_view(), eof as int, i as int) == Err::<
                (StmtModel, int),
                _,
            >(e@),
        },
{
    if matches!(&toks[i].kind, TokenKind::Var) {
        if i + 1 < toks.len() && matches!(&toks[i + 1].kind, TokenKind::Ident(_)) {
            let name = match &toks[i + 1].kind {
                TokenKind::Ident(id) => id.clone(),
                _ => String::new(),
            };
            if i + 2 < toks.len() && matches!(&toks[i + 2].kind, TokenKind::Eq) {
                match parse_expr(toks, eof, i + 3) {
                    Ok((e, j)) => {
                        if j < toks.len() && matches!(&toks[j].kind, TokenKind::Semi) {
                            Ok((Stmt::VarDecl { name, init: e }, j + 1))
                        } else {
                            let pos = if j < toks.len() {
                                toks[j].pos
                            } else {
                                eof
                            };
                            Err(ScriptError::Syntax { pos, message: "expected ';'".to_owned() })
                        }
                    },
                    Err(e) => Err(e),
                }
            } else {
                let pos = if i + 2 < toks.len() {
                    toks[i + 2].pos
                } else {
                    eof
                };
                Err(ScriptError::Syntax { pos, message: "expected '='".to_owned() })
            }
        } else {
            let pos = if i + 1 < toks.len() {
                toks[i + 1].pos
            } else {
                eof
            };
            Err(ScriptError::Syntax { pos, message: "expected identifier after 'var'".to_owned() })
        }
    } else if matches!(&toks[i].kind, TokenKind::Return) {
        if i + 1 < toks.len() && matches!(&toks[i + 1].kind, TokenKind::Semi) {
            Ok((Stmt::Return(None), i + 2))
        } else {
            match parse_expr(toks, eof, i + 1) {
                Ok((e, j)) => {
                    if j < toks.len() && matches!(&toks[j].kind, TokenKind::Semi) {
                        Ok((Stmt::Return(Some(e)), j + 1))
                    } else {
                        let pos = if j < toks.len() {
                            toks[j].pos
                        } else {
                            eof
                        };
                        Err(ScriptError::Syntax { pos, message: "expected ';'".to_owned() })
                    }
                },
                Err(e) => Err(e),
            }
        }
    } else {
        match parse_expr(toks, eof, i) {
            Ok((e, j)) => {
                if j < toks.len() && matches!(&toks[j].kind, TokenKind::Semi) {
                    Ok((Stmt::Expr(e), j + 1))
                } else {
                    let pos = if j < toks.len() {
                        toks[j].pos
                    } else {
                        eof
                    };
                    Err(ScriptError::Syntax { pos, message: "expected ';'".to_owned() })
                }
            },
            Err(e) => Err(e),
        }
    }
}

fn parse_program(toks: &Vec<Token>, eof: usize, i: usize, acc: Vec<Stmt>) -> (r: Result<
    Vec<Stmt>,
    ScriptError,
>)
    requires
        i <= toks.len(),
    ensures
        match r {
            Ok(stmts) => spec_parse_program(toks.deep_view(), eof as int, i as int, acc.deep_view())
                == Ok::<_, ErrorModel>(stmts.deep_view()),
            Err(e) => spec_parse_program(toks.deep_view(), eof as int, i as int, acc.deep_view())
                == Err::<Seq<StmtModel>, _>(e@),
        },
    decreases toks.len() - i,
{
    let ghost acc0 = acc.deep_view();
    if i >= toks.len() {
        return Ok(acc);
    }
    match parse_stmt(toks, eof, i) {
        Ok((st, j)) => {
            let ghost stm = st.deep_view();
            let mut acc2 = acc;
            acc2.push(st);
            proof {
                assert(acc2.deep_view() =~= acc0.push(stm));
            }
            parse_program(toks, eof, j, acc2)
        },
        Err(e) => Err(e),
    }
}

/// Parses a whole token sequence: `spec_parse` made executable. `eof` is
/// the character offset reported when the tokens end too early.
pub fn parse(toks: &Vec<Token>, eof: usize) -> (r: Result<Vec<Stmt>, ScriptError>)
    ensures
        match r {
            Ok(stmts) => spec_parse(toks.deep_view(), eof as int) == Ok::<_, ErrorModel>(
                stmts.deep_view(),
            ),
            Err(e) => spec_parse(toks.deep_view(), eof as int) == Err::<Seq<StmtModel>, _>(e@),
        },
{
    let acc: Vec<Stmt> = Vec::new();
    proof {
        assert(acc.deep_view() =~= Seq::<StmtModel>::empty());
    }
    parse_program(toks, eof, 0, acc)
}

} // verus!
