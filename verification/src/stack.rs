//! Two-stack arithmetic: applying one operator to two operands, and
//! collapsing the pending operations of the innermost bracket scope —
//! first every multiplication and division left to right, then every
//! addition and subtraction.

use vstd::prelude::*;
use crate::insertable_num::InsertableNum;
use crate::lexical_analyzer::Token;
use crate::lexical_analyzer::TokenModel;
use crate::lexical_analyzer::token_models;
use crate::lexical_analyzer::TokenType;
use crate::gen_errors::ErrModel;
use crate::gen_errors::ErrorKind;
use crate::gen_errors::ErrorSource;
use crate::gen_errors::GeneralError;
use crate::gen_errors::create_error;
use crate::gen_errors::create_empty_error;
use crate::gen_errors::err_at;
use crate::gen_errors::err_plain;

verus! {

/// The width of a result: two bytes as soon as either operand is two
/// bytes, one byte otherwise.  All arithmetic wraps at that width;
/// division truncates and never widens.
#[verifier::opaque]
pub open spec fn spec_do_operation(a: InsertableNum, b: InsertableNum, op: TokenType) -> Option<
    InsertableNum,
> {
    let two = a.spec_is_two_bytes() || b.spec_is_two_bytes();
    let m: int = if two {
        0x10000
    } else {
        0x100
    };
    let av = a.spec_value() as int;
    let bv = b.spec_value() as int;
    match op {
        TokenType::Plus => Some(wrap_val(two, (av + bv) % m)),
        TokenType::Minus => Some(wrap_val(two, (av + m - bv) % m)),
        TokenType::Times => Some(wrap_val(two, (av * bv) % m)),
        TokenType::Divide => if bv == 0 {
            None
        } else {
            Some(wrap_val(two, av / bv))
        },
        _ => Some(InsertableNum::Byte(0)),
    }
}

/// A non-negative value below the width's modulus, tagged with the width.
pub open spec fn wrap_val(two: bool, v: int) -> InsertableNum {
    if two {
        InsertableNum::TwoByte(v as u16)
    } else {
        InsertableNum::Byte(v as u8)
    }
}

/// Applies `operator` to the two operands.  Anything but an arithmetic
/// operator yields a zero byte; only division can fail, on a zero divisor.
pub fn do_operation(operand1: InsertableNum, operand2: InsertableNum, operator: Token) -> (r:
    Result<InsertableNum, GeneralError>)
    ensures
        (match spec_do_operation(operand1, operand2, operator.model().token_type) {
            Some(v) => r is Ok && r->Ok_0 == v,
            None => r is Err && r->Err_0.model() == err_at(
                ErrorKind::DivideByZero,
                operator.model(),
                Seq::empty(),
            ),
        }),
{
    proof {
        reveal(spec_do_operation);
    }
    let two = operand1.is_two_bytes() || operand2.is_two_bytes();
    match operator.token_type {
        TokenType::Plus => {
            if two {
                let s: u32 = (operand1.unwrap_twobyte() as u32 + operand2.unwrap_twobyte() as u32)
                    % 0x10000;
                Ok(InsertableNum::TwoByte(s as u16))
            } else {
                let s: u16 = (operand1.unwrap_byte() as u16 + operand2.unwrap_byte() as u16)
                    % 0x100;
                Ok(InsertableNum::Byte(s as u8))
            }
        },
        TokenType::Minus => {
            if two {
                let s: u32 = (operand1.unwrap_twobyte() as u32 + 0x10000
                    - operand2.unwrap_twobyte() as u32) % 0x10000;
                Ok(InsertableNum::TwoByte(s as u16))
            } else {
                let s: u16 = (operand1.unwrap_byte() as u16 + 0x100 - operand2.unwrap_byte()
                    as u16) % 0x100;
                Ok(InsertableNum::Byte(s as u8))
            }
        },
        TokenType::Times => {
            if two {
                let a32 = operand1.unwrap_twobyte() as u32;
                let b32 = operand2.unwrap_twobyte() as u32;
                proof {
                    assert(a32 * b32 <= 0xFFFF * 0xFFFF) by (nonlinear_arith)
                        requires
                            a32 <= 0xFFFF,
                            b32 <= 0xFFFF,
                    ;
                }
                let s: u32 = (a32 * b32) % 0x10000;
                Ok(InsertableNum::TwoByte(s as u16))
            } else {
                let a16 = operand1.unwrap_byte() as u16;
                let b16 = operand2.unwrap_byte() as u16;
                proof {
                    assert(a16 * b16 <= 0xFF * 0xFF) by (nonlinear_arith)
                        requires
                            a16 <= 0xFF,
                            b16 <= 0xFF,
                    ;
                }
                let s: u16 = (a16 * b16) % 0x100;
                Ok(InsertableNum::Byte(s as u8))
            }
        },
        TokenType::Divide => {
            if operand2.unwrap() == 0 {
                return Err(create_error(ErrorKind::DivideByZero, &operator, Vec::new()));
            }
            if two {
                let q: u16 = operand1.unwrap_twobyte() / operand2.unwrap_twobyte();
                Ok(InsertableNum::TwoByte(q))
            } else {
                let q: u8 = operand1.unwrap_byte() / operand2.unwrap_byte();
                Ok(InsertableNum::Byte(q))
            }
        },
        _ => Ok(InsertableNum::Byte(0)),
    }
}

/// Mixing widths always promotes: the result of any successful operation
/// is two bytes wide exactly when either operand was, and a narrow result
/// never appears where a wide operand went in.
pub proof fn lemma_operation_promotes(a: InsertableNum, b: InsertableNum, op: TokenType)
    requires
        spec_do_operation(a, b, op) is Some,
        op == TokenType::Plus || op == TokenType::Minus || op == TokenType::Times || op
            == TokenType::Divide,
    ensures
        spec_do_operation(a, b, op)->Some_0.spec_is_two_bytes() == (a.spec_is_two_bytes()
            || b.spec_is_two_bytes()),
{
    reveal(spec_do_operation);
}

/// Whether the token is the kind of operator the given pass collapses.
pub open spec fn pass_target(tt: TokenType, muls: bool) -> bool {
    if muls {
        tt == TokenType::Times || tt == TokenType::Divide
    } else {
        tt == TokenType::Plus || tt == TokenType::Minus
    }
}

/// One reduction pass over the operator stack from `idx` on: the targeted
/// operators are applied left to right, each combining the two operands
/// that align with its place in the scope; the others are left standing.
pub open spec fn reduce_pass(
    ops: Seq<InsertableNum>,
    ators: Seq<TokenModel>,
    idx: int,
    muls: bool,
) -> Result<(Seq<InsertableNum>, Seq<TokenModel>), ErrModel>
    decreases ators.len() - idx,
{
    if idx < 0 {
        Err(err_plain(ErrorKind::Internal, ErrorSource::Assembler))
    } else if idx >= ators.len() {
        Ok((ops, ators))
    } else if !pass_target(ators[idx].token_type, muls) {
        reduce_pass(ops, ators, idx + 1, muls)
    } else {
        let oi = ops.len() - (ators.len() - idx + 1);
        if oi < 0 || oi + 1 >= ops.len() {
            Err(err_plain(ErrorKind::Internal, ErrorSource::Assembler))
        } else {
            match spec_do_operation(ops[oi], ops[oi + 1], ators[idx].token_type) {
                None => Err(err_at(ErrorKind::DivideByZero, ators[idx], Seq::empty())),
                Some(v) => reduce_pass(ops.update(oi, v).remove(oi + 1), ators.remove(idx), idx, muls),
            }
        }
    }
}

/// The index of the innermost (latest) left parenthesis still pending, or
/// -1 when none is.
pub open spec fn last_lparen(ators: Seq<TokenModel>) -> int
    decreases ators.len(),
{
    if ators.len() == 0 {
        -1
    } else if ators.last().token_type == TokenType::LeftParenth {
        ators.len() - 1
    } else {
        last_lparen(ators.drop_last())
    }
}

/// What `stack_math` does: the innermost pending left parenthesis is
/// discarded and the scope it opened is collapsed — multiplications and
/// divisions first, then additions and subtractions — unless a single
/// operand is all that is left.
pub open spec fn spec_stack_math(ops: Seq<InsertableNum>, ators: Seq<TokenModel>) -> Result<
    (Seq<InsertableNum>, Seq<TokenModel>),
    ErrModel,
> {
    let p = last_lparen(ators);
    let idx: int = if p >= 0 {
        p
    } else {
        0
    };
    let ators1 = if p >= 0 {
        ators.remove(p)
    } else {
        ators
    };
    if ops.len() == 1 {
        Ok((ops, ators1))
    } else {
        match reduce_pass(ops, ators1, idx, true) {
            Err(e) => Err(e),
            Ok((o2, a2)) => reduce_pass(o2, a2, idx, false),
        }
    }
}

/// One reduction pass, executably.
#[verifier::rlimit(100)]
fn reduce_pass_exec(
    operand_stack: &mut Vec<InsertableNum>,
    operator_stack: &mut Vec<Token>,
    idx: usize,
    muls: bool,
) -> (r: Result<(), GeneralError>)
    ensures
        (match reduce_pass(
            old(operand_stack)@,
            token_models(old(operator_stack)@),
            idx as int,
            muls,
        ) {
            Ok((o, a)) => r is Ok && final(operand_stack)@ == o && token_models(
                final(operator_stack)@,
            ) == a,
            Err(e) => r is Err && r->Err_0.model() == e,
        }),
{
    let mut ci: usize = idx;
    while ci < operator_stack.len()
        invariant
            idx <= ci,
            reduce_pass(old(operand_stack)@, token_models(old(operator_stack)@), idx as int, muls)
                == reduce_pass(operand_stack@, token_models(operator_stack@), ci as int, muls),
        decreases operator_stack@.len() - ci,
    {
        let tt = operator_stack[ci].token_type;
        if (muls && (tt == TokenType::Times || tt == TokenType::Divide)) || (!muls && (tt
            == TokenType::Plus || tt == TokenType::Minus)) {
            let gap = operator_stack.len() - ci;
            let ghost pre_ops = operand_stack@;
            let ghost pre_ators = token_models(operator_stack@);
            proof {
                assert(pre_ops.len() - (pre_ators.len() - ci + 1) == pre_ops.len() - gap - 1);
                assert(pre_ators[ci as int] == operator_stack@[ci as int].model());
            }
            if operand_stack.len() <= gap {
                return Err(create_empty_error(ErrorKind::Internal));
            }
            let oi = operand_stack.len() - gap - 1;
            let res = do_operation(
                operand_stack[oi],
                operand_stack[oi + 1],
                operator_stack[ci].dup(),
            );
            match res {
                Err(e) => {
                    return Err(e);
                },
                Ok(v) => {
                    proof {
                        assert(reduce_pass(pre_ops, pre_ators, ci as int, muls) == reduce_pass(
                            pre_ops.update(oi as int, v).remove(oi + 1),
                            pre_ators.remove(ci as int),
                            ci as int,
                            muls,
                        ));
                    }
                    operand_stack[oi] = v;
                    operand_stack.remove(oi + 1);
                    let ghost pre_toks = operator_stack@;
                    operator_stack.remove(ci);
                    proof {
                        assert(operand_stack@ == pre_ops.update(oi as int, v).remove(oi + 1));
                        crate::lexical_analyzer::lemma_token_models_remove(pre_toks, ci as int);
                        assert(token_models(operator_stack@) == pre_ators.remove(ci as int));
                    }
                },
            }
        } else {
            ci = ci + 1;
        }
    }
    Ok(())
}

/// Collapses the innermost bracket scope of the two stacks, as
/// `spec_stack_math` describes.
pub fn stack_math(
    operand_stack: &mut Vec<InsertableNum>,
    operator_stack: &mut Vec<Token>,
) -> (r: Result<(), GeneralError>)
    ensures
        (match spec_stack_math(old(operand_stack)@, token_models(old(operator_stack)@)) {
            Ok((o, a)) => r is Ok && final(operand_stack)@ == o && token_models(
                final(operator_stack)@,
            ) == a,
            Err(e) => r is Err && r->Err_0.model() == e,
        }),
{
    let ghost orig_ators = operator_stack@;
    let ghost orig_models = token_models(operator_stack@);
    let mut index: usize = 0;
    let mut found = false;
    let mut j: usize = operator_stack.len();
    proof {
        assert(orig_models.take(orig_models.len() as int) =~= orig_models);
    }
    while j > 0
        invariant_except_break
            j <= operator_stack@.len(),
            !found,
            index == 0,
            operator_stack@ == orig_ators,
            orig_models == token_models(operator_stack@),
            last_lparen(orig_models) == last_lparen(orig_models.take(j as int)),
        ensures
            operator_stack@ == orig_ators,
            orig_models == token_models(operator_stack@),
            found ==> 0 <= index < operator_stack@.len() && last_lparen(orig_models) == index,
            !found ==> last_lparen(orig_models) == -1 && index == 0,
        decreases j,
    {
        proof {
            assert(orig_models.take(j as int).last() == orig_models[j - 1]);
            assert(orig_models[j - 1] == operator_stack@[j - 1].model());
            assert(orig_models.take(j as int).drop_last() =~= orig_models.take(j - 1));
        }
        if operator_stack[j - 1].token_type == TokenType::LeftParenth {
            index = j - 1;
            found = true;
            break;
        }
        j = j - 1;
        proof {
            if j == 0 {
                assert(orig_models.take(0) =~= Seq::<TokenModel>::empty());
            }
        }
    }
    if found {
        operator_stack.remove(index);
    }
    proof {
        let p = last_lparen(token_models(old(operator_stack)@));
        if found {
            assert(p == index as int);
            crate::lexical_analyzer::lemma_token_models_remove(orig_ators, p);
            assert(token_models(operator_stack@) == token_models(old(operator_stack)@).remove(
                p,
            ));
        } else {
            assert(p == -1);
            assert(token_models(operator_stack@) == token_models(old(operator_stack)@));
        }
        assert(operand_stack@ == old(operand_stack)@);
    }
    if operand_stack.len() == 1 {
        return Ok(());
    }
    let ghost ops0 = old(operand_stack)@;
    let ghost ators1 = token_models(operator_stack@);
    let r1 = reduce_pass_exec(operand_stack, operator_stack, index, true);
    proof {
        assert(spec_stack_math(old(operand_stack)@, token_models(old(operator_stack)@)) == (
        match reduce_pass(ops0, ators1, index as int, true) {
            Err(e) => Err(e),
            Ok((o2, a2)) => reduce_pass(o2, a2, index as int, false),
        }));
    }
    match r1 {
        Err(e) => {
            proof {
                assert(reduce_pass(ops0, ators1, index as int, true) == Err::<
                    (Seq<InsertableNum>, Seq<TokenModel>),
                    ErrModel,
                >(e.model()));
            }
            Err(e)
        },
        Ok(()) => {
            proof {
                assert(reduce_pass(ops0, ators1, index as int, true) == Ok::<
                    (Seq<InsertableNum>, Seq<TokenModel>),
                    ErrModel,
                >((operand_stack@, token_models(operator_stack@))));
            }
            reduce_pass_exec(operand_stack, operator_stack, index, false)
        },
    }
}

} // verus!
