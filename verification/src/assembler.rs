//! The assembler driver: number conversion, operand-expression evaluation,
//! grammar matching, and the two passes over the token stream that first
//! collect the labels and then emit the object code.

use vstd::prelude::*;
use vstd::arithmetic::div_mod::lemma_add_mod_noop;
use vstd::arithmetic::div_mod::lemma_mul_mod_noop_left;
use crate::insertable_num::InsertableNum;
use crate::instruction::Instruction;
use crate::instruction::table_models;
use crate::instruction::inst_model;
use crate::instruction::alts_model;
use crate::instruction::table_spec;
use crate::lexical_analyzer::LexicalAnalyzer;
use crate::lexical_analyzer::Token;
use crate::lexical_analyzer::TokenModel;
use crate::lexical_analyzer::TokenType;
use crate::lexical_analyzer::dec_value;
use crate::lexical_analyzer::dec_value_acc;
use crate::lexical_analyzer::digit_run_len;
use crate::lexical_analyzer::hex_digit_value;
use crate::lexical_analyzer::hex_run_len;
use crate::lexical_analyzer::hex_value;
use crate::lexical_analyzer::hex_value_acc;
use crate::lexical_analyzer::is_digit;
use crate::lexical_analyzer::is_hex_digit;
use crate::lexical_analyzer::exec_is_digit;
use crate::lexical_analyzer::exec_is_hex_digit;
use crate::lexical_analyzer::lex_spec;
use crate::lexical_analyzer::lines_model;
use crate::lexical_analyzer::num_token_value;
use crate::lexical_analyzer::token_models;
use crate::lexical_analyzer::clone_bytes;
use crate::gen_errors::ErrModel;
use crate::gen_errors::ErrorKind;
use crate::gen_errors::ErrorSource;
use crate::gen_errors::GeneralError;
use crate::gen_errors::create_empty_error;
use crate::gen_errors::create_error;
use crate::gen_errors::err_at;
use crate::gen_errors::err_plain;
use crate::peek_wrapper::PeekWrapper;
use crate::stack::last_lparen;
use crate::stack::spec_do_operation;
use crate::stack::spec_stack_math;
use crate::stack::stack_math;
use crate::symbol_table::SymbolTable;
use crate::symbol_table::bytes_eq;

verus! {

// ---------------------------------------------------------------------------
// Number conversion
// ---------------------------------------------------------------------------

proof fn lemma_mod_fold(v: nat, d: nat, b: nat, m: nat)
    requires
        m > 0,
    ensures
        ((v % m) * b + d) % m == (v * b + d) % m,
{
    lemma_mul_mod_noop_left(v as int, b as int, m as int);
    lemma_add_mod_noop((v * b) as int, d as int, m as int);
    lemma_add_mod_noop(((v % m) * b) as int, d as int, m as int);
    assert((v % m) % m == v % m) by {
        lemma_mul_mod_noop_left(v as int, 1, m as int);
    }
}

proof fn lemma_dec_acc_only_run(s: Seq<u8>, a: nat)
    ensures
        dec_value_acc(s, a) == dec_value_acc(s.take(digit_run_len(s, 0) as int), a),
    decreases s.len(),
{
    if s.len() > 0 && is_digit(s[0]) {
        let d = digit_run_len(s, 0);
        assert(d == 1 + digit_run_len(s, 1));
        crate::lexical_analyzer::lemma_digit_run_le(s, 0);
        lemma_run_shift_dec(s, 1);
        assert(digit_run_len(s.skip(1), 0) == d - 1);
        lemma_dec_acc_only_run(s.skip(1), (a * 10 + (s[0] - 48)) as nat);
        assert(s.take(d as int)[0] == s[0]);
        assert(s.take(d as int).skip(1) =~= s.skip(1).take(d - 1));
        assert(dec_value_acc(s.take(d as int), a) == dec_value_acc(
            s.take(d as int).skip(1),
            (a * 10 + (s[0] - 48)) as nat,
        ));
    } else {
        assert(digit_run_len(s, 0) == 0);
        assert(s.take(0) =~= Seq::<u8>::empty());
        if s.len() > 0 {
            assert(dec_value_acc(s, a) == a);
        }
    }
}

/// The digit run seen from position `k + 1` is the run of the shifted
/// sequence seen from `k`.
proof fn lemma_run_shift_dec_at(s: Seq<u8>, k: int)
    requires
        0 <= k,
        s.len() >= 1,
    ensures
        digit_run_len(s, k + 1) == digit_run_len(s.skip(1), k),
    decreases s.len() - k,
{
    if k + 1 < s.len() && is_digit(s[k + 1]) {
        assert(s.skip(1)[k] == s[k + 1]);
        lemma_run_shift_dec_at(s, k + 1);
    } else {
        if k < s.skip(1).len() {
            assert(s.skip(1)[k] == s[k + 1]);
        }
    }
}

proof fn lemma_run_shift_dec(s: Seq<u8>, one: int)
    requires
        one == 1,
        s.len() >= 1,
        is_digit(s[0]),
    ensures
        digit_run_len(s.skip(1), 0) == digit_run_len(s, 0) - 1,
{
    lemma_run_shift_dec_at(s, 0);
}

proof fn lemma_hex_acc_only_run(s: Seq<u8>, a: nat)
    ensures
        hex_value_acc(s, a) == hex_value_acc(s.take(hex_run_len(s, 0) as int), a),
    decreases s.len(),
{
    if s.len() > 0 && is_hex_digit(s[0]) {
        let d = hex_run_len(s, 0);
        assert(d == 1 + hex_run_len(s, 1));
        crate::lexical_analyzer::lemma_hex_run_le(s, 0);
        lemma_run_shift_hex_at(s, 0);
        assert(hex_run_len(s.skip(1), 0) == d - 1);
        lemma_hex_acc_only_run(s.skip(1), (a * 16 + hex_digit_value(s[0])) as nat);
        assert(s.take(d as int)[0] == s[0]);
        assert(s.take(d as int).skip(1) =~= s.skip(1).take(d - 1));
        assert(hex_value_acc(s.take(d as int), a) == hex_value_acc(
            s.take(d as int).skip(1),
            (a * 16 + hex_digit_value(s[0])) as nat,
        ));
    } else {
        assert(hex_run_len(s, 0) == 0);
        assert(s.take(0) =~= Seq::<u8>::empty());
    }
}

proof fn lemma_run_shift_hex_at(s: Seq<u8>, k: int)
    requires
        0 <= k,
        s.len() >= 1,
    ensures
        hex_run_len(s, k + 1) == hex_run_len(s.skip(1), k),
    decreases s.len() - k,
{
    if k + 1 < s.len() && is_hex_digit(s[k + 1]) {
        assert(s.skip(1)[k] == s[k + 1]);
        lemma_run_shift_hex_at(s, k + 1);
    } else {
        if k < s.skip(1).len() {
            assert(s.skip(1)[k] == s[k + 1]);
        }
    }
}

proof fn lemma_hex_value_push_all(s: Seq<u8>)
    requires
        s.len() > 0,
        forall|j: int| 0 <= j < s.len() ==> is_hex_digit(#[trigger] s[j]),
    ensures
        hex_value(s) == hex_value(s.drop_last()) * 16 + hex_digit_value(s.last()),
    decreases s.len(),
{
    lemma_hex_acc_push_all(s, 0);
}

proof fn lemma_hex_acc_push_all(s: Seq<u8>, a: nat)
    requires
        s.len() > 0,
        forall|j: int| 0 <= j < s.len() ==> is_hex_digit(#[trigger] s[j]),
    ensures
        hex_value_acc(s, a) == hex_value_acc(s.drop_last(), a) * 16 + hex_digit_value(s.last()),
    decreases s.len(),
{
    assert(is_hex_digit(s[0]));
    let ghost a2 = (a * 16 + hex_digit_value(s[0])) as nat;
    assert(hex_value_acc(s, a) == hex_value_acc(s.skip(1), a2));
    if s.len() == 1 {
        assert(s.drop_last() =~= Seq::<u8>::empty());
        assert(s.skip(1) =~= Seq::<u8>::empty());
        assert(hex_value_acc(s.skip(1), a2) == a2);
        assert(hex_value_acc(s.drop_last(), a) == a);
    } else {
        assert(s.drop_last()[0] == s[0]);
        assert(forall|j: int|
            0 <= j < s.skip(1).len() ==> is_hex_digit(#[trigger] s.skip(1)[j]));
        lemma_hex_acc_push_all(s.skip(1), a2);
        assert(s.skip(1).drop_last() =~= s.drop_last().skip(1));
        assert(s.skip(1).last() == s.last());
        assert(is_hex_digit(s.drop_last()[0]));
        assert(hex_value_acc(s.drop_last(), a) == hex_value_acc(s.drop_last().skip(1), a2));
    }
}

/// The leading digit run of `num`, valued modulo `m`.
fn dec_fold_mod(num: &Vec<u8>, m: u32) -> (r: u32)
    requires
        2 <= m <= 0x10000,
    ensures
        r == dec_value(num@) % (m as nat),
{
    let n = num.len();
    let mut d: usize = 0;
    while d < n && exec_is_digit(num[d])
        invariant
            d <= n,
            n == num@.len(),
            digit_run_len(num@, 0) == (d as nat) + digit_run_len(num@, d as int),
            forall|j: int| 0 <= j < d ==> is_digit(#[trigger] num@[j]),
        decreases n - d,
    {
        d = d + 1;
    }
    proof {
        assert(digit_run_len(num@, 0) == d);
        lemma_dec_acc_only_run(num@, 0);
    }
    let ghost run = num@.take(d as int);
    proof {
        assert(run.take(0) =~= Seq::<u8>::empty());
        assert(dec_value(run.take(0)) == 0);
        assert(0nat % (m as nat) == 0);
    }
    let mut acc: u32 = 0;
    let mut k: usize = 0;
    while k < d
        invariant
            k <= d,
            d <= n,
            n == num@.len(),
            run == num@.take(d as int),
            forall|j: int| 0 <= j < d ==> is_digit(#[trigger] num@[j]),
            2 <= m <= 0x10000,
            acc == dec_value(run.take(k as int)) % (m as nat),
        decreases d - k,
    {
        let c = num[k];
        proof {
            assert(run.take(k + 1).drop_last() =~= run.take(k as int));
            assert(run.take(k + 1).last() == num@[k as int]);
            assert(forall|j: int|
                0 <= j < run.take(k + 1).len() ==> is_digit(#[trigger] run.take(k + 1)[j]));
            crate::lexical_analyzer::lemma_dec_value_push(run.take(k + 1));
            lemma_mod_fold(dec_value(run.take(k as int)), (c - 48) as nat, 10, m as nat);
        }
        acc = (acc * 10 + ((c - 48) as u32)) % m;
        k = k + 1;
    }
    proof {
        assert(run.take(d as int) =~= run);
        assert(dec_value(num@) == dec_value(run));
    }
    acc
}

/// The leading hexadecimal run of `num` from position 1, valued modulo `m`.
fn hex_fold_mod(num: &Vec<u8>, m: u32) -> (r: u32)
    requires
        2 <= m <= 0x10000,
        num@.len() >= 1,
    ensures
        r == hex_value(num@.skip(1)) % (m as nat),
{
    let ghost s = num@.skip(1);
    let n = num.len();
    let mut d: usize = 1;
    while d < n && exec_is_hex_digit(num[d])
        invariant
            1 <= d <= n,
            n == num@.len(),
            s == num@.skip(1),
            hex_run_len(num@, 1) == ((d - 1) as nat) + hex_run_len(num@, d as int),
            forall|j: int| 1 <= j < d ==> is_hex_digit(#[trigger] num@[j]),
        decreases n - d,
    {
        d = d + 1;
    }
    proof {
        assert(hex_run_len(num@, 1) == d - 1);
        lemma_shift_hex_zero(num@);
        lemma_hex_acc_only_run(s, 0);
        assert(s.take(hex_run_len(s, 0) as int) =~= num@.subrange(1, d as int));
    }
    let ghost run = num@.subrange(1, d as int);
    proof {
        assert(run.take(0) =~= Seq::<u8>::empty());
        assert(hex_value(run.take(0)) == 0);
        assert(0nat % (m as nat) == 0);
    }
    let mut acc: u32 = 0;
    let mut k: usize = 1;
    while k < d
        invariant
            1 <= k <= d,
            d <= n,
            n == num@.len(),
            run == num@.subrange(1, d as int),
            forall|j: int| 1 <= j < d ==> is_hex_digit(#[trigger] num@[j]),
            2 <= m <= 0x10000,
            acc == hex_value(run.take((k - 1) as int)) % (m as nat),
        decreases d - k,
    {
        let c = num[k];
        let hv: u32 = if c >= 97 {
            (c - 87) as u32
        } else if c >= 65 {
            (c - 55) as u32
        } else {
            (c - 48) as u32
        };
        proof {
            assert(run.take(k as int).drop_last() =~= run.take((k - 1) as int));
            assert(run.take(k as int).last() == num@[k as int]);
            assert(forall|j: int|
                0 <= j < run.take(k as int).len() ==> is_hex_digit(#[trigger] run.take(
                    k as int,
                )[j]));
            lemma_hex_value_push_all(run.take(k as int));
            assert(hv == hex_digit_value(num@[k as int]));
            lemma_mod_fold(hex_value(run.take((k - 1) as int)), hv as nat, 16, m as nat);
        }
        acc = (acc * 16 + hv) % m;
        k = k + 1;
    }
    proof {
        assert(run.take((d - 1) as int) =~= run);
        assert(hex_value(s) == hex_value(run));
    }
    acc
}

/// The run of hexadecimal digits after the `$` marker equals the run of
/// the tail seen from its start.
proof fn lemma_shift_hex_zero(s: Seq<u8>)
    requires
        s.len() >= 1,
    ensures
        hex_run_len(s, 1) == hex_run_len(s.skip(1), 0),
{
    lemma_run_shift_hex_at(s, 0);
}

/// The value of a one-byte number token's text, modulo 256.
pub fn one_byte_num_string_to_int(num: &Vec<u8>) -> (r: u8)
    ensures
        r == num_token_value(num@) % 0x100,
{
    if num.len() > 0 && num[0] == 36 {
        let v = hex_fold_mod(num, 0x100);
        v as u8
    } else {
        let v = dec_fold_mod(num, 0x100);
        v as u8
    }
}

/// The value of a two-byte number token's text, modulo 65536.
pub fn two_byte_num_string_to_int(num: &Vec<u8>) -> (r: u16)
    ensures
        r == num_token_value(num@) % 0x10000,
{
    if num.len() > 0 && num[0] == 36 {
        let v = hex_fold_mod(num, 0x10000);
        v as u16
    } else {
        let v = dec_fold_mod(num, 0x10000);
        v as u16
    }
}

// ---------------------------------------------------------------------------
// Expression evaluation
// ---------------------------------------------------------------------------

/// The value an operand token stands for: a number token's text read at
/// its width, a label's entry in the symbol table.
pub open spec fn operand_value(t: TokenModel, st: Map<Seq<u8>, InsertableNum>) -> Result<
    InsertableNum,
    ErrModel,
> {
    if t.token_type == TokenType::Num1Bytes {
        Ok(InsertableNum::Byte((num_token_value(t.value) % 0x100) as u8))
    } else if t.token_type == TokenType::Num2Bytes {
        Ok(InsertableNum::TwoByte((num_token_value(t.value) % 0x10000) as u16))
    } else if st.contains_key(t.value) {
        Ok(st[t.value])
    } else {
        Err(err_at(ErrorKind::LabelUndefined, t, Seq::empty()))
    }
}

pub open spec fn is_expr_operator(tt: TokenType) -> bool {
    tt == TokenType::LeftParenth || tt == TokenType::Plus || tt == TokenType::Minus || tt
        == TokenType::Times || tt == TokenType::Divide
}

pub open spec fn is_expr_operand(tt: TokenType) -> bool {
    tt == TokenType::Num1Bytes || tt == TokenType::Num2Bytes || tt == TokenType::Label
}

/// One left-to-right sweep of the evaluator: operators and opening
/// parentheses pile onto the operator stack, operands onto the operand
/// stack, and a closing parenthesis collapses the innermost scope.  Any
/// other token is passed over.
pub open spec fn eval_fold(
    toks: Seq<TokenModel>,
    i: int,
    st: Map<Seq<u8>, InsertableNum>,
    opd: Seq<InsertableNum>,
    opr: Seq<TokenModel>,
) -> Result<(Seq<InsertableNum>, Seq<TokenModel>), ErrModel>
    decreases toks.len() - i,
{
    if i < 0 || i >= toks.len() {
        Ok((opd, opr))
    } else {
        let t = toks[i];
        if is_expr_operator(t.token_type) {
            eval_fold(toks, i + 1, st, opd, opr.push(t))
        } else if is_expr_operand(t.token_type) {
            match operand_value(t, st) {
                Err(e) => Err(e),
                Ok(v) => eval_fold(toks, i + 1, st, opd.push(v), opr),
            }
        } else if t.token_type == TokenType::RightParenth {
            match spec_stack_math(opd, opr) {
                Err(e) => Err(e),
                Ok((o, a)) => eval_fold(toks, i + 1, st, o, a),
            }
        } else {
            eval_fold(toks, i + 1, st, opd, opr)
        }
    }
}

/// The value of a whole operand expression: fold the tokens through the
/// two stacks, collapse what is still pending, and take the topmost
/// operand.
pub open spec fn eval_expr(toks: Seq<TokenModel>, st: Map<Seq<u8>, InsertableNum>) -> Result<
    InsertableNum,
    ErrModel,
> {
    match eval_fold(toks, 0, st, Seq::empty(), Seq::empty()) {
        Err(e) => Err(e),
        Ok((opd, opr)) => match spec_stack_math(opd, opr) {
            Err(e) => Err(e),
            Ok((opd2, _)) => if opd2.len() == 0 {
                Err(err_plain(ErrorKind::Internal, ErrorSource::Assembler))
            } else {
                Ok(opd2.last())
            },
        },
    }
}

/// Evaluates the expression held in `tokens[start..end]` against the
/// symbol table.
pub fn expression(symbol_table: &SymbolTable, tokens: &Vec<Token>, start: usize, end: usize) -> (r:
    Result<InsertableNum, GeneralError>)
    requires
        symbol_table.wf(),
        start <= end <= tokens@.len(),
    ensures
        (match eval_expr(
            token_models(tokens@).subrange(start as int, end as int),
            symbol_table@,
        ) {
            Ok(v) => r is Ok && r->Ok_0 == v,
            Err(e) => r is Err && r->Err_0.model() == e,
        }),
{
    let ghost sub = token_models(tokens@).subrange(start as int, end as int);
    let mut operand_stack: Vec<InsertableNum> = Vec::new();
    let mut operator_stack: Vec<Token> = Vec::new();
    let mut i: usize = start;
    proof {
        assert(token_models(operator_stack@) =~= Seq::<TokenModel>::empty());
    }
    while i < end
        invariant
            symbol_table.wf(),
            start <= i <= end <= tokens@.len(),
            sub == token_models(tokens@).subrange(start as int, end as int),
            eval_fold(sub, 0, symbol_table@, Seq::empty(), Seq::empty()) == eval_fold(
                sub,
                i - start,
                symbol_table@,
                operand_stack@,
                token_models(operator_stack@),
            ),
        decreases end - i,
    {
        proof {
            assert(sub[i - start] == tokens@[i as int].model());
        }
        let tt = tokens[i].token_type;
        if tt == TokenType::LeftParenth || tt == TokenType::Plus || tt == TokenType::Minus || tt
            == TokenType::Times || tt == TokenType::Divide {
            let ghost pre = operator_stack@;
            operator_stack.push(tokens[i].dup());
            proof {
                crate::lexical_analyzer::lemma_token_models_push(
                    pre,
                    operator_stack@[pre.len() as int],
                );
                assert(token_models(operator_stack@) == token_models(pre).push(
                    tokens@[i as int].model(),
                ));
            }
        } else if tt == TokenType::Num1Bytes {
            let v = one_byte_num_string_to_int(&tokens[i].value);
            operand_stack.push(InsertableNum::Byte(v));
        } else if tt == TokenType::Num2Bytes {
            let v = two_byte_num_string_to_int(&tokens[i].value);
            operand_stack.push(InsertableNum::TwoByte(v));
        } else if tt == TokenType::Label {
            match symbol_table.get(&tokens[i].value) {
                Some(v) => {
                    operand_stack.push(v);
                },
                None => {
                    return Err(create_error(ErrorKind::LabelUndefined, &tokens[i], Vec::new()));
                },
            }
        } else if tt == TokenType::RightParenth {
            let sm = stack_math(&mut operand_stack, &mut operator_stack);
            match sm {
                Err(e) => {
                    return Err(e);
                },
                Ok(()) => {},
            }
        }
        i = i + 1;
    }
    let sm = stack_math(&mut operand_stack, &mut operator_stack);
    match sm {
        Err(e) => {
            return Err(e);
        },
        Ok(()) => {},
    }
    match operand_stack.pop() {
        Some(v) => {
            proof {
                assert(operand_stack@.push(v).last() == v);
            }
            Ok(v)
        },
        None => Err(create_empty_error(ErrorKind::Internal)),
    }
}

// ---------------------------------------------------------------------------
// Statement helpers
// ---------------------------------------------------------------------------

/// The index of the first `EOL` token, or -1 when none is left.
pub open spec fn first_eol(toks: Seq<TokenModel>) -> int
    decreases toks.len(),
{
    if toks.len() == 0 {
        -1
    } else if toks[0].token_type == TokenType::EOL {
        0
    } else if first_eol(toks.skip(1)) < 0 {
        -1
    } else {
        1 + first_eol(toks.skip(1))
    }
}

proof fn lemma_first_eol_at(toks: Seq<TokenModel>, k: int)
    requires
        0 <= k < toks.len(),
        toks[k].token_type == TokenType::EOL,
        forall|j: int| 0 <= j < k ==> (#[trigger] toks[j].token_type) != TokenType::EOL,
    ensures
        first_eol(toks) == k,
    decreases k,
{
    if k > 0 {
        assert(toks.skip(1)[k - 1] == toks[k]);
        assert(forall|j: int|
            0 <= j < k - 1 ==> (#[trigger] toks.skip(1)[j].token_type) != TokenType::EOL);
        lemma_first_eol_at(toks.skip(1), k - 1);
    }
}

/// A found end-of-line marker lies inside the sequence.
proof fn lemma_first_eol_bounds(toks: Seq<TokenModel>)
    requires
        first_eol(toks) >= 0,
    ensures
        first_eol(toks) < toks.len(),
        toks[first_eol(toks)].token_type == TokenType::EOL,
    decreases toks.len(),
{
    if toks.len() > 0 && toks[0].token_type != TokenType::EOL {
        lemma_first_eol_bounds(toks.skip(1));
        assert(toks.skip(1)[first_eol(toks.skip(1))] == toks[first_eol(toks)]);
    }
}

proof fn lemma_first_eol_none(toks: Seq<TokenModel>)
    requires
        forall|j: int| 0 <= j < toks.len() ==> (#[trigger] toks[j].token_type) != TokenType::EOL,
    ensures
        first_eol(toks) == -1,
    decreases toks.len(),
{
    if toks.len() > 0 {
        assert(forall|j: int|
            0 <= j < toks.skip(1).len() ==> (#[trigger] toks.skip(1)[j].token_type)
                != TokenType::EOL);
        lemma_first_eol_none(toks.skip(1));
    }
}

/// Pulls tokens up to and including the next `EOL` and appends them to
/// `vector`.  A stream that runs dry before an `EOL` is an internal fault.
pub fn get_until_eol(iterator: &mut PeekWrapper, vector: &mut Vec<Token>) -> (r: Result<
    (),
    GeneralError,
>)
    requires
        old(iterator).wf(),
    ensures
        final(iterator).wf(),
        final(iterator).size() == old(iterator).size(),
        (match r {
            Ok(()) => first_eol(old(iterator).remaining()) >= 0 && token_models(final(vector)@)
                == token_models(old(vector)@) + old(iterator).remaining().take(
                first_eol(old(iterator).remaining()) + 1,
            ) && final(iterator).remaining() == old(iterator).remaining().skip(
                first_eol(old(iterator).remaining()) + 1,
            ),
            Err(e) => first_eol(old(iterator).remaining()) < 0 && e.model() == err_plain(
                ErrorKind::Internal,
                ErrorSource::Assembler,
            ),
        }),
{
    let ghost rem = iterator.remaining();
    let ghost mut k: int = 0;
    loop
        invariant
            iterator.wf(),
            iterator.size() == old(iterator).size(),
            0 <= k <= rem.len(),
            rem == old(iterator).remaining(),
            iterator.remaining() == rem.skip(k),
            token_models(vector@) == token_models(old(vector)@) + rem.take(k),
            forall|j: int| 0 <= j < k ==> (#[trigger] rem[j].token_type) != TokenType::EOL,
        decreases rem.len() - k,
    {
        let ghost pre_vec = vector@;
        let opt = iterator.next();
        match opt {
            None => {
                proof {
                    assert(rem.skip(k).len() == 0);
                    assert forall|j: int|
                        0 <= j < rem.len() implies (#[trigger] rem[j].token_type)
                        != TokenType::EOL by {}
                    lemma_first_eol_none(rem);
                }
                return Err(create_empty_error(ErrorKind::Internal));
            },
            Some(tok) => {
                proof {
                    assert(rem.skip(k)[0] == rem[k]);
                    assert(tok.model() == rem[k]);
                }
                let is_eol = tok.token_type == TokenType::EOL;
                proof {
                    crate::lexical_analyzer::lemma_token_models_push(pre_vec, tok);
                }
                vector.push(tok);
                proof {
                    assert(token_models(vector@) =~= token_models(old(vector)@) + rem.take(
                        k + 1,
                    ));
                    assert(rem.skip(k).skip(1) =~= rem.skip(k + 1));
                    k = k + 1;
                }
                if is_eol {
                    proof {
                        lemma_first_eol_at(rem, k - 1);
                    }
                    return Ok(());
                }
            },
        }
    }
}

/// Consumes the next token when it has the given kind; otherwise leaves
/// the stream alone.
pub fn consume_if_available(token_type: TokenType, iterator: &mut PeekWrapper) -> (r: Result<
    (),
    GeneralError,
>)
    requires
        old(iterator).wf(),
    ensures
        final(iterator).wf(),
        final(iterator).size() == old(iterator).size(),
        r is Ok,
        final(iterator).remaining() == (if old(iterator).remaining().len() > 0 && old(
            iterator,
        ).remaining()[0].token_type == token_type {
            old(iterator).remaining().skip(1)
        } else {
            old(iterator).remaining()
        }),
{
    proof {
        iterator.lemma_wf_size();
    }
    let next_token_option = iterator.peek(0);
    match next_token_option {
        None => {},
        Some(t) => {
            if t.token_type == token_type {
                let _ = iterator.next();
            }
        },
    }
    Ok(())
}

/// Unwraps a pulled token; the stream running dry is reported as a syntax
/// error at the end of the input.
pub fn unwrap_token_option(token: Option<Token>) -> (r: Result<Token, GeneralError>)
    ensures
        (match token {
            Some(t) => r is Ok && r->Ok_0.model() == t.model(),
            None => r is Err && r->Err_0.model() == err_plain(
                ErrorKind::Syntax,
                ErrorSource::Assembler,
            ),
        }),
{
    match token {
        None => Err(GeneralError::new(ErrorKind::Syntax, ErrorSource::Assembler)),
        Some(t) => Ok(t),
    }
}

/// ASCII lower-casing of a byte string.
pub open spec fn lower_seq(s: Seq<u8>) -> Seq<u8> {
    Seq::new(s.len(), |i: int| crate::lexical_analyzer::spec_to_lower(s[i]))
}

pub fn to_lower_bytes(v: &Vec<u8>) -> (r: Vec<u8>)
    ensures
        r@ == lower_seq(v@),
{
    let mut r: Vec<u8> = Vec::new();
    let mut i: usize = 0;
    while i < v.len()
        invariant
            i <= v@.len(),
            r@ == lower_seq(v@).take(i as int),
        decreases v@.len() - i,
    {
        r.push(crate::lexical_analyzer::to_lower(v[i]));
        i = i + 1;
        proof {
            assert(r@ =~= lower_seq(v@).take(i as int));
        }
    }
    proof {
        assert(lower_seq(v@).take(v@.len() as int) =~= lower_seq(v@));
    }
    r
}

/// 32-bit wrapping addition, for the byte-offset counter.
pub open spec fn wrap_add_u32(a: u32, k: int) -> u32 {
    (((a + k) % 0x1_0000_0000) as u32)
}

pub fn wrap_add(a: u32, k: u32) -> (r: u32)
    ensures
        r == wrap_add_u32(a, k as int),
{
    (((a as u64) + (k as u64)) % 0x1_0000_0000) as u32
}

// ---------------------------------------------------------------------------
// Byte emission
// ---------------------------------------------------------------------------

/// The bytes a directive operand token stands for: numbers at their
/// width (two-byte values little-endian), labels at their resolved
/// width, a character literal's inner byte, a string literal's bytes
/// with the quotes stripped.  Tokens of any other kind add nothing.
pub open spec fn token_bytes(t: TokenModel, st: Map<Seq<u8>, InsertableNum>) -> Result<
    Seq<u8>,
    ErrModel,
> {
    if t.token_type == TokenType::Num1Bytes {
        Ok(seq![(num_token_value(t.value) % 0x100) as u8])
    } else if t.token_type == TokenType::Num2Bytes {
        let v = num_token_value(t.value) % 0x10000;
        Ok(seq![(v % 0x100) as u8, (v / 0x100) as u8])
    } else if t.token_type == TokenType::Label {
        if st.contains_key(t.value) {
            match st[t.value] {
                InsertableNum::Byte(n) => Ok(seq![n]),
                InsertableNum::TwoByte(n) => Ok(seq![(n % 0x100) as u8, (n / 0x100) as u8]),
            }
        } else {
            Err(err_at(ErrorKind::LabelUndefined, t, Seq::empty()))
        }
    } else if t.token_type == TokenType::Character {
        if t.value.len() >= 3 {
            Ok(seq![t.value[1]])
        } else {
            Err(err_plain(ErrorKind::Internal, ErrorSource::Assembler))
        }
    } else if t.token_type == TokenType::StringLit {
        if t.value.len() >= 2 {
            Ok(t.value.subrange(1, t.value.len() - 1))
        } else {
            Err(err_plain(ErrorKind::Internal, ErrorSource::Assembler))
        }
    } else {
        Ok(Seq::empty())
    }
}

/// Appends the bytes a directive operand token stands for to the output
/// buffer.
pub fn write_token_bytes(
    output: &mut Vec<u8>,
    token: &Token,
    symbol_table: &SymbolTable,
) -> (r: Result<(), GeneralError>)
    requires
        symbol_table.wf(),
    ensures
        (match token_bytes(token.model(), symbol_table@) {
            Ok(bs) => r is Ok && final(output)@ == old(output)@ + bs,
            Err(e) => r is Err && r->Err_0.model() == e && final(output)@ == old(output)@,
        }),
{
    let ghost pre = output@;
    if token.token_type == TokenType::Num1Bytes {
        let v = one_byte_num_string_to_int(&token.value);
        output.push(v);
        proof {
            assert(output@ =~= pre + seq![v]);
        }
        Ok(())
    } else if token.token_type == TokenType::Num2Bytes {
        let v = two_byte_num_string_to_int(&token.value);
        let lo = (v % 0x100) as u8;
        let hi = (v / 0x100) as u8;
        output.push(lo);
        output.push(hi);
        proof {
            assert(output@ =~= pre + seq![lo, hi]);
        }
        Ok(())
    } else if token.token_type == TokenType::Label {
        match symbol_table.get(&token.value) {
            None => Err(create_error(ErrorKind::LabelUndefined, token, Vec::new())),
            Some(InsertableNum::Byte(n)) => {
                output.push(n);
                proof {
                    assert(output@ =~= pre + seq![n]);
                }
                Ok(())
            },
            Some(InsertableNum::TwoByte(n)) => {
                let lo = (n % 0x100) as u8;
                let hi = (n / 0x100) as u8;
                output.push(lo);
                output.push(hi);
                proof {
                    assert(output@ =~= pre + seq![lo, hi]);
                }
                Ok(())
            },
        }
    } else if token.token_type == TokenType::Character {
        if token.value.len() >= 3 {
            let c = token.value[1];
            output.push(c);
            proof {
                assert(output@ =~= pre + seq![c]);
            }
            Ok(())
        } else {
            Err(create_empty_error(ErrorKind::Internal))
        }
    } else if token.token_type == TokenType::StringLit {
        if token.value.len() >= 2 {
            let mut j: usize = 1;
            let stop = token.value.len() - 1;
            while j < stop
                invariant
                    1 <= j <= stop,
                    stop == token.value@.len() - 1,
                    output@ == pre + token.value@.subrange(1, j as int),
                decreases stop - j,
            {
                output.push(token.value[j]);
                j = j + 1;
                proof {
                    assert(output@ =~= pre + token.value@.subrange(1, j as int));
                }
            }
            Ok(())
        } else {
            Err(create_empty_error(ErrorKind::Internal))
        }
    } else {
        proof {
            assert(output@ =~= pre + Seq::<u8>::empty());
        }
        Ok(())
    }
}

// ---------------------------------------------------------------------------
// Label-expression syntax
// ---------------------------------------------------------------------------

pub open spec fn operand_expected() -> Seq<TokenType> {
    seq![TokenType::LeftParenth, TokenType::Num1Bytes, TokenType::Num2Bytes, TokenType::Label]
}

pub open spec fn operator_expected() -> Seq<TokenType> {
    seq![
        TokenType::RightParenth,
        TokenType::Plus,
        TokenType::Minus,
        TokenType::Times,
        TokenType::Divide,
        TokenType::EOL,
    ]
}

pub open spec fn is_arith_op(tt: TokenType) -> bool {
    tt == TokenType::Plus || tt == TokenType::Minus || tt == TokenType::Times || tt
        == TokenType::Divide
}

/// The grammar of an operand expression, checked position by position: an
/// operand or an opening parenthesis where an operand is due; an
/// operator, a closing parenthesis or the end where one has just been
/// read; parentheses balanced.  The first violation is reported with the
/// kinds that were acceptable at that spot.
pub open spec fn check_expr_syntax(
    toks: Seq<TokenModel>,
    i: int,
    depth: int,
    expect_operand: bool,
) -> Option<ErrModel>
    decreases toks.len() - i,
{
    if i < 0 || i >= toks.len() {
        None
    } else {
        let t = toks[i];
        if t.token_type == TokenType::EOL {
            if expect_operand {
                Some(err_at(ErrorKind::Syntax, t, operand_expected()))
            } else if depth > 0 {
                Some(err_at(ErrorKind::Syntax, t, seq![TokenType::RightParenth]))
            } else {
                None
            }
        } else if expect_operand {
            if is_expr_operand(t.token_type) {
                check_expr_syntax(toks, i + 1, depth, false)
            } else if t.token_type == TokenType::LeftParenth {
                check_expr_syntax(toks, i + 1, depth + 1, true)
            } else {
                Some(err_at(ErrorKind::Syntax, t, operand_expected()))
            }
        } else {
            if is_arith_op(t.token_type) {
                check_expr_syntax(toks, i + 1, depth, true)
            } else if t.token_type == TokenType::RightParenth {
                if depth == 0 {
                    Some(err_at(ErrorKind::Syntax, t, seq![TokenType::LeftParenth]))
                } else {
                    check_expr_syntax(toks, i + 1, depth - 1, false)
                }
            } else {
                Some(err_at(ErrorKind::Syntax, t, operator_expected()))
            }
        }
    }
}

fn operand_expected_vec() -> (v: Vec<TokenType>)
    ensures
        v@ == operand_expected(),
{
    let mut v: Vec<TokenType> = Vec::new();
    v.push(TokenType::LeftParenth);
    v.push(TokenType::Num1Bytes);
    v.push(TokenType::Num2Bytes);
    v.push(TokenType::Label);
    proof {
        assert(v@ =~= operand_expected());
    }
    v
}

fn operator_expected_vec() -> (v: Vec<TokenType>)
    ensures
        v@ == operator_expected(),
{
    let mut v: Vec<TokenType> = Vec::new();
    v.push(TokenType::RightParenth);
    v.push(TokenType::Plus);
    v.push(TokenType::Minus);
    v.push(TokenType::Times);
    v.push(TokenType::Divide);
    v.push(TokenType::EOL);
    proof {
        assert(v@ =~= operator_expected());
    }
    v
}

fn one_kind_vec(tt: TokenType) -> (v: Vec<TokenType>)
    ensures
        v@ == seq![tt],
{
    let mut v: Vec<TokenType> = Vec::new();
    v.push(tt);
    proof {
        assert(v@ =~= seq![tt]);
    }
    v
}

/// Checks that a label's value expression is well formed, before it is
/// evaluated.
pub fn check_label_expression_syntax(token_vec: &Vec<Token>) -> (r: Result<(), GeneralError>)
    ensures
        (match check_expr_syntax(token_models(token_vec@), 0, 0, true) {
            None => r is Ok,
            Some(e) => r is Err && r->Err_0.model() == e,
        }),
{
    let mut i: usize = 0;
    let mut depth: usize = 0;
    let mut expect_operand = true;
    while i < token_vec.len()
        invariant
            i <= token_vec@.len(),
            depth <= i,
            check_expr_syntax(token_models(token_vec@), 0, 0, true) == check_expr_syntax(
                token_models(token_vec@),
                i as int,
                depth as int,
                expect_operand,
            ),
        decreases token_vec@.len() - i,
    {
        proof {
            assert(token_models(token_vec@)[i as int] == token_vec@[i as int].model());
        }
        let tt = token_vec[i].token_type;
        if tt == TokenType::EOL {
            if expect_operand {
                return Err(create_error(ErrorKind::Syntax, &token_vec[i], operand_expected_vec()));
            } else if depth > 0 {
                return Err(
                    create_error(
                        ErrorKind::Syntax,
                        &token_vec[i],
                        one_kind_vec(TokenType::RightParenth),
                    ),
                );
            } else {
                return Ok(());
            }
        } else if expect_operand {
            if tt == TokenType::Num1Bytes || tt == TokenType::Num2Bytes || tt == TokenType::Label {
                expect_operand = false;
            } else if tt == TokenType::LeftParenth {
                depth = depth + 1;
            } else {
                return Err(create_error(ErrorKind::Syntax, &token_vec[i], operand_expected_vec()));
            }
        } else {
            if tt == TokenType::Plus || tt == TokenType::Minus || tt == TokenType::Times || tt
                == TokenType::Divide {
                expect_operand = true;
            } else if tt == TokenType::RightParenth {
                if depth == 0 {
                    return Err(
                        create_error(
                            ErrorKind::Syntax,
                            &token_vec[i],
                            one_kind_vec(TokenType::LeftParenth),
                        ),
                    );
                } else {
                    depth = depth - 1;
                }
            } else {
                return Err(
                    create_error(ErrorKind::Syntax, &token_vec[i], operator_expected_vec()),
                );
            }
        }
        i = i + 1;
    }
    Ok(())
}

// ---------------------------------------------------------------------------
// Grammar matching
// ---------------------------------------------------------------------------

pub open spec fn instr_after_operand() -> Seq<TokenType> {
    seq![
        TokenType::Plus,
        TokenType::Minus,
        TokenType::Times,
        TokenType::Divide,
        TokenType::RightParenth,
        TokenType::Comma,
        TokenType::EOL,
    ]
}

/// Whether an operand needs two bytes: a two-byte literal, or a label
/// whose table entry is two bytes wide.  A label not yet in the table is
/// taken as two bytes wide, so that a forward reference matches the
/// absolute addressing forms on the first pass.
pub open spec fn operand_is_wide(t: TokenModel, st: Map<Seq<u8>, InsertableNum>) -> bool {
    if t.token_type == TokenType::Num2Bytes {
        true
    } else if t.token_type == TokenType::Num1Bytes {
        false
    } else if st.contains_key(t.value) {
        st[t.value] is TwoByte
    } else {
        true
    }
}

/// Matching a statement's tokens against one grammar pattern, from token
/// `i` and pattern slot `gi` on.  A numeric slot consumes a whole
/// expression run, whose shape is checked as it goes; a mismatch reports
/// how far the pattern reached and which slot failed.
pub open spec fn instr_match(
    toks: Seq<TokenModel>,
    g: Seq<TokenType>,
    st: Map<Seq<u8>, InsertableNum>,
    i: int,
    gi: int,
) -> Result<(bool, int, int), ErrModel>
    decreases toks.len() - i, g.len() - gi, 1int,
{
    if i < 0 || gi < 0 {
        Err(err_plain(ErrorKind::Internal, ErrorSource::Assembler))
    } else if i >= toks.len() {
        Ok((true, 0, 0))
    } else if gi >= g.len() {
        Ok((false, i, if g.len() > 0 {
            g.len() - 1
        } else {
            0
        }))
    } else if g[gi] == TokenType::Num1Bytes || g[gi] == TokenType::Num2Bytes {
        expr_scan(toks, g, st, i, gi, 0, true, false)
    } else if toks[i].token_type == g[gi] {
        instr_match(toks, g, st, i + 1, gi + 1)
    } else {
        Ok((false, i, gi))
    }
}

/// The expression run that fills a numeric slot: it ends at a comma or
/// the end of the line, or — when the pattern itself closes a
/// parenthesis next — at an unmatched closing parenthesis.  A token that
/// cannot open an expression at all leaves the slot unmatched, so the
/// next alternative gets its turn; a violation after the run has begun
/// is a hard syntax error.
pub open spec fn expr_scan(
    toks: Seq<TokenModel>,
    g: Seq<TokenType>,
    st: Map<Seq<u8>, InsertableNum>,
    i: int,
    gi: int,
    depth: int,
    expect_operand: bool,
    started: bool,
) -> Result<(bool, int, int), ErrModel>
    decreases toks.len() - i, g.len() - gi, 0int,
{
    if i < 0 || i >= toks.len() {
        Ok((true, 0, 0))
    } else if gi < 0 || gi >= g.len() {
        Err(err_plain(ErrorKind::Internal, ErrorSource::Assembler))
    } else {
        let t = toks[i];
        if t.token_type == TokenType::Comma || t.token_type == TokenType::EOL {
            if !started {
                Ok((false, i, gi))
            } else if expect_operand {
                Err(err_at(ErrorKind::Syntax, t, operand_expected()))
            } else if depth > 0 {
                Err(err_at(ErrorKind::Syntax, t, seq![TokenType::RightParenth]))
            } else {
                instr_match(toks, g, st, i, gi + 1)
            }
        } else if expect_operand {
            if t.token_type == TokenType::LeftParenth {
                expr_scan(toks, g, st, i + 1, gi, depth + 1, true, true)
            } else if is_expr_operand(t.token_type) {
                if operand_is_wide(t, st) && g[gi] == TokenType::Num1Bytes {
                    Ok((false, i, gi))
                } else {
                    expr_scan(toks, g, st, i + 1, gi, depth, false, true)
                }
            } else if !started {
                Ok((false, i, gi))
            } else {
                Err(err_at(ErrorKind::Syntax, t, operand_expected()))
            }
        } else {
            if is_arith_op(t.token_type) {
                expr_scan(toks, g, st, i + 1, gi, depth, true, true)
            } else if t.token_type == TokenType::RightParenth {
                if depth > 0 {
                    expr_scan(toks, g, st, i + 1, gi, depth - 1, false, true)
                } else if gi + 1 < g.len() && g[gi + 1] == TokenType::RightParenth {
                    instr_match(toks, g, st, i, gi + 1)
                } else if g.len() > 0 && g[0] == TokenType::LeftParenth {
                    Ok((false, 0, 0))
                } else {
                    Err(err_at(ErrorKind::Syntax, t, seq![TokenType::LeftParenth]))
                }
            } else {
                Err(err_at(ErrorKind::Syntax, t, instr_after_operand()))
            }
        }
    }
}

fn instr_after_operand_vec() -> (v: Vec<TokenType>)
    ensures
        v@ == instr_after_operand(),
{
    let mut v: Vec<TokenType> = Vec::new();
    v.push(TokenType::Plus);
    v.push(TokenType::Minus);
    v.push(TokenType::Times);
    v.push(TokenType::Divide);
    v.push(TokenType::RightParenth);
    v.push(TokenType::Comma);
    v.push(TokenType::EOL);
    proof {
        assert(v@ =~= instr_after_operand());
    }
    v
}

fn exec_operand_is_wide(t: &Token, symbol_table: &SymbolTable) -> (r: bool)
    requires
        symbol_table.wf(),
    ensures
        r == operand_is_wide(t.model(), symbol_table@),
{
    if t.token_type == TokenType::Num2Bytes {
        true
    } else if t.token_type == TokenType::Num1Bytes {
        false
    } else {
        match symbol_table.get(&t.value) {
            Some(v) => v.is_two_bytes(),
            None => true,
        }
    }
}

/// Whether the statement's tokens fit the given pattern.  A full match
/// yields `(true, 0, 0)`; a mismatch yields `false` together with how
/// many tokens matched and the pattern slot that failed; a malformed
/// expression run is a hard error.
pub fn check_instruction_syntax(
    symbol_table: &SymbolTable,
    token_vec: &Vec<Token>,
    token_grammar: &Vec<TokenType>,
) -> (r: Result<(bool, usize, usize), GeneralError>)
    requires
        symbol_table.wf(),
    ensures
        (match instr_match(token_models(token_vec@), token_grammar@, symbol_table@, 0, 0) {
            Ok((m, c, e)) => r is Ok && r->Ok_0.0 == m && r->Ok_0.1 == c && r->Ok_0.2 == e,
            Err(e) => r is Err && r->Err_0.model() == e,
        }),
{
    let ghost toks = token_models(token_vec@);
    let ghost g = token_grammar@;
    let ghost st = symbol_table@;
    let mut i: usize = 0;
    let mut gi: usize = 0;
    let mut depth: usize = 0;
    let mut in_expr = false;
    let mut expect_operand = true;
    let mut started = false;
    while i < token_vec.len()
        invariant
            symbol_table.wf(),
            toks == token_models(token_vec@),
            g == token_grammar@,
            st == symbol_table@,
            i <= toks.len(),
            gi <= g.len(),
            depth <= i,
            in_expr ==> gi < g.len(),
            in_expr && !expect_operand ==> started,
            in_expr && depth > 0 ==> started,
            !in_expr ==> instr_match(toks, g, st, 0, 0) == instr_match(toks, g, st, i as int,
            gi as int),
            in_expr ==> instr_match(toks, g, st, 0, 0) == expr_scan(
                toks,
                g,
                st,
                i as int,
                gi as int,
                depth as int,
                expect_operand,
                started,
            ),
        decreases
                toks.len() - i,
                g.len() - gi,
                (if in_expr {
                    0int
                } else {
                    1int
                }),
    {
        proof {
            assert(toks[i as int] == token_vec@[i as int].model());
        }
        if !in_expr {
            if gi >= token_grammar.len() {
                let e: usize = if token_grammar.len() > 0 {
                    token_grammar.len() - 1
                } else {
                    0
                };
                return Ok((false, i, e));
            }
            let g_cur = token_grammar[gi];
            if g_cur == TokenType::Num1Bytes || g_cur == TokenType::Num2Bytes {
                in_expr = true;
                expect_operand = true;
                started = false;
                depth = 0;
            } else if token_vec[i].token_type == g_cur {
                i = i + 1;
                gi = gi + 1;
            } else {
                return Ok((false, i, gi));
            }
        } else {
            let glen = token_grammar.len();
            proof {
                assert(gi < glen);
            }
            let tt = token_vec[i].token_type;
            if tt == TokenType::Comma || tt == TokenType::EOL {
                if !started {
                    return Ok((false, i, gi));
                } else if expect_operand {
                    return Err(
                        create_error(ErrorKind::Syntax, &token_vec[i], operand_expected_vec()),
                    );
                } else if depth > 0 {
                    return Err(
                        create_error(
                            ErrorKind::Syntax,
                            &token_vec[i],
                            one_kind_vec(TokenType::RightParenth),
                        ),
                    );
                } else {
                    in_expr = false;
                    gi = gi + 1;
                }
            } else if expect_operand {
                if tt == TokenType::LeftParenth {
                    depth = depth + 1;
                    started = true;
                    i = i + 1;
                } else if tt == TokenType::Num1Bytes || tt == TokenType::Num2Bytes || tt
                    == TokenType::Label {
                    let wide = exec_operand_is_wide(&token_vec[i], symbol_table);
                    if wide && token_grammar[gi] == TokenType::Num1Bytes {
                        return Ok((false, i, gi));
                    } else {
                        expect_operand = false;
                        started = true;
                        i = i + 1;
                    }
                } else if !started {
                    return Ok((false, i, gi));
                } else {
                    return Err(
                        create_error(ErrorKind::Syntax, &token_vec[i], operand_expected_vec()),
                    );
                }
            } else {
                if tt == TokenType::Plus || tt == TokenType::Minus || tt == TokenType::Times || tt
                    == TokenType::Divide {
                    expect_operand = true;
                    i = i + 1;
                } else if tt == TokenType::RightParenth {
                    if depth > 0 {
                        depth = depth - 1;
                        i = i + 1;
                    } else if gi + 1 < glen && token_grammar[gi + 1]
                        == TokenType::RightParenth {
                        in_expr = false;
                        gi = gi + 1;
                    } else if token_grammar.len() > 0 && token_grammar[0]
                        == TokenType::LeftParenth {
                        return Ok((false, 0, 0));
                    } else {
                        return Err(
                            create_error(
                                ErrorKind::Syntax,
                                &token_vec[i],
                                one_kind_vec(TokenType::LeftParenth),
                            ),
                        );
                    }
                } else {
                    return Err(
                        create_error(ErrorKind::Syntax, &token_vec[i], instr_after_operand_vec()),
                    );
                }
            }
        }
    }
    Ok((true, 0, 0))
}

// ---------------------------------------------------------------------------
// Statement steps
// ---------------------------------------------------------------------------

/// The index of the table entry for a mnemonic, or -1.
pub open spec fn find_mnemonic(
    tbl: Seq<(Seq<u8>, Seq<(u8, Seq<TokenType>)>)>,
    name: Seq<u8>,
    k: int,
) -> int
    decreases tbl.len() - k,
{
    if k < 0 || k >= tbl.len() {
        -1
    } else if tbl[k].0 == name {
        k
    } else {
        find_mnemonic(tbl, name, k + 1)
    }
}

/// The first numeric slot of a pattern, or -1.
pub open spec fn placeholder_idx(g: Seq<TokenType>, k: int) -> int
    decreases g.len() - k,
{
    if k < 0 || k >= g.len() {
        -1
    } else if g[k] == TokenType::Num1Bytes || g[k] == TokenType::Num2Bytes {
        k
    } else {
        placeholder_idx(g, k + 1)
    }
}

/// Trying a mnemonic's alternatives in order from `k`: the first full
/// match wins; otherwise the alternative that reached furthest is
/// remembered as the best attempt.  Returns (matched index or -1, best
/// index, best reach, expected slot).
pub open spec fn try_alts(
    toks: Seq<TokenModel>,
    alts: Seq<(u8, Seq<TokenType>)>,
    st: Map<Seq<u8>, InsertableNum>,
    k: int,
    bi: int,
    bc: int,
    bgi: int,
) -> Result<(int, int, int, int), ErrModel>
    decreases alts.len() - k,
{
    if k < 0 || k >= alts.len() {
        Ok((-1, bi, bc, bgi))
    } else {
        match instr_match(toks, alts[k].1, st, 0, 0) {
            Err(e) => Err(e),
            Ok((m, c, gi)) => if m {
                Ok((k, bi, bc, bgi))
            } else if c > bc {
                try_alts(toks, alts, st, k + 1, k, c, gi)
            } else {
                try_alts(toks, alts, st, k + 1, bi, bc, bgi)
            },
        }
    }
}

/// What one instruction statement does: the mnemonic is looked up, its
/// alternatives are tried in order, and the first full match fixes the
/// opcode and the operand width.  The byte offset advances by the
/// opcode plus the operand width; on the second pass the opcode and the
/// evaluated operand bytes (little-endian) are emitted.
pub open spec fn instruction_step(
    rem: Seq<TokenModel>,
    st: Map<Seq<u8>, InsertableNum>,
    first_pass: bool,
    cb: u32,
) -> Result<(int, u32, Seq<u8>), ErrModel> {
    if rem.len() == 0 {
        Err(err_plain(ErrorKind::Syntax, ErrorSource::Assembler))
    } else {
        let mn = rem[0];
        let f = first_eol(rem.skip(1));
        if f < 0 {
            Err(err_plain(ErrorKind::Internal, ErrorSource::Assembler))
        } else {
            let toks = rem.skip(1).take(f + 1);
            let consumed = f + 2;
            let ti = find_mnemonic(table_spec(), lower_seq(mn.value), 0);
            if ti < 0 {
                Err(err_at(ErrorKind::UnknownInstruction, mn, seq![TokenType::Instruction]))
            } else {
                let alts = table_spec()[ti].1;
                match try_alts(toks, alts, st, 0, 0, 0, 0) {
                    Err(e) => Err(e),
                    Ok((m, bi, bc, bgi)) => if m < 0 {
                        if 0 <= bi < alts.len() && 0 <= bc < toks.len() && 0 <= bgi
                            < alts[bi].1.len() {
                            Err(err_at(ErrorKind::Syntax, toks[bc], seq![alts[bi].1[bgi]]))
                        } else {
                            Err(err_plain(ErrorKind::Internal, ErrorSource::Assembler))
                        }
                    } else {
                        let g = alts[m].1;
                        let pi = placeholder_idx(g, 0);
                        let width: int = if pi < 0 {
                            0
                        } else if g[pi] == TokenType::Num1Bytes {
                            1
                        } else {
                            2
                        };
                        let cb2 = wrap_add_u32(cb, 1 + width);
                        if first_pass {
                            Ok((consumed, cb2, Seq::empty()))
                        } else {
                            if pi < 0 {
                                Ok((consumed, cb2, seq![alts[m].0]))
                            } else {
                                let ex_end = toks.len() - (g.len() - pi - 1);
                                if !(0 <= pi <= ex_end <= toks.len()) {
                                    Err(err_plain(ErrorKind::Internal, ErrorSource::Assembler))
                                } else {
                                    match eval_expr(toks.subrange(pi, ex_end), st) {
                                        Err(e) => Err(e),
                                        Ok(v) => if g[pi] == TokenType::Num1Bytes {
                                            if v is TwoByte {
                                                Err(
                                                    err_plain(
                                                        ErrorKind::Narrowing,
                                                        ErrorSource::Assembler,
                                                    ),
                                                )
                                            } else {
                                                Ok(
                                                    (
                                                        consumed,
                                                        cb2,
                                                        seq![
                                                            alts[m].0,
                                                            (v.spec_value() % 0x100) as u8,
                                                        ],
                                                    ),
                                                )
                                            }
                                        } else {
                                            let w = v.spec_value() % 0x10000;
                                            Ok(
                                                (
                                                    consumed,
                                                    cb2,
                                                    seq![
                                                        alts[m].0,
                                                        (w % 0x100) as u8,
                                                        (w / 0x100) as u8,
                                                    ],
                                                ),
                                            )
                                        },
                                    }
                                }
                            }
                        }
                    },
                }
            }
        }
    }
}

/// What a label statement does.  On the first pass the label is bound:
/// to its expression's value after `=`, else to the current byte offset
/// (truncated to two bytes); binding a name twice is refused.  On the
/// second pass the tokens are merely consumed.
pub open spec fn label_step(
    rem: Seq<TokenModel>,
    st: Map<Seq<u8>, InsertableNum>,
    first_pass: bool,
    cb: u32,
) -> Result<(int, Map<Seq<u8>, InsertableNum>), ErrModel> {
    if rem.len() == 0 {
        Err(err_plain(ErrorKind::Internal, ErrorSource::Assembler))
    } else if !first_pass {
        let c0: int = if rem[0].token_type == TokenType::Label {
            1
        } else {
            0
        };
        if rem.len() <= c0 {
            Err(err_plain(ErrorKind::Internal, ErrorSource::Assembler))
        } else if rem[c0].token_type == TokenType::Equals {
            let f = first_eol(rem.skip(c0));
            if f < 0 {
                Err(err_plain(ErrorKind::Internal, ErrorSource::Assembler))
            } else {
                Ok((c0 + f + 1, st))
            }
        } else {
            let c1: int = if rem[c0].token_type == TokenType::Colon {
                1
            } else {
                0
            };
            let c2: int = if c0 + c1 < rem.len() && rem[c0 + c1].token_type == TokenType::EOL {
                1
            } else {
                0
            };
            Ok((c0 + c1 + c2, st))
        }
    } else {
        let lt = rem[0];
        if rem.len() < 2 {
            Err(err_plain(ErrorKind::Internal, ErrorSource::Assembler))
        } else if rem[1].token_type == TokenType::Equals {
            let f = first_eol(rem.skip(2));
            if f < 0 {
                Err(err_plain(ErrorKind::Internal, ErrorSource::Assembler))
            } else {
                let toks = rem.skip(2).take(f + 1);
                match check_expr_syntax(toks, 0, 0, true) {
                    Some(e) => Err(e),
                    None => match eval_expr(toks, st) {
                        Err(e) => Err(e),
                        Ok(v) => if st.contains_key(lt.value) {
                            Err(err_at(ErrorKind::LabelRedefined, lt, Seq::empty()))
                        } else {
                            Ok((2 + f + 1, st.insert(lt.value, v)))
                        },
                    },
                }
            }
        } else {
            let c1: int = if rem[1].token_type == TokenType::Colon {
                1
            } else {
                0
            };
            let c2: int = if 1 + c1 < rem.len() && rem[1 + c1].token_type == TokenType::EOL {
                1
            } else {
                0
            };
            let v = InsertableNum::TwoByte((cb % 0x10000) as u16);
            if st.contains_key(lt.value) {
                Err(err_at(ErrorKind::LabelRedefined, lt, Seq::empty()))
            } else {
                Ok((1 + c1 + c2, st.insert(lt.value, v)))
            }
        }
    }
}

pub open spec fn byte_kinds() -> Seq<TokenType> {
    seq![
        TokenType::Character,
        TokenType::Num1Bytes,
        TokenType::Num2Bytes,
        TokenType::Label,
        TokenType::StringLit,
    ]
}

/// How many output bytes one directive operand takes.
pub open spec fn byte_item_size(t: TokenModel) -> int {
    if t.token_type == TokenType::Character || t.token_type == TokenType::Num1Bytes {
        1
    } else if t.token_type == TokenType::StringLit {
        if t.value.len() >= 2 {
            t.value.len() - 2
        } else {
            0
        }
    } else {
        2
    }
}

/// Scanning the operand list of a byte directive from token `i`: each
/// item is sized, a comma after an item is passed over, and the list
/// ends at the end of the line.
pub open spec fn byte_scan(rem: Seq<TokenModel>, i: int) -> Result<
    (int, int, Seq<TokenModel>),
    ErrModel,
>
    decreases rem.len() - i,
{
    if i < 0 || i >= rem.len() {
        Err(err_plain(ErrorKind::Syntax, ErrorSource::Assembler))
    } else if rem[i].token_type == TokenType::EOL {
        Ok((i + 1, 0, Seq::empty()))
    } else {
        let t = rem[i];
        let skip_comma: int = if i + 1 < rem.len() && rem[i + 1].token_type == TokenType::Comma {
            1
        } else {
            0
        };
        if t.token_type == TokenType::Character || t.token_type == TokenType::Num1Bytes
            || t.token_type == TokenType::StringLit || t.token_type == TokenType::Num2Bytes
            || t.token_type == TokenType::Label {
            match byte_scan(rem, i + 1 + skip_comma) {
                Err(e) => Err(e),
                Ok((ni, b, items)) => Ok((ni, byte_item_size(t) + b, seq![t] + items)),
            }
        } else {
            Err(err_at(ErrorKind::Syntax, t, byte_kinds()))
        }
    }
}

/// The bytes the scanned items stand for, in order.
pub open spec fn emit_items(items: Seq<TokenModel>, st: Map<Seq<u8>, InsertableNum>) -> Result<
    Seq<u8>,
    ErrModel,
>
    decreases items.len(),
{
    if items.len() == 0 {
        Ok(Seq::empty())
    } else {
        match token_bytes(items[0], st) {
            Err(e) => Err(e),
            Ok(bs) => match emit_items(items.skip(1), st) {
                Err(e) => Err(e),
                Ok(rest) => Ok(bs + rest),
            },
        }
    }
}

pub open spec fn dot_byte() -> Seq<u8> {
    seq![46u8, 98u8, 121u8, 116u8, 101u8]
}

pub open spec fn dot_org() -> Seq<u8> {
    seq![46u8, 111u8, 114u8, 103u8]
}

/// The `.org` directive's operand: a one- or two-byte number the byte
/// offset is reset to, with an optional end of line after it.
pub open spec fn org_scan(rem: Seq<TokenModel>) -> Result<(int, u32), ErrModel> {
    if rem.len() < 2 {
        Err(err_plain(ErrorKind::Syntax, ErrorSource::Assembler))
    } else {
        let nt = rem[1];
        if nt.token_type == TokenType::Num1Bytes || nt.token_type == TokenType::Num2Bytes {
            let cb2: u32 = if nt.token_type == TokenType::Num1Bytes {
                (num_token_value(nt.value) % 0x100) as u32
            } else {
                (num_token_value(nt.value) % 0x10000) as u32
            };
            let c: int = if rem.len() > 2 && rem[2].token_type == TokenType::EOL {
                1
            } else {
                0
            };
            Ok((2 + c, cb2))
        } else {
            Err(err_at(ErrorKind::Syntax, nt, seq![TokenType::Num1Bytes, TokenType::Num2Bytes]))
        }
    }
}

/// What a directive statement does: `.byte` sizes its operand list and,
/// on the second pass, emits it; `.org` resets the byte offset to its
/// numeric operand; anything else is refused.
pub open spec fn directive_step(
    rem: Seq<TokenModel>,
    st: Map<Seq<u8>, InsertableNum>,
    first_pass: bool,
    cb: u32,
) -> Result<(int, u32, Seq<u8>), ErrModel> {
    if rem.len() == 0 {
        Err(err_plain(ErrorKind::Internal, ErrorSource::Assembler))
    } else {
        let t = rem[0];
        if lower_seq(t.value) == dot_byte() {
            match byte_scan(rem, 1) {
                Err(e) => Err(e),
                Ok((ni, b, items)) => {
                    let cb2 = wrap_add_u32(cb, b);
                    if first_pass {
                        Ok((ni, cb2, Seq::empty()))
                    } else {
                        match emit_items(items, st) {
                            Err(e) => Err(e),
                            Ok(bs) => Ok((ni, cb2, bs)),
                        }
                    }
                },
            }
        } else if lower_seq(t.value) == dot_org() {
            match org_scan(rem) {
                Err(e) => Err(e),
                Ok((c, cb2)) => Ok((c, cb2, Seq::empty())),
            }
        } else {
            Err(err_at(ErrorKind::UnknownDirective, t, seq![TokenType::Directive]))
        }
    }
}

/// One pass over the token stream: statements are dispatched on their
/// leading token until the stream or an `EOF` token ends the pass.  The
/// result is the final symbol table and the emitted bytes.
pub open spec fn pass_from(
    toks: Seq<TokenModel>,
    st: Map<Seq<u8>, InsertableNum>,
    cb: u32,
    first_pass: bool,
) -> Result<(Map<Seq<u8>, InsertableNum>, Seq<u8>), ErrModel>
    decreases toks.len(),
{
    if toks.len() == 0 {
        Ok((st, Seq::empty()))
    } else {
        let t = toks[0];
        if t.token_type == TokenType::EOF {
            Ok((st, Seq::empty()))
        } else {
            let step: Result<(int, Map<Seq<u8>, InsertableNum>, u32, Seq<u8>), ErrModel> = if t.token_type
                == TokenType::Directive {
                match directive_step(toks, st, first_pass, cb) {
                    Err(e) => Err(e),
                    Ok((c, cb2, bs)) => Ok((c, st, cb2, bs)),
                }
            } else if t.token_type == TokenType::Label {
                match label_step(toks, st, first_pass, cb) {
                    Err(e) => Err(e),
                    Ok((c, st2)) => Ok((c, st2, cb, Seq::empty())),
                }
            } else if t.token_type == TokenType::Instruction {
                match instruction_step(toks, st, first_pass, cb) {
                    Err(e) => Err(e),
                    Ok((c, cb2, bs)) => Ok((c, st, cb2, bs)),
                }
            } else {
                Err(
                    err_at(
                        ErrorKind::Syntax,
                        t,
                        seq![TokenType::Instruction, TokenType::Directive, TokenType::Label],
                    ),
                )
            };
            match step {
                Err(e) => Err(e),
                Ok((c, st2, cb2, bs)) => if 1 <= c <= toks.len() {
                    match pass_from(toks.skip(c), st2, cb2, first_pass) {
                        Err(e) => Err(e),
                        Ok((st3, bs2)) => Ok((st3, bs + bs2)),
                    }
                } else {
                    Err(err_plain(ErrorKind::Internal, ErrorSource::Assembler))
                },
            }
        }
    }
}

/// The whole assembler: lex the source, collect the labels on the first
/// pass, emit the object code on the second.
pub open spec fn assemble_spec(lines: Seq<Seq<u8>>) -> Result<Seq<u8>, ErrModel> {
    let toks = lex_spec(lines, true);
    match pass_from(toks, Map::empty(), 0, true) {
        Err(e) => Err(e),
        Ok((st, _)) => match pass_from(toks, st, 0, false) {
            Err(e) => Err(e),
            Ok((_, emit)) => Ok(emit),
        },
    }
}

// ---------------------------------------------------------------------------
// The assembler
// ---------------------------------------------------------------------------

fn dot_byte_vec() -> (v: Vec<u8>)
    ensures
        v@ == dot_byte(),
{
    let mut v: Vec<u8> = Vec::new();
    v.push(46);
    v.push(98);
    v.push(121);
    v.push(116);
    v.push(101);
    proof {
        assert(v@ =~= dot_byte());
    }
    v
}

fn dot_org_vec() -> (v: Vec<u8>)
    ensures
        v@ == dot_org(),
{
    let mut v: Vec<u8> = Vec::new();
    v.push(46);
    v.push(111);
    v.push(114);
    v.push(103);
    proof {
        assert(v@ =~= dot_org());
    }
    v
}

fn byte_kinds_vec() -> (v: Vec<TokenType>)
    ensures
        v@ == byte_kinds(),
{
    let mut v: Vec<TokenType> = Vec::new();
    v.push(TokenType::Character);
    v.push(TokenType::Num1Bytes);
    v.push(TokenType::Num2Bytes);
    v.push(TokenType::Label);
    v.push(TokenType::StringLit);
    proof {
        assert(v@ =~= byte_kinds());
    }
    v
}

/// The assembler's state: the source lines, the lookahead window over
/// the token stream, the symbol table, the byte-offset counter, the
/// grammar table, and the output buffer.
pub struct Assembler {
    source: Vec<Vec<u8>>,
    lexical_iterator: PeekWrapper,
    symbol_table: SymbolTable,
    current_byte: u32,
    instruction_table: Vec<Instruction>,
    output: Vec<u8>,
}

impl Assembler {
    pub closed spec fn wf(self) -> bool {
        &&& self.lexical_iterator.wf()
        &&& self.symbol_table.wf()
        &&& table_models(self.instruction_table@) == table_spec()
        &&& self.source@.len() < 0xFFFF_FFFF
    }

    pub closed spec fn remaining(self) -> Seq<TokenModel> {
        self.lexical_iterator.remaining()
    }

    pub closed spec fn sym(self) -> Map<Seq<u8>, InsertableNum> {
        self.symbol_table@
    }

    pub closed spec fn cb(self) -> u32 {
        self.current_byte
    }

    pub closed spec fn out(self) -> Seq<u8> {
        self.output@
    }

    pub closed spec fn src(self) -> Seq<Seq<u8>> {
        lines_model(self.source@)
    }

    /// A fresh assembler over the given source lines: the token stream
    /// stands at its start, the symbol table is empty, the byte offset is
    /// zero and nothing has been emitted.
    pub fn new(source: Vec<Vec<u8>>) -> (r: Assembler)
        requires
            source@.len() < 0xFFFF_FFFF,
        ensures
            r.wf(),
            r.src() == lines_model(source@),
            r.remaining() == lex_spec(lines_model(source@), true),
            r.sym() == Map::<Seq<u8>, InsertableNum>::empty(),
            r.cb() == 0,
            r.out() == Seq::<u8>::empty(),
    {
        let analyzer = LexicalAnalyzer::new(&source, true);
        Assembler {
            source,
            lexical_iterator: PeekWrapper::new(analyzer, 3),
            symbol_table: SymbolTable::new(),
            current_byte: 0,
            instruction_table: Instruction::get_map(),
            output: Vec::new(),
        }
    }

    /// Handles one label statement, as `label_step` describes: on the
    /// first pass the binding is recorded — a duplicate name is refused —
    /// and on the second the tokens are passed over.
    #[verifier::rlimit(100)]
    fn label_parser(&mut self, first_pass: bool) -> (r: Result<(), GeneralError>)
        requires
            old(self).wf(),
        ensures
            final(self).wf(),
            final(self).src() == old(self).src(),
            (match label_step(old(self).remaining(), old(self).sym(), first_pass, old(self).cb()) {
                Ok((c, st2)) => r is Ok && final(self).remaining() == old(self).remaining().skip(c)
                    && final(self).sym() == st2 && final(self).cb() == old(self).cb()
                    && final(self).out() == old(self).out(),
                Err(e) => r is Err && r->Err_0.model() == e,
            }),
    {
        let ghost rem = self.remaining();
        proof {
            self.lexical_iterator.lemma_wf_size();
        }
        if !first_pass {
            let cres = consume_if_available(TokenType::Label, &mut self.lexical_iterator);
            match cres {
                Err(e) => {
                    proof {
                        assert(false);
                    }
                    return Err(e);
                },
                Ok(()) => {},
            }
            let token_option = self.lexical_iterator.peek(0);
            match token_option {
                None => {
                    return Err(create_empty_error(ErrorKind::Internal));
                },
                Some(token) => {
                    let ghost c0: int = if rem[0].token_type == TokenType::Label {
                        1
                    } else {
                        0
                    };
                    proof {
                        assert(self.remaining() == rem.skip(c0));
                        assert(token.model() == rem[c0]);
                    }
                    if token.token_type == TokenType::Equals {
                        let mut token_stack: Vec<Token> = Vec::new();
                        let gres = get_until_eol(&mut self.lexical_iterator, &mut token_stack);
                        match gres {
                            Err(e) => {
                                return Err(e);
                            },
                            Ok(()) => {
                                proof {
                                    let f = first_eol(rem.skip(c0));
                                    lemma_first_eol_bounds(rem.skip(c0));
                                    assert(self.remaining() =~= rem.skip(c0 + f + 1));
                                }
                                return Ok(());
                            },
                        }
                    } else {
                        let ghost rem1 = self.remaining();
                        let r1 = consume_if_available(TokenType::Colon, &mut self.lexical_iterator);
                        match r1 {
                            Err(e) => {
                                proof {
                                    assert(false);
                                }
                                return Err(e);
                            },
                            Ok(()) => {},
                        }
                        let r2 = consume_if_available(TokenType::EOL, &mut self.lexical_iterator);
                        match r2 {
                            Err(e) => {
                                proof {
                                    assert(false);
                                }
                                return Err(e);
                            },
                            Ok(()) => {},
                        }
                        proof {
                            let c1: int = if rem[c0].token_type == TokenType::Colon {
                                1
                            } else {
                                0
                            };
                            let c2: int = if c0 + c1 < rem.len() && rem[c0 + c1].token_type
                                == TokenType::EOL {
                                1
                            } else {
                                0
                            };
                            assert(rem.skip(c0).skip(c1) =~= rem.skip(c0 + c1));
                            assert(rem.skip(c0 + c1).skip(c2) =~= rem.skip(c0 + c1 + c2));
                            if c1 == 1 {
                                assert(rem.skip(c0)[0] == rem[c0]);
                            }
                            if c0 + c1 < rem.len() {
                                assert(rem.skip(c0 + c1).len() > 0 && rem.skip(c0 + c1)[0] == rem[c0
                                    + c1]);
                            }
                        }
                        return Ok(());
                    }
                },
            }
        }
        let tok_opt = self.lexical_iterator.next();
        let label_token = match tok_opt {
            None => {
                return Err(create_empty_error(ErrorKind::Internal));
            },
            Some(t) => t,
        };
        let peek_opt = self.lexical_iterator.peek(0);
        let next_token = match peek_opt {
            None => {
                return Err(create_empty_error(ErrorKind::Internal));
            },
            Some(t) => t,
        };
        proof {
            assert(label_token.model() == rem[0]);
            assert(next_token.model() == rem.skip(1)[0]);
            assert(rem.skip(1)[0] == rem[1]);
        }
        let label_num_value: InsertableNum;
        if next_token.token_type == TokenType::Equals {
            let r1 = consume_if_available(TokenType::Equals, &mut self.lexical_iterator);
            match r1 {
                Err(e) => {
                    proof {
                        assert(false);
                    }
                    return Err(e);
                },
                Ok(()) => {},
            }
            proof {
                assert(rem.skip(1).skip(1) =~= rem.skip(2));
            }
            let mut token_stack: Vec<Token> = Vec::new();
            let gres = get_until_eol(&mut self.lexical_iterator, &mut token_stack);
            match gres {
                Err(e) => {
                    return Err(e);
                },
                Ok(()) => {},
            }
            let ghost f = first_eol(rem.skip(2));
            proof {
                lemma_first_eol_bounds(rem.skip(2));
                assert(self.remaining() =~= rem.skip(2 + f + 1));
                assert(token_models(token_stack@) =~= rem.skip(2).take(f + 1));
            }
            let cres = check_label_expression_syntax(&token_stack);
            match cres {
                Err(e) => {
                    return Err(e);
                },
                Ok(()) => {},
            }
            proof {
                assert(token_models(token_stack@).subrange(0, token_stack@.len() as int)
                    =~= token_models(token_stack@));
            }
            let eres = expression(&self.symbol_table, &token_stack, 0, token_stack.len());
            match eres {
                Err(e) => {
                    return Err(e);
                },
                Ok(v) => {
                    label_num_value = v;
                },
            }
        } else {
            let r1 = consume_if_available(TokenType::Colon, &mut self.lexical_iterator);
            match r1 {
                Err(e) => {
                    proof {
                        assert(false);
                    }
                    return Err(e);
                },
                Ok(()) => {},
            }
            let r2 = consume_if_available(TokenType::EOL, &mut self.lexical_iterator);
            match r2 {
                Err(e) => {
                    proof {
                        assert(false);
                    }
                    return Err(e);
                },
                Ok(()) => {},
            }
            proof {
                let c1: int = if rem[1].token_type == TokenType::Colon {
                    1
                } else {
                    0
                };
                let c2: int = if 1 + c1 < rem.len() && rem[1 + c1].token_type == TokenType::EOL {
                    1
                } else {
                    0
                };
                assert(rem.skip(1).skip(c1) =~= rem.skip(1 + c1));
                assert(rem.skip(1 + c1).skip(c2) =~= rem.skip(1 + c1 + c2));
                if c1 == 1 {
                    assert(rem.skip(1)[0] == rem[1]);
                }
                if 1 + c1 < rem.len() {
                    assert(rem.skip(1 + c1).len() > 0 && rem.skip(1 + c1)[0] == rem[1 + c1]);
                }
            }
            label_num_value = InsertableNum::TwoByte((self.current_byte % 0x10000) as u16);
        }
        let ok = self.symbol_table.insert(clone_bytes(&label_token.value), label_num_value);
        if !ok {
            return Err(create_error(ErrorKind::LabelRedefined, &label_token, Vec::new()));
        }
        Ok(())
    }

    /// Handles the `.byte` directive when the leading token names it:
    /// sizes the comma-separated operand list and, on the second pass,
    /// writes each operand's bytes to the output.  Returns whether the
    /// directive was taken.
    #[verifier::rlimit(100)]
    fn byte_directive_parser(&mut self, first_pass: bool) -> (r: Result<bool, GeneralError>)
        requires
            old(self).wf(),
            old(self).remaining().len() > 0,
        ensures
            final(self).wf(),
            final(self).src() == old(self).src(),
            lower_seq(old(self).remaining()[0].value) != dot_byte() ==> r is Ok && !(r->Ok_0)
                && *final(self) == *old(self),
            lower_seq(old(self).remaining()[0].value) == dot_byte() ==> (match byte_scan(
                old(self).remaining(),
                1,
            ) {
                Ok((ni, b, items)) => {
                    let emit = if first_pass {
                        Ok(Seq::<u8>::empty())
                    } else {
                        emit_items(items, old(self).sym())
                    };
                    match emit {
                        Ok(bs) => r is Ok && r->Ok_0 && final(self).remaining() == old(
                            self,
                        ).remaining().skip(ni) && final(self).sym() == old(self).sym()
                            && final(self).cb() == wrap_add_u32(old(self).cb(), b)
                            && final(self).out() == old(self).out() + bs,
                        Err(e) => r is Err && r->Err_0.model() == e,
                    }
                },
                Err(e) => r is Err && r->Err_0.model() == e,
            }),
    {
        let ghost rem = self.remaining();
        let ghost st0 = self.sym();
        proof {
            self.lexical_iterator.lemma_wf_size();
        }
        let token = match self.lexical_iterator.peek(0) {
            None => {
                proof {
                    assert(false);
                }
                return Err(create_empty_error(ErrorKind::Internal));
            },
            Some(t) => t,
        };
        let lowered = to_lower_bytes(&token.value);
        if !bytes_eq(&lowered, &dot_byte_vec()) {
            return Ok(false);
        }
        let _ = self.lexical_iterator.next();
        let cur0 = self.lexical_iterator.next();
        let mut current_token = match unwrap_token_option(cur0) {
            Err(e) => {
                return Err(e);
            },
            Ok(t) => t,
        };
        proof {
            assert(rem.skip(1)[0] == rem[1]);
            assert(rem.skip(1).skip(1) =~= rem.skip(2));
        }
        let mut tokens: Vec<Token> = Vec::new();
        let mut returned_bytes: u32 = 0;
        let ghost mut pos: int = 1;
        let ghost mut rb_exact: int = 0;
        proof {
            assert(token_models(tokens@) =~= Seq::<TokenModel>::empty());
        }
        while current_token.token_type != TokenType::EOL
            invariant
                self.wf(),
                lower_seq(rem[0].value) == dot_byte(),
                1 <= pos < rem.len(),
                rem == old(self).remaining(),
                st0 == old(self).sym(),
                self.sym() == st0,
                self.cb() == old(self).cb(),
                self.out() == old(self).out(),
                self.src() == old(self).src(),
                current_token.model() == rem[pos],
                self.remaining() == rem.skip(pos + 1),
                returned_bytes == rb_exact % 0x1_0000_0000,
                0 <= rb_exact,
                (match byte_scan(rem, pos) {
                    Ok((ni2, b2, items2)) => byte_scan(rem, 1) == Ok::<
                        (int, int, Seq<TokenModel>),
                        ErrModel,
                    >((ni2, rb_exact + b2, token_models(tokens@) + items2)),
                    Err(e2) => byte_scan(rem, 1) == Err::<(int, int, Seq<TokenModel>), ErrModel>(
                        e2,
                    ),
                }),
            decreases rem.len() - pos,
        {
            let r1 = consume_if_available(TokenType::Comma, &mut self.lexical_iterator);
            match r1 {
                Err(e) => {
                    proof {
                        assert(false);
                    }
                    return Err(e);
                },
                Ok(()) => {},
            }
            let ghost skip_comma: int = if pos + 1 < rem.len() && rem[pos + 1].token_type
                == TokenType::Comma {
                1
            } else {
                0
            };
            proof {
                if pos + 1 < rem.len() {
                    assert(rem.skip(pos + 1)[0] == rem[pos + 1]);
                    assert(rem.skip(pos + 1).skip(1) =~= rem.skip(pos + 2));
                }
            }
            let tt = current_token.token_type;
            let sz: u32;
            if tt == TokenType::Character || tt == TokenType::Num1Bytes {
                sz = 1;
            } else if tt == TokenType::StringLit {
                let l = current_token.value.len();
                if l >= 2 {
                    sz = (((l - 2) as u64) % 0x1_0000_0000) as u32;
                } else {
                    sz = 0;
                }
            } else if tt == TokenType::Num2Bytes || tt == TokenType::Label {
                sz = 2;
            } else {
                return Err(create_error(ErrorKind::Syntax, &current_token, byte_kinds_vec()));
            }
            let ghost cur_model = current_token.model();
            let ghost isz = byte_item_size(cur_model);
            proof {
                assert(sz == isz % 0x1_0000_0000);
                lemma_add_mod_noop(rb_exact % 0x1_0000_0000, isz % 0x1_0000_0000, 0x1_0000_0000);
                lemma_add_mod_noop(rb_exact, isz, 0x1_0000_0000);
            }
            let ghost pre_toks = tokens@;
            proof {
                crate::lexical_analyzer::lemma_token_models_push(pre_toks, current_token);
            }
            tokens.push(current_token);
            returned_bytes = wrap_add(returned_bytes, sz);
            proof {
                rb_exact = rb_exact + isz;
                assert(token_models(tokens@) =~= token_models(pre_toks) + seq![cur_model]);
                let r3 = byte_scan(rem, pos + 1 + skip_comma);
                if r3 is Ok {
                    let (ni3, b3, it3) = r3->Ok_0;
                    assert(byte_scan(rem, pos) == Ok::<(int, int, Seq<TokenModel>), ErrModel>(
                        (ni3, isz + b3, seq![cur_model] + it3),
                    ));
                    assert((token_models(pre_toks) + seq![cur_model]) + it3 =~= token_models(
                        pre_toks,
                    ) + (seq![cur_model] + it3));
                } else {
                    assert(byte_scan(rem, pos) == byte_scan(rem, pos + 1 + skip_comma));
                }
                pos = pos + 1 + skip_comma;
            }
            let cur_next = self.lexical_iterator.next();
            current_token = match unwrap_token_option(cur_next) {
                Err(e) => {
                    return Err(e);
                },
                Ok(t) => t,
            };
            proof {
                assert(rem.skip(pos)[0] == rem[pos]);
                assert(rem.skip(pos).skip(1) =~= rem.skip(pos + 1));
            }
        }
        let ghost items = token_models(tokens@);
        proof {
            assert(byte_scan(rem, pos) == Ok::<(int, int, Seq<TokenModel>), ErrModel>(
                (pos + 1, 0, Seq::<TokenModel>::empty()),
            ));
            assert(items + Seq::<TokenModel>::empty() =~= items);
        }
        if !first_pass {
            let ghost base_out = self.out();
            let ghost mut emitted: Seq<u8> = Seq::empty();
            proof {
                assert(base_out + emitted =~= base_out);
                assert(items.skip(0) =~= items);
            }
            let mut k: usize = 0;
            while k < tokens.len()
                invariant
                    self.wf(),
                    !first_pass,
                    lower_seq(rem[0].value) == dot_byte(),
                    k <= tokens@.len(),
                    items == token_models(tokens@),
                    st0 == self.sym(),
                    st0 == old(self).sym(),
                    byte_scan(rem, 1) == Ok::<(int, int, Seq<TokenModel>), ErrModel>(
                        (pos + 1, rb_exact, items),
                    ),
                    returned_bytes == rb_exact % 0x1_0000_0000,
                    0 <= rb_exact,
                    self.cb() == old(self).cb(),
                    self.src() == old(self).src(),
                    self.remaining() == rem.skip(pos + 1),
                    rem == old(self).remaining(),
                    self.out() == base_out + emitted,
                    (match emit_items(items.skip(k as int), st0) {
                        Ok(rest) => emit_items(items, st0) == Ok::<Seq<u8>, ErrModel>(
                            emitted + rest,
                        ),
                        Err(e) => emit_items(items, st0) == Err::<Seq<u8>, ErrModel>(e),
                    }),
                decreases tokens@.len() - k,
            {
                proof {
                    assert(items.skip(k as int)[0] == items[k as int]);
                    assert(items[k as int] == tokens@[k as int].model());
                    assert(items.skip(k as int).skip(1) =~= items.skip(k + 1));
                }
                let wres = write_token_bytes(&mut self.output, &tokens[k], &self.symbol_table);
                match wres {
                    Err(e) => {
                        proof {
                            assert(emit_items(items.skip(k as int), st0) == Err::<
                                Seq<u8>,
                                ErrModel,
                            >(e.model()));
                            assert(emit_items(items, st0) == Err::<Seq<u8>, ErrModel>(e.model()));
                        }
                        return Err(e);
                    },
                    Ok(()) => {},
                }
                proof {
                    let bs = token_bytes(items[k as int], st0)->Ok_0;
                    let r4 = emit_items(items.skip(k + 1), st0);
                    if r4 is Ok {
                        assert((emitted + bs) + r4->Ok_0 =~= emitted + (bs + r4->Ok_0));
                    }
                    emitted = emitted + bs;
                }
                k = k + 1;
            }
            proof {
                assert(emit_items(items.skip(tokens@.len() as int), st0) == Ok::<
                    Seq<u8>,
                    ErrModel,
                >(Seq::<u8>::empty()));
                assert(emitted + Seq::<u8>::empty() =~= emitted);
            }
        }
        proof {
            lemma_add_mod_noop(old(self).cb() as int, rb_exact % 0x1_0000_0000, 0x1_0000_0000);
            lemma_add_mod_noop(old(self).cb() as int, rb_exact, 0x1_0000_0000);
        }
        self.current_byte = wrap_add(self.current_byte, returned_bytes);
        Ok(true)
    }

    /// Handles the `.org` directive when the leading token names it: the
    /// byte-offset counter is reset to the numeric operand.  Returns
    /// whether the directive was taken.
    fn org_directive_parser(&mut self) -> (r: Result<bool, GeneralError>)
        requires
            old(self).wf(),
            old(self).remaining().len() > 0,
        ensures
            final(self).wf(),
            final(self).src() == old(self).src(),
            lower_seq(old(self).remaining()[0].value) != dot_org() ==> r is Ok && !(r->Ok_0)
                && *final(self) == *old(self),
            lower_seq(old(self).remaining()[0].value) == dot_org() ==> (match org_scan(
                old(self).remaining(),
            ) {
                Ok((c, cb2)) => r is Ok && r->Ok_0 && final(self).remaining() == old(
                    self,
                ).remaining().skip(c) && final(self).sym() == old(self).sym() && final(self).cb()
                    == cb2 && final(self).out() == old(self).out(),
                Err(e) => r is Err && r->Err_0.model() == e,
            }),
    {
        let ghost rem = self.remaining();
        proof {
            self.lexical_iterator.lemma_wf_size();
        }
        let token = match self.lexical_iterator.peek(0) {
            None => {
                proof {
                    assert(false);
                }
                return Err(create_empty_error(ErrorKind::Internal));
            },
            Some(t) => t,
        };
        let lowered = to_lower_bytes(&token.value);
        if !bytes_eq(&lowered, &dot_org_vec()) {
            return Ok(false);
        }
        let _ = self.lexical_iterator.next();
        let nopt = self.lexical_iterator.next();
        let t = match unwrap_token_option(nopt) {
            Err(e) => {
                return Err(e);
            },
            Ok(t) => t,
        };
        proof {
            assert(rem.skip(1)[0] == rem[1]);
            assert(rem.skip(1).skip(1) =~= rem.skip(2));
        }
        if t.token_type == TokenType::Num1Bytes {
            self.current_byte = one_byte_num_string_to_int(&t.value) as u32;
        } else if t.token_type == TokenType::Num2Bytes {
            self.current_byte = two_byte_num_string_to_int(&t.value) as u32;
        } else {
            let mut expected: Vec<TokenType> = Vec::new();
            expected.push(TokenType::Num1Bytes);
            expected.push(TokenType::Num2Bytes);
            proof {
                assert(expected@ =~= seq![TokenType::Num1Bytes, TokenType::Num2Bytes]);
            }
            return Err(create_error(ErrorKind::Syntax, &t, expected));
        }
        let r2 = consume_if_available(TokenType::EOL, &mut self.lexical_iterator);
        match r2 {
            Err(e) => {
                proof {
                    assert(false);
                }
                return Err(e);
            },
            Ok(()) => {},
        }
        proof {
            let c: int = if rem.len() > 2 && rem[2].token_type == TokenType::EOL {
                1
            } else {
                0
            };
            if rem.len() > 2 {
                assert(rem.skip(2)[0] == rem[2]);
            }
            assert(rem.skip(2).skip(c) =~= rem.skip(2 + c));
        }
        Ok(true)
    }

    /// Dispatches a directive statement: `.byte`, then `.org`; anything
    /// else is refused as not implemented.
    fn directive_parser(&mut self, first_pass: bool) -> (r: Result<(), GeneralError>)
        requires
            old(self).wf(),
        ensures
            final(self).wf(),
            final(self).src() == old(self).src(),
            (match directive_step(
                old(self).remaining(),
                old(self).sym(),
                first_pass,
                old(self).cb(),
            ) {
                Ok((c, cb2, bs)) => r is Ok && final(self).remaining() == old(
                    self,
                ).remaining().skip(c) && final(self).sym() == old(self).sym() && final(self).cb()
                    == cb2 && final(self).out() == old(self).out() + bs,
                Err(e) => r is Err && r->Err_0.model() == e,
            }),
    {
        proof {
            self.lexical_iterator.lemma_wf_size();
        }
        if self.lexical_iterator.peek(0).is_none() {
            return Err(create_empty_error(ErrorKind::Internal));
        }
        let b = match self.byte_directive_parser(first_pass) {
            Err(e) => {
                return Err(e);
            },
            Ok(b) => b,
        };
        if b {
            return Ok(());
        }
        let o = match self.org_directive_parser() {
            Err(e) => {
                return Err(e);
            },
            Ok(o) => o,
        };
        if o {
            proof {
                assert(old(self).out() + Seq::<u8>::empty() =~= old(self).out());
            }
            return Ok(());
        }
        let token = match self.lexical_iterator.peek(0) {
            None => {
                proof {
                    assert(false);
                }
                return Err(create_empty_error(ErrorKind::Internal));
            },
            Some(t) => t,
        };
        Err(create_error(ErrorKind::UnknownDirective, &token, one_kind_vec(TokenType::Directive)))
    }

    /// Handles one instruction statement, as `instruction_step`
    /// describes: the mnemonic's alternatives are tried in order; the
    /// first full match advances the byte offset by the opcode and
    /// operand width and, on the second pass, emits the opcode and the
    /// evaluated operand bytes; with no match, the best attempt names the
    /// offending token and the kind the pattern expected there.
    #[verifier::rlimit(100)]
    fn instruction_parser(&mut self, first_pass: bool) -> (r: Result<(), GeneralError>)
        requires
            old(self).wf(),
        ensures
            final(self).wf(),
            final(self).src() == old(self).src(),
            (match instruction_step(
                old(self).remaining(),
                old(self).sym(),
                first_pass,
                old(self).cb(),
            ) {
                Ok((c, cb2, bs)) => r is Ok && final(self).remaining() == old(
                    self,
                ).remaining().skip(c) && final(self).sym() == old(self).sym() && final(self).cb()
                    == cb2 && final(self).out() == old(self).out() + bs,
                Err(e) => r is Err && r->Err_0.model() == e,
            }),
    {
        let ghost rem = self.remaining();
        let ghost st0 = self.sym();
        proof {
            self.lexical_iterator.lemma_wf_size();
        }
        let iopt = self.lexical_iterator.next();
        let token_instruction = match unwrap_token_option(iopt) {
            Err(e) => {
                return Err(e);
            },
            Ok(t) => t,
        };
        proof {
            assert(token_instruction.model() == rem[0]);
        }
        let mut gotten_tokens: Vec<Token> = Vec::new();
        let gres = get_until_eol(&mut self.lexical_iterator, &mut gotten_tokens);
        match gres {
            Err(e) => {
                return Err(e);
            },
            Ok(()) => {},
        }
        let ghost f = first_eol(rem.skip(1));
        let ghost toks = rem.skip(1).take(f + 1);
        proof {
            lemma_first_eol_bounds(rem.skip(1));
            assert(self.remaining() =~= rem.skip(f + 2));
            assert(token_models(gotten_tokens@) =~= toks);
        }
        let lowered = to_lower_bytes(&token_instruction.value);
        let tlen = self.instruction_table.len();
        let mut ti: usize = 0;
        let mut found = false;
        proof {
            assert(table_models(self.instruction_table@).len() == tlen);
        }
        while ti < tlen
            invariant_except_break
                self.wf(),
                !found,
                ti <= tlen,
                tlen == self.instruction_table@.len(),
                lowered@ == lower_seq(rem[0].value),
                rem == old(self).remaining(),
                rem.len() > 0,
                0 <= f,
                first_eol(rem.skip(1)) == f,
                st0 == old(self).sym(),
                self.sym() == st0,
                self.src() == old(self).src(),
                self.out() == old(self).out(),
                self.cb() == old(self).cb(),
                self.remaining() == rem.skip(f + 2),
                toks == token_models(gotten_tokens@),
                find_mnemonic(table_spec(), lowered@, 0) == find_mnemonic(
                    table_spec(),
                    lowered@,
                    ti as int,
                ),
            ensures
                self.wf(),
                tlen == self.instruction_table@.len(),
                rem == old(self).remaining(),
                rem.len() > 0,
                0 <= f,
                first_eol(rem.skip(1)) == f,
                st0 == old(self).sym(),
                self.sym() == st0,
                self.src() == old(self).src(),
                self.out() == old(self).out(),
                self.cb() == old(self).cb(),
                self.remaining() == rem.skip(f + 2),
                toks == token_models(gotten_tokens@),
                found ==> ti < tlen && find_mnemonic(table_spec(), lowered@, 0) == ti,
                !found ==> find_mnemonic(table_spec(), lowered@, 0) == -1,
            decreases tlen - ti,
        {
            proof {
                assert(table_models(self.instruction_table@)[ti as int] == inst_model(
                    self.instruction_table@[ti as int],
                ));
            }
            if bytes_eq(&self.instruction_table[ti].string_code, &lowered) {
                found = true;
                break ;
            }
            ti = ti + 1;
        }
        if !found {
            return Err(
                create_error(
                    ErrorKind::UnknownInstruction,
                    &token_instruction,
                    one_kind_vec(TokenType::Instruction),
                ),
            );
        }
        let ghost alts_spec = table_spec()[ti as int].1;
        proof {
            assert(table_models(self.instruction_table@)[ti as int] == inst_model(
                self.instruction_table@[ti as int],
            ));
            assert(alts_spec == alts_model(self.instruction_table@[ti as int].opcode_grammer@));
        }
        let alen = self.instruction_table[ti].opcode_grammer.len();
        let mut ai: usize = 0;
        let mut best_i: usize = 0;
        let mut best_c: usize = 0;
        let mut best_gi: usize = 0;
        let mut matched = false;
        while ai < alen
            invariant_except_break
                self.wf(),
                !matched,
                ai <= alen,
                ti < self.instruction_table@.len(),
                alen == self.instruction_table@[ti as int].opcode_grammer@.len(),
                alts_spec == alts_model(self.instruction_table@[ti as int].opcode_grammer@),
                toks == token_models(gotten_tokens@),
                rem == old(self).remaining(),
                rem.len() > 0,
                0 <= f,
                first_eol(rem.skip(1)) == f,
                st0 == old(self).sym(),
                self.sym() == st0,
                self.src() == old(self).src(),
                self.out() == old(self).out(),
                self.cb() == old(self).cb(),
                self.remaining() == rem.skip(f + 2),
                first_eol(rem.skip(1)) == f,
                toks == rem.skip(1).take(f + 1),
                find_mnemonic(table_spec(), lower_seq(rem[0].value), 0) == ti,
                try_alts(toks, alts_spec, st0, 0, 0, 0, 0) == try_alts(
                    toks,
                    alts_spec,
                    st0,
                    ai as int,
                    best_i as int,
                    best_c as int,
                    best_gi as int,
                ),
            ensures
                self.wf(),
                ti < self.instruction_table@.len(),
                alen == self.instruction_table@[ti as int].opcode_grammer@.len(),
                alts_spec == alts_model(self.instruction_table@[ti as int].opcode_grammer@),
                toks == token_models(gotten_tokens@),
                rem == old(self).remaining(),
                rem.len() > 0,
                0 <= f,
                first_eol(rem.skip(1)) == f,
                st0 == old(self).sym(),
                self.sym() == st0,
                self.src() == old(self).src(),
                self.out() == old(self).out(),
                self.cb() == old(self).cb(),
                self.remaining() == rem.skip(f + 2),
                first_eol(rem.skip(1)) == f,
                toks == rem.skip(1).take(f + 1),
                find_mnemonic(table_spec(), lower_seq(rem[0].value), 0) == ti,
                matched ==> ai < alen && try_alts(toks, alts_spec, st0, 0, 0, 0, 0) == Ok::<
                    (int, int, int, int),
                    ErrModel,
                >((ai as int, best_i as int, best_c as int, best_gi as int)),
                !matched ==> try_alts(toks, alts_spec, st0, 0, 0, 0, 0) == Ok::<
                    (int, int, int, int),
                    ErrModel,
                >((-1, best_i as int, best_c as int, best_gi as int)),
            decreases alen - ai,
        {
            proof {
                assert(alts_spec[ai as int] == (
                    self.instruction_table@[ti as int].opcode_grammer@[ai as int].0,
                    self.instruction_table@[ti as int].opcode_grammer@[ai as int].1@,
                ));
            }
            let cres = check_instruction_syntax(
                &self.symbol_table,
                &gotten_tokens,
                &self.instruction_table[ti].opcode_grammer[ai].1,
            );
            let (did_match, c, gi) = match cres {
                Err(e) => {
                    return Err(e);
                },
                Ok(t) => t,
            };
            if did_match {
                matched = true;
                break ;
            } else if c > best_c {
                best_i = ai;
                best_c = c;
                best_gi = gi;
            }
            ai = ai + 1;
        }
        if !matched {
            if best_i < alen && best_c < gotten_tokens.len() {
                let glen2 = self.instruction_table[ti].opcode_grammer[best_i].1.len();
                if best_gi < glen2 {
                    proof {
                        assert(alts_spec[best_i as int] == (
                            self.instruction_table@[ti as int].opcode_grammer@[best_i as int].0,
                            self.instruction_table@[ti as int].opcode_grammer@[best_i as int].1@,
                        ));
                    }
                    return Err(
                        create_error(
                            ErrorKind::Syntax,
                            &gotten_tokens[best_c],
                            one_kind_vec(
                                self.instruction_table[ti].opcode_grammer[best_i].1[best_gi],
                            ),
                        ),
                    );
                }
            }
            return Err(create_empty_error(ErrorKind::Internal));
        }
        let ghost g_spec = alts_spec[ai as int].1;
        proof {
            assert(alts_spec[ai as int] == (
                self.instruction_table@[ti as int].opcode_grammer@[ai as int].0,
                self.instruction_table@[ti as int].opcode_grammer@[ai as int].1@,
            ));
        }
        let glen = self.instruction_table[ti].opcode_grammer[ai].1.len();
        let mut pk: usize = 0;
        let mut found_pi = false;
        while pk < glen
            invariant_except_break
                self.wf(),
                !found_pi,
                pk <= glen,
                ti < self.instruction_table@.len(),
                ai < self.instruction_table@[ti as int].opcode_grammer@.len(),
                glen == g_spec.len(),
                g_spec == self.instruction_table@[ti as int].opcode_grammer@[ai as int].1@,
                rem == old(self).remaining(),
                rem.len() > 0,
                0 <= f,
                first_eol(rem.skip(1)) == f,
                st0 == old(self).sym(),
                self.sym() == st0,
                self.src() == old(self).src(),
                self.out() == old(self).out(),
                self.cb() == old(self).cb(),
                self.remaining() == rem.skip(f + 2),
                placeholder_idx(g_spec, 0) == placeholder_idx(g_spec, pk as int),
            ensures
                self.wf(),
                ti < self.instruction_table@.len(),
                ai < self.instruction_table@[ti as int].opcode_grammer@.len(),
                glen == g_spec.len(),
                g_spec == self.instruction_table@[ti as int].opcode_grammer@[ai as int].1@,
                rem == old(self).remaining(),
                rem.len() > 0,
                0 <= f,
                first_eol(rem.skip(1)) == f,
                st0 == old(self).sym(),
                self.sym() == st0,
                self.src() == old(self).src(),
                self.out() == old(self).out(),
                self.cb() == old(self).cb(),
                self.remaining() == rem.skip(f + 2),
                found_pi ==> pk < glen && placeholder_idx(g_spec, 0) == pk && (g_spec[pk as int]
                    == TokenType::Num1Bytes || g_spec[pk as int] == TokenType::Num2Bytes),
                !found_pi ==> placeholder_idx(g_spec, 0) == -1,
            decreases glen - pk,
        {
            let k = self.instruction_table[ti].opcode_grammer[ai].1[pk];
            if k == TokenType::Num1Bytes || k == TokenType::Num2Bytes {
                found_pi = true;
                break ;
            }
            pk = pk + 1;
        }
        let width: u32 = if !found_pi {
            0
        } else if self.instruction_table[ti].opcode_grammer[ai].1[pk] == TokenType::Num1Bytes {
            1
        } else {
            2
        };
        let cb2 = wrap_add(self.current_byte, 1 + width);
        if first_pass {
            self.current_byte = cb2;
            proof {
                assert(self.out() =~= old(self).out() + Seq::<u8>::empty());
            }
            return Ok(());
        }
        let opcode = self.instruction_table[ti].opcode_grammer[ai].0;
        let ghost out0 = self.out();
        self.output.push(opcode);
        if !found_pi {
            self.current_byte = cb2;
            proof {
                assert(self.out() =~= old(self).out() + seq![opcode]);
            }
            return Ok(());
        }
        let tail = glen - pk - 1;
        if gotten_tokens.len() < tail || gotten_tokens.len() - tail < pk {
            return Err(create_empty_error(ErrorKind::Internal));
        }
        let ex_end = gotten_tokens.len() - tail;
        let eres = expression(&self.symbol_table, &gotten_tokens, pk, ex_end);
        let v = match eres {
            Err(e) => {
                return Err(e);
            },
            Ok(v) => v,
        };
        if self.instruction_table[ti].opcode_grammer[ai].1[pk] == TokenType::Num1Bytes {
            if v.is_two_bytes() {
                return Err(create_empty_error(ErrorKind::Narrowing));
            }
            let b = v.unwrap_byte();
            self.output.push(b);
            self.current_byte = cb2;
            proof {
                assert(self.out() =~= old(self).out() + seq![opcode, b]);
            }
            Ok(())
        } else {
            let w = v.unwrap_twobyte();
            let lo = (w % 0x100) as u8;
            let hi = (w / 0x100) as u8;
            self.output.push(lo);
            self.output.push(hi);
            self.current_byte = cb2;
            proof {
                assert(self.out() =~= old(self).out() + seq![opcode, lo, hi]);
            }
            Ok(())
        }
    }

    /// A byte-directive operand scan ends past where it began and within
    /// the stream.
    proof fn lemma_byte_scan_bounds(rem: Seq<TokenModel>, i: int)
        requires
            0 <= i,
        ensures
            byte_scan(rem, i) is Ok ==> i + 1 <= byte_scan(rem, i)->Ok_0.0 <= rem.len(),
        decreases rem.len() - i,
    {
        if i < rem.len() && rem[i].token_type != TokenType::EOL {
            let skip_comma: int = if i + 1 < rem.len() && rem[i + 1].token_type
                == TokenType::Comma {
                1
            } else {
                0
            };
            Self::lemma_byte_scan_bounds(rem, i + 1 + skip_comma);
        }
    }

    /// Every statement consumes at least one token and no more than are
    /// left, so each pass moves forward.
    proof fn lemma_step_consumed(
        rem: Seq<TokenModel>,
        st: Map<Seq<u8>, InsertableNum>,
        first_pass: bool,
        cb: u32,
    )
        requires
            rem.len() > 0,
        ensures
            rem[0].token_type == TokenType::Directive && directive_step(rem, st, first_pass, cb)
                is Ok ==> 1 <= directive_step(rem, st, first_pass, cb)->Ok_0.0 <= rem.len(),
            rem[0].token_type == TokenType::Label && label_step(rem, st, first_pass, cb) is Ok
                ==> 1 <= label_step(rem, st, first_pass, cb)->Ok_0.0 <= rem.len(),
            instruction_step(rem, st, first_pass, cb) is Ok ==> 1 <= instruction_step(
                rem,
                st,
                first_pass,
                cb,
            )->Ok_0.0 <= rem.len(),
    {
        if rem[0].token_type == TokenType::Directive && directive_step(rem, st, first_pass, cb)
            is Ok {
            if lower_seq(rem[0].value) == dot_byte() {
                Self::lemma_byte_scan_bounds(rem, 1);
            }
        }
        if rem[0].token_type == TokenType::Label && label_step(rem, st, first_pass, cb) is Ok {
            if !first_pass {
                if rem.len() > 1 && rem[1].token_type == TokenType::Equals {
                    if first_eol(rem.skip(1)) >= 0 {
                        lemma_first_eol_bounds(rem.skip(1));
                    }
                }
            } else {
                if rem.len() >= 2 && rem[1].token_type == TokenType::Equals {
                    if first_eol(rem.skip(2)) >= 0 {
                        lemma_first_eol_bounds(rem.skip(2));
                    }
                }
            }
        }
        if instruction_step(rem, st, first_pass, cb) is Ok {
            if first_eol(rem.skip(1)) >= 0 {
                lemma_first_eol_bounds(rem.skip(1));
            }
        }
    }

    /// One pass over the token stream: dispatch on the leading token of
    /// each statement until the stream ends.
    #[verifier::rlimit(100)]
    fn run_pass(&mut self, first_pass: bool) -> (r: Result<(), GeneralError>)
        requires
            old(self).wf(),
        ensures
            final(self).wf(),
            final(self).src() == old(self).src(),
            (match pass_from(old(self).remaining(), old(self).sym(), old(self).cb(), first_pass) {
                Ok((st2, bs)) => r is Ok && final(self).sym() == st2 && final(self).out() == old(
                    self,
                ).out() + bs,
                Err(e) => r is Err && r->Err_0.model() == e,
            }),
    {
        let ghost rem0 = self.remaining();
        let ghost st_in = self.sym();
        let ghost cb_in = self.cb();
        let ghost out0 = self.out();
        let ghost mut emitted: Seq<u8> = Seq::empty();
        proof {
            assert(out0 + emitted =~= out0);
        }
        loop
            invariant
                self.wf(),
                self.src() == old(self).src(),
                out0 == old(self).out(),
                self.out() == out0 + emitted,
                (match pass_from(self.remaining(), self.sym(), self.cb(), first_pass) {
                    Ok((s2, e2)) => pass_from(rem0, st_in, cb_in, first_pass) == Ok::<
                        (Map<Seq<u8>, InsertableNum>, Seq<u8>),
                        ErrModel,
                    >((s2, emitted + e2)),
                    Err(e) => pass_from(rem0, st_in, cb_in, first_pass) == Err::<
                        (Map<Seq<u8>, InsertableNum>, Seq<u8>),
                        ErrModel,
                    >(e),
                }),
                pass_from(rem0, st_in, cb_in, first_pass) == pass_from(
                    old(self).remaining(),
                    old(self).sym(),
                    old(self).cb(),
                    first_pass,
                ),
            decreases self.remaining().len(),
        {
            proof {
                self.lexical_iterator.lemma_wf_size();
            }
            let ghost rem = self.remaining();
            let next_token_option = self.lexical_iterator.peek(0);
            let token = match next_token_option {
                None => {
                    proof {
                        assert(emitted + Seq::<u8>::empty() =~= emitted);
                    }
                    return Ok(());
                },
                Some(t) => t,
            };
            proof {
                assert(token.model() == rem[0]);
            }
            let ghost cur_st = self.sym();
            let ghost cur_cb = self.cb();
            if token.token_type == TokenType::Directive {
                let res = self.directive_parser(first_pass);
                match res {
                    Err(e) => {
                        return Err(e);
                    },
                    Ok(()) => {},
                }
                proof {
                    Self::lemma_step_consumed(rem, cur_st, first_pass, cur_cb);
                    let (c, cb2, bs) = directive_step(rem, cur_st, first_pass, cur_cb)->Ok_0;
                    let r2 = pass_from(self.remaining(), self.sym(), self.cb(), first_pass);
                    if r2 is Ok {
                        assert((emitted + bs) + r2->Ok_0.1 =~= emitted + (bs + r2->Ok_0.1));
                    }
                    emitted = emitted + bs;
                }
            } else if token.token_type == TokenType::Label {
                let res = self.label_parser(first_pass);
                match res {
                    Err(e) => {
                        return Err(e);
                    },
                    Ok(()) => {},
                }
                proof {
                    Self::lemma_step_consumed(rem, cur_st, first_pass, cur_cb);
                    assert(emitted + Seq::<u8>::empty() =~= emitted);
                }
            } else if token.token_type == TokenType::Instruction {
                let res = self.instruction_parser(first_pass);
                match res {
                    Err(e) => {
                        return Err(e);
                    },
                    Ok(()) => {},
                }
                proof {
                    Self::lemma_step_consumed(rem, cur_st, first_pass, cur_cb);
                    let (c, cb2, bs) = instruction_step(rem, cur_st, first_pass, cur_cb)->Ok_0;
                    let r2 = pass_from(self.remaining(), self.sym(), self.cb(), first_pass);
                    if r2 is Ok {
                        assert((emitted + bs) + r2->Ok_0.1 =~= emitted + (bs + r2->Ok_0.1));
                    }
                    emitted = emitted + bs;
                }
            } else if token.token_type == TokenType::EOF {
                proof {
                    assert(emitted + Seq::<u8>::empty() =~= emitted);
                }
                return Ok(());
            } else {
                let mut expected: Vec<TokenType> = Vec::new();
                expected.push(TokenType::Instruction);
                expected.push(TokenType::Directive);
                expected.push(TokenType::Label);
                proof {
                    assert(expected@ =~= seq![
                        TokenType::Instruction,
                        TokenType::Directive,
                        TokenType::Label,
                    ]);
                }
                return Err(create_error(ErrorKind::Syntax, &token, expected));
            }
        }
    }

    /// The label-collecting pass.
    fn first_pass(&mut self) -> (r: Result<(), GeneralError>)
        requires
            old(self).wf(),
        ensures
            final(self).wf(),
            final(self).src() == old(self).src(),
            (match pass_from(old(self).remaining(), old(self).sym(), old(self).cb(), true) {
                Ok((st2, bs)) => r is Ok && final(self).sym() == st2 && final(self).out() == old(
                    self,
                ).out() + bs,
                Err(e) => r is Err && r->Err_0.model() == e,
            }),
    {
        self.run_pass(true)
    }

    /// The emitting pass: the token stream is rewound to the start and the
    /// byte offset reset, then the same dispatch writes the object code.
    fn second_pass(&mut self) -> (r: Result<(), GeneralError>)
        requires
            old(self).wf(),
        ensures
            final(self).wf(),
            final(self).src() == old(self).src(),
            (match pass_from(
                lex_spec(old(self).src(), true),
                old(self).sym(),
                0,
                false,
            ) {
                Ok((st2, bs)) => r is Ok && final(self).out() == old(self).out() + bs,
                Err(e) => r is Err && r->Err_0.model() == e,
            }),
    {
        let analyzer = LexicalAnalyzer::new(&self.source, true);
        self.lexical_iterator = PeekWrapper::new(analyzer, 3);
        self.current_byte = 0;
        self.run_pass(false)
    }

    /// Runs both passes and hands back the emitted object code.
    pub fn run(&mut self) -> (r: Result<Vec<u8>, GeneralError>)
        requires
            old(self).wf(),
            old(self).remaining() == lex_spec(old(self).src(), true),
            old(self).sym() == Map::<Seq<u8>, InsertableNum>::empty(),
            old(self).cb() == 0,
            old(self).out() == Seq::<u8>::empty(),
        ensures
            (match assemble_spec(old(self).src()) {
                Ok(bs) => r is Ok && r->Ok_0@ == bs,
                Err(e) => r is Err && r->Err_0.model() == e,
            }),
    {
        let r1 = self.first_pass();
        match r1 {
            Err(e) => {
                return Err(e);
            },
            Ok(()) => {},
        }
        let r2 = self.second_pass();
        match r2 {
            Err(e) => {
                return Err(e);
            },
            Ok(()) => {},
        }
        proof {
            let toks = lex_spec(old(self).src(), true);
            let (st1, bs1) = pass_from(toks, Map::empty(), 0, true)->Ok_0;
            assert(Seq::<u8>::empty() + bs1 + pass_from(toks, st1, 0, false)->Ok_0.1
                =~= pass_from(toks, st1, 0, false)->Ok_0.1) by {
                lemma_pass_one_emits_nothing(toks, Map::empty(), 0);
            }
        }
        Ok(clone_bytes(&self.output))
    }
}

/// The label-collecting pass writes no output: whatever it returns, its
/// emitted byte sequence is empty.
pub proof fn lemma_pass_one_emits_nothing(
    toks: Seq<TokenModel>,
    st: Map<Seq<u8>, InsertableNum>,
    cb: u32,
)
    ensures
        pass_from(toks, st, cb, true) is Ok ==> pass_from(toks, st, cb, true)->Ok_0.1
            == Seq::<u8>::empty(),
    decreases toks.len(),
{
    if toks.len() > 0 {
        let t = toks[0];
        if t.token_type != TokenType::EOF {
            let step: Result<(int, Map<Seq<u8>, InsertableNum>, u32, Seq<u8>), ErrModel> = if t.token_type
                == TokenType::Directive {
                match directive_step(toks, st, true, cb) {
                    Err(e) => Err(e),
                    Ok((c, cb2, bs)) => Ok((c, st, cb2, bs)),
                }
            } else if t.token_type == TokenType::Label {
                match label_step(toks, st, true, cb) {
                    Err(e) => Err(e),
                    Ok((c, st2)) => Ok((c, st2, cb, Seq::empty())),
                }
            } else if t.token_type == TokenType::Instruction {
                match instruction_step(toks, st, true, cb) {
                    Err(e) => Err(e),
                    Ok((c, cb2, bs)) => Ok((c, st, cb2, bs)),
                }
            } else {
                Err(
                    err_at(
                        ErrorKind::Syntax,
                        t,
                        seq![TokenType::Instruction, TokenType::Directive, TokenType::Label],
                    ),
                )
            };
            if step is Ok {
                let (c, st2, cb2, bs) = step->Ok_0;
                assert(bs == Seq::<u8>::empty());
                if 1 <= c <= toks.len() {
                    lemma_pass_one_emits_nothing(toks.skip(c), st2, cb2);
                    if pass_from(toks.skip(c), st2, cb2, true) is Ok {
                        assert(bs + pass_from(toks.skip(c), st2, cb2, true)->Ok_0.1
                            =~= Seq::<u8>::empty());
                    }
                }
            }
        }
    }
}

/// Assembling is a function of the source text alone: two runs over the
/// same lines yield the same outcome, byte for byte — running the two
/// passes twice is idempotent.
pub proof fn lemma_assemble_deterministic(
    lines: Seq<Seq<u8>>,
    r1: Result<Seq<u8>, ErrModel>,
    r2: Result<Seq<u8>, ErrModel>,
)
    requires
        r1 == assemble_spec(lines),
        r2 == assemble_spec(lines),
    ensures
        r1 == r2,
{
}

/// Binding a name the symbol table already holds is refused on the
/// collecting pass, never silently overwritten; a plain label statement
/// reports it as a label redefinition naming the offending token.  The
/// emitting pass does not bind labels at all, so no pass can introduce a
/// duplicate.
pub proof fn lemma_duplicate_label_rejected(
    rem: Seq<TokenModel>,
    st: Map<Seq<u8>, InsertableNum>,
    cb: u32,
)
    requires
        rem.len() >= 2,
        rem[0].token_type == TokenType::Label,
        st.contains_key(rem[0].value),
    ensures
        !(label_step(rem, st, true, cb) is Ok),
        rem[1].token_type != TokenType::Equals ==> label_step(rem, st, true, cb) == Err::<
            (int, Map<Seq<u8>, InsertableNum>),
            ErrModel,
        >(err_at(ErrorKind::LabelRedefined, rem[0], Seq::empty())),
        label_step(rem, st, false, cb) is Ok ==> label_step(rem, st, false, cb)->Ok_0.1 == st,
{
}

/// A label used as an operand resolves to exactly the value the symbol
/// table holds for it: as a whole expression it evaluates to that value,
/// and a two-byte value is emitted low byte first.
pub proof fn lemma_label_operand_resolves(t: TokenModel, st: Map<Seq<u8>, InsertableNum>)
    requires
        t.token_type == TokenType::Label,
        st.contains_key(t.value),
    ensures
        eval_expr(seq![t], st) == Ok::<InsertableNum, ErrModel>(st[t.value]),
        (st[t.value] is TwoByte ==> token_bytes(t, st) == Ok::<Seq<u8>, ErrModel>(
            seq![
                (st[t.value]->TwoByte_0 % 0x100) as u8,
                (st[t.value]->TwoByte_0 / 0x100) as u8,
            ],
        )),
{
    let toks = seq![t];
    let opd = seq![st[t.value]];
    let opr = Seq::<TokenModel>::empty();
    assert(toks[0] == t);
    assert(toks.len() == 1);
    assert(eval_fold(toks, 0, st, Seq::empty(), Seq::empty()) == eval_fold(
        toks,
        1,
        st,
        Seq::<InsertableNum>::empty().push(st[t.value]),
        opr,
    ));
    assert(eval_fold(toks, 1, st, Seq::<InsertableNum>::empty().push(st[t.value]), opr) == Ok::<
        (Seq<InsertableNum>, Seq<TokenModel>),
        ErrModel,
    >((Seq::<InsertableNum>::empty().push(st[t.value]), opr)));
    let ops1 = Seq::<InsertableNum>::empty().push(st[t.value]);
    assert(ops1.len() == 1);
    assert(last_lparen(opr) == -1);
    assert(spec_stack_math(ops1, opr) == Ok::<(Seq<InsertableNum>, Seq<TokenModel>), ErrModel>(
        (ops1, opr),
    ));
    assert(ops1.last() == st[t.value]);
}

/// Assembles a source text, given as its lines: the returned buffer holds
/// the object code, or the first error aborts the run.
pub fn run(source: &Vec<Vec<u8>>) -> (r: Result<Vec<u8>, GeneralError>)
    requires
        source@.len() < 0xFFFF_FFFF,
    ensures
        (match assemble_spec(lines_model(source@)) {
            Ok(bs) => r is Ok && r->Ok_0@ == bs,
            Err(e) => r is Err && r->Err_0.model() == e,
        }),
{
    let mut assembler = Assembler::new(clone_lines(source));
    assembler.run()
}

/// An exact copy of the source lines.
fn clone_lines(v: &Vec<Vec<u8>>) -> (r: Vec<Vec<u8>>)
    ensures
        lines_model(r@) == lines_model(v@),
        r@.len() == v@.len(),
{
    let mut r: Vec<Vec<u8>> = Vec::new();
    let mut i: usize = 0;
    while i < v.len()
        invariant
            i <= v@.len(),
            r@.len() == i,
            forall|j: int| 0 <= j < i ==> (#[trigger] r@[j])@ == v@[j]@,
        decreases v@.len() - i,
    {
        r.push(clone_bytes(&v[i]));
        i = i + 1;
    }
    proof {
        assert(lines_model(r@) =~= lines_model(v@));
    }
    r
}

} // verus!
