//! The instruction grammar table: one entry per mnemonic, each an ordered
//! list of (opcode, operand pattern) alternatives.  A pattern is the exact
//! sequence of token kinds a legal operand form takes, ending in `EOL`; a
//! `Num1Bytes` or `Num2Bytes` slot stands for an operand expression of that
//! width.  The table is static data, built once per run and read only.

use vstd::prelude::*;
use crate::lexical_analyzer::TokenType;

verus! {

/// One mnemonic together with every operand form it accepts, in the order
/// the forms are tried during grammar matching.
pub struct Instruction {
    pub string_code: Vec<u8>,
    pub opcode_grammer: Vec<(u8, Vec<TokenType>)>,
}

/// The mathematical image of one table entry.
pub open spec fn alts_model(s: Seq<(u8, Vec<TokenType>)>) -> Seq<(u8, Seq<TokenType>)> {
    Seq::new(s.len(), |i: int| (s[i].0, s[i].1@))
}

pub open spec fn inst_model(i: Instruction) -> (Seq<u8>, Seq<(u8, Seq<TokenType>)>) {
    (i.string_code@, alts_model(i.opcode_grammer@))
}

pub open spec fn table_models(t: Seq<Instruction>) -> Seq<(Seq<u8>, Seq<(u8, Seq<TokenType>)>)> {
    Seq::new(t.len(), |i: int| inst_model(t[i]))
}

pub open spec fn spec_pat_immediate1() -> Seq<TokenType> {
    seq![TokenType::HashMark, TokenType::Num1Bytes, TokenType::EOL]
}

pub fn pat_immediate1() -> (v: Vec<TokenType>)
    ensures
        v@ == spec_pat_immediate1(),
{
    let mut v: Vec<TokenType> = Vec::new();
    v.push(TokenType::HashMark);
    v.push(TokenType::Num1Bytes);
    v.push(TokenType::EOL);
    proof {
        assert(v@ =~= spec_pat_immediate1());
    }
    v
}

pub open spec fn spec_pat_zeropage() -> Seq<TokenType> {
    seq![TokenType::Num1Bytes, TokenType::EOL]
}

pub fn pat_zeropage() -> (v: Vec<TokenType>)
    ensures
        v@ == spec_pat_zeropage(),
{
    let mut v: Vec<TokenType> = Vec::new();
    v.push(TokenType::Num1Bytes);
    v.push(TokenType::EOL);
    proof {
        assert(v@ =~= spec_pat_zeropage());
    }
    v
}

pub open spec fn spec_pat_zeropagex() -> Seq<TokenType> {
    seq![TokenType::Num1Bytes, TokenType::Comma, TokenType::RegX, TokenType::EOL]
}

pub fn pat_zeropagex() -> (v: Vec<TokenType>)
    ensures
        v@ == spec_pat_zeropagex(),
{
    let mut v: Vec<TokenType> = Vec::new();
    v.push(TokenType::Num1Bytes);
    v.push(TokenType::Comma);
    v.push(TokenType::RegX);
    v.push(TokenType::EOL);
    proof {
        assert(v@ =~= spec_pat_zeropagex());
    }
    v
}

pub open spec fn spec_pat_zeropagey() -> Seq<TokenType> {
    seq![TokenType::Num1Bytes, TokenType::Comma, TokenType::RegY, TokenType::EOL]
}

pub fn pat_zeropagey() -> (v: Vec<TokenType>)
    ensures
        v@ == spec_pat_zeropagey(),
{
    let mut v: Vec<TokenType> = Vec::new();
    v.push(TokenType::Num1Bytes);
    v.push(TokenType::Comma);
    v.push(TokenType::RegY);
    v.push(TokenType::EOL);
    proof {
        assert(v@ =~= spec_pat_zeropagey());
    }
    v
}

pub open spec fn spec_pat_absolute() -> Seq<TokenType> {
    seq![TokenType::Num2Bytes, TokenType::EOL]
}

pub fn pat_absolute() -> (v: Vec<TokenType>)
    ensures
        v@ == spec_pat_absolute(),
{
    let mut v: Vec<TokenType> = Vec::new();
    v.push(TokenType::Num2Bytes);
    v.push(TokenType::EOL);
    proof {
        assert(v@ =~= spec_pat_absolute());
    }
    v
}

pub open spec fn spec_pat_absolutex() -> Seq<TokenType> {
    seq![TokenType::Num2Bytes, TokenType::Comma, TokenType::RegX, TokenType::EOL]
}

pub fn pat_absolutex() -> (v: Vec<TokenType>)
    ensures
        v@ == spec_pat_absolutex(),
{
    let mut v: Vec<TokenType> = Vec::new();
    v.push(TokenType::Num2Bytes);
    v.push(TokenType::Comma);
    v.push(TokenType::RegX);
    v.push(TokenType::EOL);
    proof {
        assert(v@ =~= spec_pat_absolutex());
    }
    v
}

pub open spec fn spec_pat_absolutey() -> Seq<TokenType> {
    seq![TokenType::Num2Bytes, TokenType::Comma, TokenType::RegY, TokenType::EOL]
}

pub fn pat_absolutey() -> (v: Vec<TokenType>)
    ensures
        v@ == spec_pat_absolutey(),
{
    let mut v: Vec<TokenType> = Vec::new();
    v.push(TokenType::Num2Bytes);
    v.push(TokenType::Comma);
    v.push(TokenType::RegY);
    v.push(TokenType::EOL);
    proof {
        assert(v@ =~= spec_pat_absolutey());
    }
    v
}

pub open spec fn spec_pat_indirect() -> Seq<TokenType> {
    seq![TokenType::LeftParenth, TokenType::Num2Bytes, TokenType::RightParenth, TokenType::EOL]
}

pub fn pat_indirect() -> (v: Vec<TokenType>)
    ensures
        v@ == spec_pat_indirect(),
{
    let mut v: Vec<TokenType> = Vec::new();
    v.push(TokenType::LeftParenth);
    v.push(TokenType::Num2Bytes);
    v.push(TokenType::RightParenth);
    v.push(TokenType::EOL);
    proof {
        assert(v@ =~= spec_pat_indirect());
    }
    v
}

pub open spec fn spec_pat_indirectx() -> Seq<TokenType> {
    seq![TokenType::LeftParenth, TokenType::Num1Bytes, TokenType::Comma, TokenType::RegX, TokenType::RightParenth, TokenType::EOL]
}

pub fn pat_indirectx() -> (v: Vec<TokenType>)
    ensures
        v@ == spec_pat_indirectx(),
{
    let mut v: Vec<TokenType> = Vec::new();
    v.push(TokenType::LeftParenth);
    v.push(TokenType::Num1Bytes);
    v.push(TokenType::Comma);
    v.push(TokenType::RegX);
    v.push(TokenType::RightParenth);
    v.push(TokenType::EOL);
    proof {
        assert(v@ =~= spec_pat_indirectx());
    }
    v
}

pub open spec fn spec_pat_indirecty() -> Seq<TokenType> {
    seq![TokenType::LeftParenth, TokenType::Num1Bytes, TokenType::RightParenth, TokenType::Comma, TokenType::RegY, TokenType::EOL]
}

pub fn pat_indirecty() -> (v: Vec<TokenType>)
    ensures
        v@ == spec_pat_indirecty(),
{
    let mut v: Vec<TokenType> = Vec::new();
    v.push(TokenType::LeftParenth);
    v.push(TokenType::Num1Bytes);
    v.push(TokenType::RightParenth);
    v.push(TokenType::Comma);
    v.push(TokenType::RegY);
    v.push(TokenType::EOL);
    proof {
        assert(v@ =~= spec_pat_indirecty());
    }
    v
}

pub open spec fn spec_pat_accumulator() -> Seq<TokenType> {
    seq![TokenType::RegA, TokenType::EOL]
}

pub fn pat_accumulator() -> (v: Vec<TokenType>)
    ensures
        v@ == spec_pat_accumulator(),
{
    let mut v: Vec<TokenType> = Vec::new();
    v.push(TokenType::RegA);
    v.push(TokenType::EOL);
    proof {
        assert(v@ =~= spec_pat_accumulator());
    }
    v
}

pub open spec fn spec_pat_empty() -> Seq<TokenType> {
    seq![TokenType::EOL]
}

pub fn pat_empty() -> (v: Vec<TokenType>)
    ensures
        v@ == spec_pat_empty(),
{
    let mut v: Vec<TokenType> = Vec::new();
    v.push(TokenType::EOL);
    proof {
        assert(v@ =~= spec_pat_empty());
    }
    v
}

/// Whether the three lower-cased bytes spell one of the mnemonics the
/// table knows.
pub open spec fn spec_is_mnemonic(a: u8, b: u8, c: u8) -> bool {
    ||| (a == 97 && b == 100 && c == 99)
    ||| (a == 97 && b == 110 && c == 100)
    ||| (a == 97 && b == 115 && c == 108)
    ||| (a == 98 && b == 105 && c == 116)
    ||| (a == 98 && b == 112 && c == 108)
    ||| (a == 98 && b == 109 && c == 105)
    ||| (a == 98 && b == 118 && c == 99)
    ||| (a == 98 && b == 118 && c == 115)
    ||| (a == 98 && b == 99 && c == 99)
    ||| (a == 98 && b == 99 && c == 115)
    ||| (a == 98 && b == 110 && c == 101)
    ||| (a == 98 && b == 101 && c == 113)
    ||| (a == 98 && b == 114 && c == 107)
    ||| (a == 99 && b == 109 && c == 112)
    ||| (a == 99 && b == 112 && c == 120)
    ||| (a == 99 && b == 112 && c == 121)
    ||| (a == 100 && b == 101 && c == 99)
    ||| (a == 101 && b == 111 && c == 114)
    ||| (a == 99 && b == 108 && c == 99)
    ||| (a == 115 && b == 101 && c == 99)
    ||| (a == 99 && b == 108 && c == 105)
    ||| (a == 115 && b == 101 && c == 105)
    ||| (a == 99 && b == 108 && c == 118)
    ||| (a == 99 && b == 108 && c == 100)
    ||| (a == 115 && b == 101 && c == 100)
    ||| (a == 105 && b == 110 && c == 99)
    ||| (a == 106 && b == 109 && c == 112)
    ||| (a == 106 && b == 115 && c == 114)
    ||| (a == 108 && b == 100 && c == 97)
    ||| (a == 108 && b == 100 && c == 120)
    ||| (a == 108 && b == 100 && c == 121)
    ||| (a == 108 && b == 115 && c == 114)
    ||| (a == 110 && b == 111 && c == 112)
    ||| (a == 111 && b == 114 && c == 97)
    ||| (a == 116 && b == 97 && c == 120)
    ||| (a == 116 && b == 120 && c == 97)
    ||| (a == 100 && b == 101 && c == 120)
    ||| (a == 105 && b == 110 && c == 120)
    ||| (a == 116 && b == 97 && c == 121)
    ||| (a == 116 && b == 121 && c == 97)
    ||| (a == 100 && b == 101 && c == 121)
    ||| (a == 105 && b == 110 && c == 121)
    ||| (a == 114 && b == 111 && c == 108)
    ||| (a == 114 && b == 111 && c == 114)
    ||| (a == 114 && b == 116 && c == 105)
    ||| (a == 114 && b == 116 && c == 115)
    ||| (a == 115 && b == 98 && c == 99)
    ||| (a == 115 && b == 116 && c == 97)
    ||| (a == 116 && b == 120 && c == 115)
    ||| (a == 116 && b == 115 && c == 120)
    ||| (a == 112 && b == 104 && c == 97)
    ||| (a == 112 && b == 108 && c == 97)
    ||| (a == 112 && b == 104 && c == 112)
    ||| (a == 112 && b == 108 && c == 112)
    ||| (a == 115 && b == 116 && c == 120)
    ||| (a == 115 && b == 116 && c == 121)
}

pub fn is_mnemonic(a: u8, b: u8, c: u8) -> (r: bool)
    ensures
        r == spec_is_mnemonic(a, b, c),
{
    (a == 97 && b == 100 && c == 99)
        || (a == 97 && b == 110 && c == 100)
        || (a == 97 && b == 115 && c == 108)
        || (a == 98 && b == 105 && c == 116)
        || (a == 98 && b == 112 && c == 108)
        || (a == 98 && b == 109 && c == 105)
        || (a == 98 && b == 118 && c == 99)
        || (a == 98 && b == 118 && c == 115)
        || (a == 98 && b == 99 && c == 99)
        || (a == 98 && b == 99 && c == 115)
        || (a == 98 && b == 110 && c == 101)
        || (a == 98 && b == 101 && c == 113)
        || (a == 98 && b == 114 && c == 107)
        || (a == 99 && b == 109 && c == 112)
        || (a == 99 && b == 112 && c == 120)
        || (a == 99 && b == 112 && c == 121)
        || (a == 100 && b == 101 && c == 99)
        || (a == 101 && b == 111 && c == 114)
        || (a == 99 && b == 108 && c == 99)
        || (a == 115 && b == 101 && c == 99)
        || (a == 99 && b == 108 && c == 105)
        || (a == 115 && b == 101 && c == 105)
        || (a == 99 && b == 108 && c == 118)
        || (a == 99 && b == 108 && c == 100)
        || (a == 115 && b == 101 && c == 100)
        || (a == 105 && b == 110 && c == 99)
        || (a == 106 && b == 109 && c == 112)
        || (a == 106 && b == 115 && c == 114)
        || (a == 108 && b == 100 && c == 97)
        || (a == 108 && b == 100 && c == 120)
        || (a == 108 && b == 100 && c == 121)
        || (a == 108 && b == 115 && c == 114)
        || (a == 110 && b == 111 && c == 112)
        || (a == 111 && b == 114 && c == 97)
        || (a == 116 && b == 97 && c == 120)
        || (a == 116 && b == 120 && c == 97)
        || (a == 100 && b == 101 && c == 120)
        || (a == 105 && b == 110 && c == 120)
        || (a == 116 && b == 97 && c == 121)
        || (a == 116 && b == 121 && c == 97)
        || (a == 100 && b == 101 && c == 121)
        || (a == 105 && b == 110 && c == 121)
        || (a == 114 && b == 111 && c == 108)
        || (a == 114 && b == 111 && c == 114)
        || (a == 114 && b == 116 && c == 105)
        || (a == 114 && b == 116 && c == 115)
        || (a == 115 && b == 98 && c == 99)
        || (a == 115 && b == 116 && c == 97)
        || (a == 116 && b == 120 && c == 115)
        || (a == 116 && b == 115 && c == 120)
        || (a == 112 && b == 104 && c == 97)
        || (a == 112 && b == 108 && c == 97)
        || (a == 112 && b == 104 && c == 112)
        || (a == 112 && b == 108 && c == 112)
        || (a == 115 && b == 116 && c == 120)
        || (a == 115 && b == 116 && c == 121)
}

/// A three-byte mnemonic as a vector.
pub fn mnem(a: u8, b: u8, c: u8) -> (v: Vec<u8>)
    ensures
        v@ == seq![a, b, c],
{
    let mut v: Vec<u8> = Vec::new();
    v.push(a);
    v.push(b);
    v.push(c);
    proof {
        assert(v@ =~= seq![a, b, c]);
    }
    v
}

pub open spec fn entry_adc() -> (Seq<u8>, Seq<(u8, Seq<TokenType>)>) {
    (seq![97u8, 100u8, 99u8], seq![(113u8, spec_pat_indirecty()), (97u8, spec_pat_indirectx()), (105u8, spec_pat_immediate1()), (101u8, spec_pat_zeropage()), (117u8, spec_pat_zeropagex()), (109u8, spec_pat_absolute()), (125u8, spec_pat_absolutex()), (121u8, spec_pat_absolutey())])
}

pub open spec fn entry_and() -> (Seq<u8>, Seq<(u8, Seq<TokenType>)>) {
    (seq![97u8, 110u8, 100u8], seq![(33u8, spec_pat_indirectx()), (49u8, spec_pat_indirecty()), (41u8, spec_pat_immediate1()), (37u8, spec_pat_zeropage()), (53u8, spec_pat_zeropagex()), (45u8, spec_pat_absolute()), (61u8, spec_pat_absolutex()), (57u8, spec_pat_absolutey())])
}

pub open spec fn entry_asl() -> (Seq<u8>, Seq<(u8, Seq<TokenType>)>) {
    (seq![97u8, 115u8, 108u8], seq![(10u8, spec_pat_accumulator()), (6u8, spec_pat_zeropage()), (22u8, spec_pat_zeropagex()), (14u8, spec_pat_absolute()), (30u8, spec_pat_absolutex())])
}

pub open spec fn entry_bit() -> (Seq<u8>, Seq<(u8, Seq<TokenType>)>) {
    (seq![98u8, 105u8, 116u8], seq![(36u8, spec_pat_zeropage()), (44u8, spec_pat_absolute())])
}

pub open spec fn entry_bpl() -> (Seq<u8>, Seq<(u8, Seq<TokenType>)>) {
    (seq![98u8, 112u8, 108u8], seq![(16u8, spec_pat_absolute())])
}

pub open spec fn entry_bmi() -> (Seq<u8>, Seq<(u8, Seq<TokenType>)>) {
    (seq![98u8, 109u8, 105u8], seq![(48u8, spec_pat_absolute())])
}

pub open spec fn entry_bvc() -> (Seq<u8>, Seq<(u8, Seq<TokenType>)>) {
    (seq![98u8, 118u8, 99u8], seq![(80u8, spec_pat_absolute())])
}

pub open spec fn entry_bvs() -> (Seq<u8>, Seq<(u8, Seq<TokenType>)>) {
    (seq![98u8, 118u8, 115u8], seq![(112u8, spec_pat_absolute())])
}

pub open spec fn entry_bcc() -> (Seq<u8>, Seq<(u8, Seq<TokenType>)>) {
    (seq![98u8, 99u8, 99u8], seq![(144u8, spec_pat_absolute())])
}

pub open spec fn entry_bcs() -> (Seq<u8>, Seq<(u8, Seq<TokenType>)>) {
    (seq![98u8, 99u8, 115u8], seq![(176u8, spec_pat_absolute())])
}

pub open spec fn entry_bne() -> (Seq<u8>, Seq<(u8, Seq<TokenType>)>) {
    (seq![98u8, 110u8, 101u8], seq![(208u8, spec_pat_absolute())])
}

pub open spec fn entry_beq() -> (Seq<u8>, Seq<(u8, Seq<TokenType>)>) {
    (seq![98u8, 101u8, 113u8], seq![(240u8, spec_pat_absolute())])
}

pub open spec fn entry_brk() -> (Seq<u8>, Seq<(u8, Seq<TokenType>)>) {
    (seq![98u8, 114u8, 107u8], seq![(0u8, spec_pat_empty())])
}

pub open spec fn entry_cmp() -> (Seq<u8>, Seq<(u8, Seq<TokenType>)>) {
    (seq![99u8, 109u8, 112u8], seq![(193u8, spec_pat_indirectx()), (209u8, spec_pat_indirecty()), (201u8, spec_pat_immediate1()), (197u8, spec_pat_zeropage()), (213u8, spec_pat_zeropagex()), (205u8, spec_pat_absolute()), (221u8, spec_pat_absolutex()), (217u8, spec_pat_absolutey())])
}

pub open spec fn entry_cpx() -> (Seq<u8>, Seq<(u8, Seq<TokenType>)>) {
    (seq![99u8, 112u8, 120u8], seq![(224u8, spec_pat_immediate1()), (228u8, spec_pat_zeropage()), (236u8, spec_pat_absolute())])
}

pub open spec fn entry_cpy() -> (Seq<u8>, Seq<(u8, Seq<TokenType>)>) {
    (seq![99u8, 112u8, 121u8], seq![(192u8, spec_pat_immediate1()), (196u8, spec_pat_zeropage()), (204u8, spec_pat_absolute())])
}

pub open spec fn entry_dec() -> (Seq<u8>, Seq<(u8, Seq<TokenType>)>) {
    (seq![100u8, 101u8, 99u8], seq![(198u8, spec_pat_zeropage()), (214u8, spec_pat_zeropagex()), (206u8, spec_pat_absolute()), (222u8, spec_pat_absolutex())])
}

pub open spec fn entry_eor() -> (Seq<u8>, Seq<(u8, Seq<TokenType>)>) {
    (seq![101u8, 111u8, 114u8], seq![(65u8, spec_pat_indirectx()), (81u8, spec_pat_indirecty()), (73u8, spec_pat_immediate1()), (69u8, spec_pat_zeropage()), (85u8, spec_pat_zeropagex()), (77u8, spec_pat_absolute()), (93u8, spec_pat_absolutex()), (89u8, spec_pat_absolutey())])
}

pub open spec fn entry_clc() -> (Seq<u8>, Seq<(u8, Seq<TokenType>)>) {
    (seq![99u8, 108u8, 99u8], seq![(24u8, spec_pat_empty())])
}

pub open spec fn entry_sec() -> (Seq<u8>, Seq<(u8, Seq<TokenType>)>) {
    (seq![115u8, 101u8, 99u8], seq![(56u8, spec_pat_empty())])
}

pub open spec fn entry_cli() -> (Seq<u8>, Seq<(u8, Seq<TokenType>)>) {
    (seq![99u8, 108u8, 105u8], seq![(88u8, spec_pat_empty())])
}

pub open spec fn entry_sei() -> (Seq<u8>, Seq<(u8, Seq<TokenType>)>) {
    (seq![115u8, 101u8, 105u8], seq![(120u8, spec_pat_empty())])
}

pub open spec fn entry_clv() -> (Seq<u8>, Seq<(u8, Seq<TokenType>)>) {
    (seq![99u8, 108u8, 118u8], seq![(184u8, spec_pat_empty())])
}

pub open spec fn entry_cld() -> (Seq<u8>, Seq<(u8, Seq<TokenType>)>) {
    (seq![99u8, 108u8, 100u8], seq![(216u8, spec_pat_empty())])
}

pub open spec fn entry_sed() -> (Seq<u8>, Seq<(u8, Seq<TokenType>)>) {
    (seq![115u8, 101u8, 100u8], seq![(248u8, spec_pat_empty())])
}

pub open spec fn entry_inc() -> (Seq<u8>, Seq<(u8, Seq<TokenType>)>) {
    (seq![105u8, 110u8, 99u8], seq![(230u8, spec_pat_zeropage()), (246u8, spec_pat_zeropagex()), (238u8, spec_pat_absolute()), (254u8, spec_pat_absolutex())])
}

pub open spec fn entry_jmp() -> (Seq<u8>, Seq<(u8, Seq<TokenType>)>) {
    (seq![106u8, 109u8, 112u8], seq![(108u8, spec_pat_indirect()), (76u8, spec_pat_absolute())])
}

pub open spec fn entry_jsr() -> (Seq<u8>, Seq<(u8, Seq<TokenType>)>) {
    (seq![106u8, 115u8, 114u8], seq![(32u8, spec_pat_absolute())])
}

pub open spec fn entry_lda() -> (Seq<u8>, Seq<(u8, Seq<TokenType>)>) {
    (seq![108u8, 100u8, 97u8], seq![(185u8, spec_pat_absolutey()), (161u8, spec_pat_indirectx()), (177u8, spec_pat_indirecty()), (169u8, spec_pat_immediate1()), (165u8, spec_pat_zeropage()), (181u8, spec_pat_zeropagex()), (173u8, spec_pat_absolute()), (189u8, spec_pat_absolutex())])
}

pub open spec fn entry_ldx() -> (Seq<u8>, Seq<(u8, Seq<TokenType>)>) {
    (seq![108u8, 100u8, 120u8], seq![(162u8, spec_pat_immediate1()), (166u8, spec_pat_zeropage()), (182u8, spec_pat_zeropagey()), (174u8, spec_pat_absolute()), (190u8, spec_pat_absolutey())])
}

pub open spec fn entry_ldy() -> (Seq<u8>, Seq<(u8, Seq<TokenType>)>) {
    (seq![108u8, 100u8, 121u8], seq![(160u8, spec_pat_immediate1()), (164u8, spec_pat_zeropage()), (180u8, spec_pat_zeropagex()), (172u8, spec_pat_absolute()), (188u8, spec_pat_absolutex())])
}

pub open spec fn entry_lsr() -> (Seq<u8>, Seq<(u8, Seq<TokenType>)>) {
    (seq![108u8, 115u8, 114u8], seq![(74u8, spec_pat_accumulator()), (70u8, spec_pat_zeropage()), (86u8, spec_pat_zeropagex()), (78u8, spec_pat_absolute()), (94u8, spec_pat_absolutex())])
}

pub open spec fn entry_nop() -> (Seq<u8>, Seq<(u8, Seq<TokenType>)>) {
    (seq![110u8, 111u8, 112u8], seq![(234u8, spec_pat_empty())])
}

pub open spec fn entry_ora() -> (Seq<u8>, Seq<(u8, Seq<TokenType>)>) {
    (seq![111u8, 114u8, 97u8], seq![(1u8, spec_pat_indirectx()), (17u8, spec_pat_indirecty()), (9u8, spec_pat_immediate1()), (5u8, spec_pat_zeropage()), (21u8, spec_pat_zeropagex()), (13u8, spec_pat_absolute()), (29u8, spec_pat_absolutex()), (25u8, spec_pat_absolutey())])
}

pub open spec fn entry_tax() -> (Seq<u8>, Seq<(u8, Seq<TokenType>)>) {
    (seq![116u8, 97u8, 120u8], seq![(170u8, spec_pat_empty())])
}

pub open spec fn entry_txa() -> (Seq<u8>, Seq<(u8, Seq<TokenType>)>) {
    (seq![116u8, 120u8, 97u8], seq![(138u8, spec_pat_empty())])
}

pub open spec fn entry_dex() -> (Seq<u8>, Seq<(u8, Seq<TokenType>)>) {
    (seq![100u8, 101u8, 120u8], seq![(202u8, spec_pat_empty())])
}

pub open spec fn entry_inx() -> (Seq<u8>, Seq<(u8, Seq<TokenType>)>) {
    (seq![105u8, 110u8, 120u8], seq![(232u8, spec_pat_empty())])
}

pub open spec fn entry_tay() -> (Seq<u8>, Seq<(u8, Seq<TokenType>)>) {
    (seq![116u8, 97u8, 121u8], seq![(168u8, spec_pat_empty())])
}

pub open spec fn entry_tya() -> (Seq<u8>, Seq<(u8, Seq<TokenType>)>) {
    (seq![116u8, 121u8, 97u8], seq![(152u8, spec_pat_empty())])
}

pub open spec fn entry_dey() -> (Seq<u8>, Seq<(u8, Seq<TokenType>)>) {
    (seq![100u8, 101u8, 121u8], seq![(136u8, spec_pat_empty())])
}

pub open spec fn entry_iny() -> (Seq<u8>, Seq<(u8, Seq<TokenType>)>) {
    (seq![105u8, 110u8, 121u8], seq![(200u8, spec_pat_empty())])
}

pub open spec fn entry_rol() -> (Seq<u8>, Seq<(u8, Seq<TokenType>)>) {
    (seq![114u8, 111u8, 108u8], seq![(42u8, spec_pat_accumulator()), (38u8, spec_pat_zeropage()), (54u8, spec_pat_zeropagex()), (46u8, spec_pat_absolute()), (62u8, spec_pat_absolutex())])
}

pub open spec fn entry_ror() -> (Seq<u8>, Seq<(u8, Seq<TokenType>)>) {
    (seq![114u8, 111u8, 114u8], seq![(106u8, spec_pat_accumulator()), (102u8, spec_pat_zeropage()), (118u8, spec_pat_zeropagex()), (110u8, spec_pat_absolute()), (126u8, spec_pat_absolutex())])
}

pub open spec fn entry_rti() -> (Seq<u8>, Seq<(u8, Seq<TokenType>)>) {
    (seq![114u8, 116u8, 105u8], seq![(64u8, spec_pat_empty())])
}

pub open spec fn entry_rts() -> (Seq<u8>, Seq<(u8, Seq<TokenType>)>) {
    (seq![114u8, 116u8, 115u8], seq![(96u8, spec_pat_empty())])
}

pub open spec fn entry_sbc() -> (Seq<u8>, Seq<(u8, Seq<TokenType>)>) {
    (seq![115u8, 98u8, 99u8], seq![(225u8, spec_pat_indirectx()), (241u8, spec_pat_indirecty()), (233u8, spec_pat_immediate1()), (229u8, spec_pat_zeropage()), (245u8, spec_pat_zeropagex()), (237u8, spec_pat_absolute()), (253u8, spec_pat_absolutex()), (249u8, spec_pat_absolutey())])
}

pub open spec fn entry_sta() -> (Seq<u8>, Seq<(u8, Seq<TokenType>)>) {
    (seq![115u8, 116u8, 97u8], seq![(129u8, spec_pat_indirectx()), (145u8, spec_pat_indirecty()), (133u8, spec_pat_zeropage()), (149u8, spec_pat_zeropagex()), (141u8, spec_pat_absolute()), (157u8, spec_pat_absolutex()), (153u8, spec_pat_absolutey())])
}

pub open spec fn entry_txs() -> (Seq<u8>, Seq<(u8, Seq<TokenType>)>) {
    (seq![116u8, 120u8, 115u8], seq![(154u8, spec_pat_empty())])
}

pub open spec fn entry_tsx() -> (Seq<u8>, Seq<(u8, Seq<TokenType>)>) {
    (seq![116u8, 115u8, 120u8], seq![(186u8, spec_pat_empty())])
}

pub open spec fn entry_pha() -> (Seq<u8>, Seq<(u8, Seq<TokenType>)>) {
    (seq![112u8, 104u8, 97u8], seq![(72u8, spec_pat_empty())])
}

pub open spec fn entry_pla() -> (Seq<u8>, Seq<(u8, Seq<TokenType>)>) {
    (seq![112u8, 108u8, 97u8], seq![(104u8, spec_pat_empty())])
}

pub open spec fn entry_php() -> (Seq<u8>, Seq<(u8, Seq<TokenType>)>) {
    (seq![112u8, 104u8, 112u8], seq![(8u8, spec_pat_empty())])
}

pub open spec fn entry_plp() -> (Seq<u8>, Seq<(u8, Seq<TokenType>)>) {
    (seq![112u8, 108u8, 112u8], seq![(40u8, spec_pat_empty())])
}

pub open spec fn entry_stx() -> (Seq<u8>, Seq<(u8, Seq<TokenType>)>) {
    (seq![115u8, 116u8, 120u8], seq![(134u8, spec_pat_zeropage()), (150u8, spec_pat_zeropagey()), (142u8, spec_pat_absolute())])
}

pub open spec fn entry_sty() -> (Seq<u8>, Seq<(u8, Seq<TokenType>)>) {
    (seq![115u8, 116u8, 121u8], seq![(132u8, spec_pat_zeropage()), (148u8, spec_pat_zeropagex()), (140u8, spec_pat_absolute())])
}

/// The whole grammar table, as specification data: the entries in the
/// order the executable table holds them.
pub open spec fn table_spec() -> Seq<(Seq<u8>, Seq<(u8, Seq<TokenType>)>)> {
    seq![entry_adc(), entry_and(), entry_asl(), entry_bit(), entry_bpl(), entry_bmi(), entry_bvc(), entry_bvs(), entry_bcc(), entry_bcs(), entry_bne(), entry_beq(), entry_brk(), entry_cmp(), entry_cpx(), entry_cpy(), entry_dec(), entry_eor(), entry_clc(), entry_sec(), entry_cli(), entry_sei(), entry_clv(), entry_cld(), entry_sed(), entry_inc(), entry_jmp(), entry_jsr(), entry_lda(), entry_ldx(), entry_ldy(), entry_lsr(), entry_nop(), entry_ora(), entry_tax(), entry_txa(), entry_dex(), entry_inx(), entry_tay(), entry_tya(), entry_dey(), entry_iny(), entry_rol(), entry_ror(), entry_rti(), entry_rts(), entry_sbc(), entry_sta(), entry_txs(), entry_tsx(), entry_pha(), entry_pla(), entry_php(), entry_plp(), entry_stx(), entry_sty()]
}

fn get_map_part0(t: &mut Vec<Instruction>)
    requires
        old(t)@.len() == 0,
        table_models(old(t)@) == table_spec().take(0),
    ensures
        final(t)@.len() == 7,
        table_models(final(t)@) == table_spec().take(7),
{
    let mut alts: Vec<(u8, Vec<TokenType>)> = Vec::new();
    alts.push((113, pat_indirecty()));
    alts.push((97, pat_indirectx()));
    alts.push((105, pat_immediate1()));
    alts.push((101, pat_zeropage()));
    alts.push((117, pat_zeropagex()));
    alts.push((109, pat_absolute()));
    alts.push((125, pat_absolutex()));
    alts.push((121, pat_absolutey()));
    t.push(Instruction { string_code: mnem(97, 100, 99), opcode_grammer: alts });
    proof {
        let m = inst_model(t@[0]);
        assert(m.1 =~= entry_adc().1);
        assert(m =~~= entry_adc());
        assert(table_models(t@) =~= table_spec().take(1));
    }
    let mut alts: Vec<(u8, Vec<TokenType>)> = Vec::new();
    alts.push((33, pat_indirectx()));
    alts.push((49, pat_indirecty()));
    alts.push((41, pat_immediate1()));
    alts.push((37, pat_zeropage()));
    alts.push((53, pat_zeropagex()));
    alts.push((45, pat_absolute()));
    alts.push((61, pat_absolutex()));
    alts.push((57, pat_absolutey()));
    t.push(Instruction { string_code: mnem(97, 110, 100), opcode_grammer: alts });
    proof {
        let m = inst_model(t@[1]);
        assert(m.1 =~= entry_and().1);
        assert(m =~~= entry_and());
        assert(table_models(t@) =~= table_spec().take(2));
    }
    let mut alts: Vec<(u8, Vec<TokenType>)> = Vec::new();
    alts.push((10, pat_accumulator()));
    alts.push((6, pat_zeropage()));
    alts.push((22, pat_zeropagex()));
    alts.push((14, pat_absolute()));
    alts.push((30, pat_absolutex()));
    t.push(Instruction { string_code: mnem(97, 115, 108), opcode_grammer: alts });
    proof {
        let m = inst_model(t@[2]);
        assert(m.1 =~= entry_asl().1);
        assert(m =~~= entry_asl());
        assert(table_models(t@) =~= table_spec().take(3));
    }
    let mut alts: Vec<(u8, Vec<TokenType>)> = Vec::new();
    alts.push((36, pat_zeropage()));
    alts.push((44, pat_absolute()));
    t.push(Instruction { string_code: mnem(98, 105, 116), opcode_grammer: alts });
    proof {
        let m = inst_model(t@[3]);
        assert(m.1 =~= entry_bit().1);
        assert(m =~~= entry_bit());
        assert(table_models(t@) =~= table_spec().take(4));
    }
    let mut alts: Vec<(u8, Vec<TokenType>)> = Vec::new();
    alts.push((16, pat_absolute()));
    t.push(Instruction { string_code: mnem(98, 112, 108), opcode_grammer: alts });
    proof {
        let m = inst_model(t@[4]);
        assert(m.1 =~= entry_bpl().1);
        assert(m =~~= entry_bpl());
        assert(table_models(t@) =~= table_spec().take(5));
    }
    let mut alts: Vec<(u8, Vec<TokenType>)> = Vec::new();
    alts.push((48, pat_absolute()));
    t.push(Instruction { string_code: mnem(98, 109, 105), opcode_grammer: alts });
    proof {
        let m = inst_model(t@[5]);
        assert(m.1 =~= entry_bmi().1);
        assert(m =~~= entry_bmi());
        assert(table_models(t@) =~= table_spec().take(6));
    }
    let mut alts: Vec<(u8, Vec<TokenType>)> = Vec::new();
    alts.push((80, pat_absolute()));
    t.push(Instruction { string_code: mnem(98, 118, 99), opcode_grammer: alts });
    proof {
        let m = inst_model(t@[6]);
        assert(m.1 =~= entry_bvc().1);
        assert(m =~~= entry_bvc());
        assert(table_models(t@) =~= table_spec().take(7));
    }
}

fn get_map_part1(t: &mut Vec<Instruction>)
    requires
        old(t)@.len() == 7,
        table_models(old(t)@) == table_spec().take(7),
    ensures
        final(t)@.len() == 14,
        table_models(final(t)@) == table_spec().take(14),
{
    let mut alts: Vec<(u8, Vec<TokenType>)> = Vec::new();
    alts.push((112, pat_absolute()));
    t.push(Instruction { string_code: mnem(98, 118, 115), opcode_grammer: alts });
    proof {
        let m = inst_model(t@[7]);
        assert(m.1 =~= entry_bvs().1);
        assert(m =~~= entry_bvs());
        assert(table_models(t@) =~= table_spec().take(8));
    }
    let mut alts: Vec<(u8, Vec<TokenType>)> = Vec::new();
    alts.push((144, pat_absolute()));
    t.push(Instruction { string_code: mnem(98, 99, 99), opcode_grammer: alts });
    proof {
        let m = inst_model(t@[8]);
        assert(m.1 =~= entry_bcc().1);
        assert(m =~~= entry_bcc());
        assert(table_models(t@) =~= table_spec().take(9));
    }
    let mut alts: Vec<(u8, Vec<TokenType>)> = Vec::new();
    alts.push((176, pat_absolute()));
    t.push(Instruction { string_code: mnem(98, 99, 115), opcode_grammer: alts });
    proof {
        let m = inst_model(t@[9]);
        assert(m.1 =~= entry_bcs().1);
        assert(m =~~= entry_bcs());
        assert(table_models(t@) =~= table_spec().take(10));
    }
    let mut alts: Vec<(u8, Vec<TokenType>)> = Vec::new();
    alts.push((208, pat_absolute()));
    t.push(Instruction { string_code: mnem(98, 110, 101), opcode_grammer: alts });
    proof {
        let m = inst_model(t@[10]);
        assert(m.1 =~= entry_bne().1);
        assert(m =~~= entry_bne());
        assert(table_models(t@) =~= table_spec().take(11));
    }
    let mut alts: Vec<(u8, Vec<TokenType>)> = Vec::new();
    alts.push((240, pat_absolute()));
    t.push(Instruction { string_code: mnem(98, 101, 113), opcode_grammer: alts });
    proof {
        let m = inst_model(t@[11]);
        assert(m.1 =~= entry_beq().1);
        assert(m =~~= entry_beq());
        assert(table_models(t@) =~= table_spec().take(12));
    }
    let mut alts: Vec<(u8, Vec<TokenType>)> = Vec::new();
    alts.push((0, pat_empty()));
    t.push(Instruction { string_code: mnem(98, 114, 107), opcode_grammer: alts });
    proof {
        let m = inst_model(t@[12]);
        assert(m.1 =~= entry_brk().1);
        assert(m =~~= entry_brk());
        assert(table_models(t@) =~= table_spec().take(13));
    }
    let mut alts: Vec<(u8, Vec<TokenType>)> = Vec::new();
    alts.push((193, pat_indirectx()));
    alts.push((209, pat_indirecty()));
    alts.push((201, pat_immediate1()));
    alts.push((197, pat_zeropage()));
    alts.push((213, pat_zeropagex()));
    alts.push((205, pat_absolute()));
    alts.push((221, pat_absolutex()));
    alts.push((217, pat_absolutey()));
    t.push(Instruction { string_code: mnem(99, 109, 112), opcode_grammer: alts });
    proof {
        let m = inst_model(t@[13]);
        assert(m.1 =~= entry_cmp().1);
        assert(m =~~= entry_cmp());
        assert(table_models(t@) =~= table_spec().take(14));
    }
}

fn get_map_part2(t: &mut Vec<Instruction>)
    requires
        old(t)@.len() == 14,
        table_models(old(t)@) == table_spec().take(14),
    ensures
        final(t)@.len() == 21,
        table_models(final(t)@) == table_spec().take(21),
{
    let mut alts: Vec<(u8, Vec<TokenType>)> = Vec::new();
    alts.push((224, pat_immediate1()));
    alts.push((228, pat_zeropage()));
    alts.push((236, pat_absolute()));
    t.push(Instruction { string_code: mnem(99, 112, 120), opcode_grammer: alts });
    proof {
        let m = inst_model(t@[14]);
        assert(m.1 =~= entry_cpx().1);
        assert(m =~~= entry_cpx());
        assert(table_models(t@) =~= table_spec().take(15));
    }
    let mut alts: Vec<(u8, Vec<TokenType>)> = Vec::new();
    alts.push((192, pat_immediate1()));
    alts.push((196, pat_zeropage()));
    alts.push((204, pat_absolute()));
    t.push(Instruction { string_code: mnem(99, 112, 121), opcode_grammer: alts });
    proof {
        let m = inst_model(t@[15]);
        assert(m.1 =~= entry_cpy().1);
        assert(m =~~= entry_cpy());
        assert(table_models(t@) =~= table_spec().take(16));
    }
    let mut alts: Vec<(u8, Vec<TokenType>)> = Vec::new();
    alts.push((198, pat_zeropage()));
    alts.push((214, pat_zeropagex()));
    alts.push((206, pat_absolute()));
    alts.push((222, pat_absolutex()));
    t.push(Instruction { string_code: mnem(100, 101, 99), opcode_grammer: alts });
    proof {
        let m = inst_model(t@[16]);
        assert(m.1 =~= entry_dec().1);
        assert(m =~~= entry_dec());
        assert(table_models(t@) =~= table_spec().take(17));
    }
    let mut alts: Vec<(u8, Vec<TokenType>)> = Vec::new();
    alts.push((65, pat_indirectx()));
    alts.push((81, pat_indirecty()));
    alts.push((73, pat_immediate1()));
    alts.push((69, pat_zeropage()));
    alts.push((85, pat_zeropagex()));
    alts.push((77, pat_absolute()));
    alts.push((93, pat_absolutex()));
    alts.push((89, pat_absolutey()));
    t.push(Instruction { string_code: mnem(101, 111, 114), opcode_grammer: alts });
    proof {
        let m = inst_model(t@[17]);
        assert(m.1 =~= entry_eor().1);
        assert(m =~~= entry_eor());
        assert(table_models(t@) =~= table_spec().take(18));
    }
    let mut alts: Vec<(u8, Vec<TokenType>)> = Vec::new();
    alts.push((24, pat_empty()));
    t.push(Instruction { string_code: mnem(99, 108, 99), opcode_grammer: alts });
    proof {
        let m = inst_model(t@[18]);
        assert(m.1 =~= entry_clc().1);
        assert(m =~~= entry_clc());
        assert(table_models(t@) =~= table_spec().take(19));
    }
    let mut alts: Vec<(u8, Vec<TokenType>)> = Vec::new();
    alts.push((56, pat_empty()));
    t.push(Instruction { string_code: mnem(115, 101, 99), opcode_grammer: alts });
    proof {
        let m = inst_model(t@[19]);
        assert(m.1 =~= entry_sec().1);
        assert(m =~~= entry_sec());
        assert(table_models(t@) =~= table_spec().take(20));
    }
    let mut alts: Vec<(u8, Vec<TokenType>)> = Vec::new();
    alts.push((88, pat_empty()));
    t.push(Instruction { string_code: mnem(99, 108, 105), opcode_grammer: alts });
    proof {
        let m = inst_model(t@[20]);
        assert(m.1 =~= entry_cli().1);
        assert(m =~~= entry_cli());
        assert(table_models(t@) =~= table_spec().take(21));
    }
}

fn get_map_part3(t: &mut Vec<Instruction>)
    requires
        old(t)@.len() == 21,
        table_models(old(t)@) == table_spec().take(21),
    ensures
        final(t)@.len() == 28,
        table_models(final(t)@) == table_spec().take(28),
{
    let mut alts: Vec<(u8, Vec<TokenType>)> = Vec::new();
    alts.push((120, pat_empty()));
    t.push(Instruction { string_code: mnem(115, 101, 105), opcode_grammer: alts });
    proof {
        let m = inst_model(t@[21]);
        assert(m.1 =~= entry_sei().1);
        assert(m =~~= entry_sei());
        assert(table_models(t@) =~= table_spec().take(22));
    }
    let mut alts: Vec<(u8, Vec<TokenType>)> = Vec::new();
    alts.push((184, pat_empty()));
    t.push(Instruction { string_code: mnem(99, 108, 118), opcode_grammer: alts });
    proof {
        let m = inst_model(t@[22]);
        assert(m.1 =~= entry_clv().1);
        assert(m =~~= entry_clv());
        assert(table_models(t@) =~= table_spec().take(23));
    }
    let mut alts: Vec<(u8, Vec<TokenType>)> = Vec::new();
    alts.push((216, pat_empty()));
    t.push(Instruction { string_code: mnem(99, 108, 100), opcode_grammer: alts });
    proof {
        let m = inst_model(t@[23]);
        assert(m.1 =~= entry_cld().1);
        assert(m =~~= entry_cld());
        assert(table_models(t@) =~= table_spec().take(24));
    }
    let mut alts: Vec<(u8, Vec<TokenType>)> = Vec::new();
    alts.push((248, pat_empty()));
    t.push(Instruction { string_code: mnem(115, 101, 100), opcode_grammer: alts });
    proof {
        let m = inst_model(t@[24]);
        assert(m.1 =~= entry_sed().1);
        assert(m =~~= entry_sed());
        assert(table_models(t@) =~= table_spec().take(25));
    }
    let mut alts: Vec<(u8, Vec<TokenType>)> = Vec::new();
    alts.push((230, pat_zeropage()));
    alts.push((246, pat_zeropagex()));
    alts.push((238, pat_absolute()));
    alts.push((254, pat_absolutex()));
    t.push(Instruction { string_code: mnem(105, 110, 99), opcode_grammer: alts });
    proof {
        let m = inst_model(t@[25]);
        assert(m.1 =~= entry_inc().1);
        assert(m =~~= entry_inc());
        assert(table_models(t@) =~= table_spec().take(26));
    }
    let mut alts: Vec<(u8, Vec<TokenType>)> = Vec::new();
    alts.push((108, pat_indirect()));
    alts.push((76, pat_absolute()));
    t.push(Instruction { string_code: mnem(106, 109, 112), opcode_grammer: alts });
    proof {
        let m = inst_model(t@[26]);
        assert(m.1 =~= entry_jmp().1);
        assert(m =~~= entry_jmp());
        assert(table_models(t@) =~= table_spec().take(27));
    }
    let mut alts: Vec<(u8, Vec<TokenType>)> = Vec::new();
    alts.push((32, pat_absolute()));
    t.push(Instruction { string_code: mnem(106, 115, 114), opcode_grammer: alts });
    proof {
        let m = inst_model(t@[27]);
        assert(m.1 =~= entry_jsr().1);
        assert(m =~~= entry_jsr());
        assert(table_models(t@) =~= table_spec().take(28));
    }
}

fn get_map_part4(t: &mut Vec<Instruction>)
    requires
        old(t)@.len() == 28,
        table_models(old(t)@) == table_spec().take(28),
    ensures
        final(t)@.len() == 35,
        table_models(final(t)@) == table_spec().take(35),
{
    let mut alts: Vec<(u8, Vec<TokenType>)> = Vec::new();
    alts.push((185, pat_absolutey()));
    alts.push((161, pat_indirectx()));
    alts.push((177, pat_indirecty()));
    alts.push((169, pat_immediate1()));
    alts.push((165, pat_zeropage()));
    alts.push((181, pat_zeropagex()));
    alts.push((173, pat_absolute()));
    alts.push((189, pat_absolutex()));
    t.push(Instruction { string_code: mnem(108, 100, 97), opcode_grammer: alts });
    proof {
        let m = inst_model(t@[28]);
        assert(m.1 =~= entry_lda().1);
        assert(m =~~= entry_lda());
        assert(table_models(t@) =~= table_spec().take(29));
    }
    let mut alts: Vec<(u8, Vec<TokenType>)> = Vec::new();
    alts.push((162, pat_immediate1()));
    alts.push((166, pat_zeropage()));
    alts.push((182, pat_zeropagey()));
    alts.push((174, pat_absolute()));
    alts.push((190, pat_absolutey()));
    t.push(Instruction { string_code: mnem(108, 100, 120), opcode_grammer: alts });
    proof {
        let m = inst_model(t@[29]);
        assert(m.1 =~= entry_ldx().1);
        assert(m =~~= entry_ldx());
        assert(table_models(t@) =~= table_spec().take(30));
    }
    let mut alts: Vec<(u8, Vec<TokenType>)> = Vec::new();
    alts.push((160, pat_immediate1()));
    alts.push((164, pat_zeropage()));
    alts.push((180, pat_zeropagex()));
    alts.push((172, pat_absolute()));
    alts.push((188, pat_absolutex()));
    t.push(Instruction { string_code: mnem(108, 100, 121), opcode_grammer: alts });
    proof {
        let m = inst_model(t@[30]);
        assert(m.1 =~= entry_ldy().1);
        assert(m =~~= entry_ldy());
        assert(table_models(t@) =~= table_spec().take(31));
    }
    let mut alts: Vec<(u8, Vec<TokenType>)> = Vec::new();
    alts.push((74, pat_accumulator()));
    alts.push((70, pat_zeropage()));
    alts.push((86, pat_zeropagex()));
    alts.push((78, pat_absolute()));
    alts.push((94, pat_absolutex()));
    t.push(Instruction { string_code: mnem(108, 115, 114), opcode_grammer: alts });
    proof {
        let m = inst_model(t@[31]);
        assert(m.1 =~= entry_lsr().1);
        assert(m =~~= entry_lsr());
        assert(table_models(t@) =~= table_spec().take(32));
    }
    let mut alts: Vec<(u8, Vec<TokenType>)> = Vec::new();
    alts.push((234, pat_empty()));
    t.push(Instruction { string_code: mnem(110, 111, 112), opcode_grammer: alts });
    proof {
        let m = inst_model(t@[32]);
        assert(m.1 =~= entry_nop().1);
        assert(m =~~= entry_nop());
        assert(table_models(t@) =~= table_spec().take(33));
    }
    let mut alts: Vec<(u8, Vec<TokenType>)> = Vec::new();
    alts.push((1, pat_indirectx()));
    alts.push((17, pat_indirecty()));
    alts.push((9, pat_immediate1()));
    alts.push((5, pat_zeropage()));
    alts.push((21, pat_zeropagex()));
    alts.push((13, pat_absolute()));
    alts.push((29, pat_absolutex()));
    alts.push((25, pat_absolutey()));
    t.push(Instruction { string_code: mnem(111, 114, 97), opcode_grammer: alts });
    proof {
        let m = inst_model(t@[33]);
        assert(m.1 =~= entry_ora().1);
        assert(m =~~= entry_ora());
        assert(table_models(t@) =~= table_spec().take(34));
    }
    let mut alts: Vec<(u8, Vec<TokenType>)> = Vec::new();
    alts.push((170, pat_empty()));
    t.push(Instruction { string_code: mnem(116, 97, 120), opcode_grammer: alts });
    proof {
        let m = inst_model(t@[34]);
        assert(m.1 =~= entry_tax().1);
        assert(m =~~= entry_tax());
        assert(table_models(t@) =~= table_spec().take(35));
    }
}

fn get_map_part5(t: &mut Vec<Instruction>)
    requires
        old(t)@.len() == 35,
        table_models(old(t)@) == table_spec().take(35),
    ensures
        final(t)@.len() == 42,
        table_models(final(t)@) == table_spec().take(42),
{
    let mut alts: Vec<(u8, Vec<TokenType>)> = Vec::new();
    alts.push((138, pat_empty()));
    t.push(Instruction { string_code: mnem(116, 120, 97), opcode_grammer: alts });
    proof {
        let m = inst_model(t@[35]);
        assert(m.1 =~= entry_txa().1);
        assert(m =~~= entry_txa());
        assert(table_models(t@) =~= table_spec().take(36));
    }
    let mut alts: Vec<(u8, Vec<TokenType>)> = Vec::new();
    alts.push((202, pat_empty()));
    t.push(Instruction { string_code: mnem(100, 101, 120), opcode_grammer: alts });
    proof {
        let m = inst_model(t@[36]);
        assert(m.1 =~= entry_dex().1);
        assert(m =~~= entry_dex());
        assert(table_models(t@) =~= table_spec().take(37));
    }
    let mut alts: Vec<(u8, Vec<TokenType>)> = Vec::new();
    alts.push((232, pat_empty()));
    t.push(Instruction { string_code: mnem(105, 110, 120), opcode_grammer: alts });
    proof {
        let m = inst_model(t@[37]);
        assert(m.1 =~= entry_inx().1);
        assert(m =~~= entry_inx());
        assert(table_models(t@) =~= table_spec().take(38));
    }
    let mut alts: Vec<(u8, Vec<TokenType>)> = Vec::new();
    alts.push((168, pat_empty()));
    t.push(Instruction { string_code: mnem(116, 97, 121), opcode_grammer: alts });
    proof {
        let m = inst_model(t@[38]);
        assert(m.1 =~= entry_tay().1);
        assert(m =~~= entry_tay());
        assert(table_models(t@) =~= table_spec().take(39));
    }
    let mut alts: Vec<(u8, Vec<TokenType>)> = Vec::new();
    alts.push((152, pat_empty()));
    t.push(Instruction { string_code: mnem(116, 121, 97), opcode_grammer: alts });
    proof {
        let m = inst_model(t@[39]);
        assert(m.1 =~= entry_tya().1);
        assert(m =~~= entry_tya());
        assert(table_models(t@) =~= table_spec().take(40));
    }
    let mut alts: Vec<(u8, Vec<TokenType>)> = Vec::new();
    alts.push((136, pat_empty()));
    t.push(Instruction { string_code: mnem(100, 101, 121), opcode_grammer: alts });
    proof {
        let m = inst_model(t@[40]);
        assert(m.1 =~= entry_dey().1);
        assert(m =~~= entry_dey());
        assert(table_models(t@) =~= table_spec().take(41));
    }
    let mut alts: Vec<(u8, Vec<TokenType>)> = Vec::new();
    alts.push((200, pat_empty()));
    t.push(Instruction { string_code: mnem(105, 110, 121), opcode_grammer: alts });
    proof {
        let m = inst_model(t@[41]);
        assert(m.1 =~= entry_iny().1);
        assert(m =~~= entry_iny());
        assert(table_models(t@) =~= table_spec().take(42));
    }
}

fn get_map_part6(t: &mut Vec<Instruction>)
    requires
        old(t)@.len() == 42,
        table_models(old(t)@) == table_spec().take(42),
    ensures
        final(t)@.len() == 49,
        table_models(final(t)@) == table_spec().take(49),
{
    let mut alts: Vec<(u8, Vec<TokenType>)> = Vec::new();
    alts.push((42, pat_accumulator()));
    alts.push((38, pat_zeropage()));
    alts.push((54, pat_zeropagex()));
    alts.push((46, pat_absolute()));
    alts.push((62, pat_absolutex()));
    t.push(Instruction { string_code: mnem(114, 111, 108), opcode_grammer: alts });
    proof {
        let m = inst_model(t@[42]);
        assert(m.1 =~= entry_rol().1);
        assert(m =~~= entry_rol());
        assert(table_models(t@) =~= table_spec().take(43));
    }
    let mut alts: Vec<(u8, Vec<TokenType>)> = Vec::new();
    alts.push((106, pat_accumulator()));
    alts.push((102, pat_zeropage()));
    alts.push((118, pat_zeropagex()));
    alts.push((110, pat_absolute()));
    alts.push((126, pat_absolutex()));
    t.push(Instruction { string_code: mnem(114, 111, 114), opcode_grammer: alts });
    proof {
        let m = inst_model(t@[43]);
        assert(m.1 =~= entry_ror().1);
        assert(m =~~= entry_ror());
        assert(table_models(t@) =~= table_spec().take(44));
    }
    let mut alts: Vec<(u8, Vec<TokenType>)> = Vec::new();
    alts.push((64, pat_empty()));
    t.push(Instruction { string_code: mnem(114, 116, 105), opcode_grammer: alts });
    proof {
        let m = inst_model(t@[44]);
        assert(m.1 =~= entry_rti().1);
        assert(m =~~= entry_rti());
        assert(table_models(t@) =~= table_spec().take(45));
    }
    let mut alts: Vec<(u8, Vec<TokenType>)> = Vec::new();
    alts.push((96, pat_empty()));
    t.push(Instruction { string_code: mnem(114, 116, 115), opcode_grammer: alts });
    proof {
        let m = inst_model(t@[45]);
        assert(m.1 =~= entry_rts().1);
        assert(m =~~= entry_rts());
        assert(table_models(t@) =~= table_spec().take(46));
    }
    let mut alts: Vec<(u8, Vec<TokenType>)> = Vec::new();
    alts.push((225, pat_indirectx()));
    alts.push((241, pat_indirecty()));
    alts.push((233, pat_immediate1()));
    alts.push((229, pat_zeropage()));
    alts.push((245, pat_zeropagex()));
    alts.push((237, pat_absolute()));
    alts.push((253, pat_absolutex()));
    alts.push((249, pat_absolutey()));
    t.push(Instruction { string_code: mnem(115, 98, 99), opcode_grammer: alts });
    proof {
        let m = inst_model(t@[46]);
        assert(m.1 =~= entry_sbc().1);
        assert(m =~~= entry_sbc());
        assert(table_models(t@) =~= table_spec().take(47));
    }
    let mut alts: Vec<(u8, Vec<TokenType>)> = Vec::new();
    alts.push((129, pat_indirectx()));
    alts.push((145, pat_indirecty()));
    alts.push((133, pat_zeropage()));
    alts.push((149, pat_zeropagex()));
    alts.push((141, pat_absolute()));
    alts.push((157, pat_absolutex()));
    alts.push((153, pat_absolutey()));
    t.push(Instruction { string_code: mnem(115, 116, 97), opcode_grammer: alts });
    proof {
        let m = inst_model(t@[47]);
        assert(m.1 =~= entry_sta().1);
        assert(m =~~= entry_sta());
        assert(table_models(t@) =~= table_spec().take(48));
    }
    let mut alts: Vec<(u8, Vec<TokenType>)> = Vec::new();
    alts.push((154, pat_empty()));
    t.push(Instruction { string_code: mnem(116, 120, 115), opcode_grammer: alts });
    proof {
        let m = inst_model(t@[48]);
        assert(m.1 =~= entry_txs().1);
        assert(m =~~= entry_txs());
        assert(table_models(t@) =~= table_spec().take(49));
    }
}

fn get_map_part7(t: &mut Vec<Instruction>)
    requires
        old(t)@.len() == 49,
        table_models(old(t)@) == table_spec().take(49),
    ensures
        final(t)@.len() == 56,
        table_models(final(t)@) == table_spec().take(56),
{
    let mut alts: Vec<(u8, Vec<TokenType>)> = Vec::new();
    alts.push((186, pat_empty()));
    t.push(Instruction { string_code: mnem(116, 115, 120), opcode_grammer: alts });
    proof {
        let m = inst_model(t@[49]);
        assert(m.1 =~= entry_tsx().1);
        assert(m =~~= entry_tsx());
        assert(table_models(t@) =~= table_spec().take(50));
    }
    let mut alts: Vec<(u8, Vec<TokenType>)> = Vec::new();
    alts.push((72, pat_empty()));
    t.push(Instruction { string_code: mnem(112, 104, 97), opcode_grammer: alts });
    proof {
        let m = inst_model(t@[50]);
        assert(m.1 =~= entry_pha().1);
        assert(m =~~= entry_pha());
        assert(table_models(t@) =~= table_spec().take(51));
    }
    let mut alts: Vec<(u8, Vec<TokenType>)> = Vec::new();
    alts.push((104, pat_empty()));
    t.push(Instruction { string_code: mnem(112, 108, 97), opcode_grammer: alts });
    proof {
        let m = inst_model(t@[51]);
        assert(m.1 =~= entry_pla().1);
        assert(m =~~= entry_pla());
        assert(table_models(t@) =~= table_spec().take(52));
    }
    let mut alts: Vec<(u8, Vec<TokenType>)> = Vec::new();
    alts.push((8, pat_empty()));
    t.push(Instruction { string_code: mnem(112, 104, 112), opcode_grammer: alts });
    proof {
        let m = inst_model(t@[52]);
        assert(m.1 =~= entry_php().1);
        assert(m =~~= entry_php());
        assert(table_models(t@) =~= table_spec().take(53));
    }
    let mut alts: Vec<(u8, Vec<TokenType>)> = Vec::new();
    alts.push((40, pat_empty()));
    t.push(Instruction { string_code: mnem(112, 108, 112), opcode_grammer: alts });
    proof {
        let m = inst_model(t@[53]);
        assert(m.1 =~= entry_plp().1);
        assert(m =~~= entry_plp());
        assert(table_models(t@) =~= table_spec().take(54));
    }
    let mut alts: Vec<(u8, Vec<TokenType>)> = Vec::new();
    alts.push((134, pat_zeropage()));
    alts.push((150, pat_zeropagey()));
    alts.push((142, pat_absolute()));
    t.push(Instruction { string_code: mnem(115, 116, 120), opcode_grammer: alts });
    proof {
        let m = inst_model(t@[54]);
        assert(m.1 =~= entry_stx().1);
        assert(m =~~= entry_stx());
        assert(table_models(t@) =~= table_spec().take(55));
    }
    let mut alts: Vec<(u8, Vec<TokenType>)> = Vec::new();
    alts.push((132, pat_zeropage()));
    alts.push((148, pat_zeropagex()));
    alts.push((140, pat_absolute()));
    t.push(Instruction { string_code: mnem(115, 116, 121), opcode_grammer: alts });
    proof {
        let m = inst_model(t@[55]);
        assert(m.1 =~= entry_sty().1);
        assert(m =~~= entry_sty());
        assert(table_models(t@) =~= table_spec().take(56));
    }
}

impl Instruction {
    /// Builds the full grammar table.
    pub fn get_map() -> (t: Vec<Instruction>)
        ensures
            table_models(t@) == table_spec(),
            t@.len() == 56,
    {
        let mut t: Vec<Instruction> = Vec::new();
        proof {
            assert(table_models(t@) =~= table_spec().take(0));
        }
        get_map_part0(&mut t);
        get_map_part1(&mut t);
        get_map_part2(&mut t);
        get_map_part3(&mut t);
        get_map_part4(&mut t);
        get_map_part5(&mut t);
        get_map_part6(&mut t);
        get_map_part7(&mut t);
        proof {
            assert(table_spec().take(56) =~= table_spec());
        }
        t
    }
}

} // verus!
