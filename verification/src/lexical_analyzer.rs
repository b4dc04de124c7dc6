//! The lexer: turns source lines (bytes) into a stream of typed tokens.
//!
//! Each line is scanned left to right.  An ordered list of pattern matchers
//! is tried at the front of the remaining text and the first that matches
//! yields the next token; a catch-all pattern collects anything that no
//! other matcher accepts, so a non-empty line always yields a token.  Every
//! line that produced at least one real token is terminated by a synthetic
//! `EOL` token, and the whole stream by a single final `EOF` token.

use vstd::prelude::*;
use crate::instruction::is_mnemonic;
use crate::instruction::spec_is_mnemonic;

verus! {

/// The kind of a lexical token.
#[derive(Clone, Copy, PartialEq, Eq, Structural, Debug)]
pub enum TokenType {
    Instruction,
    RegX,
    RegY,
    RegA,
    Num1Bytes,
    Num2Bytes,
    Character,
    StringLit,
    HashMark,
    Comment,
    LeftParenth,
    RightParenth,
    Comma,
    Colon,
    Equals,
    Plus,
    Minus,
    Times,
    Divide,
    Label,
    Directive,
    Garbage,
    EOF,
    EOL,
}

/// One lexical token: its kind, its text, and the two line counters.
/// `file_line` counts every physical line; `logical_line` counts only the
/// lines that produced at least one real token.
pub struct Token {
    pub token_type: TokenType,
    pub value: Vec<u8>,
    pub logical_line: u32,
    pub file_line: u32,
}

/// The mathematical image of a token, used in specifications.
pub ghost struct TokenModel {
    pub token_type: TokenType,
    pub value: Seq<u8>,
    pub logical_line: u32,
    pub file_line: u32,
}

impl Token {
    pub open spec fn model(self) -> TokenModel {
        TokenModel {
            token_type: self.token_type,
            value: self.value@,
            logical_line: self.logical_line,
            file_line: self.file_line,
        }
    }

    /// An exact copy of the token.
    pub fn dup(&self) -> (t: Token)
        ensures
            t.model() == self.model(),
    {
        Token {
            token_type: self.token_type,
            value: clone_bytes(&self.value),
            logical_line: self.logical_line,
            file_line: self.file_line,
        }
    }
}

/// An exact copy of a byte vector.
pub fn clone_bytes(v: &Vec<u8>) -> (r: Vec<u8>)
    ensures
        r@ == v@,
{
    let mut r: Vec<u8> = Vec::new();
    let mut i: usize = 0;
    while i < v.len()
        invariant
            i <= v@.len(),
            r@ == v@.take(i as int),
        decreases v@.len() - i,
    {
        r.push(v[i]);
        i = i + 1;
        proof {
            assert(r@ =~= v@.take(i as int));
        }
    }
    proof {
        assert(v@.take(v@.len() as int) =~= v@);
    }
    r
}

// ---------------------------------------------------------------------------
// Byte classification
// ---------------------------------------------------------------------------

pub open spec fn is_space(c: u8) -> bool {
    c == 32 || c == 9 || c == 13
}

pub open spec fn is_digit(c: u8) -> bool {
    48 <= c <= 57
}

pub open spec fn is_hex_digit(c: u8) -> bool {
    is_digit(c) || (97 <= c <= 102) || (65 <= c <= 70)
}

pub open spec fn is_alpha(c: u8) -> bool {
    (97 <= c <= 122) || (65 <= c <= 90)
}

pub open spec fn is_alnum(c: u8) -> bool {
    is_alpha(c) || is_digit(c)
}

/// A word character: letters, digits and the underscore.  The matchers that
/// recognise keywords and numbers demand a non-word character (or the end of
/// the line) right after the match.
pub open spec fn is_word(c: u8) -> bool {
    is_alnum(c) || c == 95
}

/// The characters that may appear in a label.
pub open spec fn is_label_char(c: u8) -> bool {
    is_alnum(c) || c == 95 || c == 36 || c == 35 || c == 64 || c == 33 || c == 63 || c == 42
        || c == 38 || c == 94 || c == 37 || c == 126 || c == 46 || c == 59 || c == 91 || c == 93
}

/// ASCII lower-casing of one byte.
pub open spec fn spec_to_lower(c: u8) -> u8 {
    if 65 <= c <= 90 {
        (c + 32) as u8
    } else {
        c
    }
}

pub fn to_lower(c: u8) -> (r: u8)
    ensures
        r == spec_to_lower(c),
{
    if 65 <= c && c <= 90 {
        c + 32
    } else {
        c
    }
}

pub fn exec_is_space(c: u8) -> (r: bool)
    ensures
        r == is_space(c),
{
    c == 32 || c == 9 || c == 13
}

pub fn exec_is_digit(c: u8) -> (r: bool)
    ensures
        r == is_digit(c),
{
    48 <= c && c <= 57
}

pub fn exec_is_hex_digit(c: u8) -> (r: bool)
    ensures
        r == is_hex_digit(c),
{
    (48 <= c && c <= 57) || (97 <= c && c <= 102) || (65 <= c && c <= 70)
}

pub fn exec_is_alpha(c: u8) -> (r: bool)
    ensures
        r == is_alpha(c),
{
    (97 <= c && c <= 122) || (65 <= c && c <= 90)
}

pub fn exec_is_word(c: u8) -> (r: bool)
    ensures
        r == is_word(c),
{
    exec_is_alpha(c) || exec_is_digit(c) || c == 95
}

pub fn exec_is_label_char(c: u8) -> (r: bool)
    ensures
        r == is_label_char(c),
{
    exec_is_alpha(c) || exec_is_digit(c) || c == 95 || c == 36 || c == 35 || c == 64 || c == 33
        || c == 63 || c == 42 || c == 38 || c == 94 || c == 37 || c == 126 || c == 46 || c == 59
        || c == 91 || c == 93
}

// ---------------------------------------------------------------------------
// Numeric values
// ---------------------------------------------------------------------------

/// Value of the leading decimal-digit run of `s`, read left to right.
pub open spec fn dec_value(s: Seq<u8>) -> nat
    decreases s.len(),
{
    dec_value_acc(s, 0)
}

pub open spec fn dec_value_acc(s: Seq<u8>, acc: nat) -> nat
    decreases s.len(),
{
    if s.len() == 0 || !is_digit(s[0]) {
        acc
    } else {
        dec_value_acc(s.skip(1), (acc * 10 + (s[0] - 48)) as nat)
    }
}

/// Value of the leading hexadecimal-digit run of `s`, read left to right.
pub open spec fn hex_digit_value(c: u8) -> nat {
    if is_digit(c) {
        (c - 48) as nat
    } else if 97 <= c <= 102 {
        (c - 87) as nat
    } else {
        (c - 55) as nat
    }
}

pub open spec fn hex_value_acc(s: Seq<u8>, acc: nat) -> nat
    decreases s.len(),
{
    if s.len() == 0 || !is_hex_digit(s[0]) {
        acc
    } else {
        hex_value_acc(s.skip(1), (acc * 16 + hex_digit_value(s[0])) as nat)
    }
}

pub open spec fn hex_value(s: Seq<u8>) -> nat {
    hex_value_acc(s, 0)
}

/// The numeric value of a number token's text: a leading `$` marks
/// hexadecimal, anything else is read as decimal.  Only the leading digit
/// run counts, so the value is defined for every byte string.
pub open spec fn num_token_value(s: Seq<u8>) -> nat {
    if s.len() > 0 && s[0] == 36 {
        hex_value(s.skip(1))
    } else {
        dec_value(s)
    }
}

/// Length of the decimal-digit run at the front of `s` starting at `i`.
pub open spec fn digit_run_len(s: Seq<u8>, i: int) -> nat
    decreases s.len() - i,
{
    if i < 0 || i >= s.len() || !is_digit(s[i]) {
        0
    } else {
        1 + digit_run_len(s, i + 1)
    }
}

/// Length of the hexadecimal-digit run at the front of `s` starting at `i`.
pub open spec fn hex_run_len(s: Seq<u8>, i: int) -> nat
    decreases s.len() - i,
{
    if i < 0 || i >= s.len() || !is_hex_digit(s[i]) {
        0
    } else {
        1 + hex_run_len(s, i + 1)
    }
}

/// Length of the alphabetic run starting at `i`.
pub open spec fn alpha_run_len(s: Seq<u8>, i: int) -> nat
    decreases s.len() - i,
{
    if i < 0 || i >= s.len() || !is_alpha(s[i]) {
        0
    } else {
        1 + alpha_run_len(s, i + 1)
    }
}

/// Length of the label-character run starting at `i`.
pub open spec fn label_run_len(s: Seq<u8>, i: int) -> nat
    decreases s.len() - i,
{
    if i < 0 || i >= s.len() || !is_label_char(s[i]) {
        0
    } else {
        1 + label_run_len(s, i + 1)
    }
}

/// Length of the run of non-quote characters starting at `i`.
pub open spec fn nonquote_run_len(s: Seq<u8>, i: int) -> nat
    decreases s.len() - i,
{
    if i < 0 || i >= s.len() || s[i] == 34 {
        0
    } else {
        1 + nonquote_run_len(s, i + 1)
    }
}

/// The end of the line once trailing spaces are dropped: the least index
/// after which only space characters follow.
pub open spec fn rtrim_end(s: Seq<u8>) -> int
    decreases s.len(),
{
    if s.len() > 0 && is_space(s.last()) {
        rtrim_end(s.drop_last())
    } else {
        s.len() as int
    }
}

// ---------------------------------------------------------------------------
// Pattern matchers
// ---------------------------------------------------------------------------

/// A keyword or number may not be followed directly by a word character.
pub open spec fn boundary(s: Seq<u8>, j: int) -> bool {
    j >= s.len() || !is_word(s[j])
}

pub open spec fn match_comment(s: Seq<u8>, i: int) -> nat {
    if i + 1 < s.len() && s[i] == 92 && s[i + 1] == 92 {
        (s.len() - i) as nat
    } else {
        0
    }
}

pub open spec fn match_instruction(s: Seq<u8>, i: int) -> nat {
    if i + 3 <= s.len() && spec_is_mnemonic(
        spec_to_lower(s[i]),
        spec_to_lower(s[i + 1]),
        spec_to_lower(s[i + 2]),
    ) && boundary(s, i + 3) {
        3
    } else {
        0
    }
}

pub open spec fn match_directive(s: Seq<u8>, i: int) -> nat {
    if i < s.len() && s[i] == 46 {
        let a = alpha_run_len(s, i + 1);
        if a > 0 && boundary(s, i + 1 + a) {
            (1 + a) as nat
        } else {
            0
        }
    } else {
        0
    }
}

pub open spec fn match_single(s: Seq<u8>, i: int, c: u8) -> nat {
    if i < s.len() && s[i] == c {
        1
    } else {
        0
    }
}

pub open spec fn match_character(s: Seq<u8>, i: int) -> nat {
    if i + 2 < s.len() && s[i] == 39 && is_alnum(s[i + 1]) && s[i + 2] == 39 {
        3
    } else {
        0
    }
}

pub open spec fn match_string(s: Seq<u8>, i: int) -> nat {
    if i < s.len() && s[i] == 34 {
        let q = nonquote_run_len(s, i + 1);
        if i + 1 + q < s.len() {
            (q + 2) as nat
        } else {
            0
        }
    } else {
        0
    }
}

pub open spec fn match_reg(s: Seq<u8>, i: int, lower: u8) -> nat {
    if i < s.len() && spec_to_lower(s[i]) == lower && boundary(s, i + 1) {
        1
    } else {
        0
    }
}

pub open spec fn match_num1(s: Seq<u8>, i: int) -> nat {
    if i < s.len() && s[i] == 36 {
        let h = hex_run_len(s, i + 1);
        if 1 <= h <= 2 && boundary(s, i + 1 + h) {
            (1 + h) as nat
        } else {
            0
        }
    } else {
        let d = digit_run_len(s, i);
        if d > 0 && boundary(s, i + d) && dec_value(s.subrange(i, i + d)) <= 255 {
            d
        } else {
            0
        }
    }
}

pub open spec fn match_num2(s: Seq<u8>, i: int) -> nat {
    if i < s.len() && s[i] == 36 {
        let h = hex_run_len(s, i + 1);
        if 3 <= h <= 4 && boundary(s, i + 1 + h) {
            (1 + h) as nat
        } else {
            0
        }
    } else {
        let d = digit_run_len(s, i);
        if d > 0 && boundary(s, i + d) {
            d
        } else {
            0
        }
    }
}

pub open spec fn match_label(s: Seq<u8>, i: int) -> nat {
    let l = label_run_len(s, i);
    if l > 0 && boundary(s, i + l) {
        l
    } else {
        0
    }
}

pub open spec fn match_garbage(s: Seq<u8>, i: int) -> nat {
    if i < s.len() {
        (s.len() - i) as nat
    } else {
        0
    }
}

/// How far the matcher for `tt` reaches at position `i`; zero when it does
/// not match there.
pub open spec fn spec_match_len(tt: TokenType, s: Seq<u8>, i: int) -> nat {
    match tt {
        TokenType::Comment => match_comment(s, i),
        TokenType::Instruction => match_instruction(s, i),
        TokenType::Directive => match_directive(s, i),
        TokenType::LeftParenth => match_single(s, i, 40),
        TokenType::RightParenth => match_single(s, i, 41),
        TokenType::HashMark => match_single(s, i, 35),
        TokenType::Character => match_character(s, i),
        TokenType::StringLit => match_string(s, i),
        TokenType::Colon => match_single(s, i, 58),
        TokenType::RegX => match_reg(s, i, 120),
        TokenType::RegY => match_reg(s, i, 121),
        TokenType::RegA => match_reg(s, i, 97),
        TokenType::Comma => match_single(s, i, 44),
        TokenType::Equals => match_single(s, i, 61),
        TokenType::Plus => match_single(s, i, 43),
        TokenType::Minus => match_single(s, i, 45),
        TokenType::Times => match_single(s, i, 42),
        TokenType::Divide => match_single(s, i, 47),
        TokenType::Num1Bytes => match_num1(s, i),
        TokenType::Num2Bytes => match_num2(s, i),
        TokenType::Label => match_label(s, i),
        TokenType::Garbage => match_garbage(s, i),
        _ => 0,
    }
}

/// The order in which the matchers are tried: the most specific patterns
/// first, the catch-all last.
pub open spec fn parser_order() -> Seq<TokenType> {
    seq![
        TokenType::Comment,
        TokenType::Instruction,
        TokenType::Directive,
        TokenType::LeftParenth,
        TokenType::RightParenth,
        TokenType::HashMark,
        TokenType::Character,
        TokenType::StringLit,
        TokenType::Colon,
        TokenType::RegX,
        TokenType::RegY,
        TokenType::RegA,
        TokenType::Comma,
        TokenType::Equals,
        TokenType::Plus,
        TokenType::Minus,
        TokenType::Times,
        TokenType::Divide,
        TokenType::Num1Bytes,
        TokenType::Num2Bytes,
        TokenType::Label,
        TokenType::Garbage,
    ]
}

/// The first matcher in `order` that matches at `i`, with its reach.
pub open spec fn first_match_in(order: Seq<TokenType>, s: Seq<u8>, i: int) -> Option<
    (TokenType, nat),
>
    decreases order.len(),
{
    if order.len() == 0 {
        None
    } else if spec_match_len(order[0], s, i) > 0 {
        Some((order[0], spec_match_len(order[0], s, i)))
    } else {
        first_match_in(order.skip(1), s, i)
    }
}

pub open spec fn first_match(s: Seq<u8>, i: int) -> Option<(TokenType, nat)> {
    first_match_in(parser_order(), s, i)
}

// ---------------------------------------------------------------------------
// Run-length bounds
// ---------------------------------------------------------------------------

pub proof fn lemma_digit_run_le(s: Seq<u8>, i: int)
    requires
        0 <= i <= s.len(),
    ensures
        i + digit_run_len(s, i) <= s.len(),
    decreases s.len() - i,
{
    if i < s.len() && is_digit(s[i]) {
        lemma_digit_run_le(s, i + 1);
    }
}

pub proof fn lemma_hex_run_le(s: Seq<u8>, i: int)
    requires
        0 <= i <= s.len(),
    ensures
        i + hex_run_len(s, i) <= s.len(),
    decreases s.len() - i,
{
    if i < s.len() && is_hex_digit(s[i]) {
        lemma_hex_run_le(s, i + 1);
    }
}

pub proof fn lemma_alpha_run_le(s: Seq<u8>, i: int)
    requires
        0 <= i <= s.len(),
    ensures
        i + alpha_run_len(s, i) <= s.len(),
    decreases s.len() - i,
{
    if i < s.len() && is_alpha(s[i]) {
        lemma_alpha_run_le(s, i + 1);
    }
}

pub proof fn lemma_label_run_le(s: Seq<u8>, i: int)
    requires
        0 <= i <= s.len(),
    ensures
        i + label_run_len(s, i) <= s.len(),
    decreases s.len() - i,
{
    if i < s.len() && is_label_char(s[i]) {
        lemma_label_run_le(s, i + 1);
    }
}

pub proof fn lemma_nonquote_run_le(s: Seq<u8>, i: int)
    requires
        0 <= i <= s.len(),
    ensures
        i + nonquote_run_len(s, i) <= s.len(),
    decreases s.len() - i,
{
    if i < s.len() && s[i] != 34 {
        lemma_nonquote_run_le(s, i + 1);
    }
}

/// Every matcher stays within the line, and the catch-all guarantees that a
/// non-empty remainder always yields a token of at least one byte.
#[verifier::rlimit(50)]
pub proof fn lemma_first_match_total(s: Seq<u8>, i: int)
    requires
        0 <= i < s.len(),
    ensures
        first_match(s, i) is Some,
        1 <= first_match(s, i)->Some_0.1,
        i + first_match(s, i)->Some_0.1 <= s.len(),
{
    lemma_digit_run_le(s, i);
    lemma_hex_run_le(s, i + 1);
    lemma_alpha_run_le(s, i + 1);
    lemma_label_run_le(s, i);
    lemma_nonquote_run_le(s, i + 1);
    assert(first_match(s, i) is Some && 1 <= first_match(s, i)->Some_0.1 && i + first_match(
        s,
        i,
    )->Some_0.1 <= s.len()) by {
        reveal_with_fuel(first_match_in, 23);
    }
}

// ---------------------------------------------------------------------------
// Executable matchers
// ---------------------------------------------------------------------------

fn digit_run(line: &Vec<u8>, i: usize) -> (n: usize)
    requires
        i <= line@.len(),
    ensures
        n == digit_run_len(line@, i as int),
        i + n <= line@.len(),
{
    let mut j: usize = i;
    while j < line.len() && exec_is_digit(line[j])
        invariant
            i <= j <= line@.len(),
            digit_run_len(line@, i as int) == (j - i) + digit_run_len(line@, j as int),
        decreases line@.len() - j,
    {
        j = j + 1;
    }
    j - i
}

fn hex_run(line: &Vec<u8>, i: usize) -> (n: usize)
    requires
        i <= line@.len(),
    ensures
        n == hex_run_len(line@, i as int),
        i + n <= line@.len(),
{
    let mut j: usize = i;
    while j < line.len() && exec_is_hex_digit(line[j])
        invariant
            i <= j <= line@.len(),
            hex_run_len(line@, i as int) == (j - i) + hex_run_len(line@, j as int),
        decreases line@.len() - j,
    {
        j = j + 1;
    }
    j - i
}

fn alpha_run(line: &Vec<u8>, i: usize) -> (n: usize)
    requires
        i <= line@.len(),
    ensures
        n == alpha_run_len(line@, i as int),
        i + n <= line@.len(),
{
    let mut j: usize = i;
    while j < line.len() && exec_is_alpha(line[j])
        invariant
            i <= j <= line@.len(),
            alpha_run_len(line@, i as int) == (j - i) + alpha_run_len(line@, j as int),
        decreases line@.len() - j,
    {
        j = j + 1;
    }
    j - i
}

fn label_run(line: &Vec<u8>, i: usize) -> (n: usize)
    requires
        i <= line@.len(),
    ensures
        n == label_run_len(line@, i as int),
        i + n <= line@.len(),
{
    let mut j: usize = i;
    while j < line.len() && exec_is_label_char(line[j])
        invariant
            i <= j <= line@.len(),
            label_run_len(line@, i as int) == (j - i) + label_run_len(line@, j as int),
        decreases line@.len() - j,
    {
        j = j + 1;
    }
    j - i
}

fn nonquote_run(line: &Vec<u8>, i: usize) -> (n: usize)
    requires
        i <= line@.len(),
    ensures
        n == nonquote_run_len(line@, i as int),
        i + n <= line@.len(),
{
    let mut j: usize = i;
    while j < line.len() && line[j] != 34
        invariant
            i <= j <= line@.len(),
            nonquote_run_len(line@, i as int) == (j - i) + nonquote_run_len(line@, j as int),
        decreases line@.len() - j,
    {
        j = j + 1;
    }
    j - i
}

fn exec_boundary(line: &Vec<u8>, j: usize) -> (r: bool)
    ensures
        r == boundary(line@, j as int),
{
    j >= line.len() || !exec_is_word(line[j])
}

/// Whether the decimal-digit run of length `d` at `i` spells a value of at
/// most 255.
fn dec_run_fits_byte(line: &Vec<u8>, i: usize, d: usize) -> (r: bool)
    requires
        i + d <= line@.len(),
        d == digit_run_len(line@, i as int),
    ensures
        r == (dec_value(line@.subrange(i as int, i + d)) <= 255),
{
    let n = line.len();
    let ghost sub = line@.subrange(i as int, i + d);
    proof {
        assert(i + d <= n);
        assert forall|j: int| 0 <= j < d implies is_digit(sub[j]) by {
            lemma_digit_run_prefix(line@, i as int, i + d, i + j);
        }
    }
    let mut acc: u32 = 0;
    let mut k: usize = 0;
    while k < d
        invariant
            k <= d,
            n == line@.len(),
            i + d <= n,
            d == digit_run_len(line@, i as int),
            sub == line@.subrange(i as int, i + d),
            forall|j: int| 0 <= j < d ==> is_digit(#[trigger] sub[j]),
            acc <= 256,
            (acc <= 255 && acc == dec_value(sub.take(k as int)) && dec_value(
                sub.take(k as int),
            ) <= 255) || (acc == 256 && dec_value(sub.take(k as int)) > 255),
        decreases d - k,
    {
        proof {
            assert(sub.take(k + 1).drop_last() =~= sub.take(k as int));
            lemma_dec_value_push(sub.take(k + 1));
        }
        let c = line[i + k];
        if acc <= 255 {
            let t: u32 = acc * 10 + ((c - 48) as u32);
            if t > 255 {
                acc = 256;
            } else {
                acc = t;
            }
        }
        k = k + 1;
    }
    proof {
        assert(sub.take(d as int) =~= sub);
    }
    acc <= 255
}

/// Inside a digit run, every position is a digit.
proof fn lemma_digit_run_prefix(s: Seq<u8>, i: int, e: int, k: int)
    requires
        0 <= i <= k < e <= s.len(),
        e - i == digit_run_len(s, i),
    ensures
        is_digit(s[k]),
        digit_run_len(s, k) >= e - k,
    decreases k - i,
{
    lemma_digit_run_le(s, i);
    if i < k {
        lemma_digit_run_prefix(s, i + 1, e, k);
    }
}

/// Appending one digit multiplies the value by ten and adds the digit, as
/// long as the whole string is digits.
pub proof fn lemma_dec_value_push(s: Seq<u8>)
    requires
        s.len() > 0,
        forall|j: int| 0 <= j < s.len() ==> is_digit(s[j]),
    ensures
        dec_value(s) == dec_value(s.drop_last()) * 10 + (s.last() - 48),
{
    lemma_dec_acc_push(s, 0);
}

pub proof fn lemma_dec_acc_push(s: Seq<u8>, a: nat)
    requires
        s.len() > 0,
        forall|j: int| 0 <= j < s.len() ==> is_digit(#[trigger] s[j]),
    ensures
        dec_value_acc(s, a) == dec_value_acc(s.drop_last(), a) * 10 + (s.last() - 48),
    decreases s.len(),
{
    assert(is_digit(s[0]));
    let ghost a2 = (a * 10 + (s[0] - 48)) as nat;
    assert(dec_value_acc(s, a) == dec_value_acc(s.skip(1), a2));
    if s.len() == 1 {
        assert(s.drop_last() =~= Seq::<u8>::empty());
        assert(s.skip(1) =~= Seq::<u8>::empty());
        assert(dec_value_acc(s.skip(1), a2) == a2);
        assert(dec_value_acc(s.drop_last(), a) == a);
    } else {
        assert(s.drop_last()[0] == s[0]);
        assert(forall|j: int| 0 <= j < s.skip(1).len() ==> is_digit(#[trigger] s.skip(1)[j]));
        lemma_dec_acc_push(s.skip(1), a2);
        assert(s.skip(1).drop_last() =~= s.drop_last().skip(1));
        assert(s.skip(1).last() == s.last());
        assert(is_digit(s.drop_last()[0]));
        assert(dec_value_acc(s.drop_last(), a) == dec_value_acc(s.drop_last().skip(1), a2));
    }
}

/// The parser for one token kind: matches its pattern at the front of the
/// remaining line text.
pub struct TokenParser {
    pub token_type: TokenType,
}

impl TokenParser {
    /// How far this parser's pattern reaches at position `i` of the line;
    /// zero when it does not match there.
    pub fn match_len(&self, line: &Vec<u8>, i: usize) -> (n: usize)
        requires
            i < line@.len(),
        ensures
            n == spec_match_len(self.token_type, line@, i as int),
            i + n <= line@.len(),
    {
        let len = line.len();
        match self.token_type {
            TokenType::Comment => {
                if i < len - 1 && line[i] == 92 && line[i + 1] == 92 {
                    len - i
                } else {
                    0
                }
            },
            TokenType::Instruction => {
                if len - i >= 3 && is_mnemonic(
                    to_lower(line[i]),
                    to_lower(line[i + 1]),
                    to_lower(line[i + 2]),
                ) && exec_boundary(line, i + 3) {
                    3
                } else {
                    0
                }
            },
            TokenType::Directive => {
                if line[i] == 46 {
                    let a = alpha_run(line, i + 1);
                    if a > 0 && exec_boundary(line, i + 1 + a) {
                        1 + a
                    } else {
                        0
                    }
                } else {
                    0
                }
            },
            TokenType::LeftParenth => if line[i] == 40 {
                1
            } else {
                0
            },
            TokenType::RightParenth => if line[i] == 41 {
                1
            } else {
                0
            },
            TokenType::HashMark => if line[i] == 35 {
                1
            } else {
                0
            },
            TokenType::Character => {
                if len - i > 3 - 1 && line[i] == 39 && (exec_is_alpha(line[i + 1])
                    || exec_is_digit(line[i + 1])) && line[i + 2] == 39 {
                    3
                } else {
                    0
                }
            },
            TokenType::StringLit => {
                if line[i] == 34 {
                    let q = nonquote_run(line, i + 1);
                    if i + 1 + q < line.len() {
                        q + 2
                    } else {
                        0
                    }
                } else {
                    0
                }
            },
            TokenType::Colon => if line[i] == 58 {
                1
            } else {
                0
            },
            TokenType::RegX => {
                if to_lower(line[i]) == 120 && exec_boundary(line, i + 1) {
                    1
                } else {
                    0
                }
            },
            TokenType::RegY => {
                if to_lower(line[i]) == 121 && exec_boundary(line, i + 1) {
                    1
                } else {
                    0
                }
            },
            TokenType::RegA => {
                if to_lower(line[i]) == 97 && exec_boundary(line, i + 1) {
                    1
                } else {
                    0
                }
            },
            TokenType::Comma => if line[i] == 44 {
                1
            } else {
                0
            },
            TokenType::Equals => if line[i] == 61 {
                1
            } else {
                0
            },
            TokenType::Plus => if line[i] == 43 {
                1
            } else {
                0
            },
            TokenType::Minus => if line[i] == 45 {
                1
            } else {
                0
            },
            TokenType::Times => if line[i] == 42 {
                1
            } else {
                0
            },
            TokenType::Divide => if line[i] == 47 {
                1
            } else {
                0
            },
            TokenType::Num1Bytes => {
                if line[i] == 36 {
                    let h = hex_run(line, i + 1);
                    if 1 <= h && h <= 2 && exec_boundary(line, i + 1 + h) {
                        1 + h
                    } else {
                        0
                    }
                } else {
                    let d = digit_run(line, i);
                    if d > 0 && exec_boundary(line, i + d) && dec_run_fits_byte(line, i, d) {
                        d
                    } else {
                        0
                    }
                }
            },
            TokenType::Num2Bytes => {
                if line[i] == 36 {
                    let h = hex_run(line, i + 1);
                    if 3 <= h && h <= 4 && exec_boundary(line, i + 1 + h) {
                        1 + h
                    } else {
                        0
                    }
                } else {
                    let d = digit_run(line, i);
                    if d > 0 && exec_boundary(line, i + d) {
                        d
                    } else {
                        0
                    }
                }
            },
            TokenType::Label => {
                let l = label_run(line, i);
                if l > 0 && exec_boundary(line, i + l) {
                    l
                } else {
                    0
                }
            },
            TokenType::Garbage => len - i,
            _ => 0,
        }
    }
}

/// The ordered list of parsers the lexer tries.
pub fn get_token_parsers() -> (v: Vec<TokenParser>)
    ensures
        v@.len() == parser_order().len(),
        forall|j: int|
            0 <= j < v@.len() ==> (#[trigger] v@[j]).token_type == parser_order()[j],
{
    let mut v: Vec<TokenParser> = Vec::new();
    v.push(TokenParser { token_type: TokenType::Comment });
    v.push(TokenParser { token_type: TokenType::Instruction });
    v.push(TokenParser { token_type: TokenType::Directive });
    v.push(TokenParser { token_type: TokenType::LeftParenth });
    v.push(TokenParser { token_type: TokenType::RightParenth });
    v.push(TokenParser { token_type: TokenType::HashMark });
    v.push(TokenParser { token_type: TokenType::Character });
    v.push(TokenParser { token_type: TokenType::StringLit });
    v.push(TokenParser { token_type: TokenType::Colon });
    v.push(TokenParser { token_type: TokenType::RegX });
    v.push(TokenParser { token_type: TokenType::RegY });
    v.push(TokenParser { token_type: TokenType::RegA });
    v.push(TokenParser { token_type: TokenType::Comma });
    v.push(TokenParser { token_type: TokenType::Equals });
    v.push(TokenParser { token_type: TokenType::Plus });
    v.push(TokenParser { token_type: TokenType::Minus });
    v.push(TokenParser { token_type: TokenType::Times });
    v.push(TokenParser { token_type: TokenType::Divide });
    v.push(TokenParser { token_type: TokenType::Num1Bytes });
    v.push(TokenParser { token_type: TokenType::Num2Bytes });
    v.push(TokenParser { token_type: TokenType::Label });
    v.push(TokenParser { token_type: TokenType::Garbage });
    v
}

/// Finds the first parser that matches at `i`.  The catch-all pattern makes
/// the search total.
fn match_token(parsers: &Vec<TokenParser>, line: &Vec<u8>, i: usize) -> (r: (TokenType, usize))
    requires
        i < line@.len(),
        parsers@.len() == parser_order().len(),
        forall|j: int|
            0 <= j < parsers@.len() ==> (#[trigger] parsers@[j]).token_type == parser_order()[j],
    ensures
        Some((r.0, r.1 as nat)) == first_match(line@, i as int),
        1 <= r.1,
        i + r.1 <= line@.len(),
{
    proof {
        lemma_first_match_total(line@, i as int);
        assert(parser_order().skip(0) =~= parser_order());
    }
    let mut j: usize = 0;
    while j < parsers.len()
        invariant
            i < line@.len(),
            j <= parsers@.len(),
            parsers@.len() == parser_order().len(),
            forall|k: int|
                0 <= k < parsers@.len() ==> (#[trigger] parsers@[k]).token_type
                    == parser_order()[k],
            first_match_in(parser_order().skip(j as int), line@, i as int) == first_match(
                line@,
                i as int,
            ),
        decreases parsers@.len() - j,
    {
        let n = parsers[j].match_len(line, i);
        proof {
            assert(parser_order().skip(j as int)[0] == parser_order()[j as int]);
            assert(parser_order().skip(j as int).skip(1) =~= parser_order().skip(j + 1));
        }
        if n > 0 {
            proof {
                lemma_first_match_total(line@, i as int);
            }
            return (parsers[j].token_type, n);
        }
        j = j + 1;
    }
    proof {
        assert(parser_order().skip(parser_order().len() as int) =~= Seq::<TokenType>::empty());
        lemma_first_match_total(line@, i as int);
        assert(false);
    }
    (TokenType::Garbage, 1)
}

// ---------------------------------------------------------------------------
// The lexing specification
// ---------------------------------------------------------------------------

/// The comment and catch-all matchers consume the whole remaining line; the
/// token text they carry is the remainder with trailing spaces dropped.
pub open spec fn token_text(s: Seq<u8>, i: int, tt: TokenType, n: nat) -> Seq<u8> {
    if tt == TokenType::Comment || tt == TokenType::Garbage {
        s.subrange(i, rtrim_end(s))
    } else {
        s.subrange(i, i + n)
    }
}

/// The tokens one line yields from position `i` on: spaces are skipped, the
/// first matcher that fits yields the next token, and a comment is dropped
/// when comment stripping is on.  `fl` and `ll` are the line counters the
/// tokens carry.
pub open spec fn lex_line_toks(s: Seq<u8>, i: int, rc: bool, fl: u32, ll: u32) -> Seq<TokenModel>
    decreases s.len() - i,
{
    if i < 0 || i >= s.len() {
        Seq::empty()
    } else if is_space(s[i]) {
        lex_line_toks(s, i + 1, rc, fl, ll)
    } else {
        match first_match(s, i) {
            None => Seq::empty(),
            Some((tt, n)) => {
                if n < 1 || i + n > s.len() {
                    Seq::empty()
                } else if tt == TokenType::Comment && rc {
                    lex_line_toks(s, i + n, rc, fl, ll)
                } else {
                    seq![
                        TokenModel {
                            token_type: tt,
                            value: token_text(s, i, tt, n),
                            logical_line: ll,
                            file_line: fl,
                        },
                    ] + lex_line_toks(s, i + n, rc, fl, ll)
                }
            },
        }
    }
}

pub open spec fn eol_model(fl: u32, ll: u32) -> TokenModel {
    TokenModel { token_type: TokenType::EOL, value: Seq::empty(), logical_line: ll, file_line: fl }
}

pub open spec fn eof_model(fl: u32, ll: u32) -> TokenModel {
    TokenModel { token_type: TokenType::EOF, value: Seq::empty(), logical_line: ll, file_line: fl }
}

/// The token stream from line `li` on, with `ll` lines so far having
/// produced tokens.  Line numbers are one-based; every line that produced a
/// token is closed by an `EOL` carrying that line's counters, and the stream
/// ends with a single `EOF`.
pub open spec fn lex_lines(lines: Seq<Seq<u8>>, li: int, rc: bool, ll: u32) -> Seq<TokenModel>
    decreases lines.len() - li,
{
    if li < 0 || li >= lines.len() {
        seq![eof_model(((lines.len() + 1) as u32), ll)]
    } else {
        let fl = (li + 1) as u32;
        let toks = lex_line_toks(lines[li], 0, rc, fl, (ll + 1) as u32);
        if toks.len() == 0 {
            lex_lines(lines, li + 1, rc, ll)
        } else {
            toks + seq![eol_model(fl, (ll + 1) as u32)] + lex_lines(
                lines,
                li + 1,
                rc,
                (ll + 1) as u32,
            )
        }
    }
}

/// The views of a sequence of byte lines.
pub open spec fn lines_model(lines: Seq<Vec<u8>>) -> Seq<Seq<u8>> {
    Seq::new(lines.len(), |i: int| lines[i]@)
}

/// The models of a sequence of tokens.
pub open spec fn token_models(toks: Seq<Token>) -> Seq<TokenModel> {
    Seq::new(toks.len(), |i: int| toks[i].model())
}

/// The whole token stream of a source text.
pub open spec fn lex_spec(lines: Seq<Seq<u8>>, rc: bool) -> Seq<TokenModel> {
    lex_lines(lines, 0, rc, 0)
}

pub proof fn lemma_token_models_remove(s: Seq<Token>, i: int)
    requires
        0 <= i < s.len(),
    ensures
        token_models(s.remove(i)) == token_models(s).remove(i),
{
    assert(token_models(s.remove(i)) =~= token_models(s).remove(i));
}

pub proof fn lemma_token_models_push(s: Seq<Token>, t: Token)
    ensures
        token_models(s.push(t)) == token_models(s).push(t.model()),
{
    assert(token_models(s.push(t)) =~= token_models(s).push(t.model()));
}

// ---------------------------------------------------------------------------
// The tokenizer
// ---------------------------------------------------------------------------

/// Copies `line[a..b]`.
pub fn bytes_range(line: &Vec<u8>, a: usize, b: usize) -> (r: Vec<u8>)
    requires
        a <= b <= line@.len(),
    ensures
        r@ == line@.subrange(a as int, b as int),
{
    let mut r: Vec<u8> = Vec::new();
    let mut j: usize = a;
    while j < b
        invariant
            a <= j <= b <= line@.len(),
            r@ == line@.subrange(a as int, j as int),
        decreases b - j,
    {
        r.push(line[j]);
        j = j + 1;
        proof {
            assert(r@ =~= line@.subrange(a as int, j as int));
        }
    }
    r
}

/// The index where the trailing spaces of the line begin.
fn rtrim_index(line: &Vec<u8>) -> (e: usize)
    ensures
        e == rtrim_end(line@),
{
    let mut e: usize = line.len();
    proof {
        assert(line@.take(line@.len() as int) =~= line@);
    }
    while e > 0 && exec_is_space(line[e - 1])
        invariant
            e <= line@.len(),
            rtrim_end(line@) == rtrim_end(line@.take(e as int)),
        decreases e,
    {
        proof {
            assert(line@.take(e as int).last() == line@[e - 1]);
            assert(line@.take(e as int).drop_last() =~= line@.take(e - 1));
        }
        e = e - 1;
    }
    proof {
        if e > 0 {
            assert(line@.take(e as int).last() == line@[e - 1]);
        }
        assert(line@.take(e as int).len() == e);
    }
    e
}

/// Scans one line, appending its tokens (without the closing `EOL`) to
/// `out`.
fn lex_one_line(
    parsers: &Vec<TokenParser>,
    line: &Vec<u8>,
    rc: bool,
    fl: u32,
    ll: u32,
    out: &mut Vec<Token>,
) -> (produced: bool)
    requires
        parsers@.len() == parser_order().len(),
        forall|j: int|
            0 <= j < parsers@.len() ==> (#[trigger] parsers@[j]).token_type == parser_order()[j],
    ensures
        token_models(final(out)@) == token_models(old(out)@) + lex_line_toks(
            line@,
            0,
            rc,
            fl,
            ll,
        ),
        produced == (lex_line_toks(line@, 0, rc, fl, ll).len() > 0),
{
    let n = line.len();
    let mut i: usize = 0;
    let mut produced = false;
    while i < n
        invariant
            n == line@.len(),
            i <= n,
            parsers@.len() == parser_order().len(),
            forall|j: int|
                0 <= j < parsers@.len() ==> (#[trigger] parsers@[j]).token_type
                    == parser_order()[j],
            token_models(out@) + lex_line_toks(line@, i as int, rc, fl, ll) == token_models(
                old(out)@,
            ) + lex_line_toks(line@, 0, rc, fl, ll),
            token_models(old(out)@).len() <= token_models(out@).len(),
            produced == (token_models(out@).len() > token_models(old(out)@).len()),
        decreases n - i,
    {
        if exec_is_space(line[i]) {
            i = i + 1;
        } else {
            let (tt, len) = match_token(parsers, line, i);
            if tt == TokenType::Comment && rc {
                i = i + len;
            } else {
                let text: Vec<u8> = if tt == TokenType::Comment || tt == TokenType::Garbage {
                    let e = rtrim_index(line);
                    proof {
                        lemma_rtrim_ge(line@, i as int);
                    }
                    bytes_range(line, i, e)
                } else {
                    bytes_range(line, i, i + len)
                };
                let tok = Token { token_type: tt, value: text, logical_line: ll, file_line: fl };
                proof {
                    let pre = out@;
                    assert(token_models(pre.push(tok)) =~= token_models(pre) + seq![tok.model()]);
                }
                out.push(tok);
                produced = true;
                proof {
                    assert(token_models(out@) + lex_line_toks(line@, (i + len) as int, rc, fl, ll)
                        =~= token_models(old(out)@) + lex_line_toks(line@, 0, rc, fl, ll));
                }
                i = i + len;
            }
        }
    }
    proof {
        assert(lex_line_toks(line@, i as int, rc, fl, ll) =~= Seq::<TokenModel>::empty());
        assert(token_models(out@) =~= token_models(old(out)@) + lex_line_toks(
            line@,
            0,
            rc,
            fl,
            ll,
        ));
    }
    produced
}

/// A non-space position lies before the start of the trailing spaces.
proof fn lemma_rtrim_ge(s: Seq<u8>, i: int)
    requires
        0 <= i < s.len(),
        !is_space(s[i]),
    ensures
        i < rtrim_end(s) <= s.len(),
    decreases s.len(),
{
    if s.len() > 0 && is_space(s.last()) {
        assert(i < s.len() - 1);
        assert(s.drop_last()[i] == s[i]);
        lemma_rtrim_ge(s.drop_last(), i);
    }
}

/// Tokenizes a whole source text: every line's tokens, each non-empty
/// line closed by `EOL`, the stream closed by `EOF`.
fn tokenize(lines: &Vec<Vec<u8>>, rc: bool) -> (toks: Vec<Token>)
    requires
        lines@.len() < 0xFFFF_FFFF,
    ensures
        token_models(toks@) == lex_spec(lines_model(lines@), rc),
{
    let parsers = get_token_parsers();
    let mut toks: Vec<Token> = Vec::new();
    let mut li: usize = 0;
    let mut ll: u32 = 0;
    let ghost lm = lines_model(lines@);
    while li < lines.len()
        invariant
            lines@.len() < 0xFFFF_FFFF,
            li <= lines@.len(),
            ll <= li,
            lm == lines_model(lines@),
            parsers@.len() == parser_order().len(),
            forall|j: int|
                0 <= j < parsers@.len() ==> (#[trigger] parsers@[j]).token_type
                    == parser_order()[j],
            token_models(toks@) + lex_lines(lm, li as int, rc, ll) == lex_lines(lm, 0, rc, 0),
        decreases lines@.len() - li,
    {
        let fl: u32 = (li as u32) + 1;
        let ghost pre = toks@;
        let produced = lex_one_line(&parsers, &lines[li], rc, fl, ll + 1, &mut toks);
        proof {
            assert(lm[li as int] == lines@[li as int]@);
        }
        if produced {
            let eol = Token {
                token_type: TokenType::EOL,
                value: Vec::new(),
                logical_line: ll + 1,
                file_line: fl,
            };
            proof {
                assert(eol.model() == eol_model(fl, (ll + 1) as u32));
                assert(token_models(toks@.push(eol)) =~= token_models(toks@) + seq![eol.model()]);
            }
            toks.push(eol);
            ll = ll + 1;
            proof {
                assert(token_models(toks@) + lex_lines(lm, li + 1, rc, ll) =~= token_models(pre)
                    + lex_lines(lm, li as int, rc, (ll - 1) as u32));
            }
        } else {
            proof {
                assert(token_models(toks@) =~= token_models(pre));
                assert(token_models(toks@) + lex_lines(lm, li + 1, rc, ll) =~= token_models(pre)
                    + lex_lines(lm, li as int, rc, ll));
            }
        }
        li = li + 1;
    }
    let eof = Token {
        token_type: TokenType::EOF,
        value: Vec::new(),
        logical_line: ll,
        file_line: (li as u32) + 1,
    };
    proof {
        assert(token_models(toks@.push(eof)) =~= token_models(toks@) + seq![eof.model()]);
        assert(lex_lines(lm, li as int, rc, ll) =~= seq![eof.model()]);
    }
    toks.push(eof);
    proof {
        assert(token_models(toks@) =~= lex_lines(lm, 0, rc, 0));
    }
    toks
}

// ---------------------------------------------------------------------------
// The analyzer
// ---------------------------------------------------------------------------

/// The lexer itself.  The whole token stream is derived from the source
/// lines up front; tokens are then handed out one at a time, and the
/// analyzer can be rewound to the beginning for the second pass.
pub struct LexicalAnalyzer {
    tokens: Vec<Token>,
    pos: usize,
}

impl LexicalAnalyzer {
    /// The full token stream this analyzer hands out.
    pub closed spec fn stream(self) -> Seq<TokenModel> {
        token_models(self.tokens@)
    }

    /// The tokens not yet handed out.
    pub closed spec fn remaining(self) -> Seq<TokenModel> {
        if self.pos <= self.tokens@.len() {
            self.stream().skip(self.pos as int)
        } else {
            Seq::empty()
        }
    }

    /// A new analyzer over a source text, given as its lines.
    pub fn new(lines: &Vec<Vec<u8>>, remove_comments: bool) -> (r: LexicalAnalyzer)
        requires
            lines@.len() < 0xFFFF_FFFF,
        ensures
            r.stream() == lex_spec(lines_model(lines@), remove_comments),
            r.remaining() == r.stream(),
    {
        let toks = tokenize(lines, remove_comments);
        let r = LexicalAnalyzer { tokens: toks, pos: 0 };
        proof {
            assert(r.remaining() =~= r.stream());
        }
        r
    }

    /// Rewinds to the beginning of the stream, for the second pass.
    pub fn reset(&mut self)
        ensures
            final(self).stream() == old(self).stream(),
            final(self).remaining() == final(self).stream(),
    {
        self.pos = 0;
        proof {
            assert(self.remaining() =~= self.stream());
        }
    }

    /// Hands out the next token, or nothing once the stream is exhausted.
    pub fn parse_next_token(&mut self) -> (r: Option<Token>)
        ensures
            final(self).stream() == old(self).stream(),
            old(self).remaining().len() > 0 ==> r is Some
                && r->Some_0.model() == old(self).remaining()[0]
                && final(self).remaining() == old(self).remaining().skip(1),
            old(self).remaining().len() == 0 ==> r is None
                && final(self).remaining() == old(self).remaining(),
    {
        if self.pos < self.tokens.len() {
            let t = self.tokens[self.pos].dup();
            self.pos = self.pos + 1;
            proof {
                assert(old(self).remaining()[0] == self.tokens@[old(self).pos as int].model());
                assert(self.remaining() =~= old(self).remaining().skip(1));
            }
            Some(t)
        } else {
            proof {
                assert(self.stream().skip(self.stream().len() as int) =~= Seq::<
                    TokenModel,
                >::empty());
            }
            None
        }
    }
}

/// The error type of the lexing stage.
pub struct LexicalError {
    pub details: Vec<u8>,
}

impl LexicalError {
    pub fn new(msg: Vec<u8>) -> (e: LexicalError)
        ensures
            e.details@ == msg@,
    {
        LexicalError { details: msg }
    }
}

} // verus!
