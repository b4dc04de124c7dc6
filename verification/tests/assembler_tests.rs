use asm_6502_lib::assembler::run;
use asm_6502_lib::gen_errors::ErrorKind;
use asm_6502_lib::insertable_num::InsertableNum;
use asm_6502_lib::lexical_analyzer::{LexicalAnalyzer, Token, TokenType};
use asm_6502_lib::peek_wrapper::PeekWrapper;
use asm_6502_lib::stack::do_operation;
use asm_6502_lib::symbol_table::SymbolTable;

fn lines(src: &str) -> Vec<Vec<u8>> {
    src.lines().map(|l| l.as_bytes().to_vec()).collect()
}

fn assemble(src: &str) -> Result<Vec<u8>, asm_6502_lib::gen_errors::GeneralError> {
    run(&lines(src))
}

fn tok(tt: TokenType, text: &str) -> Token {
    Token {
        token_type: tt,
        value: text.as_bytes().to_vec(),
        logical_line: 1,
        file_line: 1,
    }
}

// Expression arithmetic: multiplication binds before addition.
#[test]
fn expression_precedence() {
    let out = assemble("v = 1 + 2 * 3\n.byte v").unwrap();
    assert_eq!(out, vec![7]);
}

// Parenthesised grouping overrides precedence: the sum is formed before
// the product.
#[test]
fn expression_grouping() {
    let out = assemble("v = (1 + 2) * 3\n.byte v").unwrap();
    assert_eq!(out, vec![9]);
}

// Division by zero is a fatal error.
#[test]
fn expression_divide_by_zero() {
    let err = assemble("v = 5 / 0\n.byte v").unwrap_err();
    assert_eq!(err.kind, ErrorKind::DivideByZero);
}

// Division truncates.
#[test]
fn expression_division_truncates() {
    let out = assemble("v = 7 / 2\n.byte v").unwrap();
    assert_eq!(out, vec![3]);
}

// Mixing a one-byte and a two-byte operand promotes the result to two
// bytes, emitted little-endian.
#[test]
fn expression_width_promotion() {
    let out = assemble("v = $1234 + 1\n.byte v").unwrap();
    assert_eq!(out, vec![0x35, 0x12]);
}

// One-byte arithmetic wraps at the byte width.
#[test]
fn expression_byte_wrapping_subtraction() {
    let out = assemble("v = 5 - 10\n.byte v").unwrap();
    assert_eq!(out, vec![251]);
}

// Immediate addressing: the `lda` immediate opcode is followed by the
// one-byte literal.
#[test]
fn grammar_lda_immediate() {
    let out = assemble("lda # 10").unwrap();
    assert_eq!(out, vec![0xa9, 10]);
}

// Zero-page indexed addressing is picked for `operand , x`.
#[test]
fn grammar_lda_zeropage_x() {
    let out = assemble("lda 10 , x").unwrap();
    assert_eq!(out, vec![0xb5, 10]);
}

// Absolute addressing for a two-byte operand.
#[test]
fn grammar_lda_absolute() {
    let out = assemble("lda $1234").unwrap();
    assert_eq!(out, vec![0xad, 0x34, 0x12]);
}

// Indirect addressing through parentheses.
#[test]
fn grammar_jmp_indirect() {
    let out = assemble("jmp ( $1234 )").unwrap();
    assert_eq!(out, vec![0x6c, 0x34, 0x12]);
}

// A no-operand instruction is a single opcode byte.
#[test]
fn grammar_nop() {
    let out = assemble("nop").unwrap();
    assert_eq!(out, vec![0xea]);
}

// Accumulator addressing.
#[test]
fn grammar_asl_accumulator() {
    let out = assemble("asl a").unwrap();
    assert_eq!(out, vec![0x0a]);
}

// An `.org` directive makes the next label resolve to that offset, and a
// reference to it emits little-endian bytes.
#[test]
fn org_sets_label_offset() {
    let out = assemble(".org $8000\nstart\nlda start").unwrap();
    assert_eq!(out, vec![0xad, 0x00, 0x80]);
}

// A label referenced before its definition resolves to the exact byte
// offset of the instruction it marks.
#[test]
fn forward_reference_resolves() {
    let out = assemble("jmp target\nnop\ntarget : nop").unwrap();
    assert_eq!(out, vec![0x4c, 0x04, 0x00, 0xea, 0xea]);
}

// Running the assembler twice over the same source yields byte-identical
// output.
#[test]
fn assembly_is_idempotent() {
    let src = "v = 2 * 3\n.org $10\nloop\nlda # v\njmp loop";
    let first = assemble(src).unwrap();
    let second = assemble(src).unwrap();
    assert_eq!(first, second);
}

// Defining the same label twice is rejected as a semantic error.
#[test]
fn duplicate_label_rejected() {
    let err = assemble("foo\nfoo").unwrap_err();
    assert_eq!(err.kind, ErrorKind::LabelRedefined);
    assert_eq!(err.token_text, b"foo".to_vec());
}

// A duplicate is rejected no matter how the two definitions are written.
#[test]
fn duplicate_label_rejected_equals_form() {
    let err = assemble("foo = 1\nfoo : nop").unwrap_err();
    assert_eq!(err.kind, ErrorKind::LabelRedefined);
}

// An instruction with no valid operand pattern is a syntax error naming
// the unexpected token and a non-empty set of expected kinds, and no
// bytes come out.
#[test]
fn malformed_operand_is_syntax_error() {
    let err = assemble("lda").unwrap_err();
    assert_eq!(err.kind, ErrorKind::Syntax);
    assert!(!err.expected.is_empty());
}

// A mismatching operand shape names the kind the best pattern expected.
#[test]
fn mismatched_operand_names_expected() {
    let err = assemble("lda # 10 , x").unwrap_err();
    assert_eq!(err.kind, ErrorKind::Syntax);
    assert!(!err.expected.is_empty());
}

// A reference to a label that is never defined fails.
#[test]
fn undefined_label_rejected() {
    let err = assemble("lda missing").unwrap_err();
    assert_eq!(err.kind, ErrorKind::LabelUndefined);
    assert_eq!(err.token_text, b"missing".to_vec());
}

// A directive the assembler does not implement is refused.
#[test]
fn unknown_directive_rejected() {
    let err = assemble(".foo 1").unwrap_err();
    assert_eq!(err.kind, ErrorKind::UnknownDirective);
}

// Unrecognisable text is caught by the catch-all token and refused.
#[test]
fn garbage_rejected() {
    let err = assemble("\"unclosed").unwrap_err();
    assert_eq!(err.kind, ErrorKind::Syntax);
    assert!(!err.expected.is_empty());
}

// The byte directive lays its operands out in order: numbers at their
// width, characters and strings as their bytes.
#[test]
fn byte_directive_layout() {
    let out = assemble(".byte 1 , 2 , $ff").unwrap();
    assert_eq!(out, vec![1, 2, 255]);
}

#[test]
fn byte_directive_two_byte_value() {
    let out = assemble(".byte $1234").unwrap();
    assert_eq!(out, vec![0x34, 0x12]);
}

#[test]
fn byte_directive_character() {
    let out = assemble(".byte 'a'").unwrap();
    assert_eq!(out, vec![97]);
}

#[test]
fn byte_directive_string() {
    let out = assemble(".byte \"hi\"").unwrap();
    assert_eq!(out, vec![104, 105]);
}

// A string operand advances the byte offset by its length, so a label
// after it accounts for every character.
#[test]
fn byte_directive_string_advances_offset() {
    let out = assemble(".byte \"abc\"\nafter\nlda after").unwrap();
    assert_eq!(out, vec![97, 98, 99, 0xad, 0x03, 0x00]);
}

// Comment lines vanish entirely; a comment after code ends the line.
#[test]
fn comments_are_stripped() {
    let out = assemble("\\\\ a comment line\nnop \\\\ trailing words").unwrap();
    assert_eq!(out, vec![0xea]);
}

// Blank lines produce nothing.
#[test]
fn blank_lines_ignored() {
    let out = assemble("\n\nnop\n\n").unwrap();
    assert_eq!(out, vec![0xea]);
}

// Mnemonics are matched case-insensitively.
#[test]
fn mnemonics_case_insensitive() {
    let out = assemble("LDA # 10").unwrap();
    assert_eq!(out, vec![0xa9, 10]);
}

// Directives too.
#[test]
fn directives_case_insensitive() {
    let out = assemble(".BYTE 3").unwrap();
    assert_eq!(out, vec![3]);
}

// A label may be used in arithmetic within another label's value.
#[test]
fn label_arithmetic() {
    let out = assemble("base = $1000\nv = base + 4\n.byte v").unwrap();
    assert_eq!(out, vec![0x04, 0x10]);
}

// The decimal and hexadecimal number forms agree.
#[test]
fn number_forms_agree() {
    let a = assemble(".byte 255").unwrap();
    let b = assemble(".byte $ff").unwrap();
    assert_eq!(a, b);
    assert_eq!(a, vec![255]);
}

// do_operation applies the operator with the promotion rule.
#[test]
fn do_operation_promotes() {
    let r = do_operation(
        InsertableNum::Byte(2),
        InsertableNum::TwoByte(3),
        tok(TokenType::Plus, "+"),
    )
    .unwrap();
    assert!(r.is_two_bytes());
    assert_eq!(r.unwrap(), 5);
}

#[test]
fn do_operation_divide_by_zero() {
    let err = do_operation(
        InsertableNum::Byte(2),
        InsertableNum::Byte(0),
        tok(TokenType::Divide, "/"),
    )
    .unwrap_err();
    assert_eq!(err.kind, ErrorKind::DivideByZero);
}

// The symbol table refuses duplicate keys and keeps the first binding.
#[test]
fn symbol_table_rejects_duplicates() {
    let mut t = SymbolTable::new();
    assert!(t.insert(b"x".to_vec(), InsertableNum::Byte(1)));
    assert!(!t.insert(b"x".to_vec(), InsertableNum::Byte(2)));
    assert_eq!(t.get(&b"x".to_vec()), Some(InsertableNum::Byte(1)));
    assert_eq!(t.get(&b"y".to_vec()), None);
}

// The lookahead window peeks without consuming and refuses to look past
// its size.
#[test]
fn peek_wrapper_window() {
    let src = lines("nop");
    let analyzer = LexicalAnalyzer::new(&src, true);
    let mut w = PeekWrapper::new(analyzer, 3);
    let p0 = w.peek(0).unwrap();
    assert_eq!(p0.token_type, TokenType::Instruction);
    assert!(w.peek(5).is_none());
    let n0 = w.next().unwrap();
    assert_eq!(n0.token_type, TokenType::Instruction);
    assert_eq!(w.next().unwrap().token_type, TokenType::EOL);
    assert_eq!(w.next().unwrap().token_type, TokenType::EOF);
    assert!(w.next().is_none());
}

// The lexer's line counters: file lines count every physical line,
// logical lines only those that produced tokens.
#[test]
fn lexer_line_counters() {
    let src = lines("\nnop\n\nnop");
    let mut analyzer = LexicalAnalyzer::new(&src, true);
    let t1 = analyzer.parse_next_token().unwrap();
    assert_eq!(t1.file_line, 2);
    assert_eq!(t1.logical_line, 1);
    let _eol = analyzer.parse_next_token().unwrap();
    let t2 = analyzer.parse_next_token().unwrap();
    assert_eq!(t2.file_line, 4);
    assert_eq!(t2.logical_line, 2);
}

// The lexer rewinds for the second pass.
#[test]
fn lexer_reset_restarts() {
    let src = lines("nop");
    let mut analyzer = LexicalAnalyzer::new(&src, true);
    let first = analyzer.parse_next_token().unwrap();
    analyzer.reset();
    let again = analyzer.parse_next_token().unwrap();
    assert_eq!(first.token_type, again.token_type);
    assert_eq!(first.value, again.value);
}

// A small whole program.
#[test]
fn small_program() {
    let src = ".org $0600\nstart\nldx # 0\nloop\ninx\ncpx # 3\nbne loop\njmp start";
    let out = assemble(src).unwrap();
    assert_eq!(
        out,
        vec![
            0xa2, 0x00, // ldx #0
            0xe8, // inx
            0xe0, 0x03, // cpx #3
            0xd0, 0x02, 0x06, // bne loop (absolute form)
            0x4c, 0x00, 0x06, // jmp start
        ]
    );
}
