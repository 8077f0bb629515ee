//! The statement parser: one source line becomes a label plus an
//! instruction, a directive, a declaration, or nothing. The grammar follows
//! the assembler's lexical rules — `$` hex, `@` octal, `%` binary numbers,
//! precedence-climbing expressions, and an operand form for every
//! addressing mode — and either yields a whole statement or fails with the
//! position it reached.

use vstd::prelude::*;
use vstd::string::StrSliceExecFns;
use crate::Size;
use crate::expr::Expr;
use crate::operand::Operand;
use crate::operand::wf_operand;

verus! {

/// A parse failure, with the position (in characters) the parser reached.
#[derive(Debug, PartialEq)]
pub struct ParseError {
    pub position: usize,
}

/// An assembler directive, its arguments still symbolic expressions.
#[derive(Debug, PartialEq)]
pub enum Directive {
    Origin(Expr),
    Offset(Expr),
    Declare(Expr),
    Alignment(Expr),
    DefineConstants(Size, Vec<Expr>),
    DefineConstantBlock(Size, Expr, Expr),
    End(Expr),
}

/// An operand as parsed: the registers are fixed, the constants are still
/// expressions, so that pass two can resolve symbols before encoding.
#[derive(Debug, PartialEq)]
pub enum OperandExpr {
    DataRegisterDirect(u8),
    AddressRegisterDirect(u8),
    AddressRegisterIndirect(u8),
    AddressRegisterIndirectWithPostincrement(u8),
    AddressRegisterIndirectWithPredecrement(u8),
    Displacement(u8, Expr),
    Index(u8, u8, Expr),
    PcDisplacement(Expr),
    PcIndex(u8, Expr),
    Absolute(Size, Expr),
    Immediate(Size, Expr),
    StatusRegister(Size),
}

/// Structural validity of a parsed operand: register numbers at most 7,
/// index registers at most 15.
pub open spec fn wf_operand_expr(o: OperandExpr) -> bool {
    match o {
        OperandExpr::DataRegisterDirect(r) => r <= 7,
        OperandExpr::AddressRegisterDirect(r) => r <= 7,
        OperandExpr::AddressRegisterIndirect(r) => r <= 7,
        OperandExpr::AddressRegisterIndirectWithPostincrement(r) => r <= 7,
        OperandExpr::AddressRegisterIndirectWithPredecrement(r) => r <= 7,
        OperandExpr::Displacement(r, _) => r <= 7,
        OperandExpr::Index(r, i, _) => r <= 7 && i <= 15,
        OperandExpr::PcDisplacement(_) => true,
        OperandExpr::PcIndex(i, _) => i <= 15,
        OperandExpr::Absolute(_, _) => true,
        OperandExpr::Immediate(_, _) => true,
        OperandExpr::StatusRegister(s) => s == Size::Word || s == Size::Byte,
    }
}

/// The mathematical shape of a parsed operand, over expression views.
pub enum OperandView {
    DataRegisterDirect(u8),
    AddressRegisterDirect(u8),
    AddressRegisterIndirect(u8),
    AddressRegisterIndirectWithPostincrement(u8),
    AddressRegisterIndirectWithPredecrement(u8),
    Displacement(u8, crate::expr::ExprView),
    Index(u8, u8, crate::expr::ExprView),
    PcDisplacement(crate::expr::ExprView),
    PcIndex(u8, crate::expr::ExprView),
    Absolute(Size, crate::expr::ExprView),
    Immediate(Size, crate::expr::ExprView),
    StatusRegister(Size),
}

/// The view of a parsed operand.
pub open spec fn operand_expr_view(o: OperandExpr) -> OperandView {
    match o {
        OperandExpr::DataRegisterDirect(r) => OperandView::DataRegisterDirect(r),
        OperandExpr::AddressRegisterDirect(r) => OperandView::AddressRegisterDirect(r),
        OperandExpr::AddressRegisterIndirect(r) => OperandView::AddressRegisterIndirect(r),
        OperandExpr::AddressRegisterIndirectWithPostincrement(r) =>
            OperandView::AddressRegisterIndirectWithPostincrement(r),
        OperandExpr::AddressRegisterIndirectWithPredecrement(r) =>
            OperandView::AddressRegisterIndirectWithPredecrement(r),
        OperandExpr::Displacement(r, e) => OperandView::Displacement(
            r,
            crate::expr::expr_view(e),
        ),
        OperandExpr::Index(r, x, e) => OperandView::Index(r, x, crate::expr::expr_view(e)),
        OperandExpr::PcDisplacement(e) => OperandView::PcDisplacement(
            crate::expr::expr_view(e),
        ),
        OperandExpr::PcIndex(x, e) => OperandView::PcIndex(x, crate::expr::expr_view(e)),
        OperandExpr::Absolute(z, e) => OperandView::Absolute(z, crate::expr::expr_view(e)),
        OperandExpr::Immediate(z, e) => OperandView::Immediate(z, crate::expr::expr_view(e)),
        OperandExpr::StatusRegister(z) => OperandView::StatusRegister(z),
    }
}

/// A parsed instruction: mnemonic, size qualifier, and operands whose
/// constants may still be symbolic.
#[derive(Debug, PartialEq)]
pub struct InstExpr {
    pub mnemonic: String,
    pub size: Size,
    pub operands: Vec<OperandExpr>,
}

/// What one source line means.
#[derive(Debug, PartialEq)]
pub enum Body {
    Instruction(InstExpr),
    Directive(Directive),
    LabelOnly,
    Empty,
}

/// One parsed source line: an optional label and its body. A declaration
/// carries the declared name as the label.
#[derive(Debug, PartialEq)]
pub struct Statement {
    pub label: Option<String>,
    pub body: Body,
}

/// Structural validity of a statement: every operand of an instruction body
/// is well formed.
pub open spec fn wf_statement(st: Statement) -> bool {
    match st.body {
        Body::Instruction(inst) => forall|j: int|
            0 <= j < inst.operands@.len() ==> wf_operand_expr(inst.operands@[j]),
        _ => true,
    }
}

/// The mathematical shape of a directive, over expression views.
pub enum DirectiveView {
    Origin(crate::expr::ExprView),
    Offset(crate::expr::ExprView),
    Declare(crate::expr::ExprView),
    Alignment(crate::expr::ExprView),
    DefineConstants(Size, Seq<crate::expr::ExprView>),
    DefineConstantBlock(Size, crate::expr::ExprView, crate::expr::ExprView),
    End(crate::expr::ExprView),
}

/// The view of an expression list.
pub open spec fn exprs_view(v: Seq<Expr>) -> Seq<crate::expr::ExprView> {
    v.map_values(|e: Expr| crate::expr::expr_view(e))
}

/// The view of a directive.
pub open spec fn directive_view(d: Directive) -> DirectiveView {
    match d {
        Directive::Origin(e) => DirectiveView::Origin(crate::expr::expr_view(e)),
        Directive::Offset(e) => DirectiveView::Offset(crate::expr::expr_view(e)),
        Directive::Declare(e) => DirectiveView::Declare(crate::expr::expr_view(e)),
        Directive::Alignment(e) => DirectiveView::Alignment(crate::expr::expr_view(e)),
        Directive::DefineConstants(z, es) => DirectiveView::DefineConstants(z, exprs_view(es@)),
        Directive::DefineConstantBlock(z, l, f) => DirectiveView::DefineConstantBlock(
            z,
            crate::expr::expr_view(l),
            crate::expr::expr_view(f),
        ),
        Directive::End(e) => DirectiveView::End(crate::expr::expr_view(e)),
    }
}

/// The mathematical shape of a parsed instruction.
pub struct InstView {
    pub mnemonic: Seq<char>,
    pub size: Size,
    pub operands: Seq<OperandView>,
}

/// The view of a parsed instruction.
pub open spec fn inst_view(ie: InstExpr) -> InstView {
    InstView { mnemonic: ie.mnemonic@, size: ie.size, operands: operands_view(ie.operands@) }
}

/// The mathematical shape of a statement body.
pub enum BodyView {
    Instruction(InstView),
    Directive(DirectiveView),
    LabelOnly,
    Empty,
}

/// The view of a statement body.
pub open spec fn body_view(b: Body) -> BodyView {
    match b {
        Body::Instruction(ie) => BodyView::Instruction(inst_view(ie)),
        Body::Directive(d) => BodyView::Directive(directive_view(d)),
        Body::LabelOnly => BodyView::LabelOnly,
        Body::Empty => BodyView::Empty,
    }
}

/// The mathematical shape of one parsed source line.
pub struct StatementView {
    pub label: Option<Seq<char>>,
    pub body: BodyView,
}

/// The view of a statement.
pub open spec fn statement_view(st: Statement) -> StatementView {
    StatementView {
        label: match st.label {
            Some(name) => Some(name@),
            None => None,
        },
        body: body_view(st.body),
    }
}

/// The character class of a name's first character: a letter, `_` or `.`.
pub open spec fn is_name_start(c: char) -> bool {
    ('A' <= c && c <= 'Z') || ('a' <= c && c <= 'z') || c == '_' || c == '.'
}

/// The character class of a name's later characters: a letter, `_` or a
/// digit.
pub open spec fn is_name_char(c: char) -> bool {
    ('A' <= c && c <= 'Z') || ('a' <= c && c <= 'z') || c == '_' || ('0' <= c && c <= '9')
}

/// Whether the character is a letter or `_`.
fn letter(c: char) -> (r: bool)
    ensures
        r == (('A' <= c && c <= 'Z') || ('a' <= c && c <= 'z') || c == '_'),
{
    let u = c as u32;
    (65 <= u && u <= 90) || (97 <= u && u <= 122) || c == '_'
}

/// Whether the character is a decimal digit.
fn digit(c: char) -> (r: bool)
    ensures
        r == ('0' <= c && c <= '9'),
{
    let u = c as u32;
    48 <= u && u <= 57
}

/// The value of a decimal digit.
fn digit_value(c: char) -> (r: u32)
    requires
        '0' <= c && c <= '9',
    ensures
        r <= 9,
        r == c as u32 - 48,
{
    c as u32 - 48
}

/// Case-insensitive equality of two characters.
fn eq_nc(a: char, b: char) -> (r: bool)
    ensures
        r == crate::text::char_eq_nocase(a, b),
{
    let x = a as u32;
    let y = b as u32;
    x == y || (97 <= x && x <= 122 && x - 32 == y) || (97 <= y && y <= 122 && y - 32 == x)
}

/// The first position at or after `i` that does not hold a space or tab.
pub open spec fn spec_skip_ws(s: Seq<char>, i: int) -> int
    decreases s.len() - i,
{
    if 0 <= i < s.len() && (s[i] == ' ' || s[i] == '\t') {
        spec_skip_ws(s, i + 1)
    } else {
        i
    }
}

/// Skip spaces and tabs from `i` on.
fn skip_ws(s: &str, i: usize) -> (r: usize)
    requires
        i <= s@.len(),
    ensures
        i <= r <= s@.len(),
        r == spec_skip_ws(s@, i as int),
{
    let n = s.unicode_len();
    let mut j = i;
    while j < n
        invariant
            i <= j <= n,
            n == s@.len(),
            spec_skip_ws(s@, i as int) == spec_skip_ws(s@, j as int),
        decreases n - j,
    {
        let c = s.get_char(j);
        if c == ' ' || c == '\t' {
            j += 1;
        } else {
            return j;
        }
    }
    j
}

/// Where a case-insensitive match of the keyword `w` at `i` ends, if it
/// stands there.
pub open spec fn spec_kw(s: Seq<char>, i: int, w: Seq<char>) -> Option<int> {
    if i + w.len() <= s.len() && crate::text::eq_nocase(s.subrange(i, i + w.len()), w) {
        Some(i + w.len())
    } else {
        None
    }
}

/// Match the keyword `w` case-insensitively at `i`; the position after it.
fn kw(s: &str, i: usize, w: &str) -> (r: Option<usize>)
    requires
        i <= s@.len(),
    ensures
        r matches Some(j) ==> i <= j <= s@.len() && j == i + w@.len(),
        (match r {
            Some(j) => spec_kw(s@, i as int, w@) == Some(j as int),
            None => spec_kw(s@, i as int, w@) is None,
        }),
{
    let n = s.unicode_len();
    let m = w.unicode_len();
    if m > n - i {
        return None;
    }
    let mut k: usize = 0;
    while k < m
        invariant
            k <= m,
            m <= n - i,
            i <= s@.len(),
            n == s@.len(),
            m == w@.len(),
            forall|q: int|
                0 <= q < k ==> crate::text::char_eq_nocase(s@[i + q], #[trigger] w@[q]),
        decreases m - k,
    {
        if !eq_nc(s.get_char(i + k), w.get_char(k)) {
            proof {
                let sub = s@.subrange(i as int, i + w@.len());
                assert(sub[k as int] == s@[i + k]);
                assert(!crate::text::eq_nocase(sub, w@));
            }
            return None;
        }
        k += 1;
    }
    proof {
        let sub = s@.subrange(i as int, i + w@.len());
        assert forall|q: int| 0 <= q < sub.len() implies crate::text::char_eq_nocase(
            sub[q],
            w@[q],
        ) by {
            assert(sub[q] == s@[i + q]);
        }
        assert(crate::text::eq_nocase(sub, w@));
    }
    Some(i + m)
}

/// The first position at or after `j` that does not hold a name character.
pub open spec fn spec_name_end(s: Seq<char>, j: int) -> int
    decreases s.len() - j,
{
    if 0 <= j < s.len() && is_name_char(s[j]) {
        spec_name_end(s, j + 1)
    } else {
        j
    }
}

/// The name standing at `i`, with the position after it: a name-start
/// character followed by the longest run of name characters.
pub open spec fn spec_name(s: Seq<char>, i: int) -> Option<(Seq<char>, int)> {
    if 0 <= i < s.len() && is_name_start(s[i]) {
        Some((s.subrange(i, spec_name_end(s, i + 1)), spec_name_end(s, i + 1)))
    } else {
        None
    }
}

/// Parse a name: a letter, `_` or `.` followed by letters, `_` and digits.
fn parse_name(s: &str, i: usize) -> (r: Option<(String, usize)>)
    requires
        i <= s@.len(),
    ensures
        r matches Some(p) ==> i < p.1 <= s@.len(),
        (match r {
            Some(p) => spec_name(s@, i as int) == Some((p.0@, p.1 as int)),
            None => spec_name(s@, i as int) is None,
        }),
{
    let n = s.unicode_len();
    if i >= n {
        return None;
    }
    let c0 = s.get_char(i);
    if !(letter(c0) || c0 == '.') {
        return None;
    }
    let mut j = i + 1;
    while j < n && name_char_at(s, j)
        invariant
            i < j <= n,
            n == s@.len(),
            spec_name_end(s@, i + 1) == spec_name_end(s@, j as int),
        decreases n - j,
    {
        j += 1;
    }
    Some((s.substring_char(i, j).to_owned(), j))
}

/// Whether the character at `j` may continue a name.
fn name_char_at(s: &str, j: usize) -> (r: bool)
    requires
        j < s@.len(),
    ensures
        r == is_name_char(s@[j as int]),
{
    let c = s.get_char(j);
    letter(c) || digit(c)
}

/// The size qualifier standing at `i`: a dot and one of the size letters,
/// either case, `.S` carrying no concrete size.
pub open spec fn spec_qualifier(s: Seq<char>, i: int) -> Option<(Size, int)> {
    if 0 <= i && i + 1 < s.len() && s[i] == '.' {
        if crate::text::char_eq_nocase(s[i + 1], 'b') {
            Some((Size::Byte, i + 2))
        } else if crate::text::char_eq_nocase(s[i + 1], 'w') {
            Some((Size::Word, i + 2))
        } else if crate::text::char_eq_nocase(s[i + 1], 'l') {
            Some((Size::Long, i + 2))
        } else if crate::text::char_eq_nocase(s[i + 1], 's') {
            Some((Size::Unsized, i + 2))
        } else {
            None
        }
    } else {
        None
    }
}

/// Parse a size qualifier `.B`, `.W`, `.L` or `.S` (any case); `.S` has no
/// concrete size of its own.
fn parse_qualifier(s: &str, i: usize) -> (r: Option<(Size, usize)>)
    requires
        i <= s@.len(),
    ensures
        r matches Some(p) ==> i < p.1 <= s@.len(),
        (match r {
            Some(p) => spec_qualifier(s@, i as int) == Some((p.0, p.1 as int)),
            None => spec_qualifier(s@, i as int) is None,
        }),
{
    let n = s.unicode_len();
    if i >= n || s.get_char(i) != '.' {
        return None;
    }
    if i + 1 >= n {
        return None;
    }
    let c = s.get_char(i + 1);
    if eq_nc(c, 'b') {
        Some((Size::Byte, i + 2))
    } else if eq_nc(c, 'w') {
        Some((Size::Word, i + 2))
    } else if eq_nc(c, 'l') {
        Some((Size::Long, i + 2))
    } else if eq_nc(c, 's') {
        Some((Size::Unsized, i + 2))
    } else {
        None
    }
}

/// The value of one digit character, 16 for anything else.
pub open spec fn digit_char_val(c: char) -> int {
    if '0' <= c && c <= '9' {
        c as u32 - 48
    } else if 'A' <= c && c <= 'F' {
        c as u32 - 55
    } else if 'a' <= c && c <= 'f' {
        c as u32 - 87
    } else {
        16
    }
}

/// The value of a digit string in the given radix, taken modulo 2^32.
pub open spec fn num_value(cs: Seq<char>, radix: int) -> int
    decreases cs.len(),
{
    if cs.len() == 0 {
        0
    } else {
        (num_value(cs.drop_last(), radix) * radix + digit_char_val(cs.last())) % 0x1_0000_0000
    }
}

/// Whether `c` is a digit of the given radix: a decimal digit below it, or
/// for radix sixteen also a hexadecimal letter.
pub open spec fn is_radix_digit(c: char, radix: int) -> bool {
    ('0' <= c && c <= '9' && c as u32 - 48 < radix) || (radix == 16 && (('A' <= c && c <= 'F')
        || ('a' <= c && c <= 'f')))
}

/// The first position at or after `j` that does not hold a digit of the
/// radix.
pub open spec fn spec_num_end(s: Seq<char>, j: int, radix: int) -> int
    decreases s.len() - j,
{
    if 0 <= j < s.len() && is_radix_digit(s[j], radix) {
        spec_num_end(s, j + 1, radix)
    } else {
        j
    }
}

/// The signed 32-bit value with the two's-complement bits of `u`.
pub open spec fn i32_of_bits(u: int) -> i32
    recommends
        0 <= u < 0x1_0000_0000,
{
    if u <= 0x7FFF_FFFF {
        u as i32
    } else {
        (u - 0x1_0000_0000) as i32
    }
}

/// The numeric literal standing at `i`: a `$`, `@` or `%` radix prefix or a
/// leading decimal digit, then the longest run of digits of that radix,
/// whose value is taken in two's complement modulo 2^32.
pub open spec fn spec_number(s: Seq<char>, i: int) -> Option<(i32, int)> {
    if !(0 <= i && i < s.len()) {
        None
    } else {
        let radix: int = if s[i] == '$' {
            16
        } else if s[i] == '@' {
            8
        } else if s[i] == '%' {
            2
        } else if '0' <= s[i] && s[i] <= '9' {
            10
        } else {
            0
        };
        if radix == 0 {
            None
        } else {
            let first: int = if radix == 10 {
                i
            } else {
                i + 1
            };
            let e = spec_num_end(s, first, radix);
            if e == first {
                None
            } else {
                Some((i32_of_bits(num_value(s.subrange(first, e), radix)), e))
            }
        }
    }
}

/// Whether the character at `j` is a digit of the radix.
fn radix_digit_at(s: &str, j: usize, radix: u32) -> (r: bool)
    requires
        j < s@.len(),
        2 <= radix <= 16,
    ensures
        r == is_radix_digit(s@[j as int], radix as int),
{
    let c = s.get_char(j);
    (digit(c) && digit_value(c) < radix) || (radix == 16 && (('A' as u32 <= c as u32 && c as u32
        <= 'F' as u32) || ('a' as u32 <= c as u32 && c as u32 <= 'f' as u32)))
}

/// Parse a numeric literal: `$` hex, `@` octal, `%` binary, or decimal.
/// The value is the consumed digits' value in two's complement, taken
/// modulo 2^32.
fn parse_number(s: &str, i: usize) -> (r: Option<(i32, usize)>)
    requires
        i <= s@.len(),
    ensures
        r matches Some(p) ==> i < p.1 <= s@.len(),
        (match r {
            Some(p) => spec_number(s@, i as int) == Some((p.0, p.1 as int)),
            None => spec_number(s@, i as int) is None,
        }),
{
    let n = s.unicode_len();
    if i >= n {
        return None;
    }
    let c0 = s.get_char(i);
    let (radix, start): (u32, usize) = if c0 == '$' {
        (16, i + 1)
    } else if c0 == '@' {
        (8, i + 1)
    } else if c0 == '%' {
        (2, i + 1)
    } else if digit(c0) {
        (10, i)
    } else {
        return None;
    };
    let mut j = start;
    let mut value: u32 = 0;
    while j < n && radix_digit_at(s, j, radix)
        invariant
            i <= start <= j <= n,
            n == s@.len(),
            2 <= radix <= 16,
            start <= i + 1,
            spec_num_end(s@, start as int, radix as int) == spec_num_end(
                s@,
                j as int,
                radix as int,
            ),
            value as int == num_value(s@.subrange(start as int, j as int), radix as int),
        decreases n - j,
    {
        let c = s.get_char(j);
        let d: u32 = if digit(c) {
            digit_value(c)
        } else if 'A' as u32 <= c as u32 && c as u32 <= 'F' as u32 {
            c as u32 - 55
        } else {
            c as u32 - 87
        };
        proof {
            let prev = s@.subrange(start as int, j as int);
            let cur = s@.subrange(start as int, j + 1);
            assert(cur.drop_last() =~= prev);
            assert(cur.last() == s@[j as int]);
            assert(d == digit_char_val(s@[j as int]));
            vstd::arithmetic::div_mod::lemma_add_mod_noop(
                (value as int) * (radix as int),
                d as int,
                0x1_0000_0000,
            );
            vstd::arithmetic::div_mod::lemma_small_mod(d as nat, 0x1_0000_0000);
        }
        value = value.wrapping_mul(radix).wrapping_add(d);
        j += 1;
    }
    if j == start {
        return None;
    }
    let signed: i32 = if value <= 0x7FFF_FFFF {
        value as i32
    } else {
        (value as i64 - 0x1_0000_0000i64) as i32
    };
    Some((signed, j))
}

/// The position of the closing quote at or after `j`, if one stands there.
pub open spec fn spec_close_quote(s: Seq<char>, j: int, q: char) -> Option<int>
    decreases s.len() - j,
{
    if !(0 <= j < s.len()) {
        None
    } else if s[j] == q {
        Some(j)
    } else {
        spec_close_quote(s, j + 1, q)
    }
}

/// The quoted string standing at `i`, quotes kept, with the position after
/// it.
pub open spec fn spec_quoted(s: Seq<char>, i: int) -> Option<(Seq<char>, int)> {
    if 0 <= i < s.len() && (s[i] == '"' || s[i] == '\'') {
        match spec_close_quote(s, i + 1, s[i]) {
            Some(e) => Some((s.subrange(i, e + 1), e + 1)),
            None => None,
        }
    } else {
        None
    }
}

/// Parse a quoted string, single or double quotes; the result keeps the
/// quote characters.
fn parse_quoted(s: &str, i: usize) -> (r: Option<(String, usize)>)
    requires
        i <= s@.len(),
    ensures
        r matches Some(p) ==> i < p.1 <= s@.len(),
        (match r {
            Some(p) => spec_quoted(s@, i as int) == Some((p.0@, p.1 as int)),
            None => spec_quoted(s@, i as int) is None,
        }),
{
    let n = s.unicode_len();
    if i >= n {
        return None;
    }
    let q = s.get_char(i);
    if q != '"' && q != '\'' {
        return None;
    }
    let mut j = i + 1;
    while j < n
        invariant
            i < j <= n,
            n == s@.len(),
            q == s@[i as int],
            q == '"' || q == '\'',
            spec_close_quote(s@, i + 1, q) == spec_close_quote(s@, j as int, q),
        decreases n - j,
    {
        if s.get_char(j) == q {
            proof {
                assert(spec_close_quote(s@, j as int, q) == Some(j as int));
                assert(spec_close_quote(s@, i + 1, q) == Some(j as int));
                assert((i as int) < s@.len());
                assert(s@[i as int] == q && (q == '"' || q == '\''));
                assert(spec_close_quote(s@, (i as int) + 1, s@[i as int]) == Some(j as int));
                assert(spec_quoted(s@, i as int) == Some(
                    (s@.subrange(i as int, j + 1), j + 1),
                ));
            }
            return Some((s.substring_char(i, j + 1).to_owned(), j + 1));
        }
        j += 1;
    }
    None
}

/// The binary operator standing at `i`, as its precedence and the position
/// after it. The grammar makes the additive operators bind loosest, then
/// multiplicative, then `|`, `^`, `&`, with the shifts binding tightest.
pub open spec fn spec_peek_op(s: Seq<char>, i: int) -> Option<(int, int)> {
    if !(0 <= i && i < s.len()) {
        None
    } else if s[i] == '+' || s[i] == '-' {
        Some((1, i + 1))
    } else if s[i] == '*' || s[i] == '/' || s[i] == '%' {
        Some((2, i + 1))
    } else if s[i] == '|' {
        Some((3, i + 1))
    } else if s[i] == '^' {
        Some((4, i + 1))
    } else if s[i] == '&' {
        Some((5, i + 1))
    } else if s[i] == '<' && i + 1 < s.len() && s[i + 1] == '<' {
        Some((6, i + 2))
    } else if s[i] == '>' && i + 1 < s.len() && s[i + 1] == '>' {
        Some((6, i + 2))
    } else {
        None
    }
}

/// The expression node for the operator character at `opi`.
pub open spec fn spec_op_node(
    s: Seq<char>,
    opi: int,
    l: crate::expr::ExprView,
    r: crate::expr::ExprView,
) -> crate::expr::ExprView {
    if s[opi] == '+' {
        crate::expr::ExprView::Add(Box::new(l), Box::new(r))
    } else if s[opi] == '-' {
        crate::expr::ExprView::Sub(Box::new(l), Box::new(r))
    } else if s[opi] == '*' {
        crate::expr::ExprView::Mul(Box::new(l), Box::new(r))
    } else if s[opi] == '/' {
        crate::expr::ExprView::Div(Box::new(l), Box::new(r))
    } else if s[opi] == '%' {
        crate::expr::ExprView::Mod(Box::new(l), Box::new(r))
    } else if s[opi] == '|' {
        crate::expr::ExprView::Ior(Box::new(l), Box::new(r))
    } else if s[opi] == '^' {
        crate::expr::ExprView::Xor(Box::new(l), Box::new(r))
    } else if s[opi] == '&' {
        crate::expr::ExprView::And(Box::new(l), Box::new(r))
    } else if s[opi] == '<' {
        crate::expr::ExprView::Shl(Box::new(l), Box::new(r))
    } else {
        crate::expr::ExprView::Shr(Box::new(l), Box::new(r))
    }
}

/// The primary standing at `i`: an optional `-` or `~` ahead of a
/// parenthesised expression, a symbol, a number or a quoted string; with
/// `ws`, blanks may stand between tokens. The position guards only keep the
/// recursion well founded; the parser always advances.
pub open spec fn spec_parse_primary(s: Seq<char>, i: int, ws: bool) -> Option<
    (crate::expr::ExprView, int),
>
    decreases s.len() - i, 0int,
{
    let start = if ws {
        spec_skip_ws(s, i)
    } else {
        i
    };
    if start < i || start >= s.len() {
        None
    } else if s[start] == '-' {
        match spec_parse_primary(s, start + 1, ws) {
            Some((e, j)) => Some((crate::expr::ExprView::Neg(Box::new(e)), j)),
            None => None,
        }
    } else if s[start] == '~' {
        match spec_parse_primary(s, start + 1, ws) {
            Some((e, j)) => Some((crate::expr::ExprView::Cpl(Box::new(e)), j)),
            None => None,
        }
    } else if s[start] == '(' {
        match spec_parse_expr_prec(s, start + 1, ws, 1) {
            Some((e, j)) => {
                let j2 = if ws {
                    spec_skip_ws(s, j)
                } else {
                    j
                };
                if 0 <= j2 && j2 < s.len() && s[j2] == ')' {
                    Some((e, j2 + 1))
                } else {
                    None
                }
            },
            None => None,
        }
    } else if is_name_start(s[start]) {
        match spec_name(s, start) {
            Some((name, j)) => Some((crate::expr::ExprView::Sym(name), j)),
            None => None,
        }
    } else if s[start] == '"' || s[start] == '\'' {
        match spec_quoted(s, start) {
            Some((text, j)) => Some((crate::expr::ExprView::Str(text), j)),
            None => None,
        }
    } else {
        match spec_number(s, start) {
            Some((v, j)) => Some((crate::expr::ExprView::Num(v), j)),
            None => None,
        }
    }
}

/// Precedence climbing from an already-parsed left operand at `pos`: fold
/// in operators binding at least as tightly as `min_prec`, each
/// left-associatively.
pub open spec fn spec_climb(
    s: Seq<char>,
    ws: bool,
    min_prec: int,
    acc: crate::expr::ExprView,
    pos: int,
) -> (crate::expr::ExprView, int)
    decreases s.len() - pos, 2int,
{
    if pos < 0 || pos >= s.len() {
        (acc, pos)
    } else {
        let look = if ws {
            spec_skip_ws(s, pos)
        } else {
            pos
        };
        match spec_peek_op(s, look) {
            None => (acc, pos),
            Some((prec, after)) => if prec < min_prec || after <= pos || after > s.len() {
                (acc, pos)
            } else {
                match spec_parse_expr_prec(s, after, ws, prec + 1) {
                    None => (acc, pos),
                    Some((rhs, j)) => if j <= pos || j > s.len() {
                        (acc, pos)
                    } else {
                        spec_climb(s, ws, min_prec, spec_op_node(s, look, acc, rhs), j)
                    },
                }
            },
        }
    }
}

/// The expression standing at `i`, parsed by precedence climbing from
/// `min_prec` up.
pub open spec fn spec_parse_expr_prec(s: Seq<char>, i: int, ws: bool, min_prec: int) -> Option<
    (crate::expr::ExprView, int),
>
    decreases s.len() - i, 1int,
{
    match spec_parse_primary(s, i, ws) {
        None => None,
        Some((e, j)) => if j <= i || j > s.len() {
            None
        } else {
            Some(spec_climb(s, ws, min_prec, e, j))
        },
    }
}

/// The expression standing at `i`.
pub open spec fn spec_parse_expression(s: Seq<char>, i: int, ws: bool) -> Option<
    (crate::expr::ExprView, int),
> {
    spec_parse_expr_prec(s, i, ws, 1)
}

/// The precedence of the binary operator at `i`, or `None`. The grammar
/// makes the additive operators bind loosest, then multiplicative, then
/// `|`, `^`, `&`, with the shifts binding tightest — not the common C
/// ordering, but the one this assembly dialect fixes.
fn peek_op(s: &str, i: usize) -> (r: Option<(u32, usize)>)
    requires
        i <= s@.len(),
    ensures
        r matches Some(p) ==> i < p.1 <= s@.len() && 1 <= p.0 <= 6,
        (match r {
            Some(p) => spec_peek_op(s@, i as int) == Some((p.0 as int, p.1 as int)),
            None => spec_peek_op(s@, i as int) is None,
        }),
{
    let n = s.unicode_len();
    if i >= n {
        return None;
    }
    let c = s.get_char(i);
    if c == '+' || c == '-' {
        Some((1, i + 1))
    } else if c == '*' || c == '/' || c == '%' {
        Some((2, i + 1))
    } else if c == '|' {
        Some((3, i + 1))
    } else if c == '^' {
        Some((4, i + 1))
    } else if c == '&' {
        Some((5, i + 1))
    } else if c == '<' && i + 1 < n && s.get_char(i + 1) == '<' {
        Some((6, i + 2))
    } else if c == '>' && i + 1 < n && s.get_char(i + 1) == '>' {
        Some((6, i + 2))
    } else {
        None
    }
}

/// Build the expression node for the operator character at `opi`.
fn op_node(s: &str, opi: usize, left: Expr, right: Expr) -> (r: Expr)
    requires
        opi < s@.len(),
    ensures
        crate::expr::expr_view(r) == spec_op_node(
            s@,
            opi as int,
            crate::expr::expr_view(left),
            crate::expr::expr_view(right),
        ),
{
    let c = s.get_char(opi);
    if c == '+' {
        Expr::Add(Box::new(left), Box::new(right))
    } else if c == '-' {
        Expr::Sub(Box::new(left), Box::new(right))
    } else if c == '*' {
        Expr::Mul(Box::new(left), Box::new(right))
    } else if c == '/' {
        Expr::Div(Box::new(left), Box::new(right))
    } else if c == '%' {
        Expr::Mod(Box::new(left), Box::new(right))
    } else if c == '|' {
        Expr::Ior(Box::new(left), Box::new(right))
    } else if c == '^' {
        Expr::Xor(Box::new(left), Box::new(right))
    } else if c == '&' {
        Expr::And(Box::new(left), Box::new(right))
    } else if c == '<' {
        Expr::Shl(Box::new(left), Box::new(right))
    } else {
        Expr::Shr(Box::new(left), Box::new(right))
    }
}

/// Parse a primary: an optional `-` or `~` ahead of a parenthesised
/// expression, a symbol, a number or a quoted string. With `ws`, blanks may
/// stand between tokens.
fn parse_primary(s: &str, i: usize, ws: bool) -> (r: Option<(Expr, usize)>)
    requires
        i <= s@.len(),
    ensures
        r matches Some(p) ==> i < p.1 <= s@.len(),
        (match r {
            Some(p) => spec_parse_primary(s@, i as int, ws) == Some(
                (crate::expr::expr_view(p.0), p.1 as int),
            ),
            None => spec_parse_primary(s@, i as int, ws) is None,
        }),
    decreases s@.len() - i, 0int,
{
    let start = if ws {
        skip_ws(s, i)
    } else {
        i
    };
    let n = s.unicode_len();
    if start >= n {
        return None;
    }
    let c = s.get_char(start);
    if c == '-' {
        match parse_primary(s, start + 1, ws) {
            Some((e, j)) => {
                let out = Expr::Neg(Box::new(e));
                proof {
                    assert(spec_parse_primary(s@, i as int, ws) == Some(
                        (crate::expr::expr_view(out), j as int),
                    ));
                }
                Some((out, j))
            },
            None => None,
        }
    } else if c == '~' {
        match parse_primary(s, start + 1, ws) {
            Some((e, j)) => {
                let out = Expr::Cpl(Box::new(e));
                proof {
                    assert(spec_parse_primary(s@, i as int, ws) == Some(
                        (crate::expr::expr_view(out), j as int),
                    ));
                }
                Some((out, j))
            },
            None => None,
        }
    } else if c == '(' {
        match parse_expr_prec(s, start + 1, ws, 1) {
            Some((e, j)) => {
                let j2 = if ws {
                    skip_ws(s, j)
                } else {
                    j
                };
                if j2 < n && s.get_char(j2) == ')' {
                    proof {
                        assert(spec_parse_primary(s@, i as int, ws) == Some(
                            (crate::expr::expr_view(e), j2 + 1),
                        ));
                    }
                    Some((e, j2 + 1))
                } else {
                    None
                }
            },
            None => None,
        }
    } else if letter(c) || c == '.' {
        match parse_name(s, start) {
            Some((name, j)) => {
                let out = Expr::Sym(name);
                proof {
                    assert(spec_parse_primary(s@, i as int, ws) == Some(
                        (crate::expr::expr_view(out), j as int),
                    ));
                }
                Some((out, j))
            },
            None => None,
        }
    } else if c == '"' || c == '\'' {
        match parse_quoted(s, start) {
            Some((text, j)) => {
                let out = Expr::Str(text);
                proof {
                    assert(spec_parse_primary(s@, i as int, ws) == Some(
                        (crate::expr::expr_view(out), j as int),
                    ));
                }
                Some((out, j))
            },
            None => None,
        }
    } else {
        match parse_number(s, start) {
            Some((v, j)) => {
                proof {
                    assert(spec_parse_primary(s@, i as int, ws) == Some(
                        (crate::expr::ExprView::Num(v), j as int),
                    ));
                }
                Some((Expr::Num(v), j))
            },
            None => None,
        }
    }
}

/// Precedence climbing from `min_prec` up: parse a primary, then fold in
/// operators that bind at least as tightly, each left-associatively.
#[verifier::loop_isolation(false)]
fn parse_expr_prec(s: &str, i: usize, ws: bool, min_prec: u32) -> (r: Option<(Expr, usize)>)
    requires
        i <= s@.len(),
        1 <= min_prec <= 7,
    ensures
        r matches Some(p) ==> i < p.1 <= s@.len(),
        (match r {
            Some(p) => spec_parse_expr_prec(s@, i as int, ws, min_prec as int) == Some(
                (crate::expr::expr_view(p.0), p.1 as int),
            ),
            None => spec_parse_expr_prec(s@, i as int, ws, min_prec as int) is None,
        }),
    decreases s@.len() - i, 1int,
{
    let mut acc: Expr;
    let mut pos: usize;
    match parse_primary(s, i, ws) {
        Some((e, j)) => {
            acc = e;
            pos = j;
        },
        None => {
            return None;
        },
    }
    loop
        invariant
            i < pos <= s@.len(),
            1 <= min_prec <= 7,
            spec_parse_expr_prec(s@, i as int, ws, min_prec as int) == Some(
                spec_climb(s@, ws, min_prec as int, crate::expr::expr_view(acc), pos as int),
            ),
        decreases s@.len() - pos,
    {
        let look = if ws {
            skip_ws(s, pos)
        } else {
            pos
        };
        match peek_op(s, look) {
            None => {
                return Some((acc, pos));
            },
            Some((prec, after_op)) => {
                if prec < min_prec {
                    return Some((acc, pos));
                }
                match parse_expr_prec(s, after_op, ws, prec + 1) {
                    None => {
                        return Some((acc, pos));
                    },
                    Some((rhs, j)) => {
                        acc = op_node(s, look, acc, rhs);
                        pos = j;
                    },
                }
            },
        }
    }
}

/// Parse one expression. With `ws`, blanks may stand between its tokens.
pub fn parse_expression(s: &str, i: usize, ws: bool) -> (r: Option<(Expr, usize)>)
    requires
        i <= s@.len(),
    ensures
        r matches Some(p) ==> i < p.1 <= s@.len(),
        (match r {
            Some(p) => spec_parse_expression(s@, i as int, ws) == Some(
                (crate::expr::expr_view(p.0), p.1 as int),
            ),
            None => spec_parse_expression(s@, i as int, ws) is None,
        }),
{
    parse_expr_prec(s, i, ws, 1)
}

/// Whether the character is a letter or `_`.
pub open spec fn is_letter(c: char) -> bool {
    ('A' <= c && c <= 'Z') || ('a' <= c && c <= 'z') || c == '_'
}

/// The data register standing at `i`: `D` and a digit 0..=7, any case, an
/// ignored size qualifier allowed, not followed by a letter.
pub open spec fn spec_dreg(s: Seq<char>, i: int) -> Option<(u8, int)> {
    if !(0 <= i && i + 1 < s.len()) {
        None
    } else if !crate::text::char_eq_nocase(s[i], 'd') {
        None
    } else if !('0' <= s[i + 1] && s[i + 1] <= '7') {
        None
    } else {
        let reg = (s[i + 1] as u32 - 48) as u8;
        let j = match spec_qualifier(s, i + 2) {
            Some(p) => p.1,
            None => i + 2,
        };
        if 0 <= j && j < s.len() && is_letter(s[j]) {
            None
        } else {
            Some((reg, j))
        }
    }
}

/// The address register standing at `i`: `A` and a digit 0..=7 or the
/// alias `SP`, any case, an ignored size qualifier allowed, not followed by
/// a letter.
pub open spec fn spec_areg(s: Seq<char>, i: int) -> Option<(u8, int)> {
    if !(0 <= i && i + 1 < s.len()) {
        None
    } else {
        let named: Option<(u8, int)> = if crate::text::char_eq_nocase(s[i], 'a') && '0' <= s[i
            + 1] && s[i + 1] <= '7' {
            Some(((s[i + 1] as u32 - 48) as u8, i + 2))
        } else if crate::text::char_eq_nocase(s[i], 's') && crate::text::char_eq_nocase(
            s[i + 1],
            'p',
        ) {
            Some((7u8, i + 2))
        } else {
            None
        };
        match named {
            None => None,
            Some((reg, after)) => {
                let j = match spec_qualifier(s, after) {
                    Some(p) => p.1,
                    None => after,
                };
                if 0 <= j && j < s.len() && is_letter(s[j]) {
                    None
                } else {
                    Some((reg, j))
                }
            },
        }
    }
}

/// The index register standing at `i`: a data register as 0..=7, an
/// address register as 8..=15.
pub open spec fn spec_xreg(s: Seq<char>, i: int) -> Option<(u8, int)> {
    match spec_dreg(s, i) {
        Some((d, j)) => Some((d, j)),
        None => match spec_areg(s, i) {
            Some((a, j)) => Some(((a + 8) as u8, j)),
            None => None,
        },
    }
}

/// The position after the character `c`, expected after optional blanks.
pub open spec fn spec_expect_ch(s: Seq<char>, i: int, c: char) -> Option<int> {
    let j = spec_skip_ws(s, i);
    if 0 <= j && j < s.len() && s[j] == c {
        Some(j + 1)
    } else {
        None
    }
}

/// An expression followed by a comma, blanks allowed.
pub open spec fn spec_try_expr_comma(s: Seq<char>, i: int) -> Option<
    (crate::expr::ExprView, int),
> {
    match spec_parse_expression(s, i, true) {
        Some((e, j)) => match spec_expect_ch(s, j, ',') {
            Some(j2) => Some((e, j2)),
            None => None,
        },
        None => None,
    }
}

/// The opening of a parenthesised form with an optional leading
/// displacement group `expr ,` inside: the displacement, zero when absent,
/// and the position after it.
pub open spec fn spec_open_paren_disp(s: Seq<char>, i: int) -> Option<
    (crate::expr::ExprView, int),
> {
    if !(0 <= i && i < s.len()) || s[i] != '(' {
        None
    } else {
        let inner = spec_skip_ws(s, i + 1);
        match spec_try_expr_comma(s, inner) {
            Some((e, j)) => Some((e, spec_skip_ws(s, j))),
            None => Some((crate::expr::ExprView::Num(0), inner)),
        }
    }
}

/// An optional displacement expression ahead of a parenthesis, then the
/// parenthesis itself: the displacement, zero when absent, and the position
/// after `(`.
pub open spec fn spec_lead_disp_paren(s: Seq<char>, i: int) -> Option<
    (crate::expr::ExprView, int),
> {
    if !(0 <= i && i < s.len()) {
        None
    } else {
        let dj: (crate::expr::ExprView, int) = if s[i] != '(' {
            match spec_parse_expression(s, i, false) {
                Some((e, je)) => (e, je),
                None => (crate::expr::ExprView::Num(0), i),
            }
        } else {
            (crate::expr::ExprView::Num(0), i)
        };
        if 0 <= dj.1 && dj.1 < s.len() && s[dj.1] == '(' {
            Some((dj.0, spec_skip_ws(s, dj.1 + 1)))
        } else {
            None
        }
    }
}

/// After the displacement of a PC form: `PC , Xi )` or `PC )`.
pub open spec fn spec_finish_pc(
    s: Seq<char>,
    i: int,
    d: crate::expr::ExprView,
    want_index: bool,
) -> Option<(OperandView, int)> {
    match spec_kw(s, i, "pc"@) {
        Some(j) => if want_index {
            match spec_expect_ch(s, j, ',') {
                Some(j2) => {
                    let j3 = spec_skip_ws(s, j2);
                    match spec_xreg(s, j3) {
                        Some((x, j4)) => match spec_expect_ch(s, j4, ')') {
                            Some(j5) => Some((OperandView::PcIndex(x, d), j5)),
                            None => None,
                        },
                        None => None,
                    }
                },
                None => None,
            }
        } else {
            match spec_expect_ch(s, j, ')') {
                Some(j2) => Some((OperandView::PcDisplacement(d), j2)),
                None => None,
            }
        },
        None => None,
    }
}

/// After the displacement of an address-register form: `An , Xi )` or
/// `An )`.
pub open spec fn spec_finish_areg(
    s: Seq<char>,
    i: int,
    d: crate::expr::ExprView,
    want_index: bool,
) -> Option<(OperandView, int)> {
    match spec_areg(s, i) {
        Some((a, j)) => if want_index {
            match spec_expect_ch(s, j, ',') {
                Some(j2) => {
                    let j3 = spec_skip_ws(s, j2);
                    match spec_xreg(s, j3) {
                        Some((x, j4)) => match spec_expect_ch(s, j4, ')') {
                            Some(j5) => Some((OperandView::Index(a, x, d), j5)),
                            None => None,
                        },
                        None => None,
                    }
                },
                None => None,
            }
        } else {
            match spec_expect_ch(s, j, ')') {
                Some(j2) => Some((OperandView::Displacement(a, d), j2)),
                None => None,
            }
        },
        None => None,
    }
}

/// The parenthesised forms that carry a displacement, tried in the
/// grammar's order: `(d,PC,Xi)`, `(d,PC)`, `(d,An,Xi)`, `(d,An)`, each with
/// the displacement inside the parenthesis or ahead of it.
pub open spec fn spec_pc_or_indexed(s: Seq<char>, i: int) -> Option<(OperandView, int)> {
    let a1 = match spec_open_paren_disp(s, i) {
        Some((d, j)) => spec_finish_pc(s, j, d, true),
        None => None,
    };
    let a2 = match spec_lead_disp_paren(s, i) {
        Some((d, j)) => spec_finish_pc(s, j, d, true),
        None => None,
    };
    let a3 = match spec_open_paren_disp(s, i) {
        Some((d, j)) => spec_finish_pc(s, j, d, false),
        None => None,
    };
    let a4 = match spec_lead_disp_paren(s, i) {
        Some((d, j)) => spec_finish_pc(s, j, d, false),
        None => None,
    };
    let a5 = match spec_open_paren_disp(s, i) {
        Some((d, j)) => spec_finish_areg(s, j, d, true),
        None => None,
    };
    let a6 = match spec_lead_disp_paren(s, i) {
        Some((d, j)) => spec_finish_areg(s, j, d, true),
        None => None,
    };
    let a7: Option<(OperandView, int)> = if 0 <= i && i < s.len() && s[i] == '(' {
        match spec_try_expr_comma(s, spec_skip_ws(s, i + 1)) {
            Some((d, j)) => spec_finish_areg(s, spec_skip_ws(s, j), d, false),
            None => None,
        }
    } else {
        None
    };
    let a8: Option<(OperandView, int)> = if 0 <= i && i < s.len() && s[i] != '(' {
        match spec_parse_expression(s, i, false) {
            Some((d, j)) => if 0 <= j && j < s.len() && s[j] == '(' {
                spec_finish_areg(s, spec_skip_ws(s, j + 1), d, false)
            } else {
                None
            },
            None => None,
        }
    } else {
        None
    };
    if a1 is Some {
        a1
    } else if a2 is Some {
        a2
    } else if a3 is Some {
        a3
    } else if a4 is Some {
        a4
    } else if a5 is Some {
        a5
    } else if a6 is Some {
        a6
    } else if a7 is Some {
        a7
    } else {
        a8
    }
}

/// The operand standing at `i`, the addressing-mode forms tried in the
/// grammar's order; the first form that matches is kept.
pub open spec fn spec_parse_operand(s: Seq<char>, i: int) -> Option<(OperandView, int)> {
    if !(0 <= i && i < s.len()) {
        None
    } else if spec_dreg(s, i) is Some {
        let p = spec_dreg(s, i)->Some_0;
        Some((OperandView::DataRegisterDirect(p.0), p.1))
    } else if spec_areg(s, i) is Some {
        let p = spec_areg(s, i)->Some_0;
        Some((OperandView::AddressRegisterDirect(p.0), p.1))
    } else if spec_paren_reg(s, i) is Some {
        spec_paren_reg(s, i)
    } else if spec_predec(s, i) is Some {
        spec_predec(s, i)
    } else if spec_pc_or_indexed(s, i) is Some {
        spec_pc_or_indexed(s, i)
    } else if s[i] == '#' {
        match spec_parse_expression(s, i + 1, false) {
            Some((e, j)) => match spec_qualifier(s, j) {
                Some((z, j2)) => Some((OperandView::Immediate(z, e), j2)),
                None => Some((OperandView::Immediate(Size::Unsized, e), j)),
            },
            None => None,
        }
    } else if spec_kw(s, i, "ccr"@) is Some {
        Some((OperandView::StatusRegister(Size::Byte), spec_kw(s, i, "ccr"@)->Some_0))
    } else if spec_kw(s, i, "sr"@) is Some {
        Some((OperandView::StatusRegister(Size::Word), spec_kw(s, i, "sr"@)->Some_0))
    } else {
        match spec_parse_expression(s, i, false) {
            Some((e, j)) => match spec_qualifier(s, j) {
                Some((z, j2)) => Some((OperandView::Absolute(z, e), j2)),
                None => Some((OperandView::Absolute(Size::Unsized, e), j)),
            },
            None => None,
        }
    }
}

/// An `(An)` or `(An)+` form standing at `i`.
pub open spec fn spec_paren_reg(s: Seq<char>, i: int) -> Option<(OperandView, int)> {
    if 0 <= i && i < s.len() && s[i] == '(' {
        let j = spec_skip_ws(s, i + 1);
        match spec_areg(s, j) {
            Some((a, j2)) => match spec_expect_ch(s, j2, ')') {
                Some(j3) => if 0 <= j3 && j3 < s.len() && s[j3] == '+' {
                    Some((OperandView::AddressRegisterIndirectWithPostincrement(a), j3 + 1))
                } else {
                    Some((OperandView::AddressRegisterIndirect(a), j3))
                },
                None => None,
            },
            None => None,
        }
    } else {
        None
    }
}

/// A `-(An)` form standing at `i`.
pub open spec fn spec_predec(s: Seq<char>, i: int) -> Option<(OperandView, int)> {
    if 0 <= i && i < s.len() && s[i] == '-' {
        let j = spec_skip_ws(s, i + 1);
        if 0 <= j && j < s.len() && s[j] == '(' {
            let j2 = spec_skip_ws(s, j + 1);
            match spec_areg(s, j2) {
                Some((a, j3)) => match spec_expect_ch(s, j3, ')') {
                    Some(j4) => Some(
                        (OperandView::AddressRegisterIndirectWithPredecrement(a), j4),
                    ),
                    None => None,
                },
                None => None,
            }
        } else {
            None
        }
    } else {
        None
    }
}

/// The rest of a comma-separated operand list after `pos`. The position
/// guards only keep the recursion well founded; the parser always
/// advances.
pub open spec fn spec_operands_more(
    s: Seq<char>,
    acc: Seq<OperandView>,
    pos: int,
) -> Option<(Seq<OperandView>, int)>
    decreases s.len() - pos,
{
    let j = spec_skip_ws(s, pos);
    if 0 <= j && j < s.len() && s[j] == ',' {
        let j2 = spec_skip_ws(s, j + 1);
        match spec_parse_operand(s, j2) {
            Some((o, j3)) => if j3 <= pos || j3 > s.len() {
                None
            } else {
                spec_operands_more(s, acc.push(o), j3)
            },
            None => None,
        }
    } else {
        Some((acc, pos))
    }
}

/// The comma-separated operand list standing at `i`, blanks allowed around
/// the commas.
pub open spec fn spec_parse_operands(s: Seq<char>, i: int) -> Option<(Seq<OperandView>, int)> {
    let start = spec_skip_ws(s, i);
    match spec_parse_operand(s, start) {
        Some((o, j)) => if j > s.len() {
            None
        } else {
            spec_operands_more(s, seq![o], j)
        },
        None => None,
    }
}

/// The view of an operand list.
pub open spec fn operands_view(v: Seq<OperandExpr>) -> Seq<OperandView> {
    v.map_values(|o: OperandExpr| operand_expr_view(o))
}

/// Parse a data register `D0`..`D7`, any case, an ignored size qualifier
/// allowed, not followed by a letter.
fn parse_dreg(s: &str, i: usize) -> (r: Option<(u8, usize)>)
    requires
        i <= s@.len(),
    ensures
        r matches Some(p) ==> i < p.1 <= s@.len() && p.0 <= 7,
        (match r {
            Some(p) => spec_dreg(s@, i as int) == Some((p.0, p.1 as int)),
            None => spec_dreg(s@, i as int) is None,
        }),
{
    let n = s.unicode_len();
    if i >= n {
        return None;
    }
    if i + 1 >= n {
        return None;
    }
    if !eq_nc(s.get_char(i), 'd') {
        return None;
    }
    let c = s.get_char(i + 1);
    if !('0' as u32 <= c as u32 && c as u32 <= '7' as u32) {
        return None;
    }
    let reg = (c as u32 - 48) as u8;
    let mut j = i + 2;
    match parse_qualifier(s, j) {
        Some((_, j2)) => {
            j = j2;
        },
        None => {},
    }
    if j < n && letter(s.get_char(j)) {
        return None;
    }
    Some((reg, j))
}

/// Parse an address register: `A0`..`A7` or the alias `SP`, any case, an
/// ignored size qualifier allowed, not followed by a letter.
fn parse_areg(s: &str, i: usize) -> (r: Option<(u8, usize)>)
    requires
        i <= s@.len(),
    ensures
        r matches Some(p) ==> i < p.1 <= s@.len() && p.0 <= 7,
        (match r {
            Some(p) => spec_areg(s@, i as int) == Some((p.0, p.1 as int)),
            None => spec_areg(s@, i as int) is None,
        }),
{
    let n = s.unicode_len();
    if i >= n || i + 1 >= n {
        return None;
    }
    let c0 = s.get_char(i);
    let c1 = s.get_char(i + 1);
    let (reg, after): (u8, usize) = if eq_nc(c0, 'a') && '0' as u32 <= c1 as u32 && c1 as u32
        <= '7' as u32 {
        ((c1 as u32 - 48) as u8, i + 2)
    } else if eq_nc(c0, 's') && eq_nc(c1, 'p') {
        (7, i + 2)
    } else {
        return None;
    };
    let mut j = after;
    match parse_qualifier(s, j) {
        Some((_, j2)) => {
            j = j2;
        },
        None => {},
    }
    if j < n && letter(s.get_char(j)) {
        return None;
    }
    Some((reg, j))
}

/// Parse an index register for the indexed modes: a data register as
/// 0..=7, an address register as 8..=15.
fn parse_xreg(s: &str, i: usize) -> (r: Option<(u8, usize)>)
    requires
        i <= s@.len(),
    ensures
        r matches Some(p) ==> i < p.1 <= s@.len() && p.0 <= 15,
        (match r {
            Some(p) => spec_xreg(s@, i as int) == Some((p.0, p.1 as int)),
            None => spec_xreg(s@, i as int) is None,
        }),
{
    match parse_dreg(s, i) {
        Some((d, j)) => Some((d, j)),
        None => match parse_areg(s, i) {
            Some((a, j)) => Some((a + 8, j)),
            None => None,
        },
    }
}

/// Expect the character `c` after optional blanks.
fn expect_ch(s: &str, i: usize, c: char) -> (r: Option<usize>)
    requires
        i <= s@.len(),
    ensures
        r matches Some(j) ==> i < j <= s@.len(),
        (match r {
            Some(j) => spec_expect_ch(s@, i as int, c) == Some(j as int),
            None => spec_expect_ch(s@, i as int, c) is None,
        }),
{
    let j = skip_ws(s, i);
    if j < s.unicode_len() && s.get_char(j) == c {
        Some(j + 1)
    } else {
        None
    }
}

/// Try `( expr , )`-style leading displacement group: an expression
/// followed by a comma, blanks allowed.
fn try_expr_comma(s: &str, i: usize) -> (r: Option<(Expr, usize)>)
    requires
        i <= s@.len(),
    ensures
        r matches Some(p) ==> i < p.1 <= s@.len(),
        (match r {
            Some(p) => spec_try_expr_comma(s@, i as int) == Some(
                (crate::expr::expr_view(p.0), p.1 as int),
            ),
            None => spec_try_expr_comma(s@, i as int) is None,
        }),
{
    match parse_expression(s, i, true) {
        Some((e, j)) => match expect_ch(s, j, ',') {
            Some(j2) => Some((e, j2)),
            None => None,
        },
        None => None,
    }
}

/// Parse one operand, trying the addressing-mode forms in the grammar's
/// order; the first form that matches is kept.
pub fn parse_operand(s: &str, i: usize) -> (r: Option<(OperandExpr, usize)>)
    requires
        i <= s@.len(),
    ensures
        r matches Some(p) ==> i < p.1 <= s@.len() && wf_operand_expr(p.0),
        (match r {
            Some(p) => spec_parse_operand(s@, i as int) == Some(
                (operand_expr_view(p.0), p.1 as int),
            ),
            None => spec_parse_operand(s@, i as int) is None,
        }),
{
    let n = s.unicode_len();
    if i >= n {
        return None;
    }
    match parse_dreg(s, i) {
        Some((d, j)) => {
            return Some((OperandExpr::DataRegisterDirect(d), j));
        },
        None => {},
    }
    match parse_areg(s, i) {
        Some((a, j)) => {
            return Some((OperandExpr::AddressRegisterDirect(a), j));
        },
        None => {},
    }
    // (An)+
    if s.get_char(i) == '(' {
        let j = skip_ws(s, i + 1);
        match parse_areg(s, j) {
            Some((a, j2)) => match expect_ch(s, j2, ')') {
                Some(j3) => {
                    if j3 < n && s.get_char(j3) == '+' {
                        return Some(
                            (OperandExpr::AddressRegisterIndirectWithPostincrement(a), j3 + 1),
                        );
                    } else {
                        // (An)
                        return Some((OperandExpr::AddressRegisterIndirect(a), j3));
                    }
                },
                None => {},
            },
            None => {},
        }
    }
    // -(An)
    if s.get_char(i) == '-' {
        let j = skip_ws(s, i + 1);
        if j < n && s.get_char(j) == '(' {
            let j2 = skip_ws(s, j + 1);
            match parse_areg(s, j2) {
                Some((a, j3)) => match expect_ch(s, j3, ')') {
                    Some(j4) => {
                        return Some(
                            (OperandExpr::AddressRegisterIndirectWithPredecrement(a), j4),
                        );
                    },
                    None => {},
                },
                None => {},
            }
        }
    }
    // (d,PC,Xi) and (d,PC) and (d,An,Xi) and (d,An), with the displacement
    // inside or ahead of the parentheses
    match parse_pc_or_indexed(s, i) {
        Some(p) => {
            return Some(p);
        },
        None => {},
    }
    // #imm
    if s.get_char(i) == '#' {
        match parse_expression(s, i + 1, false) {
            Some((e, j)) => {
                match parse_qualifier(s, j) {
                    Some((z, j2)) => {
                        return Some((OperandExpr::Immediate(z, e), j2));
                    },
                    None => {
                        return Some((OperandExpr::Immediate(Size::Unsized, e), j));
                    },
                }
            },
            None => {
                return None;
            },
        }
    }
    // SR and CCR
    proof {
        reveal_strlit("ccr");
        reveal_strlit("sr");
    }
    match kw(s, i, "ccr") {
        Some(j) => {
            return Some((OperandExpr::StatusRegister(Size::Byte), j));
        },
        None => {},
    }
    match kw(s, i, "sr") {
        Some(j) => {
            return Some((OperandExpr::StatusRegister(Size::Word), j));
        },
        None => {},
    }
    // absolute: a bare expression with an optional width qualifier
    match parse_expression(s, i, false) {
        Some((e, j)) => {
            match parse_qualifier(s, j) {
                Some((z, j2)) => Some((OperandExpr::Absolute(z, e), j2)),
                None => Some((OperandExpr::Absolute(Size::Unsized, e), j)),
            }
        },
        None => None,
    }
}

/// The opening of a parenthesised form with an optional leading
/// displacement group `expr ,` inside: the displacement (zero when absent)
/// and the position after it. The group commits when it matches.
fn open_paren_disp(s: &str, i: usize) -> (r: Option<(Expr, usize)>)
    requires
        i <= s@.len(),
    ensures
        r matches Some(p) ==> i < p.1 <= s@.len(),
        (match r {
            Some(p) => spec_open_paren_disp(s@, i as int) == Some(
                (crate::expr::expr_view(p.0), p.1 as int),
            ),
            None => spec_open_paren_disp(s@, i as int) is None,
        }),
{
    let n = s.unicode_len();
    if i >= n || s.get_char(i) != '(' {
        return None;
    }
    let inner = skip_ws(s, i + 1);
    match try_expr_comma(s, inner) {
        Some((e, j)) => Some((e, skip_ws(s, j))),
        None => Some((Expr::Num(0), inner)),
    }
}

/// An optional displacement expression ahead of a parenthesis, then the
/// parenthesis itself: the displacement (zero when absent) and the position
/// after `(`.
fn lead_disp_paren(s: &str, i: usize) -> (r: Option<(Expr, usize)>)
    requires
        i <= s@.len(),
    ensures
        r matches Some(p) ==> i < p.1 <= s@.len(),
        (match r {
            Some(p) => spec_lead_disp_paren(s@, i as int) == Some(
                (crate::expr::expr_view(p.0), p.1 as int),
            ),
            None => spec_lead_disp_paren(s@, i as int) is None,
        }),
{
    let n = s.unicode_len();
    if i >= n {
        return None;
    }
    let (d, j): (Expr, usize) = if s.get_char(i) != '(' {
        match parse_expression(s, i, false) {
            Some((e, je)) => (e, je),
            None => (Expr::Num(0), i),
        }
    } else {
        (Expr::Num(0), i)
    };
    if j < n && s.get_char(j) == '(' {
        Some((d, skip_ws(s, j + 1)))
    } else {
        None
    }
}

/// After the displacement of a PC form: `PC , Xi )` or `PC )`.
fn finish_pc(s: &str, i: usize, d: Expr, want_index: bool) -> (r: Option<(OperandExpr, usize)>)
    requires
        i <= s@.len(),
    ensures
        r matches Some(p) ==> i <= p.1 <= s@.len() && wf_operand_expr(p.0),
        (match r {
            Some(p) => spec_finish_pc(s@, i as int, crate::expr::expr_view(d), want_index)
                == Some((operand_expr_view(p.0), p.1 as int)),
            None => spec_finish_pc(s@, i as int, crate::expr::expr_view(d), want_index)
                is None,
        }),
{
    match kw(s, i, "pc") {
        Some(j) => {
            if want_index {
                match expect_ch(s, j, ',') {
                    Some(j2) => {
                        let j3 = skip_ws(s, j2);
                        match parse_xreg(s, j3) {
                            Some((x, j4)) => match expect_ch(s, j4, ')') {
                                Some(j5) => Some((OperandExpr::PcIndex(x, d), j5)),
                                None => None,
                            },
                            None => None,
                        }
                    },
                    None => None,
                }
            } else {
                match expect_ch(s, j, ')') {
                    Some(j2) => Some((OperandExpr::PcDisplacement(d), j2)),
                    None => None,
                }
            }
        },
        None => None,
    }
}

/// After the displacement of an address-register form: `An , Xi )` or
/// `An )`.
fn finish_areg(s: &str, i: usize, d: Expr, want_index: bool) -> (r: Option<(OperandExpr, usize)>)
    requires
        i <= s@.len(),
    ensures
        r matches Some(p) ==> i <= p.1 <= s@.len() && wf_operand_expr(p.0),
        (match r {
            Some(p) => spec_finish_areg(s@, i as int, crate::expr::expr_view(d), want_index)
                == Some((operand_expr_view(p.0), p.1 as int)),
            None => spec_finish_areg(s@, i as int, crate::expr::expr_view(d), want_index)
                is None,
        }),
{
    match parse_areg(s, i) {
        Some((a, j)) => {
            if want_index {
                match expect_ch(s, j, ',') {
                    Some(j2) => {
                        let j3 = skip_ws(s, j2);
                        match parse_xreg(s, j3) {
                            Some((x, j4)) => match expect_ch(s, j4, ')') {
                                Some(j5) => Some((OperandExpr::Index(a, x, d), j5)),
                                None => None,
                            },
                            None => None,
                        }
                    },
                    None => None,
                }
            } else {
                match expect_ch(s, j, ')') {
                    Some(j2) => Some((OperandExpr::Displacement(a, d), j2)),
                    None => None,
                }
            }
        },
        None => None,
    }
}

/// The parenthesised forms that carry a displacement, tried in the
/// grammar's order — `(d,PC,Xi)`, `(d,PC)`, `(d,An,Xi)`, `(d,An)` — each
/// accepting the displacement inside the parenthesis or ahead of it, and
/// the PC and indexed forms accepting none at all.
fn parse_pc_or_indexed(s: &str, i: usize) -> (r: Option<(OperandExpr, usize)>)
    requires
        i <= s@.len(),
    ensures
        r matches Some(p) ==> i < p.1 <= s@.len() && wf_operand_expr(p.0),
        (match r {
            Some(p) => spec_pc_or_indexed(s@, i as int) == Some(
                (operand_expr_view(p.0), p.1 as int),
            ),
            None => spec_pc_or_indexed(s@, i as int) is None,
        }),
{
    match open_paren_disp(s, i) {
        Some((d, j)) => match finish_pc(s, j, d, true) {
            Some(p) => {
                return Some(p);
            },
            None => {},
        },
        None => {},
    }
    match lead_disp_paren(s, i) {
        Some((d, j)) => match finish_pc(s, j, d, true) {
            Some(p) => {
                return Some(p);
            },
            None => {},
        },
        None => {},
    }
    match open_paren_disp(s, i) {
        Some((d, j)) => match finish_pc(s, j, d, false) {
            Some(p) => {
                return Some(p);
            },
            None => {},
        },
        None => {},
    }
    match lead_disp_paren(s, i) {
        Some((d, j)) => match finish_pc(s, j, d, false) {
            Some(p) => {
                return Some(p);
            },
            None => {},
        },
        None => {},
    }
    match open_paren_disp(s, i) {
        Some((d, j)) => match finish_areg(s, j, d, true) {
            Some(p) => {
                return Some(p);
            },
            None => {},
        },
        None => {},
    }
    match lead_disp_paren(s, i) {
        Some((d, j)) => match finish_areg(s, j, d, true) {
            Some(p) => {
                return Some(p);
            },
            None => {},
        },
        None => {},
    }
    // (d,An) and d(An): this form requires the displacement
    let n = s.unicode_len();
    if i < n && s.get_char(i) == '(' {
        let inner = skip_ws(s, i + 1);
        match try_expr_comma(s, inner) {
            Some((d, j)) => match finish_areg(s, skip_ws(s, j), d, false) {
                Some(p) => {
                    return Some(p);
                },
                None => {},
            },
            None => {},
        }
    }
    if i < n && s.get_char(i) != '(' {
        match parse_expression(s, i, false) {
            Some((d, j)) => {
                if j < n && s.get_char(j) == '(' {
                    match finish_areg(s, skip_ws(s, j + 1), d, false) {
                        Some(p) => {
                            return Some(p);
                        },
                        None => {},
                    }
                }
            },
            None => {},
        }
    }
    None
}

/// Parse a comma-separated operand list, blanks allowed around the commas.
#[verifier::loop_isolation(false)]
#[verifier::rlimit(80)]
pub fn parse_operands(s: &str, i: usize) -> (r: Option<(Vec<OperandExpr>, usize)>)
    requires
        i <= s@.len(),
    ensures
        r matches Some(p) ==> i <= p.1 <= s@.len() && forall|j: int|
            0 <= j < p.0@.len() ==> wf_operand_expr(p.0@[j]),
        (match r {
            Some(p) => spec_parse_operands(s@, i as int) == Some(
                (operands_view(p.0@), p.1 as int),
            ),
            None => spec_parse_operands(s@, i as int) is None,
        }),
{
    let start = skip_ws(s, i);
    let mut ops: Vec<OperandExpr> = Vec::new();
    let mut pos: usize;
    match parse_operand(s, start) {
        Some((o, j)) => {
            ops.push(o);
            proof {
                assert(operands_view(ops@) =~= seq![operand_expr_view(o)]);
            }
            pos = j;
        },
        None => {
            return None;
        },
    }
    loop
        invariant
            i <= pos <= s@.len(),
            forall|j: int| 0 <= j < ops@.len() ==> wf_operand_expr(ops@[j]),
            spec_parse_operands(s@, i as int) == spec_operands_more(
                s@,
                operands_view(ops@),
                pos as int,
            ),
        decreases s@.len() - pos,
    {
        let j = skip_ws(s, pos);
        if j < s.unicode_len() && s.get_char(j) == ',' {
            let j2 = skip_ws(s, j + 1);
            match parse_operand(s, j2) {
                Some((o, j3)) => {
                    let ghost before = ops@;
                    proof {
                        assert(j3 > pos);
                        assert(spec_operands_more(s@, operands_view(before), pos as int)
                            == spec_operands_more(
                            s@,
                            operands_view(before).push(operand_expr_view(o)),
                            j3 as int,
                        ));
                    }
                    ops.push(o);
                    proof {
                        assert(operands_view(ops@) =~= operands_view(before).push(
                            operand_expr_view(o),
                        ));
                    }
                    pos = j3;
                },
                None => {
                    return None;
                },
            }
        } else {
            return Some((ops, pos));
        }
    }
}


/// Whether only blanks and an optional `;` comment stand from `i` on.
pub open spec fn spec_rest_is_comment(s: Seq<char>, i: int) -> bool {
    let j = spec_skip_ws(s, i);
    j == s.len() || (0 <= j && j < s.len() && s[j] == ';')
}

/// The line's label: at column zero a name with an optional colon, indented
/// a name that must end with a colon.
pub open spec fn spec_parse_label(s: Seq<char>) -> Option<(Seq<char>, int)> {
    if s.len() == 0 {
        None
    } else if s[0] == ' ' || s[0] == '\t' {
        let j = spec_skip_ws(s, 0);
        match spec_name(s, j) {
            Some((name, j2)) => if 0 <= j2 && j2 < s.len() && s[j2] == ':' {
                Some((name, j2 + 1))
            } else {
                None
            },
            None => None,
        }
    } else {
        match spec_name(s, 0) {
            Some((name, j)) => if 0 <= j && j < s.len() && s[j] == ':' {
                Some((name, j + 1))
            } else {
                Some((name, j))
            },
            None => None,
        }
    }
}

/// The declaration form standing on the line:
/// `name ('=' | 'EQU' | '.EQU') expression`.
pub open spec fn spec_try_declaration(s: Seq<char>) -> Option<(StatementView, int)> {
    let start = spec_skip_ws(s, 0);
    match spec_name(s, start) {
        Some((name, after_name)) => {
            let j = spec_skip_ws(s, after_name);
            let after_op: Option<int> = if 0 <= j && j < s.len() && s[j] == '=' {
                Some(j + 1)
            } else {
                match spec_kw(s, j, "equ"@) {
                    Some(j2) => Some(j2),
                    None => match spec_kw(s, j, ".equ"@) {
                        Some(j2) => Some(j2),
                        None => None,
                    },
                }
            };
            match after_op {
                Some(op_end) => match spec_parse_expression(s, op_end, true) {
                    Some((e, j2)) => Some(
                        (
                            StatementView {
                                label: Some(name),
                                body: BodyView::Directive(DirectiveView::Declare(e)),
                            },
                            j2,
                        ),
                    ),
                    None => None,
                },
                None => None,
            }
        },
        None => None,
    }
}

/// The rest of a comma-separated expression list after `pos`. The position
/// guards only keep the recursion well founded; the parser always
/// advances.
pub open spec fn spec_exprs_more(
    s: Seq<char>,
    acc: Seq<crate::expr::ExprView>,
    pos: int,
) -> Option<(Seq<crate::expr::ExprView>, int)>
    decreases s.len() - pos,
{
    let j = spec_skip_ws(s, pos);
    if 0 <= j && j < s.len() && s[j] == ',' {
        match spec_parse_expression(s, j + 1, true) {
            Some((e, j2)) => if j2 <= pos || j2 > s.len() {
                None
            } else {
                spec_exprs_more(s, acc.push(e), j2)
            },
            None => None,
        }
    } else {
        Some((acc, pos))
    }
}

/// The comma-separated expression list standing at `i`.
pub open spec fn spec_expr_list(s: Seq<char>, i: int) -> Option<
    (Seq<crate::expr::ExprView>, int),
> {
    match spec_parse_expression(s, i, true) {
        Some((e, j)) => if j > s.len() {
            None
        } else {
            spec_exprs_more(s, seq![e], j)
        },
        None => None,
    }
}

/// One directive attempt: `None` when its keyword does not stand at `i`,
/// `Some(None)` when the keyword stands but its arguments fail, and the
/// parsed statement otherwise.
pub open spec fn spec_dir_kw_expr(
    s: Seq<char>,
    i: int,
    word: Seq<char>,
    label: Option<Seq<char>>,
    is_origin: bool,
) -> Option<Option<(StatementView, int)>> {
    match spec_kw(s, i, word) {
        Some(j) => match spec_parse_expression(s, j, true) {
            Some((e, j2)) => Some(
                Some(
                    (
                        StatementView {
                            label,
                            body: BodyView::Directive(
                                if is_origin {
                                    DirectiveView::Origin(e)
                                } else {
                                    DirectiveView::Offset(e)
                                },
                            ),
                        },
                        j2,
                    ),
                ),
            ),
            None => Some(None),
        },
        None => None,
    }
}

/// The directive form standing on the line: an optional label, then one of
/// the directive keywords with its arguments.
pub open spec fn spec_try_directive(s: Seq<char>) -> Option<(StatementView, int)> {
    let lab = spec_parse_label(s);
    let label: Option<Seq<char>> = match lab {
        Some(p) => Some(p.0),
        None => None,
    };
    let after_label: int = match lab {
        Some(p) => p.1,
        None => 0,
    };
    let i = spec_skip_ws(s, after_label);
    let a_align: Option<Option<(StatementView, int)>> = match spec_kw(s, i, "align"@) {
        Some(j) => match spec_parse_expression(s, j, true) {
            Some((e, j2)) => Some(
                Some(
                    (
                        StatementView {
                            label,
                            body: BodyView::Directive(DirectiveView::Alignment(e)),
                        },
                        j2,
                    ),
                ),
            ),
            None => Some(None),
        },
        None => None,
    };
    let a_dc: Option<Option<(StatementView, int)>> = match spec_kw(s, i, "dc"@) {
        Some(j) => match spec_qualifier(s, j) {
            Some((z, j2)) => match spec_expr_list(s, j2) {
                Some((es, j3)) => Some(
                    Some(
                        (
                            StatementView {
                                label,
                                body: BodyView::Directive(
                                    DirectiveView::DefineConstants(z, es),
                                ),
                            },
                            j3,
                        ),
                    ),
                ),
                None => Some(None),
            },
            None => None,
        },
        None => None,
    };
    let a_dcb: Option<Option<(StatementView, int)>> = match spec_kw(s, i, "dcb"@) {
        Some(j) => match spec_qualifier(s, j) {
            Some((z, j2)) => match spec_parse_expression(s, j2, true) {
                Some((len_e, j3)) => {
                    let j4 = spec_skip_ws(s, j3);
                    if 0 <= j4 && j4 < s.len() && s[j4] == ',' {
                        match spec_parse_expression(s, j4 + 1, true) {
                            Some((fill_e, j5)) => Some(
                                Some(
                                    (
                                        StatementView {
                                            label,
                                            body: BodyView::Directive(
                                                DirectiveView::DefineConstantBlock(
                                                    z,
                                                    len_e,
                                                    fill_e,
                                                ),
                                            ),
                                        },
                                        j5,
                                    ),
                                ),
                            ),
                            None => Some(None),
                        }
                    } else {
                        Some(
                            Some(
                                (
                                    StatementView {
                                        label,
                                        body: BodyView::Directive(
                                            DirectiveView::DefineConstantBlock(
                                                z,
                                                len_e,
                                                crate::expr::ExprView::Num(0),
                                            ),
                                        ),
                                    },
                                    j3,
                                ),
                            ),
                        )
                    }
                },
                None => Some(None),
            },
            None => None,
        },
        None => None,
    };
    let a_ds: Option<Option<(StatementView, int)>> = match spec_kw(s, i, "ds"@) {
        Some(j) => match spec_qualifier(s, j) {
            Some((z, j2)) => match spec_parse_expression(s, j2, true) {
                Some((len_e, j3)) => Some(
                    Some(
                        (
                            StatementView {
                                label,
                                body: BodyView::Directive(
                                    DirectiveView::DefineConstantBlock(
                                        z,
                                        len_e,
                                        crate::expr::ExprView::Num(0),
                                    ),
                                ),
                            },
                            j3,
                        ),
                    ),
                ),
                None => Some(None),
            },
            None => None,
        },
        None => None,
    };
    let a_even: Option<Option<(StatementView, int)>> = match spec_kw(s, i, "even"@) {
        Some(j) => Some(
            Some(
                (
                    StatementView {
                        label,
                        body: BodyView::Directive(
                            DirectiveView::Alignment(crate::expr::ExprView::Num(1)),
                        ),
                    },
                    j,
                ),
            ),
        ),
        None => None,
    };
    let a_end: Option<Option<(StatementView, int)>> = match spec_kw(s, i, "end"@) {
        Some(j) => match spec_parse_expression(s, j, true) {
            Some((e, j2)) => Some(
                Some(
                    (
                        StatementView { label, body: BodyView::Directive(DirectiveView::End(e)) },
                        j2,
                    ),
                ),
            ),
            None => Some(
                Some(
                    (
                        StatementView {
                            label,
                            body: BodyView::Directive(
                                DirectiveView::End(crate::expr::ExprView::Num(0)),
                            ),
                        },
                        j,
                    ),
                ),
            ),
        },
        None => None,
    };
    let a_odd: Option<Option<(StatementView, int)>> = match spec_kw(s, i, "odd"@) {
        Some(j) => Some(
            Some(
                (
                    StatementView {
                        label,
                        body: BodyView::Directive(
                            DirectiveView::Alignment(crate::expr::ExprView::Num(0)),
                        ),
                    },
                    j,
                ),
            ),
        ),
        None => None,
    };
    let a_offset = spec_dir_kw_expr(s, i, "offset"@, label, false);
    let a_org = spec_dir_kw_expr(s, i, "org"@, label, true);
    if a_align is Some {
        a_align->Some_0
    } else if a_dc is Some {
        a_dc->Some_0
    } else if a_dcb is Some {
        a_dcb->Some_0
    } else if a_ds is Some {
        a_ds->Some_0
    } else if a_even is Some {
        a_even->Some_0
    } else if a_end is Some {
        a_end->Some_0
    } else if a_odd is Some {
        a_odd->Some_0
    } else if a_offset is Some {
        a_offset->Some_0
    } else if a_org is Some {
        a_org->Some_0
    } else {
        None
    }
}

/// The instruction form standing on the line: an optional label, then a
/// mnemonic with an optional size qualifier and an optional operand list.
pub open spec fn spec_try_instruction(s: Seq<char>) -> Option<(StatementView, int)> {
    let lab = spec_parse_label(s);
    let label: Option<Seq<char>> = match lab {
        Some(p) => Some(p.0),
        None => None,
    };
    let after_label: int = match lab {
        Some(p) => p.1,
        None => 0,
    };
    let i = spec_skip_ws(s, after_label);
    match spec_name(s, i) {
        Some((mnemonic, after_name)) => {
            let zj: (Size, int) = match spec_qualifier(s, after_name) {
                Some(p) => p,
                None => (Size::Unsized, after_name),
            };
            match spec_parse_operands(s, zj.1) {
                Some((ops, j)) => Some(
                    (
                        StatementView {
                            label,
                            body: BodyView::Instruction(
                                InstView { mnemonic, size: zj.0, operands: ops },
                            ),
                        },
                        j,
                    ),
                ),
                None => Some(
                    (
                        StatementView {
                            label,
                            body: BodyView::Instruction(
                                InstView {
                                    mnemonic,
                                    size: zj.0,
                                    operands: Seq::<OperandView>::empty(),
                                },
                            ),
                        },
                        zj.1,
                    ),
                ),
            }
        },
        None => None,
    }
}

/// What one source line means: a declaration, a directive, an instruction
/// or a bare label, in that order, an optional `;` comment closing each
/// form; a blank or comment-only line is the empty statement. A failure
/// carries the position reached.
pub open spec fn spec_parse_statement(s: Seq<char>) -> Result<StatementView, int> {
    match spec_try_declaration(s) {
        Some((st, j)) => if spec_rest_is_comment(s, j) {
            Ok(st)
        } else {
            Err(j)
        },
        None => match spec_try_directive(s) {
            Some((st, j)) => if spec_rest_is_comment(s, j) {
                Ok(st)
            } else {
                Err(j)
            },
            None => match spec_try_instruction(s) {
                Some((st, j)) => if spec_rest_is_comment(s, j) {
                    Ok(st)
                } else {
                    Err(j)
                },
                None => match spec_parse_label(s) {
                    Some((name, j)) => if spec_rest_is_comment(s, j) {
                        Ok(StatementView { label: Some(name), body: BodyView::LabelOnly })
                    } else {
                        Err(j)
                    },
                    None => if spec_rest_is_comment(s, 0) {
                        Ok(StatementView { label: None, body: BodyView::Empty })
                    } else {
                        Err(0)
                    },
                },
            },
        },
    }
}

/// Whether only blanks and an optional `;` comment remain from `i` on.
fn rest_is_comment(s: &str, i: usize) -> (r: bool)
    requires
        i <= s@.len(),
    ensures
        r == spec_rest_is_comment(s@, i as int),
{
    let j = skip_ws(s, i);
    j == s.unicode_len() || s.get_char(j) == ';'
}

/// Parse the line's label: at column zero a name with an optional colon,
/// indented a name that must end with a colon.
fn parse_label(s: &str) -> (r: Option<(String, usize)>)
    ensures
        r matches Some(p) ==> p.1 <= s@.len(),
        (match r {
            Some(p) => spec_parse_label(s@) == Some((p.0@, p.1 as int)),
            None => spec_parse_label(s@) is None,
        }),
{
    let n = s.unicode_len();
    if n == 0 {
        return None;
    }
    let c0 = s.get_char(0);
    if c0 == ' ' || c0 == '\t' {
        let j = skip_ws(s, 0);
        match parse_name(s, j) {
            Some((name, j2)) => {
                if j2 < n && s.get_char(j2) == ':' {
                    Some((name, j2 + 1))
                } else {
                    None
                }
            },
            None => None,
        }
    } else {
        match parse_name(s, 0) {
            Some((name, j)) => {
                if j < n && s.get_char(j) == ':' {
                    Some((name, j + 1))
                } else {
                    Some((name, j))
                }
            },
            None => None,
        }
    }
}

/// Try the declaration form: `name ('=' | 'EQU' | '.EQU') expression`.
fn try_declaration(s: &str) -> (r: Option<(Statement, usize)>)
    ensures
        r matches Some(p) ==> p.1 <= s@.len() && wf_statement(p.0),
        (match r {
            Some(p) => spec_try_declaration(s@) == Some((statement_view(p.0), p.1 as int)),
            None => spec_try_declaration(s@) is None,
        }),
{
    let start = skip_ws(s, 0);
    let (name, after_name): (String, usize) = match parse_name(s, start) {
        Some(p) => p,
        None => {
            return None;
        },
    };
    let j = skip_ws(s, after_name);
    let n = s.unicode_len();
    let after_op: usize = if j < n && s.get_char(j) == '=' {
        j + 1
    } else {
        proof {
            reveal_strlit("equ");
            reveal_strlit(".equ");
        }
        match kw(s, j, "equ") {
            Some(j2) => j2,
            None => match kw(s, j, ".equ") {
                Some(j2) => j2,
                None => {
                    return None;
                },
            },
        }
    };
    match parse_expression(s, after_op, true) {
        Some((e, j2)) => Some(
            (Statement { label: Some(name), body: Body::Directive(Directive::Declare(e)) }, j2),
        ),
        None => None,
    }
}

/// Try the directive form: an optional label, then one of the directive
/// keywords with its arguments.
fn try_directive(s: &str) -> (r: Option<(Statement, usize)>)
    ensures
        r matches Some(p) ==> p.1 <= s@.len() && wf_statement(p.0),
        (match r {
            Some(p) => spec_try_directive(s@) == Some((statement_view(p.0), p.1 as int)),
            None => spec_try_directive(s@) is None,
        }),
{
    let (label, after_label): (Option<String>, usize) = match parse_label(s) {
        Some((name, j)) => (Some(name), j),
        None => (None, 0),
    };
    let i = skip_ws(s, after_label);
    proof {
        reveal_strlit("align");
        reveal_strlit("dc");
        reveal_strlit("dcb");
        reveal_strlit("ds");
        reveal_strlit("end");
        reveal_strlit("even");
        reveal_strlit("odd");
        reveal_strlit("offset");
        reveal_strlit("org");
    }
    match kw(s, i, "align") {
        Some(j) => {
            match parse_expression(s, j, true) {
                Some((e, j2)) => {
                    return Some(
                        (
                            Statement {
                                label,
                                body: Body::Directive(Directive::Alignment(e)),
                            },
                            j2,
                        ),
                    );
                },
                None => {
                    return None;
                },
            }
        },
        None => {},
    }
    // `dcb` also begins with `dc`'s letters, so the size qualifier that
    // must follow the keyword decides which directive was written
    match kw(s, i, "dc") {
        Some(j) => match parse_qualifier(s, j) {
            Some((z, j2)) => {
                match parse_expr_list(s, j2) {
                    Some((es, j3)) => {
                        return Some(
                            (
                                Statement {
                                    label,
                                    body: Body::Directive(Directive::DefineConstants(z, es)),
                                },
                                j3,
                            ),
                        );
                    },
                    None => {
                        return None;
                    },
                }
            },
            None => {},
        },
        None => {},
    }
    match kw(s, i, "dcb") {
        Some(j) => match parse_qualifier(s, j) {
            Some((z, j2)) => {
                match parse_expression(s, j2, true) {
                    Some((len, j3)) => {
                        let j4 = skip_ws(s, j3);
                        if j4 < s.unicode_len() && s.get_char(j4) == ',' {
                            match parse_expression(s, j4 + 1, true) {
                                Some((fill, j5)) => {
                                    return Some(
                                        (
                                            Statement {
                                                label,
                                                body: Body::Directive(
                                                    Directive::DefineConstantBlock(z, len, fill),
                                                ),
                                            },
                                            j5,
                                        ),
                                    );
                                },
                                None => {
                                    return None;
                                },
                            }
                        } else {
                            return Some(
                                (
                                    Statement {
                                        label,
                                        body: Body::Directive(
                                            Directive::DefineConstantBlock(
                                                z,
                                                len,
                                                Expr::Num(0),
                                            ),
                                        ),
                                    },
                                    j3,
                                ),
                            );
                        }
                    },
                    None => {
                        return None;
                    },
                }
            },
            None => {},
        },
        None => {},
    }
    match kw(s, i, "ds") {
        Some(j) => match parse_qualifier(s, j) {
            Some((z, j2)) => {
                match parse_expression(s, j2, true) {
                    Some((len, j3)) => {
                        return Some(
                            (
                                Statement {
                                    label,
                                    body: Body::Directive(
                                        Directive::DefineConstantBlock(z, len, Expr::Num(0)),
                                    ),
                                },
                                j3,
                            ),
                        );
                    },
                    None => {
                        return None;
                    },
                }
            },
            None => {},
        },
        None => {},
    }
    match kw(s, i, "even") {
        Some(j) => {
            return Some(
                (
                    Statement {
                        label,
                        body: Body::Directive(Directive::Alignment(Expr::Num(1))),
                    },
                    j,
                ),
            );
        },
        None => {},
    }
    match kw(s, i, "end") {
        Some(j) => {
            match parse_expression(s, j, true) {
                Some((e, j2)) => {
                    return Some(
                        (Statement { label, body: Body::Directive(Directive::End(e)) }, j2),
                    );
                },
                None => {
                    return Some(
                        (
                            Statement {
                                label,
                                body: Body::Directive(Directive::End(Expr::Num(0))),
                            },
                            j,
                        ),
                    );
                },
            }
        },
        None => {},
    }
    match kw(s, i, "odd") {
        Some(j) => {
            return Some(
                (
                    Statement {
                        label,
                        body: Body::Directive(Directive::Alignment(Expr::Num(0))),
                    },
                    j,
                ),
            );
        },
        None => {},
    }
    match kw(s, i, "offset") {
        Some(j) => {
            match parse_expression(s, j, true) {
                Some((e, j2)) => {
                    return Some(
                        (Statement { label, body: Body::Directive(Directive::Offset(e)) }, j2),
                    );
                },
                None => {
                    return None;
                },
            }
        },
        None => {},
    }
    match kw(s, i, "org") {
        Some(j) => {
            match parse_expression(s, j, true) {
                Some((e, j2)) => {
                    return Some(
                        (Statement { label, body: Body::Directive(Directive::Origin(e)) }, j2),
                    );
                },
                None => {
                    return None;
                },
            }
        },
        None => {},
    }
    None
}

/// Parse a comma-separated expression list, blanks allowed.
#[verifier::loop_isolation(false)]
fn parse_expr_list(s: &str, i: usize) -> (r: Option<(Vec<Expr>, usize)>)
    requires
        i <= s@.len(),
    ensures
        r matches Some(p) ==> i <= p.1 <= s@.len(),
        (match r {
            Some(p) => spec_expr_list(s@, i as int) == Some((exprs_view(p.0@), p.1 as int)),
            None => spec_expr_list(s@, i as int) is None,
        }),
{
    let mut es: Vec<Expr> = Vec::new();
    let mut pos: usize;
    match parse_expression(s, i, true) {
        Some((e, j)) => {
            es.push(e);
            proof {
                assert(exprs_view(es@) =~= seq![crate::expr::expr_view(e)]);
            }
            pos = j;
        },
        None => {
            return None;
        },
    }
    loop
        invariant
            i <= pos <= s@.len(),
            spec_expr_list(s@, i as int) == spec_exprs_more(s@, exprs_view(es@), pos as int),
        decreases s@.len() - pos,
    {
        let j = skip_ws(s, pos);
        if j < s.unicode_len() && s.get_char(j) == ',' {
            match parse_expression(s, j + 1, true) {
                Some((e, j2)) => {
                    let ghost before = es@;
                    proof {
                        assert(spec_exprs_more(s@, exprs_view(before), pos as int)
                            == spec_exprs_more(
                            s@,
                            exprs_view(before).push(crate::expr::expr_view(e)),
                            j2 as int,
                        ));
                    }
                    es.push(e);
                    proof {
                        assert(exprs_view(es@) =~= exprs_view(before).push(
                            crate::expr::expr_view(e),
                        ));
                    }
                    pos = j2;
                },
                None => {
                    return None;
                },
            }
        } else {
            return Some((es, pos));
        }
    }
}

/// Try the instruction form: an optional label, then a mnemonic with an
/// optional size qualifier and an optional operand list.
fn try_instruction(s: &str) -> (r: Option<(Statement, usize)>)
    ensures
        r matches Some(p) ==> p.1 <= s@.len() && wf_statement(p.0),
        (match r {
            Some(p) => spec_try_instruction(s@) == Some((statement_view(p.0), p.1 as int)),
            None => spec_try_instruction(s@) is None,
        }),
{
    let (label, after_label): (Option<String>, usize) = match parse_label(s) {
        Some((name, j)) => (Some(name), j),
        None => (None, 0),
    };
    let i = skip_ws(s, after_label);
    let (mnemonic, after_name): (String, usize) = match parse_name(s, i) {
        Some(p) => p,
        None => {
            return None;
        },
    };
    let (size, after_size): (Size, usize) = match parse_qualifier(s, after_name) {
        Some((z, j)) => (z, j),
        None => (Size::Unsized, after_name),
    };
    match parse_operands(s, after_size) {
        Some((ops, j)) => Some(
            (
                Statement {
                    label,
                    body: Body::Instruction(InstExpr { mnemonic, size, operands: ops }),
                },
                j,
            ),
        ),
        None => {
            let no_ops: Vec<OperandExpr> = Vec::new();
            proof {
                assert(operands_view(no_ops@) =~= Seq::<OperandView>::empty());
            }
            Some(
                (
                    Statement {
                        label,
                        body: Body::Instruction(
                            InstExpr { mnemonic, size, operands: no_ops },
                        ),
                    },
                    after_size,
                ),
            )
        },
    }
}

/// Parse one source line into a statement: a declaration, a directive, an
/// instruction or a bare label, in that order, an optional `;` comment
/// closing each form; a blank or comment-only line is the empty statement.
/// The first form that matches is kept; trailing text it cannot explain
/// fails the parse with the position reached.
pub fn parse_statement(line: &str) -> (r: Result<Statement, ParseError>)
    ensures
        r matches Ok(st) ==> wf_statement(st),
        (match r {
            Ok(st) => spec_parse_statement(line@) == Ok::<StatementView, int>(
                statement_view(st),
            ),
            Err(e) => spec_parse_statement(line@) == Err::<StatementView, int>(
                e.position as int,
            ),
        }),
{
    match try_declaration(line) {
        Some((st, j)) => {
            if rest_is_comment(line, j) {
                return Ok(st);
            } else {
                return Err(ParseError { position: j });
            }
        },
        None => {},
    }
    match try_directive(line) {
        Some((st, j)) => {
            if rest_is_comment(line, j) {
                return Ok(st);
            } else {
                return Err(ParseError { position: j });
            }
        },
        None => {},
    }
    match try_instruction(line) {
        Some((st, j)) => {
            if rest_is_comment(line, j) {
                return Ok(st);
            } else {
                return Err(ParseError { position: j });
            }
        },
        None => {},
    }
    match parse_label(line) {
        Some((name, j)) => {
            if rest_is_comment(line, j) {
                return Ok(Statement { label: Some(name), body: Body::LabelOnly });
            } else {
                return Err(ParseError { position: j });
            }
        },
        None => {},
    }
    if rest_is_comment(line, 0) {
        Ok(Statement { label: None, body: Body::Empty })
    } else {
        Err(ParseError { position: 0 })
    }
}


/// The low 16 bits of a 32-bit value, read as a signed word.
pub open spec fn s_trunc_i16(v: i32) -> i16 {
    crate::operand::i16_of_u16((crate::expr::u32_of_i32(v) % 0x1_0000) as u16)
}

/// The low 8 bits of a 32-bit value, read as a signed byte.
pub open spec fn s_trunc_i8(v: i32) -> i8 {
    crate::operand::i8_of_u8((crate::expr::u32_of_i32(v) % 0x100) as u8)
}

/// The low 16 bits of a 32-bit value.
pub open spec fn s_trunc_u16(v: i32) -> u16 {
    (crate::expr::u32_of_i32(v) % 0x1_0000) as u16
}

/// The 32 bits of a signed value, read unsigned.
pub open spec fn s_bits_u32(v: i32) -> u32 {
    crate::expr::u32_of_i32(v)
}

/// The 32 bits of `v` as an unsigned value.
fn bits_u32(v: i32) -> (r: u32)
    ensures
        r == s_bits_u32(v),
{
    if v >= 0 {
        v as u32
    } else {
        ((v as i64) + 0x1_0000_0000) as u32
    }
}

/// The low 16 bits of `v`, signed.
fn trunc_i16(v: i32) -> (r: i16)
    ensures
        r == s_trunc_i16(v),
{
    let low = bits_u32(v) % 0x1_0000;
    if low < 0x8000 {
        low as i16
    } else {
        ((low as i64) - 0x1_0000) as i16
    }
}

/// The low 8 bits of `v`, signed.
fn trunc_i8(v: i32) -> (r: i8)
    ensures
        r == s_trunc_i8(v),
{
    let low = bits_u32(v) % 0x100;
    if low < 0x80 {
        low as i8
    } else {
        ((low as i64) - 0x100) as i8
    }
}

/// What a parsed operand becomes once its expressions are numeric: the
/// matching concrete addressing mode, constants truncated to their field
/// widths; `None` while any expression is still symbolic.
pub open spec fn s_to_operand(o: OperandExpr) -> Option<Operand> {
    match o {
        OperandExpr::DataRegisterDirect(r) => Some(Operand::DataRegisterDirect(r)),
        OperandExpr::AddressRegisterDirect(r) => Some(Operand::AddressRegisterDirect(r)),
        OperandExpr::AddressRegisterIndirect(r) => Some(Operand::AddressRegisterIndirect(r)),
        OperandExpr::AddressRegisterIndirectWithPostincrement(r) => Some(
            Operand::AddressRegisterIndirectWithPostincrement(r),
        ),
        OperandExpr::AddressRegisterIndirectWithPredecrement(r) => Some(
            Operand::AddressRegisterIndirectWithPredecrement(r),
        ),
        OperandExpr::Displacement(r, e) => match crate::expr::seval(e) {
            Some(v) => Some(
                Operand::AddressRegisterIndirectWithDisplacement(r, s_trunc_i16(v)),
            ),
            None => None,
        },
        OperandExpr::Index(r, x, e) => match crate::expr::seval(e) {
            Some(v) => Some(Operand::AddressRegisterIndirectWithIndex(r, x, s_trunc_i8(v))),
            None => None,
        },
        OperandExpr::PcDisplacement(e) => match crate::expr::seval(e) {
            Some(v) => Some(Operand::PcWithDisplacement(s_trunc_i16(v))),
            None => None,
        },
        OperandExpr::PcIndex(x, e) => match crate::expr::seval(e) {
            Some(v) => Some(Operand::PcWithIndex(x, s_trunc_i8(v))),
            None => None,
        },
        OperandExpr::Absolute(z, e) => match crate::expr::seval(e) {
            Some(v) => if z == Size::Long {
                Some(Operand::AbsoluteLong(s_bits_u32(v)))
            } else {
                Some(Operand::AbsoluteWord(s_trunc_u16(v)))
            },
            None => None,
        },
        OperandExpr::Immediate(z, e) => match crate::expr::seval(e) {
            Some(v) => Some(Operand::Immediate(z, s_bits_u32(v))),
            None => None,
        },
        OperandExpr::StatusRegister(z) => Some(Operand::StatusRegister(z)),
    }
}


/// What `resolved` returns: `Expr::resolve`'s substitution applied to the
/// operand's expression, the registers and width qualifier untouched.
pub open spec fn s_resolved_operand(o: OperandExpr, n: Seq<char>, v: i32) -> OperandExpr {
    match o {
        OperandExpr::DataRegisterDirect(r) => OperandExpr::DataRegisterDirect(r),
        OperandExpr::AddressRegisterDirect(r) => OperandExpr::AddressRegisterDirect(r),
        OperandExpr::AddressRegisterIndirect(r) => OperandExpr::AddressRegisterIndirect(r),
        OperandExpr::AddressRegisterIndirectWithPostincrement(r) =>
            OperandExpr::AddressRegisterIndirectWithPostincrement(r),
        OperandExpr::AddressRegisterIndirectWithPredecrement(r) =>
            OperandExpr::AddressRegisterIndirectWithPredecrement(r),
        OperandExpr::Displacement(r, e) => OperandExpr::Displacement(
            r,
            crate::expr::sresolve(e, n, v),
        ),
        OperandExpr::Index(r, x, e) => OperandExpr::Index(r, x, crate::expr::sresolve(e, n, v)),
        OperandExpr::PcDisplacement(e) => OperandExpr::PcDisplacement(
            crate::expr::sresolve(e, n, v),
        ),
        OperandExpr::PcIndex(x, e) => OperandExpr::PcIndex(x, crate::expr::sresolve(e, n, v)),
        OperandExpr::Absolute(z, e) => OperandExpr::Absolute(z, crate::expr::sresolve(e, n, v)),
        OperandExpr::Immediate(z, e) => OperandExpr::Immediate(
            z,
            crate::expr::sresolve(e, n, v),
        ),
        OperandExpr::StatusRegister(z) => OperandExpr::StatusRegister(z),
    }
}

/// Concretization over operand views: the same mapping as `s_to_operand`,
/// evaluated on the expression views.
pub open spec fn view_to_operand(ov: OperandView) -> Option<Operand> {
    match ov {
        OperandView::DataRegisterDirect(r) => Some(Operand::DataRegisterDirect(r)),
        OperandView::AddressRegisterDirect(r) => Some(Operand::AddressRegisterDirect(r)),
        OperandView::AddressRegisterIndirect(r) => Some(Operand::AddressRegisterIndirect(r)),
        OperandView::AddressRegisterIndirectWithPostincrement(r) => Some(
            Operand::AddressRegisterIndirectWithPostincrement(r),
        ),
        OperandView::AddressRegisterIndirectWithPredecrement(r) => Some(
            Operand::AddressRegisterIndirectWithPredecrement(r),
        ),
        OperandView::Displacement(r, e) => match crate::expr::view_eval(e) {
            Some(v) => Some(
                Operand::AddressRegisterIndirectWithDisplacement(r, s_trunc_i16(v)),
            ),
            None => None,
        },
        OperandView::Index(r, x, e) => match crate::expr::view_eval(e) {
            Some(v) => Some(Operand::AddressRegisterIndirectWithIndex(r, x, s_trunc_i8(v))),
            None => None,
        },
        OperandView::PcDisplacement(e) => match crate::expr::view_eval(e) {
            Some(v) => Some(Operand::PcWithDisplacement(s_trunc_i16(v))),
            None => None,
        },
        OperandView::PcIndex(x, e) => match crate::expr::view_eval(e) {
            Some(v) => Some(Operand::PcWithIndex(x, s_trunc_i8(v))),
            None => None,
        },
        OperandView::Absolute(z, e) => match crate::expr::view_eval(e) {
            Some(v) => if z == Size::Long {
                Some(Operand::AbsoluteLong(s_bits_u32(v)))
            } else {
                Some(Operand::AbsoluteWord(s_trunc_u16(v)))
            },
            None => None,
        },
        OperandView::Immediate(z, e) => match crate::expr::view_eval(e) {
            Some(v) => Some(Operand::Immediate(z, s_bits_u32(v))),
            None => None,
        },
        OperandView::StatusRegister(z) => Some(Operand::StatusRegister(z)),
    }
}

/// A parsed operand concretizes exactly as its view does.
pub proof fn lemma_to_operand_is_view(o: OperandExpr)
    ensures
        s_to_operand(o) == view_to_operand(operand_expr_view(o)),
{
    match o {
        OperandExpr::Displacement(_, e) => crate::expr::lemma_seval_is_view_eval(e),
        OperandExpr::Index(_, _, e) => crate::expr::lemma_seval_is_view_eval(e),
        OperandExpr::PcDisplacement(e) => crate::expr::lemma_seval_is_view_eval(e),
        OperandExpr::PcIndex(_, e) => crate::expr::lemma_seval_is_view_eval(e),
        OperandExpr::Absolute(_, e) => crate::expr::lemma_seval_is_view_eval(e),
        OperandExpr::Immediate(_, e) => crate::expr::lemma_seval_is_view_eval(e),
        _ => {},
    }
}

impl OperandExpr {
    /// The concrete operand, once every expression in it is numeric;
    /// `None` while a symbol or string remains. Constants are truncated to
    /// the width of their field.
    pub fn to_operand(&self) -> (r: Option<Operand>)
        ensures
            r == s_to_operand(*self),
            wf_operand_expr(*self) && r is Some ==> wf_operand(r->Some_0),
    {
        match self {
            OperandExpr::DataRegisterDirect(r) => Some(Operand::DataRegisterDirect(*r)),
            OperandExpr::AddressRegisterDirect(r) => Some(Operand::AddressRegisterDirect(*r)),
            OperandExpr::AddressRegisterIndirect(r) => Some(
                Operand::AddressRegisterIndirect(*r),
            ),
            OperandExpr::AddressRegisterIndirectWithPostincrement(r) => Some(
                Operand::AddressRegisterIndirectWithPostincrement(*r),
            ),
            OperandExpr::AddressRegisterIndirectWithPredecrement(r) => Some(
                Operand::AddressRegisterIndirectWithPredecrement(*r),
            ),
            OperandExpr::Displacement(r, e) => match e.eval() {
                Some(v) => Some(
                    Operand::AddressRegisterIndirectWithDisplacement(*r, trunc_i16(v)),
                ),
                None => None,
            },
            OperandExpr::Index(r, x, e) => match e.eval() {
                Some(v) => Some(
                    Operand::AddressRegisterIndirectWithIndex(*r, *x, trunc_i8(v)),
                ),
                None => None,
            },
            OperandExpr::PcDisplacement(e) => match e.eval() {
                Some(v) => Some(Operand::PcWithDisplacement(trunc_i16(v))),
                None => None,
            },
            OperandExpr::PcIndex(x, e) => match e.eval() {
                Some(v) => Some(Operand::PcWithIndex(*x, trunc_i8(v))),
                None => None,
            },
            OperandExpr::Absolute(z, e) => match e.eval() {
                Some(v) => if *z == Size::Long {
                    Some(Operand::AbsoluteLong(bits_u32(v)))
                } else {
                    Some(Operand::AbsoluteWord((bits_u32(v) % 0x1_0000) as u16))
                },
                None => None,
            },
            OperandExpr::Immediate(z, e) => match e.eval() {
                Some(v) => Some(Operand::Immediate(*z, bits_u32(v))),
                None => None,
            },
            OperandExpr::StatusRegister(z) => Some(Operand::StatusRegister(*z)),
        }
    }

    /// The operand with `Num(value)` substituted for `Sym(name)` in each of
    /// its expressions, folded as `Expr::resolve` folds. The addressing
    /// shape and width qualifier are untouched, so the operand still counts
    /// the same number of extension words.
    pub fn resolved(&self, name: &str, value: i32) -> (r: OperandExpr)
        ensures
            r == s_resolved_operand(*self, name@, value),
            wf_operand_expr(*self) ==> wf_operand_expr(r),
            forall|zz: Size| #[trigger] crate::assembler::operand_expr_words(r, zz)
                == crate::assembler::operand_expr_words(*self, zz),
    {
        match self {
            OperandExpr::DataRegisterDirect(r) => OperandExpr::DataRegisterDirect(*r),
            OperandExpr::AddressRegisterDirect(r) => OperandExpr::AddressRegisterDirect(*r),
            OperandExpr::AddressRegisterIndirect(r) => OperandExpr::AddressRegisterIndirect(
                *r,
            ),
            OperandExpr::AddressRegisterIndirectWithPostincrement(r) =>
                OperandExpr::AddressRegisterIndirectWithPostincrement(*r),
            OperandExpr::AddressRegisterIndirectWithPredecrement(r) =>
                OperandExpr::AddressRegisterIndirectWithPredecrement(*r),
            OperandExpr::Displacement(r, e) => OperandExpr::Displacement(
                *r,
                e.resolve(name, value),
            ),
            OperandExpr::Index(r, x, e) => OperandExpr::Index(*r, *x, e.resolve(name, value)),
            OperandExpr::PcDisplacement(e) => OperandExpr::PcDisplacement(
                e.resolve(name, value),
            ),
            OperandExpr::PcIndex(x, e) => OperandExpr::PcIndex(*x, e.resolve(name, value)),
            OperandExpr::Absolute(z, e) => OperandExpr::Absolute(*z, e.resolve(name, value)),
            OperandExpr::Immediate(z, e) => OperandExpr::Immediate(*z, e.resolve(name, value)),
            OperandExpr::StatusRegister(z) => OperandExpr::StatusRegister(*z),
        }
    }
}

impl InstExpr {
    /// The concrete instance, once every operand expression is numeric;
    /// `None` while any is symbolic.
    pub fn to_instance(&self) -> (r: Option<crate::OpcodeInstance>)
        ensures
            ({
                match r {
                    Some(inst) => {
                        &&& inst.mnemonic@ == self.mnemonic@
                        &&& inst.size == self.size
                        &&& inst.operands@.len() == self.operands@.len()
                        &&& forall|j: int|
                            0 <= j < self.operands@.len() ==> Some(inst.operands@[j])
                                == s_to_operand(self.operands@[j])
                        &&& (forall|j: int|
                            0 <= j < self.operands@.len() ==> wf_operand_expr(
                                self.operands@[j],
                            )) ==> forall|j: int|
                            0 <= j < inst.operands@.len() ==> wf_operand(inst.operands@[j])
                    },
                    None => exists|j: int|
                        0 <= j < self.operands@.len() && s_to_operand(#[trigger] self.operands@[j])
                            is None,
                }
            }),
    {
        let mut ops: Vec<Operand> = Vec::new();
        let mut i: usize = 0;
        while i < self.operands.len()
            invariant
                i <= self.operands@.len(),
                ops@.len() == i,
                forall|j: int|
                    0 <= j < i ==> Some(ops@[j]) == s_to_operand(self.operands@[j]),
            decreases self.operands@.len() - i,
        {
            match self.operands[i].to_operand() {
                Some(o) => {
                    ops.push(o);
                },
                None => {
                    return None;
                },
            }
            i += 1;
        }
        Some(
            crate::OpcodeInstance {
                mnemonic: self.mnemonic.clone(),
                size: self.size,
                operands: ops,
            },
        )
    }

    /// The instruction with `Num(value)` substituted for `Sym(name)` in
    /// every operand expression; the shapes and widths, and with them the
    /// counted extension words, are untouched.
    pub fn resolved(&self, name: &str, value: i32) -> (r: InstExpr)
        ensures
            r.mnemonic@ == self.mnemonic@,
            r.size == self.size,
            r.operands@.len() == self.operands@.len(),
            (forall|j: int|
                0 <= j < self.operands@.len() ==> wf_operand_expr(self.operands@[j]))
                ==> forall|j: int|
                0 <= j < r.operands@.len() ==> wf_operand_expr(r.operands@[j]),
            forall|j: int, zz: Size|
                0 <= j < r.operands@.len() ==> #[trigger] crate::assembler::operand_expr_words(
                    r.operands@[j],
                    zz,
                ) == crate::assembler::operand_expr_words(self.operands@[j], zz),
            forall|j: int|
                0 <= j < r.operands@.len() ==> r.operands@[j] == s_resolved_operand(
                    #[trigger] self.operands@[j],
                    name@,
                    value,
                ),
    {
        let mut ops: Vec<OperandExpr> = Vec::new();
        let mut i: usize = 0;
        while i < self.operands.len()
            invariant
                i <= self.operands@.len(),
                ops@.len() == i,
                forall|j: int|
                    0 <= j < i ==> ops@[j] == s_resolved_operand(
                        #[trigger] self.operands@[j],
                        name@,
                        value,
                    ),
                forall|j: int|
                    0 <= j < i ==> wf_operand_expr(self.operands@[j]) ==> wf_operand_expr(
                        #[trigger] ops@[j],
                    ),
                forall|j: int, zz: Size|
                    0 <= j < i ==> #[trigger] crate::assembler::operand_expr_words(
                        ops@[j],
                        zz,
                    ) == crate::assembler::operand_expr_words(self.operands@[j], zz),
            decreases self.operands@.len() - i,
        {
            ops.push(self.operands[i].resolved(name, value));
            i += 1;
        }
        InstExpr { mnemonic: self.mnemonic.clone(), size: self.size, operands: ops }
    }
}


impl Clone for OperandExpr {
    /// A deep copy equal to the original.
    fn clone(&self) -> (r: Self)
        ensures
            r == *self,
    {
        match self {
            OperandExpr::DataRegisterDirect(n) => OperandExpr::DataRegisterDirect(*n),
            OperandExpr::AddressRegisterDirect(n) => OperandExpr::AddressRegisterDirect(*n),
            OperandExpr::AddressRegisterIndirect(n) => OperandExpr::AddressRegisterIndirect(*n),
            OperandExpr::AddressRegisterIndirectWithPostincrement(n) =>
                OperandExpr::AddressRegisterIndirectWithPostincrement(*n),
            OperandExpr::AddressRegisterIndirectWithPredecrement(n) =>
                OperandExpr::AddressRegisterIndirectWithPredecrement(*n),
            OperandExpr::Displacement(n, e) => OperandExpr::Displacement(*n, e.clone()),
            OperandExpr::Index(n, x, e) => OperandExpr::Index(*n, *x, e.clone()),
            OperandExpr::PcDisplacement(e) => OperandExpr::PcDisplacement(e.clone()),
            OperandExpr::PcIndex(x, e) => OperandExpr::PcIndex(*x, e.clone()),
            OperandExpr::Absolute(z, e) => OperandExpr::Absolute(*z, e.clone()),
            OperandExpr::Immediate(z, e) => OperandExpr::Immediate(*z, e.clone()),
            OperandExpr::StatusRegister(z) => OperandExpr::StatusRegister(*z),
        }
    }
}

impl Clone for InstExpr {
    /// A copy whose three fields equal the original's.
    fn clone(&self) -> (r: Self)
        ensures
            r.mnemonic@ == self.mnemonic@,
            r.size == self.size,
            r.operands@ == self.operands@,
    {
        let mut ops: Vec<OperandExpr> = Vec::new();
        let mut i: usize = 0;
        while i < self.operands.len()
            invariant
                i <= self.operands@.len(),
                ops@ == self.operands@.take(i as int),
            decreases self.operands@.len() - i,
        {
            ops.push(self.operands[i].clone());
            proof {
                assert(ops@ =~= self.operands@.take(i + 1));
            }
            i += 1;
        }
        proof {
            assert(self.operands@.take(self.operands@.len() as int) =~= self.operands@);
        }
        InstExpr { mnemonic: self.mnemonic.clone(), size: self.size, operands: ops }
    }
}



} // verus!
