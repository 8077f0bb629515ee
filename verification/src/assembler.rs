//! The assembler's instruction dispatch: find the first opcode-table row
//! whose mnemonic, size and selector accept a parsed instance, assemble the
//! opcode word from the row's template and the operands' address fields, and
//! emit it with the operands' extension words.

use vstd::prelude::*;

pub mod parser;

use crate::{Size, OpcodeInfo, OpcodeInstance, Encoder, Selector, spec_table, generate};
use crate::memory::{MemoryVec, put_word, put_words};
use crate::operand::{Operand, s_mode_bits, s_register_bits, ext_words};
use crate::text::{eq_nocase, str_eq_nocase};
use crate::expr::Expr;
use crate::assembler::parser::{ParseError, OperandExpr, InstExpr, Statement, Body, Directive, s_to_operand, spec_parse_statement, StatementView, BodyView, view_to_operand, operands_view, lemma_to_operand_is_view};

verus! {

/// An operand that stands for an effective address: anything but the status
/// register.
pub open spec fn is_ea_class(o: Operand) -> bool {
    !(o is StatusRegister)
}

/// The memory-alterable addressing modes: the indirect and absolute forms.
pub open spec fn is_mem_alterable(o: Operand) -> bool {
    match o {
        Operand::AddressRegisterIndirect(_) => true,
        Operand::AddressRegisterIndirectWithPostincrement(_) => true,
        Operand::AddressRegisterIndirectWithPredecrement(_) => true,
        Operand::AddressRegisterIndirectWithDisplacement(_, _) => true,
        Operand::AddressRegisterIndirectWithIndex(_, _, _) => true,
        Operand::AbsoluteWord(_) => true,
        Operand::AbsoluteLong(_) => true,
        _ => false,
    }
}

/// The data-alterable addressing modes: memory-alterable plus the data
/// registers.
pub open spec fn is_data_alterable(o: Operand) -> bool {
    is_mem_alterable(o) || o is DataRegisterDirect
}

/// Whether a selector kind accepts an operand list.
pub open spec fn s_selects(k: Selector, ops: Seq<Operand>) -> bool {
    ops.len() == 2 && match k {
        Selector::DxEa => ops[0] is DataRegisterDirect && is_mem_alterable(ops[1]),
        Selector::EaDx => is_ea_class(ops[0]) && ops[1] is DataRegisterDirect,
        Selector::EaAx => is_ea_class(ops[0]) && ops[1] is AddressRegisterDirect,
        Selector::ImmEa => ops[0] is Immediate && is_data_alterable(ops[1]),
        Selector::EaEa => is_ea_class(ops[0]) && is_ea_class(ops[1]),
        Selector::EaSr => is_ea_class(ops[0]) && ops[1] == Operand::StatusRegister(Size::Word),
        Selector::EaCcr => is_ea_class(ops[0]) && ops[1] == Operand::StatusRegister(Size::Byte),
    }
}

/// Whether a table row accepts a parsed instance: the mnemonic matches
/// case-insensitively, the size matches exactly or the instance is unsized,
/// and the selector accepts the operands.
pub open spec fn row_selects(row: OpcodeInfo, m: Seq<char>, size: Size, ops: Seq<Operand>) -> bool {
    eq_nocase(m, row.mnemonic@) && (size == row.size || size == Size::Unsized) && s_selects(
        row.selector,
        ops,
    )
}

/// The first row at or after `i` that accepts the instance.
pub open spec fn first_sel_from(
    t: Seq<OpcodeInfo>,
    m: Seq<char>,
    size: Size,
    ops: Seq<Operand>,
    i: int,
) -> Option<int>
    decreases t.len() - i,
{
    if i < 0 || i >= t.len() {
        None
    } else if row_selects(t[i], m, size, ops) {
        Some(i)
    } else {
        first_sel_from(t, m, size, ops, i + 1)
    }
}

/// A search that has rejected every row before `i` finds the same first
/// selection whether it starts at 0 or at `i`.
pub proof fn lemma_first_sel_prefix(
    t: Seq<OpcodeInfo>,
    m: Seq<char>,
    size: Size,
    ops: Seq<Operand>,
    i: int,
)
    requires
        0 <= i <= t.len(),
        forall|j: int| 0 <= j < i ==> !row_selects(t[j], m, size, ops),
    ensures
        first_sel_from(t, m, size, ops, 0) == first_sel_from(t, m, size, ops, i),
    decreases i,
{
    if i > 0 {
        lemma_first_sel_prefix(t, m, size, ops, i - 1);
    }
}

/// The 6-bit effective-address field of an operand: mode then register.
pub open spec fn ea6(o: Operand) -> u16 {
    (s_mode_bits(o) * 8 + s_register_bits(o)) as u16
}

/// The opcode word an encoder kind assembles: the row's template with the
/// operands' register and address fields folded in by bitwise or.
pub open spec fn s_opcode_word(k: Encoder, template: u16, ops: Seq<Operand>) -> u16 {
    match k {
        Encoder::DxEa => template | ((s_register_bits(ops[0]) as u16) << 9u16) | ea6(ops[1]),
        Encoder::EaDx => template | ((s_register_bits(ops[1]) as u16) << 9u16) | ea6(ops[0]),
        Encoder::EaAx => template | ((s_register_bits(ops[1]) as u16) << 9u16) | ea6(ops[0]),
        Encoder::ImmEa => template | ea6(ops[1]),
        Encoder::EaEa => template | ((s_register_bits(ops[1]) as u16) << 9u16) | ((s_mode_bits(
            ops[1],
        ) as u16) << 6u16) | ea6(ops[0]),
        Encoder::JustEa => template | ea6(ops[0]),
    }
}

/// The words a row writes for an instance: the assembled opcode word, then
/// the first operand's extension words, then the second's, immediates at the
/// row's size.
pub open spec fn enc_words(row: OpcodeInfo, ops: Seq<Operand>) -> Seq<u16> {
    seq![s_opcode_word(row.encoder, (row.matching & 0xFFFF) as u16, ops)] + ext_words(
        ops[0],
        row.size,
    ) + ext_words(ops[1], row.size)
}

/// Words written back to back compose: storing `ws1` then `ws2` after it is
/// storing their concatenation.
pub proof fn lemma_put_words_append(s: Seq<u8>, idx: int, ws1: Seq<u16>, ws2: Seq<u16>)
    ensures
        put_words(s, idx, ws1 + ws2) == put_words(
            put_words(s, idx, ws1),
            idx + 2 * ws1.len(),
            ws2,
        ),
    decreases ws1.len(),
{
    if ws1.len() == 0 {
        assert(ws1 + ws2 =~= ws2);
    } else {
        assert((ws1 + ws2)[0] == ws1[0]);
        assert((ws1 + ws2).skip(1) =~= ws1.skip(1) + ws2);
        lemma_put_words_append(put_word(s, idx, ws1[0]), idx + 2, ws1.skip(1), ws2);
    }
}

/// Whether any table row accepts the instance for assembly.
pub open spec fn encodable(inst: OpcodeInstance) -> bool {
    first_sel_from(spec_table(), inst.mnemonic@, inst.size, inst.operands@, 0) is Some
}

/// Assemble one instruction at `pc`: the first table row whose mnemonic,
/// size and selector accept it writes the opcode word and the operands'
/// extension words, and the address past them is returned. `line` is the
/// source text the instance came from and is not consulted.
pub fn encode_instruction(line: &str, inst: &OpcodeInstance, pc: u32, mem: &mut MemoryVec) -> (r:
    u32)
    requires
        encodable(*inst),
        old(mem).base() <= pc,
        pc + 12 <= u32::MAX,
        pc - old(mem).base() + 12 <= usize::MAX,
    ensures
        ({
            let i = first_sel_from(
                spec_table(),
                inst.mnemonic@,
                inst.size,
                inst.operands@,
                0,
            )->Some_0;
            let ws = enc_words(spec_table()[i], inst.operands@);
            &&& final(mem).base() == old(mem).base()
            &&& final(mem).view_bytes() == put_words(old(mem).view_bytes(), pc - old(mem).base(), ws)
            &&& r == pc + 2 * ws.len()
        }),
{
    let table = generate();
    let mut i: usize = 0;
    while i < table.len()
        invariant
            table@ == spec_table(),
            i <= table@.len(),
            forall|j: int|
                0 <= j < i ==> !row_selects(table@[j], inst.mnemonic@, inst.size, inst.operands@),
            encodable(*inst),
            old(mem).base() <= pc,
            pc + 12 <= u32::MAX,
            pc - old(mem).base() + 12 <= usize::MAX,
            mem == old(mem),
        decreases table@.len() - i,
    {
        let row = table[i];
        let selected = if str_eq_nocase(inst.mnemonic.as_str(), row.mnemonic) && (inst.size
            == row.size || inst.size == Size::Unsized) {
            selector_accepts(row.selector, &inst.operands)
        } else {
            false
        };
        if selected {
            proof {
                lemma_first_sel_prefix(
                    spec_table(),
                    inst.mnemonic@,
                    inst.size,
                    inst.operands@,
                    i as int,
                );
            }
            let opw = assemble_word(row.encoder, (row.matching & 0xFFFF) as u16, &inst.operands);
            mem.write_word(pc, opw);
            let after0 = inst.operands[0].emit_extension(row.size, pc + 2, mem);
            let after1 = inst.operands[1].emit_extension(row.size, after0, mem);
            proof {
                let ops = inst.operands@;
                let ws0 = ext_words(ops[0], row.size);
                let ws1 = ext_words(ops[1], row.size);
                let all = enc_words(table@[i as int], ops);
                let base = old(mem).base() as int;
                lemma_put_words_append(
                    old(mem).view_bytes(),
                    pc - base,
                    seq![opw] + ws0,
                    ws1,
                );
                lemma_put_words_append(old(mem).view_bytes(), pc - base, seq![opw], ws0);
                crate::operand::lemma_put_words_one(old(mem).view_bytes(), pc - base, opw);
                assert((seq![opw] + ws0) + ws1 =~= all);
                assert(final(mem).view_bytes() == put_words(
                    old(mem).view_bytes(),
                    pc - base,
                    all,
                ));
            }
            return after1;
        }
        i += 1;
    }
    proof {
        lemma_first_sel_prefix(
            spec_table(),
            inst.mnemonic@,
            inst.size,
            inst.operands@,
            spec_table().len() as int,
        );
    }
    vstd::pervasive::unreached()
}

/// Whether a selector kind accepts the operand list.
fn selector_accepts(k: Selector, ops: &Vec<Operand>) -> (r: bool)
    ensures
        r == s_selects(k, ops@),
{
    if ops.len() != 2 {
        return false;
    }
    let o0 = ops[0];
    let o1 = ops[1];
    match k {
        Selector::DxEa => matches!(o0, Operand::DataRegisterDirect(_)) && mem_alterable(o1),
        Selector::EaDx => ea_class(o0) && matches!(o1, Operand::DataRegisterDirect(_)),
        Selector::EaAx => ea_class(o0) && matches!(o1, Operand::AddressRegisterDirect(_)),
        Selector::ImmEa => matches!(o0, Operand::Immediate(_, _)) && (mem_alterable(o1)
            || matches!(o1, Operand::DataRegisterDirect(_))),
        Selector::EaEa => ea_class(o0) && ea_class(o1),
        Selector::EaSr => ea_class(o0) && o1 == Operand::StatusRegister(Size::Word),
        Selector::EaCcr => ea_class(o0) && o1 == Operand::StatusRegister(Size::Byte),
    }
}

/// Whether the operand stands for an effective address.
fn ea_class(o: Operand) -> (r: bool)
    ensures
        r == is_ea_class(o),
{
    !matches!(o, Operand::StatusRegister(_))
}

/// Whether the operand is a memory-alterable effective address.
fn mem_alterable(o: Operand) -> (r: bool)
    ensures
        r == is_mem_alterable(o),
{
    match o {
        Operand::AddressRegisterIndirect(_) => true,
        Operand::AddressRegisterIndirectWithPostincrement(_) => true,
        Operand::AddressRegisterIndirectWithPredecrement(_) => true,
        Operand::AddressRegisterIndirectWithDisplacement(_, _) => true,
        Operand::AddressRegisterIndirectWithIndex(_, _, _) => true,
        Operand::AbsoluteWord(_) => true,
        Operand::AbsoluteLong(_) => true,
        _ => false,
    }
}

/// Assemble the opcode word from the row template and the operands' fields.
fn assemble_word(k: Encoder, template: u16, ops: &Vec<Operand>) -> (r: u16)
    requires
        ops@.len() == 2,
    ensures
        r == s_opcode_word(k, template, ops@),
{
    let o0 = ops[0];
    let o1 = ops[1];
    match k {
        Encoder::DxEa => template | ((o0.register_bits() as u16) << 9u16) | ea6_of(o1),
        Encoder::EaDx => template | ((o1.register_bits() as u16) << 9u16) | ea6_of(o0),
        Encoder::EaAx => template | ((o1.register_bits() as u16) << 9u16) | ea6_of(o0),
        Encoder::ImmEa => template | ea6_of(o1),
        Encoder::EaEa => template | ((o1.register_bits() as u16) << 9u16) | ((o1.mode_bits()
            as u16) << 6u16) | ea6_of(o0),
        Encoder::JustEa => template | ea6_of(o0),
    }
}

/// The 6-bit effective-address field of an operand.
fn ea6_of(o: Operand) -> (r: u16)
    ensures
        r == ea6(o),
{
    (o.mode_bits() as u16) * 8 + (o.register_bits() as u16)
}

/// The size an unsized instruction is resolved to before table lookup.
pub open spec fn s_adjusted(size: Size) -> Size {
    if size == Size::Unsized {
        Size::Word
    } else {
        size
    }
}

/// An operand rewritten for the resolved size: an unsized immediate takes
/// the instruction's size, everything else is unchanged.
pub open spec fn adjust_op(o: Operand, z: Size) -> Operand {
    match o {
        Operand::Immediate(Size::Unsized, v) => Operand::Immediate(z, v),
        _ => o,
    }
}

/// Resolve an unsized instruction to its concrete size — the default is
/// word — and give each unsized immediate operand that size, so that the
/// instance's own length agrees with what the encoder will write.
pub fn adjust_size(inst: &OpcodeInstance) -> (r: OpcodeInstance)
    ensures
        r.mnemonic@ == inst.mnemonic@,
        r.size == s_adjusted(inst.size),
        r.operands@.len() == inst.operands@.len(),
        forall|j: int|
            0 <= j < inst.operands@.len() ==> r.operands@[j] == adjust_op(
                inst.operands@[j],
                s_adjusted(inst.size),
            ),
{
    let z = if inst.size == Size::Unsized {
        Size::Word
    } else {
        inst.size
    };
    let mut ops: Vec<Operand> = Vec::new();
    let mut i: usize = 0;
    while i < inst.operands.len()
        invariant
            i <= inst.operands@.len(),
            ops@.len() == i,
            forall|j: int|
                0 <= j < i ==> ops@[j] == adjust_op(inst.operands@[j], z),
        decreases inst.operands@.len() - i,
    {
        let o = inst.operands[i];
        let adjusted = match o {
            Operand::Immediate(Size::Unsized, v) => Operand::Immediate(z, v),
            _ => o,
        };
        ops.push(adjusted);
        i += 1;
    }
    OpcodeInstance { mnemonic: inst.mnemonic.clone(), size: z, operands: ops }
}


/// The assembler driver's failure modes: a line that does not parse, a
/// symbol still unresolved when its value is needed, an instruction no
/// table row accepts, an expression with no value (a division by zero), and
/// an image grown past the driver's address ceiling.
#[derive(Debug)]
pub enum AsmError {
    Parse(usize, ParseError),
    MissingSymbol(String),
    UnknownInstructionForm(String),
    Unevaluated,
    ImageTooLarge,
}

/// How many bytes one element of the given size occupies; an unsized
/// element counts as a word.
pub open spec fn s_size_bytes(z: Size) -> int {
    match z {
        Size::Byte => 1,
        Size::Long => 4,
        _ => 2,
    }
}

/// How many bytes one element of the given size occupies.
pub fn size_bytes(z: Size) -> (r: u32)
    ensures
        r == s_size_bytes(z),
        1 <= r <= 4,
{
    match z {
        Size::Byte => 1,
        Size::Long => 4,
        _ => 2,
    }
}

/// How many extension words pass one counts for a parsed operand when the
/// instruction's resolved size is `z`: the widest legal form for the
/// symbolic constants, the instruction size for an immediate.
pub open spec fn operand_expr_words(o: OperandExpr, z: Size) -> int {
    match o {
        OperandExpr::Displacement(_, _) => 1,
        OperandExpr::Index(_, _, _) => 1,
        OperandExpr::PcDisplacement(_) => 1,
        OperandExpr::PcIndex(_, _) => 1,
        OperandExpr::Absolute(q, _) => if q == Size::Long {
            2
        } else {
            1
        },
        OperandExpr::Immediate(_, _) => if z == Size::Long {
            2
        } else {
            1
        },
        _ => 0,
    }
}

/// How many extension words pass one counts for a parsed operand.
fn operand_expr_words_of(o: &OperandExpr, z: Size) -> (r: u32)
    ensures
        r == operand_expr_words(*o, z),
{
    match o {
        OperandExpr::Displacement(_, _) => 1,
        OperandExpr::Index(_, _, _) => 1,
        OperandExpr::PcDisplacement(_) => 1,
        OperandExpr::PcIndex(_, _) => 1,
        OperandExpr::Absolute(q, _) => if *q == Size::Long {
            2
        } else {
            1
        },
        OperandExpr::Immediate(_, _) => if z == Size::Long {
            2
        } else {
            1
        },
        _ => 0,
    }
}

/// Pass one and pass two agree on every operand: once a parsed operand's
/// expressions are numeric, the extension words its concrete form emits at
/// instruction size `z` are exactly the words pass one counted for it.
/// This is what keeps the locations pass one assigns to labels equal to the
/// addresses pass two writes at.
pub proof fn lemma_operand_words_agree(o: OperandExpr, z: Size)
    requires
        s_to_operand(o) is Some,
    ensures
        ext_words(s_to_operand(o)->Some_0, z).len() == operand_expr_words(o, z),
{
}

/// An adjusted operand emits the same number of extension words at the
/// instruction size: the rewrite only stamps that size onto unsized
/// immediates.
pub proof fn lemma_adjust_keeps_words(o: Operand, z: Size)
    ensures
        ext_words(crate::assembler::adjust_op(o, z), z).len() == ext_words(o, z).len(),
{
}

/// The first symbol in an expression, if any: the name pass two reports
/// when a value is still missing.
fn first_sym(e: &Expr) -> (r: Option<String>)
    decreases *e,
{
    match e {
        Expr::Num(_) => None,
        Expr::Sym(s) => Some(s.clone()),
        Expr::Str(_) => None,
        Expr::Neg(x) => first_sym(x),
        Expr::Cpl(x) => first_sym(x),
        Expr::Add(l, r) => match first_sym(l) {
            Some(s) => Some(s),
            None => first_sym(r),
        },
        Expr::Sub(l, r) => match first_sym(l) {
            Some(s) => Some(s),
            None => first_sym(r),
        },
        Expr::Mul(l, r) => match first_sym(l) {
            Some(s) => Some(s),
            None => first_sym(r),
        },
        Expr::Div(l, r) => match first_sym(l) {
            Some(s) => Some(s),
            None => first_sym(r),
        },
        Expr::Mod(l, r) => match first_sym(l) {
            Some(s) => Some(s),
            None => first_sym(r),
        },
        Expr::Ior(l, r) => match first_sym(l) {
            Some(s) => Some(s),
            None => first_sym(r),
        },
        Expr::Xor(l, r) => match first_sym(l) {
            Some(s) => Some(s),
            None => first_sym(r),
        },
        Expr::And(l, r) => match first_sym(l) {
            Some(s) => Some(s),
            None => first_sym(r),
        },
        Expr::Shl(l, r) => match first_sym(l) {
            Some(s) => Some(s),
            None => first_sym(r),
        },
        Expr::Shr(l, r) => match first_sym(l) {
            Some(s) => Some(s),
            None => first_sym(r),
        },
    }
}

/// The expression after every symbol of the table, from index `k` on, is
/// substituted in order, folding as `Expr::resolve` folds.
pub open spec fn spec_resolve_all(e: Expr, symbols: Seq<(String, i32)>, k: int) -> Expr
    decreases symbols.len() - k,
{
    if k < 0 || k >= symbols.len() {
        e
    } else {
        spec_resolve_all(
            crate::expr::sresolve(e, symbols[k].0@, symbols[k].1),
            symbols,
            k + 1,
        )
    }
}

/// Substitute every symbol of the table into the expression, in table
/// order, folding constants as `Expr::resolve` folds.
#[verifier::loop_isolation(false)]
fn resolve_all(e: &Expr, symbols: &Vec<(String, i32)>) -> (r: Expr)
    ensures
        r == spec_resolve_all(*e, symbols@, 0),
{
    let mut cur = e.clone();
    let mut k: usize = 0;
    while k < symbols.len()
        invariant
            k <= symbols@.len(),
            spec_resolve_all(cur, symbols@, k as int) == spec_resolve_all(*e, symbols@, 0),
        decreases symbols@.len() - k,
    {
        let pair = &symbols[k];
        cur = cur.resolve(pair.0.as_str(), pair.1);
        k += 1;
    }
    cur
}

/// The value of an expression under the symbol table, or the error naming
/// what kept it symbolic.
fn eval_under(e: &Expr, symbols: &Vec<(String, i32)>) -> (r: Result<i32, AsmError>)
    ensures
        r matches Err(err) ==> err is MissingSymbol || err is Unevaluated,
        r matches Ok(v) ==> crate::expr::seval(spec_resolve_all(*e, symbols@, 0)) == Some(v),
        r is Err ==> crate::expr::seval(spec_resolve_all(*e, symbols@, 0)) is None,
{
    let resolved_expr = resolve_all(e, symbols);
    match resolved_expr.eval() {
        Some(v) => Ok(v),
        None => match first_sym(&resolved_expr) {
            Some(name) => Err(AsmError::MissingSymbol(name)),
            None => Err(AsmError::Unevaluated),
        },
    }
}

/// The driver's address ceiling: the location counter stays below it so
/// that every address computation fits comfortably in 32 bits.
pub const LC_LIMIT: u32 = 0x00FF_FFFF;

/// The location counter after an alignment directive: `0` makes the
/// address odd, `1` makes it even, and a larger value rounds up to the
/// next multiple of that value.
fn aligned(lc: u32, a: u32) -> (r: u32)
    requires
        lc <= LC_LIMIT,
        a <= LC_LIMIT,
    ensures
        lc <= r <= lc + a + 1,
{
    if a == 0 {
        if lc % 2 == 0 {
            lc + 1
        } else {
            lc
        }
    } else if a == 1 {
        if lc % 2 == 1 {
            lc + 1
        } else {
            lc
        }
    } else {
        let rem = lc % a;
        if rem == 0 {
            lc
        } else {
            proof {
                assert(lc % a < a);
            }
            lc + (a - rem)
        }
    }
}

/// How many bytes one `dc` element occupies: a quoted string its content
/// characters, one byte each; anything else one element of the directive's
/// size.
fn dc_element_bytes(e: &Expr, z: Size) -> (r: u32)
    ensures
        r <= u32::MAX,
{
    match e {
        Expr::Str(text) => {
            let n = text.as_str().unicode_len();
            if n >= 2 {
                (n - 2) as u32
            } else {
                0
            }
        },
        _ => size_bytes(z),
    }
}

/// Emit one `dc` element at `at`: a quoted string writes its content
/// characters one byte each; anything else writes its value at the
/// directive's size, big-endian.
fn emit_dc_element(
    e: &Expr,
    z: Size,
    at: u32,
    symbols: &Vec<(String, i32)>,
    mem: &mut MemoryVec,
) -> (r: Result<u32, AsmError>)
    requires
        old(mem).base() == 0,
        at <= LC_LIMIT,
    ensures
        final(mem).base() == old(mem).base(),
        r matches Ok(npc) ==> npc == at + dc_bytes_of(*e, z) && npc <= LC_LIMIT + 4
            + dc_bytes_of(*e, z),
        r matches Err(err) ==> !(err is Parse),
        r is Ok && !(*e is Str) ==> (crate::expr::seval(spec_resolve_all(*e, symbols@, 0))
            matches Some(v) && block_element_holds(
            final(mem).view_bytes(),
            at as int,
            z,
            crate::expr::u32_of_i32(v),
        )),
        *e is Str && r is Ok ==> (final(mem).view_bytes().len() >= at + dc_bytes_of(*e, z)
            || dc_bytes_of(*e, z) == 0) && forall|q: int|
            0 <= q < (*e)->Str_0@.len() - 2 ==> #[trigger] final(mem).view_bytes()[at + q]
                == ((*e)->Str_0@[q + 1] as u32 % 0x100) as u8,
{
    match e {
        Expr::Str(text) => {
            let n = text.as_str().unicode_len();
            if n < 2 {
                return Ok(at);
            }
            let m: usize = n - 2;
            if m as u64 > LC_LIMIT as u64 + 4 || (m as u64) + (at as u64) > (LC_LIMIT as u64)
                + 4 {
                return Err(AsmError::ImageTooLarge);
            }
            let mut k: usize = 1;
            let mut cursor = at;
            while k < n - 1
                invariant
                    n == text@.len(),
                    2 <= n,
                    m == n - 2,
                    1 <= k <= n - 1,
                    cursor == at + (k - 1),
                    at + m <= LC_LIMIT + 4,
                    mem.base() == old(mem).base(),
                    old(mem).base() == 0,
                    k > 1 ==> mem.view_bytes().len() >= cursor,
                    forall|q: int|
                        0 <= q < k - 1 ==> #[trigger] mem.view_bytes()[at + q] == (text@[q
                        + 1] as u32 % 0x100) as u8,
                decreases n - 1 - k,
            {
                let c = text.as_str().get_char(k);
                let b = ((c as u32) % 0x100) as u8;
                let ghost prev = mem.view_bytes();
                mem.write_byte(cursor, b);
                proof {
                    assert forall|q: int| 0 <= q < prev.len() && q < cursor implies
                        mem.view_bytes()[q] == prev[q] by {
                        crate::memory::lemma_put_byte_preserves(prev, cursor as int, b, q);
                    }
                    assert(mem.view_bytes().len() >= cursor + 1);
                    assert(mem.view_bytes()[cursor as int] == b);
                }
                cursor += 1;
                k += 1;
            }
            Ok(cursor)
        },
        _ => {
            let v = match eval_under(e, symbols) {
                Ok(v) => v,
                Err(err) => {
                    return Err(err);
                },
            };
            let bits: u32 = if v >= 0 {
                v as u32
            } else {
                ((v as i64) + 0x1_0000_0000) as u32
            };
            match z {
                Size::Byte => {
                    mem.write_byte(at, (bits % 0x100) as u8);
                    Ok(at + 1)
                },
                Size::Long => {
                    let hi = (bits / 0x1_0000) as u16;
                    let lo = (bits % 0x1_0000) as u16;
                    let ghost prev = mem.view_bytes();
                    mem.write_word(at, hi);
                    mem.write_word(at + 2, lo);
                    proof {
                        let mid = put_word(prev, at as int, hi);
                        crate::memory::lemma_put_word_preserves(mid, at + 2, lo, at as int);
                        crate::memory::lemma_put_word_preserves(mid, at + 2, lo, at + 1);
                        assert(block_element_holds(
                            mem.view_bytes(),
                            at as int,
                            z,
                            bits,
                        ));
                    }
                    Ok(at + 4)
                },
                _ => {
                    mem.write_word(at, (bits % 0x1_0000) as u16);
                    Ok(at + 2)
                },
            }
        },
    }
}

/// What `dc_element_bytes` counts, at the specification level.
pub open spec fn dc_bytes_of(e: Expr, z: Size) -> int {
    match e {
        Expr::Str(text) => if text@.len() >= 2 {
            text@.len() - 2
        } else {
            0
        },
        _ => s_size_bytes(z),
    }
}

/// Write `n` copies of the fill value at `at`, each one element of size
/// `z`, big-endian, and return the address past them: the block advances
/// the location counter by `n` times the element size and writes `n`
/// copies of the fill.
pub fn emit_block(n: u32, z: Size, fill: u32, at: u32, mem: &mut MemoryVec) -> (r: Result<
    u32,
    AsmError,
>)
    requires
        old(mem).base() == 0,
        at <= LC_LIMIT,
    ensures
        final(mem).base() == old(mem).base(),
        r is Ok <==> n * s_size_bytes(z) <= LC_LIMIT + 4 - at,
        r matches Ok(npc) ==> npc == at + n * s_size_bytes(z),
        r matches Ok(npc) ==> forall|k: int|
            0 <= k < n ==> #[trigger] block_element_holds(
                final(mem).view_bytes(),
                at + k * s_size_bytes(z),
                z,
                fill,
            ),
        r is Err ==> (r matches Err(AsmError::ImageTooLarge)) && *final(mem) == *old(mem),
{
    let width = size_bytes(z);
    proof {
        assert((n as int) * (width as int) <= 0xFFFF_FFFF * 4) by (nonlinear_arith)
            requires
                n <= 0xFFFF_FFFFu32,
                width <= 4,
        ;
    }
    if (n as u64) * (width as u64) > (LC_LIMIT as u64) + 4 - (at as u64) {
        return Err(AsmError::ImageTooLarge);
    }
    let mut k: u32 = 0;
    let mut cursor = at;
    while k < n
        invariant
            0 <= k <= n,
            width == s_size_bytes(z),
            cursor == at + k * width,
            n * width <= LC_LIMIT + 4 - at,
            at <= LC_LIMIT,
            mem.base() == old(mem).base(),
            old(mem).base() == 0,
            k > 0 ==> mem.view_bytes().len() >= cursor,
            forall|j: int|
                0 <= j < k ==> #[trigger] block_element_holds(
                    mem.view_bytes(),
                    at + j * width,
                    z,
                    fill,
                ),
        decreases n - k,
    {
        proof {
            assert((k + 1) * width == k * width + width) by (nonlinear_arith);
            assert(k * width <= n * width && (k + 1) * width <= n * width) by (nonlinear_arith)
                requires
                    0 <= k < n,
                    width > 0,
            ;
        }
        let ghost prev = mem.view_bytes();
        let hi = (fill / 0x1_0000) as u16;
        let lo = (fill % 0x1_0000) as u16;
        match z {
            Size::Byte => {
                mem.write_byte(cursor, (fill % 0x100) as u8);
            },
            Size::Long => {
                mem.write_word(cursor, hi);
                mem.write_word(cursor + 2, lo);
            },
            _ => {
                mem.write_word(cursor, lo);
            },
        }
        proof {
            let c = cursor as int;
            assert forall|p: int| 0 <= p < prev.len() && p < c implies mem.view_bytes()[p]
                == prev[p] by {
                match z {
                    Size::Byte => {
                        crate::memory::lemma_put_byte_preserves(
                            prev,
                            c,
                            (fill % 0x100) as u8,
                            p,
                        );
                    },
                    Size::Long => {
                        let mid = put_word(prev, c, hi);
                        crate::memory::lemma_put_word_preserves(prev, c, hi, p);
                        crate::memory::lemma_put_word_preserves(mid, c + 2, lo, p);
                    },
                    _ => {
                        crate::memory::lemma_put_word_preserves(prev, c, lo, p);
                    },
                }
            }
            assert(mem.view_bytes().len() >= c + width);
            if z == Size::Long {
                let mid = put_word(prev, c, hi);
                crate::memory::lemma_put_word_preserves(mid, c + 2, lo, c);
                crate::memory::lemma_put_word_preserves(mid, c + 2, lo, c + 1);
            }
            assert(block_element_holds(mem.view_bytes(), c, z, fill));
            assert forall|j: int| 0 <= j < k implies #[trigger] block_element_holds(
                mem.view_bytes(),
                at + j * width,
                z,
                fill,
            ) by {
                assert((j + 1) * width <= k * width && j * width >= 0) by (nonlinear_arith)
                    requires
                        0 <= j < k,
                        width > 0,
                ;
                let idx = at + j * width;
                assert(block_element_holds(prev, idx, z, fill));
                assert(idx + width <= c);
                if z == Size::Byte {
                    assert(mem.view_bytes()[idx] == prev[idx]);
                } else if z == Size::Long {
                    assert(mem.view_bytes()[idx] == prev[idx]);
                    assert(mem.view_bytes()[idx + 1] == prev[idx + 1]);
                    assert(mem.view_bytes()[idx + 2] == prev[idx + 2]);
                    assert(mem.view_bytes()[idx + 3] == prev[idx + 3]);
                } else {
                    assert(mem.view_bytes()[idx] == prev[idx]);
                    assert(mem.view_bytes()[idx + 1] == prev[idx + 1]);
                }
            }
        }
        cursor = cursor + width;
        k += 1;
    }
    Ok(cursor)
}

/// One block element sits in the image at byte index `idx`: the fill
/// value, truncated to the element size, big-endian.
pub open spec fn block_element_holds(bytes: Seq<u8>, idx: int, z: Size, fill: u32) -> bool {
    match z {
        Size::Byte => bytes.len() > idx && idx >= 0 && bytes[idx] == (fill % 0x100) as u8,
        Size::Long => bytes.len() >= idx + 4 && idx >= 0 && crate::memory::word_of(
            bytes[idx],
            bytes[idx + 1],
        ) == (fill / 0x1_0000) as u16 && crate::memory::word_of(
            bytes[idx + 2],
            bytes[idx + 3],
        ) == (fill % 0x1_0000) as u16,
        _ => bytes.len() >= idx + 2 && idx >= 0 && crate::memory::word_of(
            bytes[idx],
            bytes[idx + 1],
        ) == (fill % 0x1_0000) as u16,
    }
}


/// The row a successful selection search finds accepts the instance.
pub proof fn lemma_first_sel_found(
    t: Seq<OpcodeInfo>,
    m: Seq<char>,
    size: Size,
    ops: Seq<Operand>,
    i: int,
)
    requires
        0 <= i,
        first_sel_from(t, m, size, ops, i) is Some,
    ensures
        ({
            let j = first_sel_from(t, m, size, ops, i)->Some_0;
            &&& i <= j < t.len()
            &&& row_selects(t[j], m, size, ops)
        }),
    decreases t.len() - i,
{
    if i < t.len() && !row_selects(t[i], m, size, ops) {
        lemma_first_sel_found(t, m, size, ops, i + 1);
    }
}

/// Whether some table row accepts the instance for assembly.
pub fn is_encodable(inst: &OpcodeInstance) -> (r: bool)
    ensures
        r == encodable(*inst),
{
    let table = generate();
    let mut i: usize = 0;
    while i < table.len()
        invariant
            table@ == spec_table(),
            i <= table@.len(),
            forall|j: int|
                0 <= j < i ==> !row_selects(table@[j], inst.mnemonic@, inst.size, inst.operands@),
        decreases table@.len() - i,
    {
        let row = table[i];
        let selected = if str_eq_nocase(inst.mnemonic.as_str(), row.mnemonic) && (inst.size
            == row.size || inst.size == Size::Unsized) {
            selector_accepts(row.selector, &inst.operands)
        } else {
            false
        };
        if selected {
            proof {
                lemma_first_sel_prefix(
                    spec_table(),
                    inst.mnemonic@,
                    inst.size,
                    inst.operands@,
                    i as int,
                );
            }
            return true;
        }
        i += 1;
    }
    proof {
        lemma_first_sel_prefix(
            spec_table(),
            inst.mnemonic@,
            inst.size,
            inst.operands@,
            spec_table().len() as int,
        );
    }
    false
}

/// The first symbol left in an instruction's operand expressions, if any.
fn inst_first_sym(ie: &InstExpr) -> (r: Option<String>)
{
    let mut i: usize = 0;
    while i < ie.operands.len()
        decreases ie.operands@.len() - i,
    {
        let found = match &ie.operands[i] {
            OperandExpr::Displacement(_, e) => first_sym(e),
            OperandExpr::Index(_, _, e) => first_sym(e),
            OperandExpr::PcDisplacement(e) => first_sym(e),
            OperandExpr::PcIndex(_, e) => first_sym(e),
            OperandExpr::Absolute(_, e) => first_sym(e),
            OperandExpr::Immediate(_, e) => first_sym(e),
            _ => None,
        };
        match found {
            Some(name) => {
                return Some(name);
            },
            None => {},
        }
        i += 1;
    }
    None
}

/// The two's-complement bits of a signed 32-bit value.
fn value_bits(v: i32) -> (r: u32)
    ensures
        r == crate::expr::u32_of_i32(v),
{
    if v >= 0 {
        v as u32
    } else {
        ((v as i64) + 0x1_0000_0000) as u32
    }
}

/// The number of 16-bit words pass one counts for an instruction: one for
/// the opcode word plus each operand's share at the resolved size.
fn pass1_inst_words(ie: &InstExpr) -> (r: u64)
    ensures
        1 <= r <= LC_LIMIT as u64 + 3,
        r > LC_LIMIT as u64 || r == 1 + spec_pass1_words(ie.operands@, s_adjusted(ie.size)),
{
    let z = if ie.size == Size::Unsized {
        Size::Word
    } else {
        ie.size
    };
    let mut words: u64 = 1;
    let mut i: usize = 0;
    while i < ie.operands.len()
        invariant
            i <= ie.operands@.len(),
            1 <= words <= LC_LIMIT as u64,
            z == s_adjusted(ie.size),
            words == 1 + spec_pass1_words(ie.operands@.take(i as int), z),
        decreases ie.operands@.len() - i,
    {
        proof {
            assert(ie.operands@.take(i + 1).drop_last() =~= ie.operands@.take(i as int));
            assert(ie.operands@.take(i + 1).last() == ie.operands@[i as int]);
        }
        words = words + operand_expr_words_of(&ie.operands[i], z) as u64;
        if words > LC_LIMIT as u64 {
            return words;
        }
        i += 1;
    }
    proof {
        assert(ie.operands@.take(ie.operands@.len() as int) =~= ie.operands@);
    }
    words
}

/// The extension words pass one counts for an operand list.
pub open spec fn spec_pass1_words(ops: Seq<OperandExpr>, z: Size) -> int
    decreases ops.len(),
{
    if ops.len() == 0 {
        0
    } else {
        spec_pass1_words(ops.drop_last(), z) + operand_expr_words(ops.last(), z)
    }
}

/// The two passes agree on every instruction: once a parsed instruction's
/// symbols are resolved, its operands concretized and its size adjusted,
/// the words the selected table row writes in pass two are exactly the
/// words pass one counted from the parsed operand shapes — so the location
/// counter pass one used to place every following label is the address
/// pass two reaches after emitting.
pub proof fn lemma_passes_agree(
    ie: InstExpr,
    rie: InstExpr,
    inst0: OpcodeInstance,
    inst: OpcodeInstance,
)
    requires
        rie.size == ie.size,
        rie.operands@.len() == ie.operands@.len(),
        forall|j: int, zz: Size|
            0 <= j < rie.operands@.len() ==> #[trigger] operand_expr_words(
                rie.operands@[j],
                zz,
            ) == operand_expr_words(ie.operands@[j], zz),
        inst0.size == rie.size,
        inst0.operands@.len() == rie.operands@.len(),
        forall|j: int|
            0 <= j < rie.operands@.len() ==> Some(inst0.operands@[j]) == s_to_operand(
                #[trigger] rie.operands@[j],
            ),
        inst.size == s_adjusted(inst0.size),
        inst.operands@.len() == inst0.operands@.len(),
        forall|j: int|
            0 <= j < inst0.operands@.len() ==> #[trigger] inst.operands@[j] == adjust_op(
                inst0.operands@[j],
                s_adjusted(inst0.size),
            ),
        encodable(inst),
    ensures
        ({
            let i = first_sel_from(
                spec_table(),
                inst.mnemonic@,
                inst.size,
                inst.operands@,
                0,
            )->Some_0;
            enc_words(spec_table()[i], inst.operands@).len() == 1 + spec_pass1_words(
                ie.operands@,
                s_adjusted(ie.size),
            )
        }),
{
    let m = inst.mnemonic@;
    let ops = inst.operands@;
    lemma_first_sel_found(spec_table(), m, inst.size, ops, 0);
    let ri = first_sel_from(spec_table(), m, inst.size, ops, 0)->Some_0;
    let row = spec_table()[ri];
    assert(inst.size == s_adjusted(ie.size));
    assert(row.size == inst.size);
    assert(ops.len() == 2);
    assert(ie.operands@.len() == 2);
    let ieops = ie.operands@;
    let z2 = s_adjusted(ie.size);
    let d1 = ieops.drop_last();
    assert(d1.last() == ieops[0]);
    assert(ieops.last() == ieops[1]);
    assert(spec_pass1_words(ieops, z2) == spec_pass1_words(d1, z2) + operand_expr_words(
        ieops[1],
        z2,
    ));
    assert(d1.len() == 1);
    assert(spec_pass1_words(d1, z2) == spec_pass1_words(d1.drop_last(), z2)
        + operand_expr_words(ieops[0], z2));
    assert(d1.drop_last().len() == 0);
    assert(spec_pass1_words(d1.drop_last(), z2) == 0);
    assert(spec_pass1_words(ieops, z2) == operand_expr_words(ieops[0], z2)
        + operand_expr_words(ieops[1], z2));
    assert forall|j: int| 0 <= j < 2 implies #[trigger] ext_words(ops[j], row.size).len()
        == operand_expr_words(ie.operands@[j], row.size) by {
        lemma_adjust_keeps_words(inst0.operands@[j], inst.size);
        lemma_operand_words_agree(rie.operands@[j], inst.size);
    }
}

/// The assembler: parse source lines into statements, collect labels and
/// declared symbols with a running location counter in pass one, then
/// resolve, encode and emit every statement in pass two.
pub struct Assembler {
}

impl Assembler {
    /// A fresh assembler.
    pub fn new() -> (r: Assembler) {
        Assembler {  }
    }

    /// Parse one source line that must hold an instruction with fully
    /// numeric operands, as the disassembler's output always is: the
    /// grammar's instruction for the line, each operand concretized.
    pub fn parse_assembler(&self, line: &str) -> (r: Result<OpcodeInstance, ParseError>)
        ensures
            r matches Ok(inst) ==> forall|j: int|
                0 <= j < inst.operands@.len() ==> crate::operand::wf_operand(
                    #[trigger] inst.operands@[j],
                ),
            r matches Ok(inst) ==> (spec_parse_statement(line@) matches Ok(stv)
                && stv.body matches BodyView::Instruction(iv) && inst.mnemonic@ == iv.mnemonic
                && inst.size == iv.size && inst.operands@.len() == iv.operands.len() && forall|
                j: int,
            |
                0 <= j < iv.operands.len() ==> view_to_operand(#[trigger] iv.operands[j])
                    == Some(inst.operands@[j])),
            r is Err ==> (spec_parse_statement(line@) is Err || !(spec_parse_statement(
                line@,
            )->Ok_0.body is Instruction) || exists|j: int|
                0 <= j < spec_parse_statement(line@)->Ok_0.body->Instruction_0.operands.len()
                    && view_to_operand(
                    #[trigger] spec_parse_statement(line@)->Ok_0.body->Instruction_0.operands[j],
                ) is None),
    {
        match crate::assembler::parser::parse_statement(line) {
            Ok(st) => match st.body {
                Body::Instruction(ie) => match ie.to_instance() {
                    Some(inst) => {
                        proof {
                            assert forall|j: int| 0 <= j < ie.operands@.len() implies
                                view_to_operand(
                                #[trigger] operands_view(ie.operands@)[j],
                            ) == Some(inst.operands@[j]) by {
                                lemma_to_operand_is_view(ie.operands@[j]);
                            }
                        }
                        Ok(inst)
                    },
                    None => {
                        proof {
                            let j = choose|j: int|
                                0 <= j < ie.operands@.len() && s_to_operand(
                                    #[trigger] ie.operands@[j],
                                ) is None;
                            lemma_to_operand_is_view(ie.operands@[j]);
                            assert(view_to_operand(operands_view(ie.operands@)[j]) is None);
                        }
                        Err(ParseError { position: 0 })
                    },
                },
                _ => Err(ParseError { position: 0 }),
            },
            Err(e) => Err(e),
        }
    }

    /// Assemble a whole source: pass one walks the statements, filling the
    /// symbol table from labels and declarations and computing every
    /// statement's address; pass two resolves each statement against the
    /// finished table and emits it at the address pass one assigned, so the
    /// locations labels were given are exactly where the bytes land. An
    /// `org` directive moves the location counter; an `offset` directive is
    /// read the same way here, as a section base the counter jumps to, with
    /// labels taking their addresses from it. The result is the memory
    /// image and the entry point of an `end` directive, when one was
    /// reached.
    pub fn assemble(&self, lines: &Vec<String>) -> (r: Result<
        (MemoryVec, Option<u32>),
        AsmError,
    >)
        ensures
            r matches Ok(p) ==> p.0.base() == 0,
            r matches Err(AsmError::Parse(k, e)) ==> k < lines@.len()
                && crate::assembler::parser::spec_parse_statement(lines@[k as int]@)
                == Err::<crate::assembler::parser::StatementView, int>(e.position as int),
    {
        // parse
        let mut statements: Vec<Statement> = Vec::new();
        let mut k: usize = 0;
        while k < lines.len()
            invariant
                k <= lines@.len(),
                forall|j: int|
                    0 <= j < statements@.len() ==> crate::assembler::parser::wf_statement(
                        #[trigger] statements@[j],
                    ),
            decreases lines@.len() - k,
        {
            match crate::assembler::parser::parse_statement(lines[k].as_str()) {
                Ok(st) => {
                    statements.push(st);
                },
                Err(e) => {
                    return Err(AsmError::Parse(k, e));
                },
            }
            k += 1;
        }
        // pass one: symbols and addresses
        let mut symbols: Vec<(String, i32)> = Vec::new();
        let mut addrs: Vec<u32> = Vec::new();
        let mut lc: u32 = 0;
        let mut end_at: usize = statements.len();
        let mut k1: usize = 0;
        while k1 < statements.len()
            invariant
                k1 <= statements@.len(),
                lc <= LC_LIMIT,
                addrs@.len() == k1,
                forall|j: int| 0 <= j < addrs@.len() ==> #[trigger] addrs@[j] <= LC_LIMIT,
                forall|j: int|
                    0 <= j < statements@.len() ==> crate::assembler::parser::wf_statement(
                        #[trigger] statements@[j],
                    ),
            decreases statements@.len() - k1,
        {
            addrs.push(lc);
            let is_declare = match &statements[k1].body {
                Body::Directive(Directive::Declare(_)) => true,
                _ => false,
            };
            if is_declare {
                match &statements[k1].body {
                    Body::Directive(Directive::Declare(e)) => match &statements[k1].label {
                        Some(name) => {
                            let v = match eval_under(e, &symbols) {
                                Ok(v) => v,
                                Err(err) => {
                                    return Err(err);
                                },
                            };
                            symbols.push((name.clone(), v));
                        },
                        None => {},
                    },
                    _ => {},
                }
            } else {
                match &statements[k1].label {
                    Some(name) => {
                        symbols.push((name.clone(), lc as i32));
                    },
                    None => {},
                }
            }
            let mut stop = false;
            match &statements[k1].body {
                Body::Instruction(ie) => {
                    let words = pass1_inst_words(ie);
                    let need = lc as u64 + 2 * words;
                    if need > LC_LIMIT as u64 {
                        return Err(AsmError::ImageTooLarge);
                    }
                    lc = need as u32;
                },
                Body::Directive(d) => match d {
                    Directive::Origin(e) => {
                        let v = match eval_under(e, &symbols) {
                            Ok(v) => v,
                            Err(err) => {
                                return Err(err);
                            },
                        };
                        let a = value_bits(v);
                        if a > LC_LIMIT {
                            return Err(AsmError::ImageTooLarge);
                        }
                        lc = a;
                    },
                    // an offset section is laid out like an origin: the
                    // counter moves, and labels take their addresses from it
                    Directive::Offset(e) => {
                        let v = match eval_under(e, &symbols) {
                            Ok(v) => v,
                            Err(err) => {
                                return Err(err);
                            },
                        };
                        let a = value_bits(v);
                        if a > LC_LIMIT {
                            return Err(AsmError::ImageTooLarge);
                        }
                        lc = a;
                    },
                    Directive::Declare(_) => {},
                    Directive::Alignment(e) => {
                        let v = match eval_under(e, &symbols) {
                            Ok(v) => v,
                            Err(err) => {
                                return Err(err);
                            },
                        };
                        let a = value_bits(v);
                        if a > LC_LIMIT {
                            return Err(AsmError::ImageTooLarge);
                        }
                        let nlc = aligned(lc, a);
                        if nlc > LC_LIMIT {
                            return Err(AsmError::ImageTooLarge);
                        }
                        lc = nlc;
                    },
                    Directive::DefineConstants(z, es) => {
                        let mut total: u64 = lc as u64;
                        let mut j: usize = 0;
                        while j < es.len()
                            invariant
                                j <= es@.len(),
                                total <= LC_LIMIT as u64 + 0x1_0000_0000,
                            decreases es@.len() - j,
                        {
                            if total > LC_LIMIT as u64 {
                                return Err(AsmError::ImageTooLarge);
                            }
                            total = total + dc_element_bytes(&es[j], *z) as u64;
                            j += 1;
                        }
                        if total > LC_LIMIT as u64 {
                            return Err(AsmError::ImageTooLarge);
                        }
                        lc = total as u32;
                    },
                    Directive::DefineConstantBlock(z, len, _) => {
                        let v = match eval_under(len, &symbols) {
                            Ok(v) => v,
                            Err(err) => {
                                return Err(err);
                            },
                        };
                        let n = value_bits(v) as u64;
                        let width = size_bytes(*z) as u64;
                        proof {
                            assert(n * width <= 0xFFFF_FFFF * 4) by (nonlinear_arith)
                                requires
                                    n <= 0xFFFF_FFFFu64,
                                    width <= 4,
                            ;
                        }
                        let need = lc as u64 + n * width;
                        if need > LC_LIMIT as u64 {
                            return Err(AsmError::ImageTooLarge);
                        }
                        lc = need as u32;
                    },
                    Directive::End(_) => {
                        stop = true;
                    },
                },
                Body::LabelOnly => {},
                Body::Empty => {},
            }
            k1 += 1;
            if stop {
                end_at = k1;
                break ;
            }
        }
        // pass two: resolve and emit
        let mut mem = MemoryVec::new();
        let mut entry: Option<u32> = None;
        let mut k2: usize = 0;
        while k2 < end_at && k2 < statements.len() && k2 < addrs.len()
            invariant
                mem.base() == 0,
                forall|j: int| 0 <= j < addrs@.len() ==> #[trigger] addrs@[j] <= LC_LIMIT,
                forall|j: int|
                    0 <= j < statements@.len() ==> crate::assembler::parser::wf_statement(
                        #[trigger] statements@[j],
                    ),
            decreases end_at - k2,
        {
            let lc2 = addrs[k2];
            match &statements[k2].body {
                Body::Instruction(ie) => {
                    let resolved_ie = resolve_inst(ie, &symbols);
                    let inst0 = match resolved_ie.to_instance() {
                        Some(inst0) => inst0,
                        None => {
                            return Err(
                                match inst_first_sym(&resolved_ie) {
                                    Some(name) => AsmError::MissingSymbol(name),
                                    None => AsmError::Unevaluated,
                                },
                            );
                        },
                    };
                    let inst = adjust_size(&inst0);
                    if !is_encodable(&inst) {
                        return Err(AsmError::UnknownInstructionForm(inst.mnemonic.clone()));
                    }
                    let npc = encode_instruction(lines_text(lines, k2), &inst, lc2, &mut mem);
                    proof {
                        lemma_passes_agree(*ie, resolved_ie, inst0, inst);
                        // the words written are the words pass one counted
                        assert(npc == lc2 + 2 * (1 + spec_pass1_words(
                            ie.operands@,
                            s_adjusted(ie.size),
                        )));
                    }
                },
                Body::Directive(d) => match d {
                    Directive::DefineConstants(z, es) => {
                        let mut cursor = lc2;
                        let mut j: usize = 0;
                        while j < es.len()
                            invariant
                                mem.base() == 0,
                                cursor <= LC_LIMIT + 8,
                            decreases es@.len() - j,
                        {
                            if cursor > LC_LIMIT {
                                return Err(AsmError::ImageTooLarge);
                            }
                            match emit_dc_element(&es[j], *z, cursor, &symbols, &mut mem) {
                                Ok(npc) => {
                                    if npc > LC_LIMIT + 8 {
                                        return Err(AsmError::ImageTooLarge);
                                    }
                                    cursor = npc;
                                },
                                Err(err) => {
                                    return Err(err);
                                },
                            }
                            j += 1;
                        }
                    },
                    Directive::DefineConstantBlock(z, len, fill) => {
                        let nv = match eval_under(len, &symbols) {
                            Ok(v) => v,
                            Err(err) => {
                                return Err(err);
                            },
                        };
                        let fv = match eval_under(fill, &symbols) {
                            Ok(v) => v,
                            Err(err) => {
                                return Err(err);
                            },
                        };
                        match emit_block(value_bits(nv), *z, value_bits(fv), lc2, &mut mem) {
                            Ok(_) => {},
                            Err(err) => {
                                return Err(err);
                            },
                        }
                    },
                    Directive::End(e) => {
                        let v = match eval_under(e, &symbols) {
                            Ok(v) => v,
                            Err(err) => {
                                return Err(err);
                            },
                        };
                        entry = Some(value_bits(v));
                    },
                    _ => {},
                },
                Body::LabelOnly => {},
                Body::Empty => {},
            }
            k2 += 1;
        }
        Ok((mem, entry))
    }
}

/// The source text of line `k`, or an empty slice past the end.
fn lines_text(lines: &Vec<String>, k: usize) -> (r: &str)
{
    if k < lines.len() {
        lines[k].as_str()
    } else {
        ""
    }
}

/// An instruction with the whole symbol table substituted in, one symbol
/// after another.
fn resolve_inst(ie: &InstExpr, symbols: &Vec<(String, i32)>) -> (r: InstExpr)
    ensures
        r.mnemonic@ == ie.mnemonic@,
        r.size == ie.size,
        r.operands@.len() == ie.operands@.len(),
        (forall|j: int|
            0 <= j < ie.operands@.len() ==> crate::assembler::parser::wf_operand_expr(
                ie.operands@[j],
            )) ==> forall|j: int|
            0 <= j < r.operands@.len() ==> crate::assembler::parser::wf_operand_expr(
                r.operands@[j],
            ),
        forall|j: int, zz: Size|
            0 <= j < r.operands@.len() ==> #[trigger] operand_expr_words(r.operands@[j], zz)
                == operand_expr_words(ie.operands@[j], zz),
{
    let mut cur = ie.clone();
    let mut k: usize = 0;
    while k < symbols.len()
        invariant
            cur.mnemonic@ == ie.mnemonic@,
            cur.size == ie.size,
            cur.operands@.len() == ie.operands@.len(),
            (forall|j: int|
                0 <= j < ie.operands@.len() ==> crate::assembler::parser::wf_operand_expr(
                    ie.operands@[j],
                )) ==> forall|j: int|
                0 <= j < cur.operands@.len() ==> crate::assembler::parser::wf_operand_expr(
                    cur.operands@[j],
                ),
            forall|j: int, zz: Size|
                0 <= j < cur.operands@.len() ==> #[trigger] operand_expr_words(
                    cur.operands@[j],
                    zz,
                ) == operand_expr_words(ie.operands@[j], zz),
        decreases symbols@.len() - k,
    {
        let pair = &symbols[k];
        cur = cur.resolved(pair.0.as_str(), pair.1);
        k += 1;
    }
    cur
}

} // verus!
