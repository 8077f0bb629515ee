//! The symbolic expression sublanguage of the assembler: integer constants,
//! symbols, quoted strings, and the arithmetic/bitwise operators, with
//! evaluation over two's-complement 32-bit semantics and symbol substitution
//! followed by opportunistic constant folding.

use vstd::prelude::*;
use vstd::wrapping::i32_specs;
use vstd::string::StrSliceExecFns;

verus! {

/// An expression tree. Evaluation is defined on trees whose leaves are all
/// `Num`; a `Sym` or `Str` leaf keeps the tree symbolic.
#[derive(Debug, PartialEq)]
pub enum Expr {
    Num(i32),
    Sym(String),
    Str(String),
    Neg(Box<Expr>),
    Cpl(Box<Expr>),
    Add(Box<Expr>, Box<Expr>),
    Sub(Box<Expr>, Box<Expr>),
    Mul(Box<Expr>, Box<Expr>),
    Div(Box<Expr>, Box<Expr>),
    Mod(Box<Expr>, Box<Expr>),
    Ior(Box<Expr>, Box<Expr>),
    Xor(Box<Expr>, Box<Expr>),
    And(Box<Expr>, Box<Expr>),
    Shl(Box<Expr>, Box<Expr>),
    Shr(Box<Expr>, Box<Expr>),
}

/// The unsigned 32-bit number with the same two's-complement bits as `x`.
pub open spec fn u32_of_i32(x: i32) -> u32 {
    if x >= 0 {
        x as u32
    } else {
        (x + 0x1_0000_0000) as u32
    }
}

/// Division truncated toward zero, the host semantics of `/` on signed
/// integers.
pub open spec fn trunc_div(x: int, d: int) -> int
    recommends
        d != 0,
{
    if x == 0 {
        0
    } else if x > 0 && d > 0 {
        x / d
    } else if x < 0 && d < 0 {
        (x * -1) / (d * -1)
    } else if x < 0 {
        ((x * -1) / d) * -1
    } else {
        (x / (d * -1)) * -1
    }
}

/// Remainder paired with `trunc_div`: it has the sign of the dividend.
pub open spec fn trunc_mod(x: int, d: int) -> int
    recommends
        d != 0,
{
    x - trunc_div(x, d) * d
}

/// 32-bit negation, wrapping on `i32::MIN`.
pub open spec fn neg_wrap(x: i32) -> i32 {
    i32_specs::wrapping_sub(0i32, x)
}

/// 32-bit truncated division, wrapping on the one overflowing case.
pub open spec fn div_wrap(x: i32, d: i32) -> i32
    recommends
        d != 0,
{
    if x == i32::MIN && d == -1 {
        i32::MIN
    } else {
        trunc_div(x as int, d as int) as i32
    }
}

/// 32-bit truncated remainder; on the overflowing division it is zero.
pub open spec fn mod_wrap(x: i32, d: i32) -> i32
    recommends
        d != 0,
{
    if x == i32::MIN && d == -1 {
        0
    } else {
        trunc_mod(x as int, d as int) as i32
    }
}

/// Left shift by the amount taken modulo 32.
pub open spec fn shl_wrap(x: i32, s: i32) -> i32 {
    i32_specs::wrapping_shl(x, u32_of_i32(s))
}

/// Arithmetic right shift by the amount taken modulo 32.
pub open spec fn shr_wrap(x: i32, s: i32) -> i32 {
    i32_specs::wrapping_shr(x, u32_of_i32(s))
}

/// What `eval` returns: the value of a fully numeric tree, or `None` on any
/// `Sym` or `Str` leaf and on division or modulo by zero.
pub open spec fn seval(e: Expr) -> Option<i32>
    decreases e,
{
    match e {
        Expr::Num(n) => Some(n),
        Expr::Sym(_) => None,
        Expr::Str(_) => None,
        Expr::Neg(r) => match seval(*r) {
            Some(x) => Some(neg_wrap(x)),
            None => None,
        },
        Expr::Cpl(r) => match seval(*r) {
            Some(x) => Some(!x),
            None => None,
        },
        Expr::Add(l, r) => match (seval(*l), seval(*r)) {
            (Some(x), Some(y)) => Some(i32_specs::wrapping_add(x, y)),
            _ => None,
        },
        Expr::Sub(l, r) => match (seval(*l), seval(*r)) {
            (Some(x), Some(y)) => Some(i32_specs::wrapping_sub(x, y)),
            _ => None,
        },
        Expr::Mul(l, r) => match (seval(*l), seval(*r)) {
            (Some(x), Some(y)) => Some(i32_specs::wrapping_mul(x, y)),
            _ => None,
        },
        Expr::Div(l, r) => match (seval(*l), seval(*r)) {
            (Some(x), Some(y)) => if y == 0 {
                None
            } else {
                Some(div_wrap(x, y))
            },
            _ => None,
        },
        Expr::Mod(l, r) => match (seval(*l), seval(*r)) {
            (Some(x), Some(y)) => if y == 0 {
                None
            } else {
                Some(mod_wrap(x, y))
            },
            _ => None,
        },
        Expr::Ior(l, r) => match (seval(*l), seval(*r)) {
            (Some(x), Some(y)) => Some(x | y),
            _ => None,
        },
        Expr::Xor(l, r) => match (seval(*l), seval(*r)) {
            (Some(x), Some(y)) => Some(x ^ y),
            _ => None,
        },
        Expr::And(l, r) => match (seval(*l), seval(*r)) {
            (Some(x), Some(y)) => Some(x & y),
            _ => None,
        },
        Expr::Shl(l, r) => match (seval(*l), seval(*r)) {
            (Some(x), Some(y)) => Some(shl_wrap(x, y)),
            _ => None,
        },
        Expr::Shr(l, r) => match (seval(*l), seval(*r)) {
            (Some(x), Some(y)) => Some(shr_wrap(x, y)),
            _ => None,
        },
    }
}

/// Plain substitution: every `Sym` whose name is `n` becomes `Num(v)`;
/// everything else is kept as it is, with no folding.
pub open spec fn subst(e: Expr, n: Seq<char>, v: i32) -> Expr
    decreases e,
{
    match e {
        Expr::Num(k) => Expr::Num(k),
        Expr::Sym(s) => if s@ == n {
            Expr::Num(v)
        } else {
            Expr::Sym(s)
        },
        Expr::Str(s) => Expr::Str(s),
        Expr::Neg(r) => Expr::Neg(Box::new(subst(*r, n, v))),
        Expr::Cpl(r) => Expr::Cpl(Box::new(subst(*r, n, v))),
        Expr::Add(l, r) => Expr::Add(Box::new(subst(*l, n, v)), Box::new(subst(*r, n, v))),
        Expr::Sub(l, r) => Expr::Sub(Box::new(subst(*l, n, v)), Box::new(subst(*r, n, v))),
        Expr::Mul(l, r) => Expr::Mul(Box::new(subst(*l, n, v)), Box::new(subst(*r, n, v))),
        Expr::Div(l, r) => Expr::Div(Box::new(subst(*l, n, v)), Box::new(subst(*r, n, v))),
        Expr::Mod(l, r) => Expr::Mod(Box::new(subst(*l, n, v)), Box::new(subst(*r, n, v))),
        Expr::Ior(l, r) => Expr::Ior(Box::new(subst(*l, n, v)), Box::new(subst(*r, n, v))),
        Expr::Xor(l, r) => Expr::Xor(Box::new(subst(*l, n, v)), Box::new(subst(*r, n, v))),
        Expr::And(l, r) => Expr::And(Box::new(subst(*l, n, v)), Box::new(subst(*r, n, v))),
        Expr::Shl(l, r) => Expr::Shl(Box::new(subst(*l, n, v)), Box::new(subst(*r, n, v))),
        Expr::Shr(l, r) => Expr::Shr(Box::new(subst(*l, n, v)), Box::new(subst(*r, n, v))),
    }
}

/// Replace a tree by `Num` of its value when it evaluates.
pub open spec fn fold_num(e: Expr) -> Expr {
    match seval(e) {
        Some(k) => Expr::Num(k),
        None => e,
    }
}

/// What `resolve` returns: substitution of `n` by `v`, folding each rebuilt
/// subtree to a `Num` as soon as it evaluates.
pub open spec fn sresolve(e: Expr, n: Seq<char>, v: i32) -> Expr
    decreases e,
{
    match e {
        Expr::Num(k) => Expr::Num(k),
        Expr::Sym(s) => if s@ == n {
            Expr::Num(v)
        } else {
            Expr::Sym(s)
        },
        Expr::Str(s) => Expr::Str(s),
        Expr::Neg(r) => fold_num(Expr::Neg(Box::new(sresolve(*r, n, v)))),
        Expr::Cpl(r) => fold_num(Expr::Cpl(Box::new(sresolve(*r, n, v)))),
        Expr::Add(l, r) => fold_num(
            Expr::Add(Box::new(sresolve(*l, n, v)), Box::new(sresolve(*r, n, v))),
        ),
        Expr::Sub(l, r) => fold_num(
            Expr::Sub(Box::new(sresolve(*l, n, v)), Box::new(sresolve(*r, n, v))),
        ),
        Expr::Mul(l, r) => fold_num(
            Expr::Mul(Box::new(sresolve(*l, n, v)), Box::new(sresolve(*r, n, v))),
        ),
        Expr::Div(l, r) => fold_num(
            Expr::Div(Box::new(sresolve(*l, n, v)), Box::new(sresolve(*r, n, v))),
        ),
        Expr::Mod(l, r) => fold_num(
            Expr::Mod(Box::new(sresolve(*l, n, v)), Box::new(sresolve(*r, n, v))),
        ),
        Expr::Ior(l, r) => fold_num(
            Expr::Ior(Box::new(sresolve(*l, n, v)), Box::new(sresolve(*r, n, v))),
        ),
        Expr::Xor(l, r) => fold_num(
            Expr::Xor(Box::new(sresolve(*l, n, v)), Box::new(sresolve(*r, n, v))),
        ),
        Expr::And(l, r) => fold_num(
            Expr::And(Box::new(sresolve(*l, n, v)), Box::new(sresolve(*r, n, v))),
        ),
        Expr::Shl(l, r) => fold_num(
            Expr::Shl(Box::new(sresolve(*l, n, v)), Box::new(sresolve(*r, n, v))),
        ),
        Expr::Shr(l, r) => fold_num(
            Expr::Shr(Box::new(sresolve(*l, n, v)), Box::new(sresolve(*r, n, v))),
        ),
    }
}

/// Holds when no leaf of `e` is a `Sym` or a `Str`.
pub open spec fn no_sym_str(e: Expr) -> bool
    decreases e,
{
    match e {
        Expr::Num(_) => true,
        Expr::Sym(_) => false,
        Expr::Str(_) => false,
        Expr::Neg(r) => no_sym_str(*r),
        Expr::Cpl(r) => no_sym_str(*r),
        Expr::Add(l, r) => no_sym_str(*l) && no_sym_str(*r),
        Expr::Sub(l, r) => no_sym_str(*l) && no_sym_str(*r),
        Expr::Mul(l, r) => no_sym_str(*l) && no_sym_str(*r),
        Expr::Div(l, r) => no_sym_str(*l) && no_sym_str(*r),
        Expr::Mod(l, r) => no_sym_str(*l) && no_sym_str(*r),
        Expr::Ior(l, r) => no_sym_str(*l) && no_sym_str(*r),
        Expr::Xor(l, r) => no_sym_str(*l) && no_sym_str(*r),
        Expr::And(l, r) => no_sym_str(*l) && no_sym_str(*r),
        Expr::Shl(l, r) => no_sym_str(*l) && no_sym_str(*r),
        Expr::Shr(l, r) => no_sym_str(*l) && no_sym_str(*r),
    }
}

/// Holds when every `Div` or `Mod` node of `e` has a divisor that evaluates
/// to something other than zero.
pub open spec fn divisors_nonzero(e: Expr) -> bool
    decreases e,
{
    match e {
        Expr::Num(_) => true,
        Expr::Sym(_) => true,
        Expr::Str(_) => true,
        Expr::Neg(r) => divisors_nonzero(*r),
        Expr::Cpl(r) => divisors_nonzero(*r),
        Expr::Add(l, r) => divisors_nonzero(*l) && divisors_nonzero(*r),
        Expr::Sub(l, r) => divisors_nonzero(*l) && divisors_nonzero(*r),
        Expr::Mul(l, r) => divisors_nonzero(*l) && divisors_nonzero(*r),
        Expr::Div(l, r) => divisors_nonzero(*l) && divisors_nonzero(*r) && seval(*r) != Some(
            0i32,
        ),
        Expr::Mod(l, r) => divisors_nonzero(*l) && divisors_nonzero(*r) && seval(*r) != Some(
            0i32,
        ),
        Expr::Ior(l, r) => divisors_nonzero(*l) && divisors_nonzero(*r),
        Expr::Xor(l, r) => divisors_nonzero(*l) && divisors_nonzero(*r),
        Expr::And(l, r) => divisors_nonzero(*l) && divisors_nonzero(*r),
        Expr::Shl(l, r) => divisors_nonzero(*l) && divisors_nonzero(*r),
        Expr::Shr(l, r) => divisors_nonzero(*l) && divisors_nonzero(*r),
    }
}

/// Evaluation is defined on every tree free of `Sym` and `Str` leaves whose
/// divisors are nonzero.
pub proof fn lemma_eval_defined(e: Expr)
    requires
        no_sym_str(e),
        divisors_nonzero(e),
    ensures
        seval(e) is Some,
    decreases e,
{
    match e {
        Expr::Num(_) => {},
        Expr::Sym(_) => {},
        Expr::Str(_) => {},
        Expr::Neg(r) => lemma_eval_defined(*r),
        Expr::Cpl(r) => lemma_eval_defined(*r),
        Expr::Add(l, r) => {
            lemma_eval_defined(*l);
            lemma_eval_defined(*r);
        },
        Expr::Sub(l, r) => {
            lemma_eval_defined(*l);
            lemma_eval_defined(*r);
        },
        Expr::Mul(l, r) => {
            lemma_eval_defined(*l);
            lemma_eval_defined(*r);
        },
        Expr::Div(l, r) => {
            lemma_eval_defined(*l);
            lemma_eval_defined(*r);
        },
        Expr::Mod(l, r) => {
            lemma_eval_defined(*l);
            lemma_eval_defined(*r);
        },
        Expr::Ior(l, r) => {
            lemma_eval_defined(*l);
            lemma_eval_defined(*r);
        },
        Expr::Xor(l, r) => {
            lemma_eval_defined(*l);
            lemma_eval_defined(*r);
        },
        Expr::And(l, r) => {
            lemma_eval_defined(*l);
            lemma_eval_defined(*r);
        },
        Expr::Shl(l, r) => {
            lemma_eval_defined(*l);
            lemma_eval_defined(*r);
        },
        Expr::Shr(l, r) => {
            lemma_eval_defined(*l);
            lemma_eval_defined(*r);
        },
    }
}

/// Folding never changes the value: resolving and then evaluating gives the
/// same answer as substituting and then evaluating.
pub proof fn lemma_resolve_preserves_eval(e: Expr, n: Seq<char>, v: i32)
    ensures
        seval(sresolve(e, n, v)) == seval(subst(e, n, v)),
    decreases e,
{
    match e {
        Expr::Num(_) => {},
        Expr::Sym(_) => {},
        Expr::Str(_) => {},
        Expr::Neg(r) => lemma_resolve_preserves_eval(*r, n, v),
        Expr::Cpl(r) => lemma_resolve_preserves_eval(*r, n, v),
        Expr::Add(l, r) => {
            lemma_resolve_preserves_eval(*l, n, v);
            lemma_resolve_preserves_eval(*r, n, v);
        },
        Expr::Sub(l, r) => {
            lemma_resolve_preserves_eval(*l, n, v);
            lemma_resolve_preserves_eval(*r, n, v);
        },
        Expr::Mul(l, r) => {
            lemma_resolve_preserves_eval(*l, n, v);
            lemma_resolve_preserves_eval(*r, n, v);
        },
        Expr::Div(l, r) => {
            lemma_resolve_preserves_eval(*l, n, v);
            lemma_resolve_preserves_eval(*r, n, v);
        },
        Expr::Mod(l, r) => {
            lemma_resolve_preserves_eval(*l, n, v);
            lemma_resolve_preserves_eval(*r, n, v);
        },
        Expr::Ior(l, r) => {
            lemma_resolve_preserves_eval(*l, n, v);
            lemma_resolve_preserves_eval(*r, n, v);
        },
        Expr::Xor(l, r) => {
            lemma_resolve_preserves_eval(*l, n, v);
            lemma_resolve_preserves_eval(*r, n, v);
        },
        Expr::And(l, r) => {
            lemma_resolve_preserves_eval(*l, n, v);
            lemma_resolve_preserves_eval(*r, n, v);
        },
        Expr::Shl(l, r) => {
            lemma_resolve_preserves_eval(*l, n, v);
            lemma_resolve_preserves_eval(*r, n, v);
        },
        Expr::Shr(l, r) => {
            lemma_resolve_preserves_eval(*l, n, v);
            lemma_resolve_preserves_eval(*r, n, v);
        },
    }
}

/// A tree whose substitution evaluates resolves all the way to that single
/// `Num`: in particular a tree whose every symbol is `Sym(n)` and whose
/// divisors stay nonzero becomes `Num` of its value.
pub proof fn lemma_resolve_reduces_to_num(e: Expr, n: Seq<char>, v: i32)
    requires
        seval(subst(e, n, v)) is Some,
    ensures
        sresolve(e, n, v) == Expr::Num(seval(subst(e, n, v))->Some_0),
    decreases e,
{
    lemma_resolve_preserves_eval(e, n, v);
    match e {
        Expr::Num(_) => {},
        Expr::Sym(_) => {},
        Expr::Str(_) => {},
        Expr::Neg(r) => {},
        Expr::Cpl(r) => {},
        Expr::Add(l, r) => {},
        Expr::Sub(l, r) => {},
        Expr::Mul(l, r) => {},
        Expr::Div(l, r) => {},
        Expr::Mod(l, r) => {},
        Expr::Ior(l, r) => {},
        Expr::Xor(l, r) => {},
        Expr::And(l, r) => {},
        Expr::Shl(l, r) => {},
        Expr::Shr(l, r) => {},
    }
}

/// Equality of two string slices, decided character by character.
pub fn str_eq(a: &str, b: &str) -> (r: bool)
    ensures
        r == (a@ == b@),
{
    let la = a.unicode_len();
    let lb = b.unicode_len();
    if la != lb {
        return false;
    }
    let mut i: usize = 0;
    while i < la
        invariant
            a@.len() == la,
            b@.len() == lb,
            la == lb,
            i <= la,
            forall|j: int| 0 <= j < i ==> a@[j] == b@[j],
        decreases la - i,
    {
        if a.get_char(i) != b.get_char(i) {
            assert(a@[i as int] != b@[i as int]);
            return false;
        }
        i += 1;
    }
    proof {
        assert(a@ =~= b@);
    }
    true
}

impl Expr {
    /// Evaluate a fully numeric tree, `None` on any `Sym` or `Str` leaf and
    /// on a division or modulo whose divisor is zero. Arithmetic wraps;
    /// division truncates toward zero; shift amounts are taken modulo 32 and
    /// the right shift is arithmetic.
    pub fn eval(&self) -> (r: Option<i32>)
        ensures
            r == seval(*self),
        decreases *self,
    {
        match self {
            Expr::Num(n) => Some(*n),
            Expr::Sym(_) => None,
            Expr::Str(_) => None,
            Expr::Neg(right) => match right.eval() {
                Some(x) => Some(0i32.wrapping_sub(x)),
                None => None,
            },
            Expr::Cpl(right) => match right.eval() {
                Some(x) => Some(!x),
                None => None,
            },
            Expr::Add(left, right) => match (left.eval(), right.eval()) {
                (Some(x), Some(y)) => Some(x.wrapping_add(y)),
                _ => None,
            },
            Expr::Sub(left, right) => match (left.eval(), right.eval()) {
                (Some(x), Some(y)) => Some(x.wrapping_sub(y)),
                _ => None,
            },
            Expr::Mul(left, right) => match (left.eval(), right.eval()) {
                (Some(x), Some(y)) => Some(x.wrapping_mul(y)),
                _ => None,
            },
            Expr::Div(left, right) => match (left.eval(), right.eval()) {
                (Some(x), Some(y)) => div_exec(x, y),
                _ => None,
            },
            Expr::Mod(left, right) => match (left.eval(), right.eval()) {
                (Some(x), Some(y)) => mod_exec(x, y),
                _ => None,
            },
            Expr::Ior(left, right) => match (left.eval(), right.eval()) {
                (Some(x), Some(y)) => Some(x | y),
                _ => None,
            },
            Expr::Xor(left, right) => match (left.eval(), right.eval()) {
                (Some(x), Some(y)) => Some(x ^ y),
                _ => None,
            },
            Expr::And(left, right) => match (left.eval(), right.eval()) {
                (Some(x), Some(y)) => Some(x & y),
                _ => None,
            },
            Expr::Shl(left, right) => match (left.eval(), right.eval()) {
                (Some(x), Some(y)) => Some(x.wrapping_shl(shift_amount(y))),
                _ => None,
            },
            Expr::Shr(left, right) => match (left.eval(), right.eval()) {
                (Some(x), Some(y)) => Some(x.wrapping_shr(shift_amount(y))),
                _ => None,
            },
        }
    }

    /// Substitute `Num(value)` for every `Sym(name)` and fold each rebuilt
    /// subtree to a `Num` as soon as it evaluates, so that a tree whose every
    /// symbol is `name` comes back as a single `Num`.
    pub fn resolve(&self, name: &str, value: i32) -> (r: Expr)
        ensures
            r == sresolve(*self, name@, value),
        decreases *self,
    {
        match self {
            Expr::Num(k) => Expr::Num(*k),
            Expr::Sym(s) => if str_eq(s.as_str(), name) {
                Expr::Num(value)
            } else {
                Expr::Sym(s.clone())
            },
            Expr::Str(s) => Expr::Str(s.clone()),
            Expr::Neg(right) => fold_exec(Expr::Neg(Box::new(right.resolve(name, value)))),
            Expr::Cpl(right) => fold_exec(Expr::Cpl(Box::new(right.resolve(name, value)))),
            Expr::Add(left, right) => fold_exec(
                Expr::Add(
                    Box::new(left.resolve(name, value)),
                    Box::new(right.resolve(name, value)),
                ),
            ),
            Expr::Sub(left, right) => fold_exec(
                Expr::Sub(
                    Box::new(left.resolve(name, value)),
                    Box::new(right.resolve(name, value)),
                ),
            ),
            Expr::Mul(left, right) => fold_exec(
                Expr::Mul(
                    Box::new(left.resolve(name, value)),
                    Box::new(right.resolve(name, value)),
                ),
            ),
            Expr::Div(left, right) => fold_exec(
                Expr::Div(
                    Box::new(left.resolve(name, value)),
                    Box::new(right.resolve(name, value)),
                ),
            ),
            Expr::Mod(left, right) => fold_exec(
                Expr::Mod(
                    Box::new(left.resolve(name, value)),
                    Box::new(right.resolve(name, value)),
                ),
            ),
            Expr::Ior(left, right) => fold_exec(
                Expr::Ior(
                    Box::new(left.resolve(name, value)),
                    Box::new(right.resolve(name, value)),
                ),
            ),
            Expr::Xor(left, right) => fold_exec(
                Expr::Xor(
                    Box::new(left.resolve(name, value)),
                    Box::new(right.resolve(name, value)),
                ),
            ),
            Expr::And(left, right) => fold_exec(
                Expr::And(
                    Box::new(left.resolve(name, value)),
                    Box::new(right.resolve(name, value)),
                ),
            ),
            Expr::Shl(left, right) => fold_exec(
                Expr::Shl(
                    Box::new(left.resolve(name, value)),
                    Box::new(right.resolve(name, value)),
                ),
            ),
            Expr::Shr(left, right) => fold_exec(
                Expr::Shr(
                    Box::new(left.resolve(name, value)),
                    Box::new(right.resolve(name, value)),
                ),
            ),
        }
    }
}

impl Clone for Expr {
    /// A deep copy that is equal, leaf for leaf, to the original.
    fn clone(&self) -> (r: Self)
        ensures
            r == *self,
        decreases *self,
    {
        match self {
            Expr::Num(n) => Expr::Num(*n),
            Expr::Sym(s) => Expr::Sym(s.clone()),
            Expr::Str(s) => Expr::Str(s.clone()),
            Expr::Neg(r) => Expr::Neg(Box::new((**r).clone())),
            Expr::Cpl(r) => Expr::Cpl(Box::new((**r).clone())),
            Expr::Add(l, r) => Expr::Add(Box::new((**l).clone()), Box::new((**r).clone())),
            Expr::Sub(l, r) => Expr::Sub(Box::new((**l).clone()), Box::new((**r).clone())),
            Expr::Mul(l, r) => Expr::Mul(Box::new((**l).clone()), Box::new((**r).clone())),
            Expr::Div(l, r) => Expr::Div(Box::new((**l).clone()), Box::new((**r).clone())),
            Expr::Mod(l, r) => Expr::Mod(Box::new((**l).clone()), Box::new((**r).clone())),
            Expr::Ior(l, r) => Expr::Ior(Box::new((**l).clone()), Box::new((**r).clone())),
            Expr::Xor(l, r) => Expr::Xor(Box::new((**l).clone()), Box::new((**r).clone())),
            Expr::And(l, r) => Expr::And(Box::new((**l).clone()), Box::new((**r).clone())),
            Expr::Shl(l, r) => Expr::Shl(Box::new((**l).clone()), Box::new((**r).clone())),
            Expr::Shr(l, r) => Expr::Shr(Box::new((**l).clone()), Box::new((**r).clone())),
        }
    }
}

/// The shift amount the evaluator uses: the low five bits of `y` read as an
/// unsigned count.
fn shift_amount(y: i32) -> (r: u32)
    ensures
        r == u32_of_i32(y) % 32,
{
    let wide: i64 = y as i64;
    let unsigned: u32 = if wide >= 0 {
        wide as u32
    } else {
        (wide + 0x1_0000_0000) as u32
    };
    unsigned % 32
}

/// Truncated 32-bit division, `None` exactly on a zero divisor.
fn div_exec(x: i32, d: i32) -> (r: Option<i32>)
    ensures
        r == (if d == 0 {
            None::<i32>
        } else {
            Some(div_wrap(x, d))
        }),
{
    if d == 0 {
        None
    } else if x == i32::MIN && d == -1 {
        Some(i32::MIN)
    } else {
        proof {
            lemma_trunc_div_in_range(x as int, d as int);
        }
        match x.checked_div(d) {
            Some(q) => Some(q),
            None => None,
        }
    }
}

/// Truncated 32-bit remainder, `None` exactly on a zero divisor.
fn mod_exec(x: i32, d: i32) -> (r: Option<i32>)
    ensures
        r == (if d == 0 {
            None::<i32>
        } else {
            Some(mod_wrap(x, d))
        }),
{
    if d == 0 {
        None
    } else if x == i32::MIN && d == -1 {
        Some(0)
    } else {
        proof {
            lemma_trunc_div_in_range(x as int, d as int);
        }
        match x.checked_rem(d) {
            Some(q) => Some(q),
            None => None,
        }
    }
}

/// Replace the tree by `Num` of its value when it evaluates.
fn fold_exec(e: Expr) -> (r: Expr)
    ensures
        r == fold_num(e),
{
    match e.eval() {
        Some(k) => Expr::Num(k),
        None => e,
    }
}

/// Away from the single overflowing case, truncated division and its
/// remainder stay inside the 32-bit range.
proof fn lemma_trunc_div_in_range(x: int, d: int)
    requires
        i32::MIN <= x <= i32::MAX,
        i32::MIN <= d <= i32::MAX,
        d != 0,
        !(x == i32::MIN && d == -1),
    ensures
        i32::MIN <= trunc_div(x, d) <= i32::MAX,
        i32::MIN <= trunc_mod(x, d) <= i32::MAX,
        trunc_mod(x, d) == (if x == 0 {
            0int
        } else if x > 0 && d > 0 {
            x % d
        } else if x < 0 && d < 0 {
            ((x * -1) % (d * -1)) * -1
        } else if x < 0 {
            ((x * -1) % d) * -1
        } else {
            x % (d * -1)
        }),
{
    let a = if x >= 0 { x } else { x * -1 };
    let b = if d >= 0 { d } else { d * -1 };
    if a > 0 {
        let q = a / b;
        let m = a % b;
        vstd::arithmetic::div_mod::lemma_div_pos_is_pos(a, b);
        vstd::arithmetic::div_mod::lemma_div_nonincreasing(a, b);
        vstd::arithmetic::div_mod::lemma_mod_division_less_than_divisor(a, b);
        vstd::arithmetic::div_mod::lemma_fundamental_div_mod(a, b);
        if b >= 2 {
            vstd::arithmetic::div_mod::lemma_div_is_ordered_by_denominator(a, 2, b);
            vstd::arithmetic::div_mod::lemma_div_nonincreasing(a, 2);
        }
        if x > 0 && d > 0 {
            assert(x - q * d == m) by (nonlinear_arith)
                requires
                    a == b * q + m,
                    a == x,
                    b == d,
            ;
        } else if x < 0 && d < 0 {
            assert(x - q * d == m * -1) by (nonlinear_arith)
                requires
                    a == b * q + m,
                    a == x * -1,
                    b == d * -1,
            ;
        } else if x < 0 {
            assert(x - (q * -1) * d == m * -1) by (nonlinear_arith)
                requires
                    a == b * q + m,
                    a == x * -1,
                    b == d,
            ;
        } else {
            assert(x - (q * -1) * d == m) by (nonlinear_arith)
                requires
                    a == b * q + m,
                    a == x,
                    b == d * -1,
            ;
        }
    }
}


/// The mathematical shape of an expression: the same tree with each name
/// and string text abstracted to its character sequence.
pub enum ExprView {
    Num(i32),
    Sym(Seq<char>),
    Str(Seq<char>),
    Neg(Box<ExprView>),
    Cpl(Box<ExprView>),
    Add(Box<ExprView>, Box<ExprView>),
    Sub(Box<ExprView>, Box<ExprView>),
    Mul(Box<ExprView>, Box<ExprView>),
    Div(Box<ExprView>, Box<ExprView>),
    Mod(Box<ExprView>, Box<ExprView>),
    Ior(Box<ExprView>, Box<ExprView>),
    Xor(Box<ExprView>, Box<ExprView>),
    And(Box<ExprView>, Box<ExprView>),
    Shl(Box<ExprView>, Box<ExprView>),
    Shr(Box<ExprView>, Box<ExprView>),
}

/// The view of an expression: the same tree over character sequences.
pub open spec fn expr_view(e: Expr) -> ExprView
    decreases e,
{
    match e {
        Expr::Num(n) => ExprView::Num(n),
        Expr::Sym(s) => ExprView::Sym(s@),
        Expr::Str(s) => ExprView::Str(s@),
        Expr::Neg(r) => ExprView::Neg(Box::new(expr_view(*r))),
        Expr::Cpl(r) => ExprView::Cpl(Box::new(expr_view(*r))),
        Expr::Add(l, r) => ExprView::Add(Box::new(expr_view(*l)), Box::new(expr_view(*r))),
        Expr::Sub(l, r) => ExprView::Sub(Box::new(expr_view(*l)), Box::new(expr_view(*r))),
        Expr::Mul(l, r) => ExprView::Mul(Box::new(expr_view(*l)), Box::new(expr_view(*r))),
        Expr::Div(l, r) => ExprView::Div(Box::new(expr_view(*l)), Box::new(expr_view(*r))),
        Expr::Mod(l, r) => ExprView::Mod(Box::new(expr_view(*l)), Box::new(expr_view(*r))),
        Expr::Ior(l, r) => ExprView::Ior(Box::new(expr_view(*l)), Box::new(expr_view(*r))),
        Expr::Xor(l, r) => ExprView::Xor(Box::new(expr_view(*l)), Box::new(expr_view(*r))),
        Expr::And(l, r) => ExprView::And(Box::new(expr_view(*l)), Box::new(expr_view(*r))),
        Expr::Shl(l, r) => ExprView::Shl(Box::new(expr_view(*l)), Box::new(expr_view(*r))),
        Expr::Shr(l, r) => ExprView::Shr(Box::new(expr_view(*l)), Box::new(expr_view(*r))),
    }
}


/// Evaluation over expression views: the same arithmetic as `seval`, which
/// never looks at a name's characters, only at whether a leaf is a symbol
/// or a string.
pub open spec fn view_eval(v: ExprView) -> Option<i32>
    decreases v,
{
    match v {
        ExprView::Num(n) => Some(n),
        ExprView::Sym(_) => None,
        ExprView::Str(_) => None,
        ExprView::Neg(r) => match view_eval(*r) {
            Some(x) => Some(neg_wrap(x)),
            None => None,
        },
        ExprView::Cpl(r) => match view_eval(*r) {
            Some(x) => Some(!x),
            None => None,
        },
        ExprView::Add(l, r) => match (view_eval(*l), view_eval(*r)) {
            (Some(x), Some(y)) => Some(i32_specs::wrapping_add(x, y)),
            _ => None,
        },
        ExprView::Sub(l, r) => match (view_eval(*l), view_eval(*r)) {
            (Some(x), Some(y)) => Some(i32_specs::wrapping_sub(x, y)),
            _ => None,
        },
        ExprView::Mul(l, r) => match (view_eval(*l), view_eval(*r)) {
            (Some(x), Some(y)) => Some(i32_specs::wrapping_mul(x, y)),
            _ => None,
        },
        ExprView::Div(l, r) => match (view_eval(*l), view_eval(*r)) {
            (Some(x), Some(y)) => if y == 0 {
                None
            } else {
                Some(div_wrap(x, y))
            },
            _ => None,
        },
        ExprView::Mod(l, r) => match (view_eval(*l), view_eval(*r)) {
            (Some(x), Some(y)) => if y == 0 {
                None
            } else {
                Some(mod_wrap(x, y))
            },
            _ => None,
        },
        ExprView::Ior(l, r) => match (view_eval(*l), view_eval(*r)) {
            (Some(x), Some(y)) => Some(x | y),
            _ => None,
        },
        ExprView::Xor(l, r) => match (view_eval(*l), view_eval(*r)) {
            (Some(x), Some(y)) => Some(x ^ y),
            _ => None,
        },
        ExprView::And(l, r) => match (view_eval(*l), view_eval(*r)) {
            (Some(x), Some(y)) => Some(x & y),
            _ => None,
        },
        ExprView::Shl(l, r) => match (view_eval(*l), view_eval(*r)) {
            (Some(x), Some(y)) => Some(shl_wrap(x, y)),
            _ => None,
        },
        ExprView::Shr(l, r) => match (view_eval(*l), view_eval(*r)) {
            (Some(x), Some(y)) => Some(shr_wrap(x, y)),
            _ => None,
        },
    }
}

/// An expression evaluates exactly as its view does.
pub proof fn lemma_seval_is_view_eval(e: Expr)
    ensures
        seval(e) == view_eval(expr_view(e)),
    decreases e,
{
    match e {
        Expr::Num(_) => {},
        Expr::Sym(_) => {},
        Expr::Str(_) => {},
        Expr::Neg(r) => lemma_seval_is_view_eval(*r),
        Expr::Cpl(r) => lemma_seval_is_view_eval(*r),
        Expr::Add(l, r) => {
            lemma_seval_is_view_eval(*l);
            lemma_seval_is_view_eval(*r);
        },
        Expr::Sub(l, r) => {
            lemma_seval_is_view_eval(*l);
            lemma_seval_is_view_eval(*r);
        },
        Expr::Mul(l, r) => {
            lemma_seval_is_view_eval(*l);
            lemma_seval_is_view_eval(*r);
        },
        Expr::Div(l, r) => {
            lemma_seval_is_view_eval(*l);
            lemma_seval_is_view_eval(*r);
        },
        Expr::Mod(l, r) => {
            lemma_seval_is_view_eval(*l);
            lemma_seval_is_view_eval(*r);
        },
        Expr::Ior(l, r) => {
            lemma_seval_is_view_eval(*l);
            lemma_seval_is_view_eval(*r);
        },
        Expr::Xor(l, r) => {
            lemma_seval_is_view_eval(*l);
            lemma_seval_is_view_eval(*r);
        },
        Expr::And(l, r) => {
            lemma_seval_is_view_eval(*l);
            lemma_seval_is_view_eval(*r);
        },
        Expr::Shl(l, r) => {
            lemma_seval_is_view_eval(*l);
            lemma_seval_is_view_eval(*r);
        },
        Expr::Shr(l, r) => {
            lemma_seval_is_view_eval(*l);
            lemma_seval_is_view_eval(*r);
        },
    }
}

} // verus!
