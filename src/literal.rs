//! The literal value domain and its arithmetic, comparison and truthiness
//! rules.

use std::cmp::Ordering;
use vstd::prelude::*;
use vstd::string::*;
use vstd::math::abs;
use crate::text::{chars_of, decimal, number_to_string, push_char, push_str, string_of};

verus! {

/// A runtime value of the source language.
#[derive(Clone, Debug)]
pub enum Literal {
    StringLiteral(String),
    NumericLiteral(i64),
    BooleanLiteral(bool),
    NullLiteral,
    Infinity,
}

/// The mathematical value a `Literal` stands for.
pub enum LitValue {
    Str(Seq<char>),
    Num(int),
    Bool(bool),
    Null,
    Inf,
}

impl View for Literal {
    type V = LitValue;

    open spec fn view(&self) -> LitValue {
        match self {
            Literal::StringLiteral(s) => LitValue::Str(s@),
            Literal::NumericLiteral(n) => LitValue::Num(*n as int),
            Literal::BooleanLiteral(b) => LitValue::Bool(*b),
            Literal::NullLiteral => LitValue::Null,
            Literal::Infinity => LitValue::Inf,
        }
    }
}

pub open spec fn fits_i64(n: int) -> bool {
    i64::MIN <= n <= i64::MAX
}

pub open spec fn null_text() -> Seq<char> {
    seq!['N', 'u', 'l', 'l']
}

pub open spec fn infinity_text() -> Seq<char> {
    seq!['I', 'n', 'f', 'i', 'n', 'i', 't', 'y']
}

/// Integer division rounding toward zero.
pub open spec fn trunc_div(x: int, y: int) -> int {
    let q: int = (abs(x) / abs(y)) as int;
    if (x < 0) != (y < 0) {
        -q
    } else {
        q
    }
}

/// The remainder that goes with `trunc_div`; it has the sign of `x`.
pub open spec fn trunc_rem(x: int, y: int) -> int {
    x - y * trunc_div(x, y)
}

/// `s` written `n` times in a row.
pub open spec fn repeat(s: Seq<char>, n: int) -> Seq<char>
    decreases n,
{
    if n <= 0 {
        Seq::empty()
    } else {
        repeat(s, n - 1) + s
    }
}

/// Each character of `a`, each followed by the whole of `b`.
pub open spec fn interleave(a: Seq<char>, b: Seq<char>) -> Seq<char>
    decreases a.len(),
{
    if a.len() == 0 {
        Seq::empty()
    } else {
        interleave(a.drop_last(), b).push(a.last()) + b
    }
}

/// `a` with every occurrence of `b` taken out, scanning left to right
/// without overlap; an empty `b` leaves `a` as it is.
pub open spec fn remove_all(a: Seq<char>, b: Seq<char>) -> Seq<char>
    decreases a.len(),
{
    if b.len() == 0 || a.len() < b.len() {
        a
    } else if a.subrange(0, b.len() as int) == b {
        remove_all(a.subrange(b.len() as int, a.len() as int), b)
    } else {
        seq![a[0]] + remove_all(a.drop_first(), b)
    }
}

/// `+`: numbers add, strings concatenate (numbers spelled in decimal),
/// null is neutral beside a string, infinity absorbs.
pub open spec fn lit_add(a: LitValue, b: LitValue) -> LitValue {
    match (a, b) {
        (LitValue::Str(x), LitValue::Str(y)) => LitValue::Str(x + y),
        (LitValue::Num(x), LitValue::Str(y)) => LitValue::Str(decimal(x) + y),
        (LitValue::Str(x), LitValue::Num(y)) => LitValue::Str(x + decimal(y)),
        (LitValue::Str(x), LitValue::Null) => LitValue::Str(x),
        (LitValue::Null, LitValue::Str(y)) => LitValue::Str(y),
        (LitValue::Num(x), LitValue::Num(y)) => LitValue::Num(x + y),
        (LitValue::Inf, _) => LitValue::Inf,
        (_, LitValue::Inf) => LitValue::Inf,
        _ => LitValue::Null,
    }
}

pub open spec fn add_defined(a: LitValue, b: LitValue) -> bool {
    match (a, b) {
        (LitValue::Num(x), LitValue::Num(y)) => fits_i64(x + y),
        _ => true,
    }
}

/// `-`: numbers subtract; a string minus a string drops every occurrence;
/// a string minus a number drops the character at that index.
pub open spec fn lit_sub(a: LitValue, b: LitValue) -> LitValue {
    match (a, b) {
        (LitValue::Str(x), LitValue::Str(y)) => LitValue::Str(remove_all(x, y)),
        (LitValue::Str(x), LitValue::Num(y)) => LitValue::Str(x.remove(y)),
        (LitValue::Num(x), LitValue::Num(y)) => LitValue::Num(x - y),
        (LitValue::Inf, _) => LitValue::Inf,
        (_, LitValue::Inf) => LitValue::Inf,
        (LitValue::Str(x), LitValue::Null) => LitValue::Str(x),
        (LitValue::Null, LitValue::Str(y)) => LitValue::Str(y),
        _ => LitValue::Null,
    }
}

/// A number minus a string has no meaning; the index must lie in the string.
pub open spec fn sub_defined(a: LitValue, b: LitValue) -> bool {
    match (a, b) {
        (LitValue::Num(_), LitValue::Str(_)) => false,
        (LitValue::Str(x), LitValue::Num(y)) => 0 <= y < x.len(),
        (LitValue::Num(x), LitValue::Num(y)) => fits_i64(x - y),
        _ => true,
    }
}

/// The string cases shared by `*` and `/`.
pub open spec fn lit_scale(a: LitValue, b: LitValue) -> LitValue {
    match (a, b) {
        (LitValue::Str(x), LitValue::Str(y)) => LitValue::Str(interleave(x, y)),
        (LitValue::Num(x), LitValue::Str(y)) => LitValue::Str(repeat(y, x)),
        (LitValue::Str(x), LitValue::Num(y)) => LitValue::Str(repeat(x, y)),
        (LitValue::Inf, _) => LitValue::Inf,
        (_, LitValue::Inf) => LitValue::Inf,
        _ => LitValue::Null,
    }
}

/// `*`: numbers multiply; the string cases are those of `lit_scale`.
pub open spec fn lit_mul(a: LitValue, b: LitValue) -> LitValue {
    match (a, b) {
        (LitValue::Num(x), LitValue::Num(y)) => LitValue::Num(x * y),
        _ => lit_scale(a, b),
    }
}

pub open spec fn mul_defined(a: LitValue, b: LitValue) -> bool {
    match (a, b) {
        (LitValue::Num(x), LitValue::Num(y)) => fits_i64(x * y),
        _ => true,
    }
}

/// `/`: numbers divide rounding toward zero, and a zero divisor gives
/// infinity; the string cases are those of `lit_scale`.
pub open spec fn lit_div(a: LitValue, b: LitValue) -> LitValue {
    match (a, b) {
        (LitValue::Num(x), LitValue::Num(y)) => if y == 0 {
            LitValue::Inf
        } else {
            LitValue::Num(trunc_div(x, y))
        },
        _ => lit_scale(a, b),
    }
}

pub open spec fn div_defined(a: LitValue, b: LitValue) -> bool {
    match (a, b) {
        (LitValue::Num(x), LitValue::Num(y)) => y == 0 || fits_i64(trunc_div(x, y)),
        _ => true,
    }
}

/// `%` is defined on two numbers only, with a non-zero divisor.
pub open spec fn rem_defined(a: LitValue, b: LitValue) -> bool {
    match (a, b) {
        (LitValue::Num(x), LitValue::Num(y)) => y != 0 && fits_i64(trunc_div(x, y)),
        _ => false,
    }
}

pub open spec fn lit_rem(a: LitValue, b: LitValue) -> LitValue {
    match (a, b) {
        (LitValue::Num(x), LitValue::Num(y)) => LitValue::Num(trunc_rem(x, y)),
        _ => LitValue::Null,
    }
}

/// Loose equality: a number beside a string compares by its decimal
/// spelling; null and infinity equal themselves or their own spelling.
pub open spec fn loose_eq(a: LitValue, b: LitValue) -> bool {
    match (a, b) {
        (LitValue::Str(x), LitValue::Str(y)) => x == y,
        (LitValue::Num(x), LitValue::Str(y)) => decimal(x) == y,
        (LitValue::Str(x), LitValue::Num(y)) => decimal(y) == x,
        (LitValue::Str(x), LitValue::Null) => x == null_text(),
        (LitValue::Null, LitValue::Str(y)) => y == null_text(),
        (LitValue::Num(x), LitValue::Num(y)) => x == y,
        (LitValue::Inf, LitValue::Inf) => true,
        (LitValue::Inf, LitValue::Str(y)) => y == infinity_text(),
        (LitValue::Str(x), LitValue::Inf) => x == infinity_text(),
        (LitValue::Null, LitValue::Null) => true,
        _ => false,
    }
}

pub open spec fn int_cmp(x: int, y: int) -> Ordering {
    if x < y {
        Ordering::Less
    } else if x > y {
        Ordering::Greater
    } else {
        Ordering::Equal
    }
}

/// Lexicographic order of character sequences, by code point.
pub open spec fn text_cmp(x: Seq<char>, y: Seq<char>) -> Ordering
    decreases x.len(),
{
    if x.len() == 0 {
        if y.len() == 0 {
            Ordering::Equal
        } else {
            Ordering::Less
        }
    } else if y.len() == 0 {
        Ordering::Greater
    } else if x[0] != y[0] {
        int_cmp(x[0] as int, y[0] as int)
    } else {
        text_cmp(x.drop_first(), y.drop_first())
    }
}

/// Ordering: null lies below everything else, infinity above everything
/// else; numbers and strings compare among themselves (a number beside a
/// string by its decimal spelling); booleans are unordered.
pub open spec fn lit_cmp(a: LitValue, b: LitValue) -> Option<Ordering> {
    match (a, b) {
        (LitValue::Null, LitValue::Null) => Some(Ordering::Equal),
        (LitValue::Null, _) => Some(Ordering::Less),
        (_, LitValue::Null) => Some(Ordering::Greater),
        (LitValue::Inf, LitValue::Inf) => Some(Ordering::Equal),
        (LitValue::Inf, _) => Some(Ordering::Greater),
        (_, LitValue::Inf) => Some(Ordering::Less),
        (LitValue::Str(x), LitValue::Str(y)) => Some(text_cmp(x, y)),
        (LitValue::Num(x), LitValue::Num(y)) => Some(int_cmp(x, y)),
        (LitValue::Num(x), LitValue::Str(y)) => Some(text_cmp(decimal(x), y)),
        (LitValue::Str(x), LitValue::Num(y)) => Some(text_cmp(x, decimal(y))),
        _ => None,
    }
}

/// Truthiness: a number is true when non-zero, strings and infinity are
/// true, null is false.
pub open spec fn truthy(a: LitValue) -> bool {
    match a {
        LitValue::Num(x) => x != 0,
        LitValue::Str(_) => true,
        LitValue::Bool(b) => b,
        LitValue::Null => false,
        LitValue::Inf => true,
    }
}

/// How a value is printed.
pub open spec fn display(a: LitValue) -> Seq<char> {
    match a {
        LitValue::Str(s) => s,
        LitValue::Num(x) => decimal(x),
        LitValue::Bool(b) => if b {
            seq!['t', 'r', 'u', 'e']
        } else {
            seq!['f', 'a', 'l', 's', 'e']
        },
        LitValue::Null => null_text(),
        LitValue::Inf => infinity_text(),
    }
}

/// Division of two 64-bit integers rounding toward zero overflows only for
/// the least value divided by minus one.
pub proof fn lemma_trunc_div_range(x: int, y: int)
    requires
        fits_i64(x),
        fits_i64(y),
        y != 0,
    ensures
        fits_i64(trunc_div(x, y)) <==> !(x == i64::MIN && y == -1),
{
    let ax = abs(x) as int;
    let ay = abs(y) as int;
    let q = ax / ay;
    assert(0 <= q <= ax) by (nonlinear_arith)
        requires
            ax >= 0,
            ay >= 1,
            q == ax / ay,
    ;
    if ay == 1 {
        assert(q == ax) by (nonlinear_arith)
            requires
                ay == 1,
                q == ax / ay,
        ;
    } else {
        assert(q * 2 <= ax) by (nonlinear_arith)
            requires
                ay >= 2,
                q == ax / ay,
                ax >= 0,
        ;
    }
}

fn repeat_text(s: &String, n: i64) -> (r: String)
    ensures
        r@ == repeat(s@, n as int),
{
    let mut r = String::new();
    let mut i: i64 = 0;
    while i < n
        invariant
            0 <= i,
            n >= 0 ==> i <= n,
            n < 0 ==> i == 0,
            r@ == repeat(s@, i as int),
        decreases n - i,
    {
        push_str(&mut r, s.as_str());
        i = i + 1;
    }
    proof {
        if n <= 0 {
            assert(repeat(s@, n as int) =~= Seq::<char>::empty());
            assert(repeat(s@, 0) =~= Seq::<char>::empty());
        }
    }
    r
}

fn interleave_text(a: &String, b: &String) -> (r: String)
    ensures
        r@ == interleave(a@, b@),
{
    let av = chars_of(a.as_str());
    let mut r = String::new();
    let mut i: usize = 0;
    while i < av.len()
        invariant
            av@ == a@,
            i <= av.len(),
            r@ == interleave(a@.subrange(0, i as int), b@),
        decreases av.len() - i,
    {
        push_char(&mut r, av[i]);
        push_str(&mut r, b.as_str());
        proof {
            let p = a@.subrange(0, i + 1);
            assert(p.drop_last() =~= a@.subrange(0, i as int));
            assert(p.last() == a@[i as int]);
        }
        i = i + 1;
    }
    assert(a@.subrange(0, av.len() as int) =~= a@);
    r
}

/// Whether `b` occurs in `a` starting at index `i`.
fn occurs_at(a: &Vec<char>, i: usize, b: &Vec<char>) -> (r: bool)
    requires
        i + b.len() <= a.len(),
    ensures
        r == (a@.subrange(i as int, i + b.len()) == b@),
{
    let mut j: usize = 0;
    while j < b.len()
        invariant
            i + b.len() <= a.len(),
            j <= b.len(),
            a@.subrange(i as int, i + j) == b@.subrange(0, j as int),
        decreases b.len() - j,
    {
        if a[i + j] != b[j] {
            assert(a@.subrange(i as int, i + b.len())[j as int] != b@[j as int]);
            return false;
        }
        assert(a@.subrange(i as int, i + j + 1) =~= a@.subrange(i as int, i + j).push(a@[i + j]));
        assert(b@.subrange(0, j + 1) =~= b@.subrange(0, j as int).push(b@[j as int]));
        j = j + 1;
    }
    assert(b@.subrange(0, b.len() as int) =~= b@);
    true
}

fn remove_all_text(a: &String, b: &String) -> (r: String)
    ensures
        r@ == remove_all(a@, b@),
{
    let av = chars_of(a.as_str());
    let bv = chars_of(b.as_str());
    let n = av.len();
    let m = bv.len();
    if m == 0 {
        return a.clone();
    }
    let mut out: Vec<char> = Vec::new();
    let mut i: usize = 0;
    assert(a@.subrange(0, n as int) =~= a@);
    assert(out@ + a@ =~= a@);
    while i < n
        invariant
            av@ == a@,
            bv@ == b@,
            n == av.len(),
            m == bv.len(),
            m > 0,
            i <= n,
            remove_all(a@, b@) == out@ + remove_all(a@.subrange(i as int, n as int), b@),
        decreases n - i,
    {
        let ghost rest = a@.subrange(i as int, n as int);
        if m <= n - i && occurs_at(&av, i, &bv) {
            assert(rest.subrange(0, m as int) =~= a@.subrange(i as int, i + m));
            assert(rest.subrange(m as int, rest.len() as int) =~= a@.subrange(i + m, n as int));
            i = i + m;
        } else {
            proof {
                if i + m <= n {
                    assert(rest.subrange(0, m as int) =~= a@.subrange(i as int, i + m));
                }
                assert(rest.drop_first() =~= a@.subrange(i + 1, n as int));
                assert(remove_all(rest, b@) == seq![rest[0]] + remove_all(rest.drop_first(), b@));
            }
            out.push(av[i]);
            i = i + 1;
            assert(remove_all(a@, b@) =~= out@ + remove_all(a@.subrange(i as int, n as int), b@));
        }
    }
    assert(remove_all(a@.subrange(n as int, n as int), b@) =~= Seq::<char>::empty());
    assert(out@ + Seq::<char>::empty() =~= out@);
    string_of(&out)
}

fn remove_char_at(a: &String, k: i64) -> (r: String)
    requires
        0 <= k < a@.len(),
    ensures
        r@ == a@.remove(k as int),
{
    let v = chars_of(a.as_str());
    let mut out: Vec<char> = Vec::new();
    let mut i: usize = 0;
    while i < v.len()
        invariant
            v@ == a@,
            0 <= k < a@.len(),
            i <= v.len(),
            out@ == (if i <= k {
                a@.subrange(0, i as int)
            } else {
                a@.remove(k as int).subrange(0, i - 1)
            }),
        decreases v.len() - i,
    {
        if (i as u128) != (k as u128) {
            out.push(v[i]);
        }
        i = i + 1;
        assert(out@ =~= (if i <= k {
            a@.subrange(0, i as int)
        } else {
            a@.remove(k as int).subrange(0, i - 1)
        }));
    }
    assert(out@ =~= a@.remove(k as int));
    string_of(&out)
}

fn div_toward_zero(x: i64, y: i64) -> (q: i64)
    requires
        y != 0,
        fits_i64(trunc_div(x as int, y as int)),
    ensures
        q == trunc_div(x as int, y as int),
{
    let ax: u128 = if x < 0 {
        (-(x as i128)) as u128
    } else {
        x as u128
    };
    let ay: u128 = if y < 0 {
        (-(y as i128)) as u128
    } else {
        y as u128
    };
    let q: u128 = ax / ay;
    assert(ax as int == abs(x as int) && ay as int == abs(y as int));
    if (x < 0) != (y < 0) {
        (-(q as i128)) as i64
    } else {
        q as i64
    }
}

fn rem_toward_zero(x: i64, y: i64) -> (r: i64)
    requires
        y != 0,
        fits_i64(trunc_div(x as int, y as int)),
    ensures
        r == trunc_rem(x as int, y as int),
{
    let ax: u128 = if x < 0 {
        (-(x as i128)) as u128
    } else {
        x as u128
    };
    let ay: u128 = if y < 0 {
        (-(y as i128)) as u128
    } else {
        y as u128
    };
    let q: u128 = ax / ay;
    let m: u128 = ax % ay;
    proof {
        let (xi, yi, qi, mi) = (x as int, y as int, q as int, m as int);
        let (axi, ayi) = (ax as int, ay as int);
        assert(axi == abs(xi) && ayi == abs(yi));
        assert(axi == ayi * qi + mi && 0 <= mi < ayi) by (nonlinear_arith)
            requires
                ayi > 0,
                qi == axi / ayi,
                mi == axi % ayi,
        ;
        let td = trunc_div(xi, yi);
        if (xi < 0) != (yi < 0) {
            assert(td == -qi);
        } else {
            assert(td == qi);
        }
        if xi >= 0 && yi > 0 {
            assert(yi * td == ayi * qi);
        } else if xi >= 0 {
            assert(yi * td == ayi * qi) by (nonlinear_arith)
                requires
                    yi == -ayi,
                    td == -qi,
            ;
        } else if yi > 0 {
            assert(yi * td == -(ayi * qi)) by (nonlinear_arith)
                requires
                    yi == ayi,
                    td == -qi,
            ;
        } else {
            assert(yi * td == -(ayi * qi)) by (nonlinear_arith)
                requires
                    yi == -ayi,
                    td == qi,
            ;
        }
    }
    if x < 0 {
        (-(m as i128)) as i64
    } else {
        m as i64
    }
}

/// Code-point order of two strings.
fn compare_text(x: &str, y: &str) -> (r: Ordering)
    ensures
        r == text_cmp(x@, y@),
{
    let xv = chars_of(x);
    let yv = chars_of(y);
    let mut i: usize = 0;
    assert(x@.subrange(0, x@.len() as int) =~= x@);
    assert(y@.subrange(0, y@.len() as int) =~= y@);
    loop
        invariant
            xv@ == x@,
            yv@ == y@,
            i <= xv.len(),
            i <= yv.len(),
            text_cmp(x@, y@) == text_cmp(
                x@.subrange(i as int, x@.len() as int),
                y@.subrange(i as int, y@.len() as int),
            ),
        decreases xv.len() - i,
    {
        let ghost xs = x@.subrange(i as int, x@.len() as int);
        let ghost ys = y@.subrange(i as int, y@.len() as int);
        if i == xv.len() {
            if i == yv.len() {
                return Ordering::Equal;
            }
            return Ordering::Less;
        }
        if i == yv.len() {
            return Ordering::Greater;
        }
        let cx = xv[i];
        let cy = yv[i];
        assert(xs[0] == cx && ys[0] == cy);
        if cx != cy {
            if cx < cy {
                return Ordering::Less;
            }
            return Ordering::Greater;
        }
        assert(xs.drop_first() =~= x@.subrange(i + 1, x@.len() as int));
        assert(ys.drop_first() =~= y@.subrange(i + 1, y@.len() as int));
        i = i + 1;
    }
}

fn compare_int(x: i64, y: i64) -> (r: Ordering)
    ensures
        r == int_cmp(x as int, y as int),
{
    if x < y {
        Ordering::Less
    } else if x > y {
        Ordering::Greater
    } else {
        Ordering::Equal
    }
}

fn null_string() -> (r: String)
    ensures
        r@ == null_text(),
{
    proof { reveal_strlit("Null"); }
    String::from_str("Null")
}

fn infinity_string() -> (r: String)
    ensures
        r@ == infinity_text(),
{
    proof { reveal_strlit("Infinity"); }
    String::from_str("Infinity")
}

impl Literal {
    pub fn add(self, rhs: Literal) -> (r: Literal)
        requires
            add_defined(self@, rhs@),
        ensures
            r@ == lit_add(self@, rhs@),
    {
        match (self, rhs) {
            (Literal::StringLiteral(a), Literal::StringLiteral(b)) => {
                let mut s = a;
                push_str(&mut s, b.as_str());
                Literal::StringLiteral(s)
            },
            (Literal::NumericLiteral(a), Literal::StringLiteral(b)) => {
                let mut s = number_to_string(a);
                push_str(&mut s, b.as_str());
                Literal::StringLiteral(s)
            },
            (Literal::StringLiteral(a), Literal::NumericLiteral(b)) => {
                let mut s = a;
                let t = number_to_string(b);
                push_str(&mut s, t.as_str());
                Literal::StringLiteral(s)
            },
            (Literal::StringLiteral(a), Literal::NullLiteral) => Literal::StringLiteral(a),
            (Literal::NullLiteral, Literal::StringLiteral(b)) => Literal::StringLiteral(b),
            (Literal::NumericLiteral(a), Literal::NumericLiteral(b)) => Literal::NumericLiteral(a + b),
            (Literal::Infinity, _) => Literal::Infinity,
            (_, Literal::Infinity) => Literal::Infinity,
            _ => Literal::NullLiteral,
        }
    }

    pub fn sub(self, rhs: Literal) -> (r: Literal)
        requires
            sub_defined(self@, rhs@),
        ensures
            r@ == lit_sub(self@, rhs@),
    {
        match (&self, &rhs) {
            (Literal::StringLiteral(a), Literal::StringLiteral(b)) => Literal::StringLiteral(
                remove_all_text(a, b),
            ),
            (Literal::StringLiteral(a), Literal::NumericLiteral(b)) => Literal::StringLiteral(
                remove_char_at(a, *b),
            ),
            (Literal::NumericLiteral(a), Literal::NumericLiteral(b)) => Literal::NumericLiteral(
                *a - *b,
            ),
            (Literal::Infinity, _) => Literal::Infinity,
            (_, Literal::Infinity) => Literal::Infinity,
            (Literal::StringLiteral(_), Literal::NullLiteral) => self,
            (Literal::NullLiteral, Literal::StringLiteral(_)) => rhs,
            _ => Literal::NullLiteral,
        }
    }

    fn scale(self, rhs: Literal) -> (r: Literal)
        ensures
            r@ == lit_scale(self@, rhs@),
    {
        match (self, rhs) {
            (Literal::StringLiteral(a), Literal::StringLiteral(b)) => Literal::StringLiteral(
                interleave_text(&a, &b),
            ),
            (Literal::NumericLiteral(a), Literal::StringLiteral(b)) => Literal::StringLiteral(
                repeat_text(&b, a),
            ),
            (Literal::StringLiteral(a), Literal::NumericLiteral(b)) => Literal::StringLiteral(
                repeat_text(&a, b),
            ),
            (Literal::Infinity, _) => Literal::Infinity,
            (_, Literal::Infinity) => Literal::Infinity,
            _ => Literal::NullLiteral,
        }
    }

    pub fn mul(self, rhs: Literal) -> (r: Literal)
        requires
            mul_defined(self@, rhs@),
        ensures
            r@ == lit_mul(self@, rhs@),
    {
        match (&self, &rhs) {
            (Literal::NumericLiteral(a), Literal::NumericLiteral(b)) => Literal::NumericLiteral(
                *a * *b,
            ),
            _ => self.scale(rhs),
        }
    }

    pub fn div(self, rhs: Literal) -> (r: Literal)
        requires
            div_defined(self@, rhs@),
        ensures
            r@ == lit_div(self@, rhs@),
    {
        match (&self, &rhs) {
            (Literal::NumericLiteral(a), Literal::NumericLiteral(b)) => {
                if *b == 0 {
                    Literal::Infinity
                } else {
                    Literal::NumericLiteral(div_toward_zero(*a, *b))
                }
            },
            _ => self.scale(rhs),
        }
    }

    pub fn rem(self, rhs: Literal) -> (r: Literal)
        requires
            rem_defined(self@, rhs@),
        ensures
            r@ == lit_rem(self@, rhs@),
    {
        match (self, rhs) {
            (Literal::NumericLiteral(a), Literal::NumericLiteral(b)) => Literal::NumericLiteral(
                rem_toward_zero(a, b),
            ),
            _ => Literal::NullLiteral,
        }
    }

    /// Loose equality (see `loose_eq`).
    pub fn loosely_equals(&self, other: &Literal) -> (r: bool)
        ensures
            r == loose_eq(self@, other@),
    {
        match (self, other) {
            (Literal::StringLiteral(a), Literal::StringLiteral(b)) => a.eq(b),
            (Literal::NumericLiteral(a), Literal::StringLiteral(b)) => number_to_string(*a).eq(b),
            (Literal::StringLiteral(a), Literal::NumericLiteral(b)) => number_to_string(*b).eq(a),
            (Literal::StringLiteral(a), Literal::NullLiteral) => a.eq(&null_string()),
            (Literal::NullLiteral, Literal::StringLiteral(b)) => b.eq(&null_string()),
            (Literal::NumericLiteral(a), Literal::NumericLiteral(b)) => *a == *b,
            (Literal::Infinity, Literal::Infinity) => true,
            (Literal::Infinity, Literal::StringLiteral(b)) => b.eq(&infinity_string()),
            (Literal::StringLiteral(a), Literal::Infinity) => a.eq(&infinity_string()),
            (Literal::NullLiteral, Literal::NullLiteral) => true,
            _ => false,
        }
    }

    /// The order between two values (see `lit_cmp`).
    pub fn compare(&self, other: &Literal) -> (r: Option<Ordering>)
        ensures
            r == lit_cmp(self@, other@),
    {
        match (self, other) {
            (Literal::NullLiteral, Literal::NullLiteral) => Some(Ordering::Equal),
            (Literal::NullLiteral, _) => Some(Ordering::Less),
            (_, Literal::NullLiteral) => Some(Ordering::Greater),
            (Literal::Infinity, Literal::Infinity) => Some(Ordering::Equal),
            (Literal::Infinity, _) => Some(Ordering::Greater),
            (_, Literal::Infinity) => Some(Ordering::Less),
            (Literal::StringLiteral(a), Literal::StringLiteral(b)) => Some(
                compare_text(a.as_str(), b.as_str()),
            ),
            (Literal::NumericLiteral(a), Literal::NumericLiteral(b)) => Some(compare_int(*a, *b)),
            (Literal::NumericLiteral(a), Literal::StringLiteral(b)) => {
                let t = number_to_string(*a);
                Some(compare_text(t.as_str(), b.as_str()))
            },
            (Literal::StringLiteral(a), Literal::NumericLiteral(b)) => {
                let t = number_to_string(*b);
                Some(compare_text(a.as_str(), t.as_str()))
            },
            _ => None,
        }
    }

    pub fn as_bool(&self) -> (r: bool)
        ensures
            r == truthy(self@),
    {
        match self {
            Literal::NumericLiteral(n) => *n != 0,
            Literal::StringLiteral(_) => true,
            Literal::BooleanLiteral(b) => *b,
            Literal::NullLiteral => false,
            Literal::Infinity => true,
        }
    }

    /// The printed form of the value.
    pub fn to_string(&self) -> (r: String)
        ensures
            r@ == display(self@),
    {
        match self {
            Literal::StringLiteral(s) => s.clone(),
            Literal::NumericLiteral(n) => number_to_string(*n),
            Literal::BooleanLiteral(b) => {
                if *b {
                    proof { reveal_strlit("true"); }
                    String::from_str("true")
                } else {
                    proof { reveal_strlit("false"); }
                    String::from_str("false")
                }
            },
            Literal::NullLiteral => null_string(),
            Literal::Infinity => infinity_string(),
        }
    }

    /// A copy with the same value.
    pub fn duplicate(&self) -> (r: Literal)
        ensures
            r@ == self@,
    {
        match self {
            Literal::StringLiteral(s) => Literal::StringLiteral(s.clone()),
            Literal::NumericLiteral(n) => Literal::NumericLiteral(*n),
            Literal::BooleanLiteral(b) => Literal::BooleanLiteral(*b),
            Literal::NullLiteral => Literal::NullLiteral,
            Literal::Infinity => Literal::Infinity,
        }
    }
}

impl PartialEq for Literal {
    fn eq(&self, other: &Literal) -> (r: bool) {
        self.loosely_equals(other)
    }
}

impl vstd::std_specs::cmp::PartialEqSpecImpl for Literal {
    open spec fn obeys_eq_spec() -> bool {
        true
    }

    open spec fn eq_spec(&self, other: &Literal) -> bool {
        loose_eq(self@, other@)
    }
}

impl From<i64> for Literal {
    fn from(number: i64) -> (r: Literal) {
        Literal::NumericLiteral(number)
    }
}

impl vstd::std_specs::convert::FromSpecImpl<i64> for Literal {
    open spec fn obeys_from_spec() -> bool {
        true
    }

    open spec fn from_spec(number: i64) -> Literal {
        Literal::NumericLiteral(number)
    }
}

impl From<bool> for Literal {
    fn from(boolean: bool) -> (r: Literal) {
        Literal::BooleanLiteral(boolean)
    }
}

impl vstd::std_specs::convert::FromSpecImpl<bool> for Literal {
    open spec fn obeys_from_spec() -> bool {
        true
    }

    open spec fn from_spec(boolean: bool) -> Literal {
        Literal::BooleanLiteral(boolean)
    }
}

impl From<String> for Literal {
    fn from(string: String) -> (r: Literal) {
        Literal::StringLiteral(string)
    }
}

impl vstd::std_specs::convert::FromSpecImpl<String> for Literal {
    open spec fn obeys_from_spec() -> bool {
        true
    }

    open spec fn from_spec(string: String) -> Literal {
        Literal::StringLiteral(string)
    }
}

} // verus!
