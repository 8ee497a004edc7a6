//! Formatting unsigned integers in an arbitrary radix between 2 and 36.
use vstd::prelude::*;

verus! {

/// A radix (number base).
pub type Base = u8;

pub const MIN_BASE: Base = 2;

pub const MAX_BASE: Base = 36;

/// The ASCII byte that stands for digit value `u` (lower-case letters unless `alternate`).
pub open spec fn digit_byte(u: nat, alternate: bool) -> u8 {
    if u <= 9 {
        (u + 48) as u8
    } else if alternate {
        (u - 10 + 65) as u8
    } else {
        (u - 10 + 97) as u8
    }
}

/// The digits of `n` written in base `b`, most significant first, as ASCII bytes.
/// Zero is written as a single `0`.
pub open spec fn radix_bytes(n: nat, b: nat, alternate: bool) -> Seq<u8>
    decreases n via radix_bytes_decreases
{
    if b < 2 {
        Seq::empty()
    } else if n < b {
        seq![digit_byte(n, alternate)]
    } else {
        radix_bytes(n / b, b, alternate).push(digit_byte(n % b, alternate))
    }
}

#[via_fn]
proof fn radix_bytes_decreases(n: nat, b: nat, alternate: bool) {
    if b >= 2 && n >= b {
        assert(n / b < n) by (nonlinear_arith)
            requires
                b >= 2,
                n >= b,
        ;
    }
}

/// The digits of `n` in base `b` as characters.
pub open spec fn radix_chars(n: nat, b: nat, alternate: bool) -> Seq<char> {
    radix_bytes(n, b, alternate).map_values(|c: u8| c as char)
}

/// A number paired with the base it is to be written in.
#[derive(Debug, Clone, Copy)]
pub struct Radix<T> {
    n: T,
    base: Base,
}

impl<T> Radix<T> {
    pub closed spec fn spec_n(&self) -> T {
        self.n
    }

    pub closed spec fn spec_base(&self) -> Base {
        self.base
    }

    /// Pairs `n` with `base`, which must lie in `[MIN_BASE, MAX_BASE]`.
    pub fn new(n: T, base: Base) -> (r: Self)
        requires
            MIN_BASE <= base <= MAX_BASE,
        ensures
            r.spec_n() == n,
            r.spec_base() == base,
    {
        Radix { n, base }
    }

    pub fn base(&self) -> (r: Base)
        ensures
            r == self.spec_base(),
    {
        self.base
    }
}

impl Radix<u128> {
    /// The number written in its base; upper-case letters when `alternate`.
    pub fn to_radix_string(&self, alternate: bool) -> (r: String)
        requires
            MIN_BASE <= self.spec_base() <= MAX_BASE,
        ensures
            r@ == radix_chars(self.spec_n() as nat, self.spec_base() as nat, alternate),
    {
        let bytes = radix_digits(self.n, self.base as u128, alternate);
        ascii_string(bytes)
    }
}

/// The ASCII digit for the value `u`, which must be below 36.
pub fn digit(u: Base, alternate: bool) -> (r: Base)
    requires
        u < 36,
    ensures
        r == digit_byte(u as nat, alternate),
{
    let a: u8 = if alternate { 65 } else { 97 };
    if u <= 9 {
        u + 48
    } else {
        u - 10 + a
    }
}

/// The ASCII digits of `n` in base `b`, most significant first.
fn radix_digits(n: u128, b: u128, alternate: bool) -> (r: Vec<u8>)
    requires
        2 <= b <= 36,
    ensures
        r@ == radix_bytes(n as nat, b as nat, alternate),
        forall|i: int| 0 <= i < r@.len() ==> #[trigger] r@[i] < 128,
{
    let mut buf: Vec<u8> = Vec::new();
    let mut m: u128 = n;
    while m >= b
        invariant
            2 <= b <= 36,
            radix_bytes(m as nat, b as nat, alternate) + buf@ == radix_bytes(
                n as nat,
                b as nat,
                alternate,
            ),
            forall|i: int| 0 <= i < buf@.len() ==> #[trigger] buf@[i] < 128,
        decreases m,
    {
        let d = digit((m % b) as u8, alternate);
        let ghost old_buf = buf@;
        buf.insert(0, d);
        let q = m / b;
        assert(radix_bytes(m as nat, b as nat, alternate) == radix_bytes(
            q as nat,
            b as nat,
            alternate,
        ).push(d));
        assert(radix_bytes(q as nat, b as nat, alternate) + buf@ =~= radix_bytes(
            m as nat,
            b as nat,
            alternate,
        ) + old_buf);
        m = q;
    }
    let d = digit(m as u8, alternate);
    let ghost old_buf = buf@;
    buf.insert(0, d);
    assert(buf@ =~= radix_bytes(m as nat, b as nat, alternate) + old_buf);
    buf
}

/// Relies on String::from_utf8: a byte sequence of ASCII characters is valid UTF-8,
/// and the resulting string holds one character per byte.
#[verifier::external_body]
fn ascii_string(bytes: Vec<u8>) -> (r: String)
    requires
        forall|i: int| 0 <= i < bytes@.len() ==> #[trigger] bytes@[i] < 128,
    ensures
        r@ == bytes@.map_values(|c: u8| c as char),
{
    String::from_utf8(bytes).unwrap()
}

/// Integers that can be written in an arbitrary radix.
pub trait FormatRadix: Sized {
    /// The value of the integer.
    spec fn radix_value(&self) -> nat;

    /// The integer in base `radix`, lower-case digits.
    fn format_to_base(self, radix: Base) -> (r: String)
        requires
            MIN_BASE <= radix <= MAX_BASE,
        ensures
            r@ == radix_chars(self.radix_value(), radix as nat, false),
    ;
}

impl FormatRadix for u128 {
    open spec fn radix_value(&self) -> nat {
        *self as nat
    }

    fn format_to_base(self, radix: Base) -> (r: String) {
        Radix::new(self, radix).to_radix_string(false)
    }
}

impl FormatRadix for u64 {
    open spec fn radix_value(&self) -> nat {
        *self as nat
    }

    fn format_to_base(self, radix: Base) -> (r: String) {
        Radix::new(self as u128, radix).to_radix_string(false)
    }
}

impl FormatRadix for u32 {
    open spec fn radix_value(&self) -> nat {
        *self as nat
    }

    fn format_to_base(self, radix: Base) -> (r: String) {
        Radix::new(self as u128, radix).to_radix_string(false)
    }
}

} // verus!
