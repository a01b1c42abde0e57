//! Exact fixed-point money. A `Currency` holds whole dollars and cents as
//! unsigned integers, so arithmetic on monetary amounts never goes through
//! floating point. Conversion to and from a raw cent count is exact.

use vstd::prelude::*;

verus! {

/// The largest cent count a `Currency` can represent:
/// `u16::MAX` dollars plus 99 cents.
pub const MAX_CENTS: u64 = 6553599;

/// A monetary amount: `dollars` whole dollars plus `cents` hundredths.
/// Well-formed values keep `cents <= 99`; the constructors normalize
/// overflowing cents by carrying them into `dollars`.
#[derive(Clone, Copy, Debug, PartialEq, Eq, Hash, Structural)]
pub struct Currency {
    pub dollars: u16,
    pub cents: u16,
}

impl Currency {
    /// The exact value in cents, as a mathematical integer.
    pub open spec fn as_cents(self) -> int {
        self.dollars * 100 + self.cents
    }

    /// A well-formed amount carries at most 99 loose cents.
    pub open spec fn wf(self) -> bool {
        self.cents <= 99
    }

    /// The zero amount.
    pub fn new() -> (c: Currency)
        ensures
            c.dollars == 0,
            c.cents == 0,
            c.as_cents() == 0,
            c.wf(),
    {
        Currency { dollars: 0, cents: 0 }
    }

    /// Builds an amount from dollars and cents, carrying `cents >= 100`
    /// into the dollar part. The carried dollar total must fit in `u16`.
    pub fn from(dollars: u16, cents: u16) -> (c: Currency)
        requires
            dollars + cents / 100 <= u16::MAX,
        ensures
            c.wf(),
            c.as_cents() == dollars * 100 + cents,
            c.dollars == dollars + cents / 100,
            c.cents == cents % 100,
    {
        Currency { dollars: dollars + cents / 100, cents: cents % 100 }
    }

    /// The exact total number of cents.
    pub fn to_cents(&self) -> (r: u64)
        ensures
            r == self.as_cents(),
    {
        self.dollars as u64 * 100 + self.cents as u64
    }

    /// Splits a cent count into dollars and cents. The count must be
    /// representable, that is at most `MAX_CENTS`.
    pub fn from_cents(cents: u64) -> (c: Currency)
        requires
            cents <= MAX_CENTS,
        ensures
            c.wf(),
            c.as_cents() == cents,
            c == currency_of_cents(cents as int),
            c.dollars == cents / 100,
            c.cents == cents % 100,
    {
        Currency { dollars: (cents / 100) as u16, cents: (cents % 100) as u16 }
    }
}

/// The well-formed amount worth `cents` cents, for `0 <= cents <= MAX_CENTS`.
pub open spec fn currency_of_cents(cents: int) -> Currency {
    Currency { dollars: (cents / 100) as u16, cents: (cents % 100) as u16 }
}

/// The amount `currency_of_cents` builds is well formed and worth
/// exactly the given cents, whenever the count is representable.
pub proof fn lemma_currency_of_cents(cents: int)
    requires
        0 <= cents <= MAX_CENTS,
    ensures
        currency_of_cents(cents).wf(),
        currency_of_cents(cents).as_cents() == cents,
{
    vstd::arithmetic::div_mod::lemma_fundamental_div_mod(cents, 100);
    vstd::arithmetic::div_mod::lemma_mod_bound(cents, 100);
    vstd::arithmetic::div_mod::lemma_div_is_ordered(cents, MAX_CENTS as int, 100);
}

/// Law: converting a well-formed amount to cents and back yields the
/// same amount.
pub proof fn lemma_currency_round_trip(c: Currency)
    requires
        c.wf(),
    ensures
        currency_of_cents(c.as_cents()) == c,
{
    assert((c.dollars * 100 + c.cents) / 100 == c.dollars && (c.dollars * 100 + c.cents) % 100
        == c.cents) by (nonlinear_arith)
        requires
            c.cents <= 99,
    ;
}

} // verus!
