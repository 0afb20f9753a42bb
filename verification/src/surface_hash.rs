use vstd::prelude::*;

use crate::decimal::{
    all_digits, decimal, digits_value, lemma_decimal_digits, lemma_decimal_no_leading_zero,
    lemma_decimal_unique, lemma_parse_decimal, no_leading_zero_digits, parse_u64, parse_u64_decimal,
    u64_to_decimal,
};

verus! {

/// Identifier of a native GPU surface, derived from the native window handle.
///
/// The frontend only ever sees the decimal text of the hash (`to_string`); the
/// commands it sends back carry that text, which `parse` turns into the hash again.
#[derive(Debug, Clone, Copy, PartialEq, Eq, Structural, PartialOrd, Ord, Hash)]
pub struct SurfaceHash(pub u64);

impl View for SurfaceHash {
    type V = u64;

    open spec fn view(&self) -> u64 {
        self.0
    }
}

impl From<u64> for SurfaceHash {
    fn from(value: u64) -> (r: SurfaceHash) {
        SurfaceHash(value)
    }
}

impl core::ops::Deref for SurfaceHash {
    type Target = u64;

    fn deref(&self) -> (r: &u64)
        ensures
            *r == self@,
    {
        &self.0
    }
}

impl vstd::std_specs::convert::FromSpecImpl<u64> for SurfaceHash {
    open spec fn obeys_from_spec() -> bool {
        true
    }

    open spec fn from_spec(v: u64) -> SurfaceHash {
        SurfaceHash(v)
    }
}

impl SurfaceHash {
    /// The raw 64-bit value of the hash.
    pub fn value(&self) -> (r: u64)
        ensures
            r == self@,
    {
        self.0
    }

    /// The decimal text of the hash, as the frontend receives it.
    pub fn to_string(&self) -> (s: String)
        ensures
            s@ == decimal(self@ as nat),
            // the plain decimal notation of the value: digits only, no leading zero
            s@.len() > 0,
            all_digits(s@),
            digits_value(s@) == self@,
            s@.len() > 1 ==> s@[0] != '0',
    {
        proof {
            lemma_decimal_digits(self@ as nat);
            lemma_decimal_no_leading_zero(self@ as nat);
        }
        u64_to_decimal(self.0)
    }

    /// Reads a hash back from its decimal text, with the rules of `str::parse::<u64>`:
    /// `None` exactly when the text is not an optional `'+'` followed by digits whose
    /// value fits in 64 bits.
    pub fn parse(text: &str) -> (r: Option<SurfaceHash>)
        ensures
            r == (match parse_u64(text@) {
                Some(v) => Some(SurfaceHash(v)),
                None => None,
            }),
    {
        match parse_u64_decimal(text) {
            Some(v) => Some(SurfaceHash(v)),
            None => None,
        }
    }

    /// The hash whose decimal text is `text`; the text must be one that `parse` accepts.
    pub fn from_decimal(text: String) -> (r: SurfaceHash)
        requires
            parse_u64(text@) is Some,
        ensures
            Some(r@) == parse_u64(text@),
    {
        SurfaceHash(parse_u64_decimal(text.as_str()).unwrap())
    }
}

/// Sending a hash to the frontend as text and reading the text back yields the same
/// hash: `SurfaceHash::parse(&h.to_string()) == Some(h)` for every hash `h`.
pub proof fn law_text_round_trip(h: SurfaceHash)
    ensures
        parse_u64(decimal(h@ as nat)) == Some(h@),
{
    lemma_parse_decimal(h@);
}

/// The text of a hash is the ordinary decimal notation of its value, as
/// `u64::to_string` writes it: digits only, denoting the value, with no leading zero
/// (a single `'0'` for zero); and it is the only such text for that value.
pub proof fn law_text_is_plain_decimal(h: SurfaceHash)
    ensures
        decimal(h@ as nat).len() > 0,
        all_digits(decimal(h@ as nat)),
        digits_value(decimal(h@ as nat)) == h@,
        h@ >= 10 ==> decimal(h@ as nat)[0] != '0',
        forall|s: Seq<char>|
            no_leading_zero_digits(s) && digits_value(s) == h@ ==> s == decimal(h@ as nat),
{
    lemma_decimal_digits(h@ as nat);
    lemma_decimal_no_leading_zero(h@ as nat);
    assert forall|s: Seq<char>|
        no_leading_zero_digits(s) && digits_value(s) == h@ implies s == decimal(h@ as nat) by {
        lemma_decimal_unique(s, h@ as nat);
    }
}

} // verus!
