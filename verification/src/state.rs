//! Amounts, canonical account identifiers, responses and errors.
//!
//! An amount travels as a decimal numeral (ASCII digits) and is parsed
//! into a 128-bit unsigned integer before any arithmetic; a malformed
//! or out-of-range numeral is a parse error.  A canonical account
//! identifier is the fixed byte form of an account, produced by an
//! external canonicalizer before it reaches the ledger.
use vstd::prelude::*;
use vstd::string::StringSliceAdditionalSpecFns;

verus! {

/// Everything that can go wrong in a call.  Each failure carries the
/// offending figures; every failure aborts the call.
#[derive(Clone, Copy, Debug, PartialEq, Eq, Structural)]
pub enum Error {
    /// The token name is not 3 to 30 bytes long.
    InvalidName,
    /// The ticker symbol is not 3 to 6 uppercase ASCII letters.
    InvalidSymbol,
    /// More than 18 decimal places were asked for.
    InvalidDecimals,
    /// An amount is not a decimal numeral of a 128-bit value.
    ParseErr,
    /// A stored amount is not exactly 16 bytes.
    CorruptedData,
    /// A transfer asked for more than the sender holds.
    InsufficientFunds { balance: u128, required: u128 },
    /// A delegated transfer asked for more than the spender may move.
    InsufficientAllowance { allowance: u128, required: u128 },
}

/// Whether `b` is an ASCII decimal digit.
pub open spec fn is_dec_digit(b: u8) -> bool {
    48 <= b <= 57
}

/// Whether every byte of `s` is an ASCII decimal digit.
pub open spec fn all_dec_digits(s: Seq<u8>) -> bool {
    forall|i: int| 0 <= i < s.len() ==> is_dec_digit(#[trigger] s[i])
}

/// The value of the decimal numeral `s`, most significant digit first.
pub open spec fn dec_val(s: Seq<u8>) -> int
    recommends
        all_dec_digits(s),
    decreases s.len(),
{
    if s.len() == 0 {
        0
    } else {
        dec_val(s.drop_last()) * 10 + s.last() - 48
    }
}

/// Whether `s` is a decimal numeral denoting a 128-bit value: nonempty,
/// all digits, and within range.
pub open spec fn valid_amount(s: Seq<u8>) -> bool {
    s.len() >= 1 && all_dec_digits(s) && dec_val(s) <= u128::MAX
}

/// The canonical numeral of `n`: no sign, no leading zero (except for
/// the single digit of zero itself).
pub open spec fn dec_digits(n: int) -> Seq<u8>
    recommends
        n >= 0,
    decreases n,
{
    if n < 10 {
        seq![(48 + n) as u8]
    } else {
        dec_digits(n / 10).push((48 + n % 10) as u8)
    }
}

/// What parsing a numeral yields: its value, or a parse error.
pub open spec fn spec_parse(s: Seq<u8>) -> Result<u128, Error> {
    if valid_amount(s) {
        Ok(dec_val(s) as u128)
    } else {
        Err(Error::ParseErr)
    }
}

/// A numeral of digits only denotes a non-negative value.
pub proof fn lemma_dec_val_non_negative(s: Seq<u8>)
    requires
        all_dec_digits(s),
    ensures
        dec_val(s) >= 0,
    decreases s.len(),
{
    if s.len() > 0 {
        lemma_dec_val_non_negative(s.drop_last());
    }
}

/// Dropping trailing digits can only shrink a numeral's value.
pub proof fn lemma_dec_val_prefix(s: Seq<u8>, i: int)
    requires
        all_dec_digits(s),
        0 <= i <= s.len(),
    ensures
        dec_val(s.take(i)) <= dec_val(s),
    decreases s.len(),
{
    if i == s.len() {
        assert(s.take(i) =~= s);
    } else {
        assert(s.drop_last() =~= s.take(s.len() - 1));
        assert(s.take(i) =~= s.drop_last().take(i));
        lemma_dec_val_prefix(s.drop_last(), i);
        lemma_dec_val_non_negative(s.drop_last());
    }
}

/// The canonical numeral of `n` is a well-formed numeral denoting `n`,
/// with a leading zero only for zero itself.
pub proof fn lemma_dec_digits_val(n: int)
    requires
        n >= 0,
    ensures
        all_dec_digits(dec_digits(n)),
        dec_digits(n).len() >= 1,
        dec_val(dec_digits(n)) == n,
        dec_digits(n)[0] == 48 ==> n == 0,
    decreases n,
{
    if n < 10 {
        assert(dec_digits(n) =~= seq![(48 + n) as u8]);
        assert(dec_val(dec_digits(n)) == dec_val(seq![(48 + n) as u8].drop_last()) * 10 + (48
            + n) - 48);
    } else {
        lemma_dec_digits_val(n / 10);
        let s = dec_digits(n / 10);
        let d = (48 + n % 10) as u8;
        assert(s.push(d).drop_last() =~= s);
        assert(dec_val(dec_digits(n)) == dec_val(s) * 10 + d - 48);
        assert(n / 10 * 10 + n % 10 == n);
        assert(dec_digits(n)[0] == s[0]);
    }
}

/// The canonical numeral of any 128-bit amount parses back to that
/// amount.
pub proof fn lemma_dec_digits_parse(n: u128)
    ensures
        spec_parse(dec_digits(n as int)) == Ok::<u128, Error>(n),
{
    lemma_dec_digits_val(n as int);
}

/// An amount: a decimal numeral carried as ASCII digit bytes.
#[derive(Clone, Debug, PartialEq, Eq)]
pub struct Amount {
    text: Vec<u8>,
}

impl View for Amount {
    type V = Seq<u8>;

    closed spec fn view(&self) -> Seq<u8> {
        self.text@
    }
}

impl Amount {
    /// An amount holding the bytes of `s`, checked only when parsed.
    pub fn new(s: &str) -> (a: Amount)
        ensures
            a@ == s.spec_bytes(),
    {
        Amount { text: vstd::slice::slice_to_vec(s.as_bytes()) }
    }

    /// The canonical numeral of `n`.
    pub fn from_u128(n: u128) -> (a: Amount)
        ensures
            a@ == dec_digits(n as int),
    {
        let mut v: Vec<u8> = Vec::new();
        push_dec_digits(n, &mut v);
        proof {
            assert(v@ =~= dec_digits(n as int));
        }
        Amount { text: v }
    }

    /// The numeral's bytes.
    pub fn as_bytes(&self) -> (r: &[u8])
        ensures
            r@ == self@,
    {
        self.text.as_slice()
    }

    /// The 128-bit value this numeral denotes, or a parse error if it
    /// is empty, holds a non-digit, or exceeds 128 bits.
    pub fn parse(&self) -> (r: Result<u128, Error>)
        ensures
            r == spec_parse(self@),
    {
        let s = &self.text;
        if s.len() == 0 {
            return Err(Error::ParseErr);
        }
        let mut acc: u128 = 0;
        for i in 0..s.len()
            invariant
                forall|j: int| 0 <= j < i ==> is_dec_digit(#[trigger] s@[j]),
                acc == dec_val(s@.take(i as int)),
        {
            let b = s[i];
            proof {
                assert(s@.take(i as int + 1).drop_last() =~= s@.take(i as int));
                assert(s@.take(i as int + 1).last() == s@[i as int]);
            }
            if b < 48 || b > 57 {
                return Err(Error::ParseErr);
            }
            let d = (b - 48) as u128;
            let acc10 = match acc.checked_mul(10) {
                Some(t) => t,
                None => {
                    proof {
                        overflow_means_invalid(s@, i as int, acc as int * 10 + d);
                    }
                    return Err(Error::ParseErr);
                },
            };
            acc = match acc10.checked_add(d) {
                Some(t) => t,
                None => {
                    proof {
                        overflow_means_invalid(s@, i as int, acc as int * 10 + d);
                    }
                    return Err(Error::ParseErr);
                },
            };
        }
        proof {
            assert(s@.take(s@.len() as int) =~= s@);
        }
        Ok(acc)
    }
}

/// A numeral whose value already exceeds 128 bits at some digit cannot
/// be a valid amount.
proof fn overflow_means_invalid(s: Seq<u8>, i: int, v: int)
    requires
        0 <= i < s.len(),
        is_dec_digit(s[i]),
        forall|j: int| 0 <= j < i ==> is_dec_digit(#[trigger] s[j]),
        v == dec_val(s.take(i)) * 10 + s[i] - 48,
        v > u128::MAX,
    ensures
        !valid_amount(s),
{
    if all_dec_digits(s) {
        assert(s.take(i + 1).drop_last() =~= s.take(i));
        assert(s.take(i + 1).last() == s[i]);
        assert(dec_val(s.take(i + 1)) == v);
        lemma_dec_val_prefix(s, i + 1);
    }
}

/// Appends the canonical numeral of `n` to `v`.
fn push_dec_digits(n: u128, v: &mut Vec<u8>)
    ensures
        final(v)@ == old(v)@ + dec_digits(n as int),
    decreases n,
{
    if n < 10 {
        v.push(48 + n as u8);
        proof {
            assert(v@ =~= old(v)@ + dec_digits(n as int));
        }
    } else {
        push_dec_digits(n / 10, v);
        let ghost mid = v@;
        v.push(48 + (n % 10) as u8);
        proof {
            assert(dec_digits(n as int) == dec_digits(n as int / 10).push(
                (48 + n as int % 10) as u8,
            ));
            assert(v@ =~= old(v)@ + dec_digits(n as int));
        }
    }
}

/// The canonical byte form of an account, produced by the external
/// canonicalizer at the call boundary.
#[derive(Clone, Debug, PartialEq, Eq)]
pub struct CanonicalAddr {
    bytes: Vec<u8>,
}

impl View for CanonicalAddr {
    type V = Seq<u8>;

    closed spec fn view(&self) -> Seq<u8> {
        self.bytes@
    }
}

impl CanonicalAddr {
    /// An identifier holding exactly `bytes`.
    pub fn new(bytes: Vec<u8>) -> (a: CanonicalAddr)
        ensures
            a@ == bytes@,
    {
        CanonicalAddr { bytes }
    }

    /// The identifier's bytes.
    pub fn as_bytes(&self) -> (r: &[u8])
        ensures
            r@ == self@,
    {
        self.bytes.as_slice()
    }
}

/// What a successful call hands back to the host: an optional
/// human-readable status line and optional opaque data.
#[derive(Debug, PartialEq, Eq)]
pub struct Response {
    pub log: Option<String>,
    pub data: Option<Vec<u8>>,
}

impl Default for Response {
    /// An empty response: no log line, no data.
    fn default() -> (r: Response)
        ensures
            r.log is None,
            r.data is None,
    {
        Response { log: None, data: None }
    }
}

} // verus!
