//! Gauge values, kept as the exact decimal text they were parsed from.
//!
//! The registry stores the value of a gauge as validated decimal text rather
//! than as machine floating point: the exposition format is textual, so the
//! text itself is the canonical form, and it round-trips without loss.

use vstd::prelude::*;

verus! {

/// ASCII codes used by the decimal grammar.
pub const B_MINUS: u8 = 45;

pub const B_DOT: u8 = 46;

pub const B_ZERO: u8 = 48;

pub const B_NINE: u8 = 57;

/// The byte is an ASCII decimal digit.
pub open spec fn is_digit(b: u8) -> bool {
    B_ZERO <= b && b <= B_NINE
}

/// Every byte of the sequence is an ASCII decimal digit.
pub open spec fn all_digits(s: Seq<u8>) -> bool {
    forall|i: int| 0 <= i < s.len() ==> is_digit(#[trigger] s[i])
}

/// The grammar of an unsigned decimal number: `digits` or `digits '.' digits`,
/// with at least one digit on each side of the point.
pub open spec fn is_unsigned_decimal(s: Seq<u8>) -> bool {
    ||| (s.len() > 0 && all_digits(s))
    ||| (exists|k: int|
        1 <= k && k + 1 < s.len() && #[trigger] s[k] == B_DOT && all_digits(s.take(k))
            && all_digits(s.skip(k + 1)))
}

/// The grammar of a decimal number: an unsigned decimal, optionally preceded
/// by a minus sign.
pub open spec fn is_decimal(s: Seq<u8>) -> bool {
    if s.len() > 0 && s[0] == B_MINUS {
        is_unsigned_decimal(s.skip(1))
    } else {
        is_unsigned_decimal(s)
    }
}

pub proof fn lemma_accept_plain(s: Seq<u8>)
    requires
        s.len() > 0,
        all_digits(s),
    ensures
        is_unsigned_decimal(s),
{
}

pub proof fn lemma_accept_frac(s: Seq<u8>, k: int)
    requires
        1 <= k,
        k + 1 < s.len(),
        s[k] == B_DOT,
        all_digits(s.take(k)),
        all_digits(s.skip(k + 1)),
    ensures
        is_unsigned_decimal(s),
{
}

/// A sequence whose first byte is not a digit is not an unsigned decimal.
pub proof fn lemma_reject_leading(s: Seq<u8>)
    requires
        s.len() == 0 || !is_digit(s[0]),
    ensures
        !is_unsigned_decimal(s),
{
    assert forall|k: int|
        !(1 <= k && k + 1 < s.len() && #[trigger] s[k] == B_DOT && all_digits(s.take(k))
            && all_digits(s.skip(k + 1))) by {
        if 1 <= k && k + 1 < s.len() && all_digits(s.take(k)) {
            assert(s.take(k)[0] == s[0]);
        }
    }
}

/// If the first non-digit byte is not a point, the sequence is not an
/// unsigned decimal.
pub proof fn lemma_reject_nondot(s: Seq<u8>, m: int)
    requires
        0 <= m < s.len(),
        !is_digit(s[m]),
        s[m] != B_DOT,
        forall|j: int| 0 <= j < m ==> is_digit(#[trigger] s[j]),
    ensures
        !is_unsigned_decimal(s),
{
    assert(!all_digits(s));
    assert forall|k: int|
        !(1 <= k && k + 1 < s.len() && #[trigger] s[k] == B_DOT && all_digits(s.take(k))
            && all_digits(s.skip(k + 1))) by {
        if 1 <= k && k + 1 < s.len() && s[k] == B_DOT {
            if k < m {
                assert(is_digit(s[k]));
            } else if k == m {
            } else {
                if all_digits(s.take(k)) {
                    assert(s.take(k)[m] == s[m]);
                }
            }
        }
    }
}

/// A sequence of digits ending in a point is not an unsigned decimal.
pub proof fn lemma_reject_trailing_dot(s: Seq<u8>, m: int)
    requires
        0 <= m < s.len(),
        s[m] == B_DOT,
        m + 1 == s.len(),
        forall|j: int| 0 <= j < m ==> is_digit(#[trigger] s[j]),
    ensures
        !is_unsigned_decimal(s),
{
    assert(!is_digit(B_DOT));
    assert(!all_digits(s));
    assert forall|k: int|
        !(1 <= k && k + 1 < s.len() && #[trigger] s[k] == B_DOT && all_digits(s.take(k))
            && all_digits(s.skip(k + 1))) by {
        if 1 <= k && k + 1 < s.len() && s[k] == B_DOT {
            assert(is_digit(s[k]));
        }
    }
}

/// A point followed somewhere by a non-digit does not close an unsigned
/// decimal: `m` is the first non-digit (a point), `m2` the next non-digit.
pub proof fn lemma_reject_frac(s: Seq<u8>, m: int, m2: int)
    requires
        0 <= m < m2 < s.len(),
        s[m] == B_DOT,
        !is_digit(s[m2]),
        forall|j: int| 0 <= j < m ==> is_digit(#[trigger] s[j]),
        forall|j: int| m < j < m2 ==> is_digit(#[trigger] s[j]),
    ensures
        !is_unsigned_decimal(s),
{
    assert(!is_digit(B_DOT));
    assert(!all_digits(s));
    assert forall|k: int|
        !(1 <= k && k + 1 < s.len() && #[trigger] s[k] == B_DOT && all_digits(s.take(k))
            && all_digits(s.skip(k + 1))) by {
        if 1 <= k && k + 1 < s.len() && s[k] == B_DOT {
            if k < m {
                assert(is_digit(s[k]));
            } else if k == m {
                if all_digits(s.skip(k + 1)) {
                    assert(s.skip(k + 1)[m2 - (k + 1)] == s[m2]);
                }
            } else if k < m2 {
                assert(is_digit(s[k]));
            } else {
                if all_digits(s.take(k)) {
                    assert(s.take(k)[m] == s[m]);
                }
            }
        }
    }
}

/// The byte is an ASCII decimal digit (run-time check).
pub fn digit(b: u8) -> (r: bool)
    ensures
        r == is_digit(b),
{
    B_ZERO <= b && b <= B_NINE
}

/// The numeric value of a gauge: the decimal text it was parsed from.
pub struct GaugeValue {
    text: Vec<u8>,
}

impl View for GaugeValue {
    type V = Seq<u8>;

    closed spec fn view(&self) -> Seq<u8> {
        self.text@
    }
}

impl GaugeValue {
    /// The value is well formed: its text is a decimal number.
    pub open spec fn wf(&self) -> bool {
        is_decimal(self@)
    }

    /// Parse decimal text into a gauge value. Returns `None` exactly on text
    /// that is not a decimal number; on success the value keeps the text.
    pub fn parse(raw: &Vec<u8>) -> (r: Option<GaugeValue>)
        ensures
            match r {
                Some(v) => is_decimal(raw@) && v@ == raw@ && v.wf(),
                None => !is_decimal(raw@),
            },
    {
        let n = raw.len();
        let start: usize = if n > 0 && raw[0] == B_MINUS {
            1
        } else {
            0
        };
        let ghost u = raw@.skip(start as int);
        proof {
            if start == 0 {
                assert(u =~= raw@);
            }
            assert(is_decimal(raw@) == is_unsigned_decimal(u));
        }
        let mut i: usize = start;
        while i < n && digit(raw[i])
            invariant
                start <= i <= n,
                n == raw@.len(),
                forall|j: int| start <= j < i ==> is_digit(#[trigger] raw@[j]),
            decreases n - i,
        {
            i = i + 1;
        }
        if i == start {
            // no integer digits at all
            proof {
                if u.len() == 0 {
                    lemma_reject_leading(u);
                } else {
                    assert(u[0] == raw@[start as int]);
                    lemma_reject_leading(u);
                }
            }
            return None;
        }
        if i == n {
            // digits only
            proof {
                assert forall|j: int| 0 <= j < u.len() implies is_digit(#[trigger] u[j]) by {
                    assert(u[j] == raw@[j + start]);
                }
                lemma_accept_plain(u);
            }
            return Some(GaugeValue { text: crate::bytes::copy_bytes(raw) });
        }
        let ghost m = i - start as int;
        proof {
            assert(u[m] == raw@[i as int]);
            assert forall|j: int| 0 <= j < m implies is_digit(#[trigger] u[j]) by {
                assert(u[j] == raw@[j + start]);
            }
        }
        if raw[i] != B_DOT {
            proof {
                lemma_reject_nondot(u, m);
            }
            return None;
        }
        if i + 1 == n {
            proof {
                lemma_reject_trailing_dot(u, m);
            }
            return None;
        }
        let mut t: usize = i + 1;
        while t < n && digit(raw[t])
            invariant
                i + 1 <= t <= n,
                n == raw@.len(),
                forall|j: int| i < j < t ==> is_digit(#[trigger] raw@[j]),
            decreases n - t,
        {
            t = t + 1;
        }
        if t < n {
            // a non-digit inside the fraction
            proof {
                let m2 = t - start as int;
                assert(u[m2] == raw@[t as int]);
                assert forall|j: int| m < j < m2 implies is_digit(#[trigger] u[j]) by {
                    assert(u[j] == raw@[j + start]);
                }
                lemma_reject_frac(u, m, m2);
            }
            return None;
        }
        proof {
            assert forall|j: int| 0 <= j < m implies is_digit(#[trigger] u.take(m)[j]) by {
                assert(u.take(m)[j] == raw@[j + start]);
            }
            assert forall|j: int| 0 <= j < u.skip(m + 1).len() implies is_digit(
                #[trigger] u.skip(m + 1)[j],
            ) by {
                assert(u.skip(m + 1)[j] == raw@[j + start + m + 1]);
            }
            lemma_accept_frac(u, m);
        }
        Some(GaugeValue { text: crate::bytes::copy_bytes(raw) })
    }

    /// A copy of the value.
    pub fn duplicate(&self) -> (r: GaugeValue)
        ensures
            r@ == self@,
    {
        GaugeValue { text: crate::bytes::copy_bytes(&self.text) }
    }

    /// The decimal text of the value.
    pub fn text(&self) -> (r: &Vec<u8>)
        ensures
            r@ == self@,
    {
        &self.text
    }
}

} // verus!
