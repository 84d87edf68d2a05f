//! The client identifier of a signaling request.
use vstd::prelude::*;
use vstd::string::StringSliceAdditionalSpecFns;
use crate::error::ApiError;
use crate::ClientId;

verus! {

pub open spec fn is_digit(b: u8) -> bool {
    0x30 <= b <= 0x39
}

/// The value of a string of decimal digits.
pub open spec fn dec_value(b: Seq<u8>) -> nat
    decreases b.len(),
{
    if b.len() == 0 {
        0
    } else {
        dec_value(b.drop_last()) * 10 + (b.last() - 0x30) as nat
    }
}

/// The digits of an identifier: the text after an optional leading `+`.
pub open spec fn id_digits(b: Seq<u8>) -> Seq<u8> {
    if b.len() > 0 && b[0] == 0x2b {
        b.drop_first()
    } else {
        b
    }
}

/// The identifier that text `b` spells: one or more decimal digits, after
/// an optional `+`, whose value fits in 128 bits.
pub open spec fn client_id_text(b: Seq<u8>) -> Option<ClientId> {
    let d = id_digits(b);
    if d.len() > 0 && (forall|i: int| 0 <= i < d.len() ==> is_digit(#[trigger] d[i])) && dec_value(d)
        <= u128::MAX {
        Some(dec_value(d) as ClientId)
    } else {
        None
    }
}

/// A longer string of digits is worth at least as much as its prefix.
proof fn lemma_dec_value_prefix(d: Seq<u8>, i: int)
    requires
        0 <= i <= d.len(),
        forall|k: int| 0 <= k < d.len() ==> is_digit(#[trigger] d[k]),
    ensures
        dec_value(d.take(i)) <= dec_value(d),
    decreases d.len() - i,
{
    if i < d.len() {
        lemma_dec_value_prefix(d, i + 1);
        assert(d.take(i + 1).drop_last() =~= d.take(i));
    } else {
        assert(d.take(i) =~= d);
    }
}

/// Reads the decimal client identifier `s`; BadRequest if it is malformed
/// or does not fit in 128 bits.
pub fn parse_client_param(s: &str) -> (r: Result<ClientId, ApiError>)
    ensures
        r == match client_id_text(s.spec_bytes()) {
            Some(v) => Ok::<ClientId, ApiError>(v),
            None => Err(ApiError::BadRequest),
        },
{
    let b = s.as_bytes();
    let ghost d = id_digits(b@);
    let start: usize = if b.len() > 0 && b[0] == 0x2b { 1 } else { 0 };
    assert(d =~= b@.subrange(start as int, b@.len() as int));
    if start >= b.len() {
        return Err(ApiError::BadRequest);
    }
    let mut acc: u128 = 0;
    let mut i: usize = start;
    while i < b.len()
        invariant
            start <= i <= b@.len(),
            b@ == s.spec_bytes(),
            d == id_digits(b@),
            d =~= b@.subrange(start as int, b@.len() as int),
            forall|k: int| 0 <= k < i - start ==> is_digit(#[trigger] d[k]),
            acc as nat == dec_value(d.take(i - start)),
        decreases b@.len() - i,
    {
        let c = b[i];
        assert(d[i - start] == c);
        if c < 0x30 || c > 0x39 {
            assert(!is_digit(d[i - start]));
            assert(!(forall|k: int| 0 <= k < d.len() ==> is_digit(#[trigger] d[k])));
            return Err(ApiError::BadRequest);
        }
        assert(d.take(i + 1 - start).drop_last() =~= d.take(i - start));
        let next = match acc.checked_mul(10) {
            Some(m) => m.checked_add((c - 0x30) as u128),
            None => None,
        };
        match next {
            Some(v) => {
                acc = v;
            },
            None => {
                proof {
                    assert(dec_value(d.take(i + 1 - start)) == acc * 10 + (c - 0x30) as nat);
                    assert(dec_value(d.take(i + 1 - start)) > u128::MAX);
                    if forall|k: int| 0 <= k < d.len() ==> is_digit(#[trigger] d[k]) {
                        lemma_dec_value_prefix(d, i + 1 - start);
                    }
                }
                return Err(ApiError::BadRequest);
            },
        }
        i = i + 1;
    }
    assert(d.take(d.len() as int) =~= d);
    Ok(acc)
}

} // verus!
