//! The dotted-decimal IPv4 address validator.
use vstd::prelude::*;

use crate::notation::{
    decimal, digit_value, digits_value, dotted_quad, fields, is_digit, is_ipv4, is_octet,
    is_separator, lemma_decimal, lemma_doomed_not_ipv4, lemma_doomed_prefix, lemma_fields_append,
    lemma_fields_nonempty, lemma_fields_single, lemma_fields_take_next, lemma_ipv4_shape,
    lemma_short_digits_value,
};

verus! {

broadcast use vstd::utf8::is_ascii_chars_encode_utf8;

/// The one error of the validator: the string is not an IPv4 address.
#[derive(Debug, Clone, Copy, PartialEq, Eq)]
pub struct InvalidAddrErr;

impl InvalidAddrErr {
    /// A fixed human-readable description of the error.
    pub fn message(&self) -> (r: &'static str)
        ensures
            r@ == "invalid ipv4 address string"@,
    {
        "invalid ipv4 address string"
    }
}

/// What validating `s` yields: `Ok(true)` for an address, the error for anything else.
pub open spec fn validation(s: Seq<char>) -> Result<bool, InvalidAddrErr> {
    if is_ipv4(s) {
        Ok(true)
    } else {
        Err(InvalidAddrErr)
    }
}

/// A string of fewer than seven or more than fifteen characters is rejected.
pub proof fn lemma_length_out_of_range_rejected(s: Seq<char>)
    requires
        s.len() < 7 || s.len() > 15,
    ensures
        validation(s) == Err::<bool, InvalidAddrErr>(InvalidAddrErr),
{
    if is_ipv4(s) {
        lemma_ipv4_shape(s);
    }
}

/// Four values of at most 255, each written in decimal without leading zeros and joined
/// by separators, form an accepted address.
pub proof fn lemma_dotted_quad_accepted(a: nat, b: nat, c: nat, d: nat)
    requires
        a <= 255,
        b <= 255,
        c <= 255,
        d <= 255,
    ensures
        validation(dotted_quad(a, b, c, d)) == Ok::<bool, InvalidAddrErr>(true),
{
    let (da, db, dc, dd) = (decimal(a), decimal(b), decimal(c), decimal(d));
    lemma_decimal(a);
    lemma_decimal(b);
    lemma_decimal(c);
    lemma_decimal(d);
    assert(forall|i: int| 0 <= i < da.len() ==> !is_separator(#[trigger] da[i]));
    assert(forall|i: int| 0 <= i < db.len() ==> !is_separator(#[trigger] db[i]));
    assert(forall|i: int| 0 <= i < dc.len() ==> !is_separator(#[trigger] dc[i]));
    assert(forall|i: int| 0 <= i < dd.len() ==> !is_separator(#[trigger] dd[i]));
    let p2 = da + seq!['.'] + db;
    let p3 = p2 + seq!['.'] + dc;
    lemma_fields_single(da);
    lemma_fields_append(da, db);
    lemma_fields_append(p2, dc);
    lemma_fields_append(p3, dd);
    let f = fields(dotted_quad(a, b, c, d));
    assert(f =~= seq![da, db, dc, dd]);
    assert(is_octet(da) && is_octet(db) && is_octet(dc) && is_octet(dd));
    assert(forall|i: int| 0 <= i < 4 ==> is_octet(#[trigger] f[i]));
}

/// Validation depends on the characters of the string alone: validating the same
/// characters again, from the same string or another, gives the same result.
pub proof fn lemma_validation_repeatable(s: &str, t: &str)
    requires
        s@ == t@,
    ensures
        validation(s@) == validation(t@),
{
}

/// Whether the first `len` digits of `block` have a value of at most 255, decided by
/// comparing digits: only a three-digit block can exceed it.
fn fits_in_octet(block: &[char; 3], len: usize) -> (r: bool)
    requires
        1 <= len <= 3,
        forall|k: int| 0 <= k < len ==> is_digit(#[trigger] block[k]),
    ensures
        r == (digits_value(block@.take(len as int)) <= 255),
{
    let ghost b = block@;
    proof {
        let t1 = b.take(1);
        assert(t1.drop_last() =~= Seq::<char>::empty());
        assert(digits_value(t1.drop_last()) == 0);
        assert(digits_value(t1) == digit_value(b[0]));
        if len >= 2 {
            assert(b.take(2).drop_last() =~= t1);
            assert(digits_value(b.take(2)) == digit_value(b[0]) * 10 + digit_value(b[1]));
        }
        if len == 3 {
            assert(b.take(3).drop_last() =~= b.take(2));
            assert(digits_value(b.take(3)) == digit_value(b[0]) * 100 + digit_value(b[1]) * 10
                + digit_value(b[2]));
            assert(is_digit(b[0]) && is_digit(b[1]) && is_digit(b[2]));
        }
    }
    if len < 3 {
        return true;
    }
    if block[0] > '2' {
        return false;
    }
    if block[0] == '2' && (block[1] > '5' || (block[1] == '5' && block[2] > '5')) {
        return false;
    }
    true
}

/// Checks that `ipstr` is an IPv4 address in dotted-decimal notation: four octets of one
/// to three decimal digits, each at most 255, joined by single separators `.`, with no
/// other character. Returns `Ok(true)` for an address and `InvalidAddrErr` otherwise; a
/// string of fewer than seven or more than fifteen characters is rejected before the scan.
pub fn valid_ipv4(ipstr: &str) -> (r: Result<bool, InvalidAddrErr>)
    ensures
        r == validation(ipstr@),
{
    let ghost s = ipstr@;
    // An address has between seven ("1.1.1.1") and fifteen ("255.255.255.255") characters,
    // all ASCII, so its length in bytes is its length in characters.
    if ipstr.len() > 15 || ipstr.len() < 7 {
        proof {
            if is_ipv4(s) {
                lemma_ipv4_shape(s);
            }
        }
        return Err(InvalidAddrErr);
    }
    // The octet being read is held in `block`, its unused slots set to '\0'; `pos` is the
    // next slot to fill and `block_count` the number of octets begun so far.
    let mut block_count: usize = 1;
    let mut block: [char; 3] = ['\0'; 3];
    let mut pos: usize = 0;
    // Every rejection inside the scan comes from a prefix that no continuation can turn
    // into an address.
    for c in it: ipstr.chars()
        invariant
            it.seq() == s,
            s == ipstr@,
            ({
                let f = fields(s.take(it.index() as int));
                &&& f.len() == block_count
                &&& 1 <= block_count <= 4
                &&& pos <= 3
                &&& f.last() == block@.take(pos as int)
                &&& forall|k: int| 0 <= k < pos ==> is_digit(#[trigger] block[k])
                &&& forall|k: int| pos <= k < 3 ==> #[trigger] block[k] == '\0'
                &&& forall|j: int| 0 <= j < f.len() - 1 ==> is_octet(#[trigger] f[j])
            }),
    {
        let ghost i = it.index() as int;
        let ghost f = fields(s.take(i));
        let ghost g = fields(s.take(i + 1));
        proof {
            lemma_fields_take_next(s, i);
            lemma_fields_nonempty(s.take(i));
        }
        // only digits and separators may appear
        if !(c >= '0' && c <= '9') && c != '.' {
            proof {
                assert(!is_digit(g.last()[pos as int]));
                lemma_doomed_prefix(s, i + 1);
                lemma_doomed_not_ipv4(s);
            }
            return Err(InvalidAddrErr);
        }
        if c == '.' {
            // a separator after the fourth octet
            if block_count == 4 {
                proof {
                    lemma_doomed_prefix(s, i + 1);
                    lemma_doomed_not_ipv4(s);
                }
                return Err(InvalidAddrErr);
            }
            // a separator that closes an empty octet: leading or doubled
            if block[0] == '\0' {
                proof {
                    assert(!is_octet(g[f.len() - 1]));
                    lemma_doomed_prefix(s, i + 1);
                    lemma_doomed_not_ipv4(s);
                }
                return Err(InvalidAddrErr);
            }
            // only a three-digit octet can exceed 255
            if block[2] != '\0' {
                if !fits_in_octet(&block, 3) {
                    proof {
                        assert(block@.take(3) =~= block@);
                        assert(!is_octet(g[f.len() - 1]));
                        lemma_doomed_prefix(s, i + 1);
                        lemma_doomed_not_ipv4(s);
                    }
                    return Err(InvalidAddrErr);
                }
            }
            proof {
                if pos < 3 {
                    lemma_short_digits_value(block@.take(pos as int));
                }
                assert(is_octet(g[f.len() - 1]));
            }
            block_count += 1;
            block = ['\0'; 3];
            pos = 0;
            proof {
                assert(g.last() =~= block@.take(0));
            }
        } else {
            // a fourth digit in one octet
            if pos == 3 {
                proof {
                    lemma_doomed_prefix(s, i + 1);
                    lemma_doomed_not_ipv4(s);
                }
                return Err(InvalidAddrErr);
            }
            block[pos] = c;
            pos += 1;
            proof {
                assert(g.last() =~= block@.take(pos as int));
            }
        }
    }
    proof {
        assert(s.take(s.len() as int) =~= s);
    }
    // The scan ends inside the last octet: there must be four octets, and the last one is
    // held to the same rules as those closed by a separator.
    if block_count != 4 || pos == 0 {
        return Err(InvalidAddrErr);
    }
    if !fits_in_octet(&block, pos) {
        return Err(InvalidAddrErr);
    }
    proof {
        let f = fields(s);
        assert(is_octet(f[3]));
        assert forall|j: int| 0 <= j < 4 implies is_octet(#[trigger] f[j]) by {
            if j < 3 {
                assert(is_octet(f[j]));
            }
        }
    }
    Ok(true)
}

} // verus!
