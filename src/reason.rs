//! The texts of `InvalidCommand` replies.

use vstd::prelude::*;
use vstd::string::StringExecFns;
use vstd::utf8::is_ascii_chars;

use crate::codec::text_fits;

verus! {

/// The character of a decimal digit.
pub open spec fn digit(d: nat) -> char {
    if d == 0 {
        '0'
    } else if d == 1 {
        '1'
    } else if d == 2 {
        '2'
    } else if d == 3 {
        '3'
    } else if d == 4 {
        '4'
    } else if d == 5 {
        '5'
    } else if d == 6 {
        '6'
    } else if d == 7 {
        '7'
    } else if d == 8 {
        '8'
    } else {
        '9'
    }
}

/// The decimal digits of `n`, most significant first, without leading zeros.
pub open spec fn decimal(n: nat) -> Seq<char>
    decreases n,
{
    if n < 10 {
        seq![digit(n)]
    } else {
        decimal(n / 10).push(digit(n % 10))
    }
}

/// An ASCII text of at most 255 characters fits a message string.
pub proof fn lemma_ascii_fits(s: Seq<char>)
    requires
        is_ascii_chars(s),
        s.len() <= 255,
    ensures
        text_fits(s),
{
    vstd::utf8::is_ascii_chars_encode_utf8(s);
}

/// Ten to the power `k + 1`.
pub open spec fn tens(k: nat) -> nat
    decreases k,
{
    if k == 0 {
        10
    } else {
        10 * tens((k - 1) as nat)
    }
}

/// A number below ten to the power `k + 1` has at most `k + 1` digits, all
/// ASCII.
pub proof fn lemma_decimal_len(n: nat, k: nat)
    requires
        n < tens(k),
    ensures
        decimal(n).len() <= k + 1,
        is_ascii_chars(decimal(n)),
    decreases n,
{
    if n >= 10 {
        assert(k > 0);
        assert(n / 10 < tens((k - 1) as nat));
        lemma_decimal_len(n / 10, (k - 1) as nat);
        let d = decimal(n);
        assert forall|i: int| 0 <= i < d.len() implies '\0' <= #[trigger] d[i] <= '\u{7f}' by {
            if i < d.len() - 1 {
                assert(d[i] == decimal(n / 10)[i]);
            }
        }
    }
}

/// The digits of a 16-bit number are at most five ASCII characters.
pub proof fn lemma_decimal_short(n: nat)
    requires
        n < 65536,
    ensures
        decimal(n).len() <= 5,
        is_ascii_chars(decimal(n)),
{
    assert(tens(0) == 10);
    assert(tens(1) == 100);
    assert(tens(2) == 1000);
    assert(tens(3) == 10000);
    assert(tens(4) == 100000);
    lemma_decimal_len(n, 4);
}

fn digit_str(d: u16) -> (r: &'static str)
    requires
        d < 10,
    ensures
        r@ == seq![digit(d as nat)],
{
    if d == 0 {
        proof { reveal_strlit("0"); }
        "0"
    } else if d == 1 {
        proof { reveal_strlit("1"); }
        "1"
    } else if d == 2 {
        proof { reveal_strlit("2"); }
        "2"
    } else if d == 3 {
        proof { reveal_strlit("3"); }
        "3"
    } else if d == 4 {
        proof { reveal_strlit("4"); }
        "4"
    } else if d == 5 {
        proof { reveal_strlit("5"); }
        "5"
    } else if d == 6 {
        proof { reveal_strlit("6"); }
        "6"
    } else if d == 7 {
        proof { reveal_strlit("7"); }
        "7"
    } else if d == 8 {
        proof { reveal_strlit("8"); }
        "8"
    } else {
        proof { reveal_strlit("9"); }
        "9"
    }
}

/// Appends the decimal digits of `n`.
fn append_decimal(s: &mut String, n: u16)
    ensures
        final(s)@ == old(s)@ + decimal(n as nat),
    decreases n,
{
    if n >= 10 {
        append_decimal(s, n / 10);
    }
    s.append(digit_str(n % 10));
    proof {
        if n >= 10 {
            assert(final(s)@ =~= old(s)@ + decimal(n as nat));
        } else {
            assert(final(s)@ =~= old(s)@ + decimal(n as nat));
        }
    }
}

/// `prefix`, the number `n`, and a full stop.
pub fn with_number(prefix: &str, n: u16) -> (r: String)
    requires
        is_ascii_chars(prefix@),
        prefix@.len() <= 200,
    ensures
        r@ == prefix@ + decimal(n as nat) + seq!['.'],
        text_fits(r@),
{
    let mut r = String::from_str(prefix);
    append_decimal(&mut r, n);
    proof { reveal_strlit("."); }
    r.append(".");
    proof {
        lemma_decimal_short(n as nat);
        let d = decimal(n as nat);
        assert(is_ascii_chars(r@)) by {
            assert forall|i: int| 0 <= i < r@.len() implies '\0' <= #[trigger] r@[i] <= '\u{7f}' by {
                if i < prefix@.len() {
                    assert(r@[i] == prefix@[i]);
                } else if i < prefix@.len() + d.len() {
                    assert(r@[i] == d[i - prefix@.len()]);
                }
            }
        }
        lemma_ascii_fits(r@);
    }
    r
}

/// A copy of an ASCII literal.
pub fn text(s: &str) -> (r: String)
    requires
        is_ascii_chars(s@),
        s@.len() <= 255,
    ensures
        r@ == s@,
        text_fits(r@),
{
    proof {
        lemma_ascii_fits(s@);
    }
    String::from_str(s)
}

} // verus!
