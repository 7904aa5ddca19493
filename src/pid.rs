//! The PID record of a container: ASCII decimal text in `containers/<name>/pid`.

use vstd::prelude::*;

verus! {

pub open spec fn is_digit(b: u8) -> bool {
    48 <= b <= 57
}

/// Every byte is an ASCII decimal digit.
pub open spec fn all_digits(s: Seq<u8>) -> bool {
    forall|i: int| 0 <= i < s.len() ==> is_digit(#[trigger] s[i])
}

/// The number that a string of decimal digits denotes.
pub open spec fn decimal_value(s: Seq<u8>) -> nat
    decreases s.len(),
{
    if s.len() == 0 {
        0
    } else {
        decimal_value(s.drop_last()) * 10 + (s.last() - 48) as nat
    }
}

/// The shortest decimal text of `n`: no leading zero, `"0"` for zero.
pub open spec fn decimal_text(n: nat) -> Seq<u8>
    decreases n,
{
    if n < 10 {
        seq![(n + 48) as u8]
    } else {
        decimal_text(n / 10).push(((n % 10) + 48) as u8)
    }
}

/// A PID record is valid when it is a non-empty string of digits whose value
/// is a positive `u32`.
pub open spec fn valid_pid_text(s: Seq<u8>) -> bool {
    s.len() > 0 && all_digits(s) && 0 < decimal_value(s) <= u32::MAX
}

#[derive(Debug, Clone, Copy, PartialEq, Eq, Structural)]
pub enum PidError {
    /// The record is empty, holds a non-digit, is zero or does not fit.
    Corrupted,
}

/// Reads a PID record.
pub fn parse_pid(text: &[u8]) -> (r: Result<u32, PidError>)
    ensures
        r is Ok <==> valid_pid_text(text@),
        r is Ok ==> r->Ok_0 as nat == decimal_value(text@),
        r is Err ==> r == Err::<u32, PidError>(PidError::Corrupted),
{
    if text.len() == 0 {
        return Err(PidError::Corrupted);
    }
    let mut acc: u32 = 0;
    let mut i: usize = 0;
    while i < text.len()
        invariant
            0 <= i <= text@.len(),
            all_digits(text@.subrange(0, i as int)),
            acc as nat == decimal_value(text@.subrange(0, i as int)),
        decreases text@.len() - i,
    {
        let b = text[i];
        proof {
            assert(text@.subrange(0, i as int + 1).drop_last() =~= text@.subrange(0, i as int));
        }
        if b < 48 || b > 57 {
            proof {
                assert(!all_digits(text@)) by {
                    assert(!is_digit(text@[i as int]));
                }
            }
            return Err(PidError::Corrupted);
        }
        let d: u32 = (b - 48) as u32;
        if acc > (u32::MAX - d) / 10 {
            proof {
                lemma_prefix_value_bound(text@, i as int + 1);
            }
            return Err(PidError::Corrupted);
        }
        acc = acc * 10 + d;
        i = i + 1;
        proof {
            assert forall|k: int| 0 <= k < i implies is_digit(#[trigger] text@.subrange(0, i as int)[k]) by {
                if k < i - 1 {
                    assert(text@.subrange(0, i as int)[k] == text@.subrange(0, i as int - 1)[k]);
                }
            }
        }
    }
    proof {
        assert(text@.subrange(0, i as int) =~= text@);
    }
    if acc == 0 {
        return Err(PidError::Corrupted);
    }
    Ok(acc)
}

/// The value of a digit string is at least the value of any of its prefixes.
proof fn lemma_prefix_value_bound(s: Seq<u8>, n: int)
    requires
        0 <= n <= s.len(),
        all_digits(s.subrange(0, n)) || all_digits(s),
    ensures
        all_digits(s) ==> decimal_value(s.subrange(0, n)) <= decimal_value(s),
    decreases s.len() - n,
{
    if n < s.len() && all_digits(s) {
        lemma_prefix_value_bound(s, n + 1);
        assert(s.subrange(0, n + 1).drop_last() =~= s.subrange(0, n));
    } else if all_digits(s) {
        assert(s.subrange(0, n) =~= s);
    }
}

/// Appends the decimal text of `n` to `out`.
fn push_decimal(n: u32, out: &mut Vec<u8>)
    ensures
        final(out)@ == old(out)@ + decimal_text(n as nat),
    decreases n,
{
    if n >= 10 {
        push_decimal(n / 10, out);
    }
    out.push(((n % 10) + 48) as u8);
    proof {
        if n >= 10 {
            assert(decimal_text(n as nat) == decimal_text((n / 10) as nat).push(((n % 10) + 48) as u8));
        }
        assert(final(out)@ =~= old(out)@ + decimal_text(n as nat));
    }
}

/// The PID record written for `pid`.
pub fn format_pid(pid: u32) -> (r: Vec<u8>)
    ensures
        r@ == decimal_text(pid as nat),
{
    let mut r: Vec<u8> = Vec::new();
    push_decimal(pid, &mut r);
    proof {
        assert(r@ =~= decimal_text(pid as nat));
    }
    r
}

/// The decimal text of a number is made of digits and denotes that number.
pub proof fn lemma_decimal_text(n: nat)
    ensures
        decimal_text(n).len() > 0,
        all_digits(decimal_text(n)),
        decimal_value(decimal_text(n)) == n,
    decreases n,
{
    if n >= 10 {
        lemma_decimal_text(n / 10);
        let t = decimal_text(n);
        assert(t.drop_last() =~= decimal_text(n / 10));
        assert forall|i: int| 0 <= i < t.len() implies is_digit(#[trigger] t[i]) by {
            if i < t.len() - 1 {
                assert(t[i] == decimal_text(n / 10)[i]);
            }
        }
        assert(t.last() == ((n % 10) + 48) as u8);
        assert((t.last() - 48) as nat == n % 10);
        assert(decimal_value(t) == decimal_value(decimal_text(n / 10)) * 10 + n % 10);
        assert((n / 10) * 10 + n % 10 == n) by (nonlinear_arith);
    } else {
        assert(decimal_text(n).drop_last() =~= Seq::<u8>::empty());
        assert((decimal_text(n).last() - 48) as nat == n);
        assert(decimal_value(decimal_text(n).drop_last()) == 0);
    }
}

/// A written PID record of a live process (PID above zero) reads back as that
/// PID: every record this library writes parses, and its value is positive.
pub proof fn lemma_pid_record_round_trip(pid: u32)
    requires
        pid > 0,
    ensures
        valid_pid_text(decimal_text(pid as nat)),
        decimal_value(decimal_text(pid as nat)) == pid as nat,
{
    lemma_decimal_text(pid as nat);
}

} // verus!
