//! Numbers and bytes as digits.
use vstd::prelude::*;
use vstd::slice::slice_subrange;

verus! {

/// The character for a digit below sixteen, letters small.
pub open spec fn digit_char(d: nat) -> char {
    if d < 10 {
        ('0' as u8 + d) as char
    } else {
        ('a' as u8 + (d - 10)) as char
    }
}

/// `n` in decimal, without leading zeros.
pub open spec fn decimal(n: nat) -> Seq<char>
    decreases n,
{
    if n < 10 {
        seq![digit_char(n)]
    } else {
        decimal(n / 10).push(digit_char(n % 10))
    }
}

/// Two hexadecimal digits per byte.
pub open spec fn hex(bytes: Seq<u8>) -> Seq<char> {
    Seq::new(
        2 * bytes.len(),
        |i: int|
            digit_char(
                if i % 2 == 0 {
                    bytes[i / 2] as nat / 16
                } else {
                    bytes[i / 2] as nat % 16
                },
            ),
    )
}

/// Whether `s` holds nothing but decimal digits.
pub open spec fn all_digits(s: Seq<char>) -> bool {
    forall|i: int| 0 <= i < s.len() ==> '0' <= #[trigger] s[i] <= '9'
}

/// The number that a run of decimal digits spells.
pub open spec fn value(s: Seq<char>) -> nat
    decreases s.len(),
{
    if s.len() == 0 {
        0
    } else {
        value(s.drop_last()) * 10 + (s.last() as u32 - '0' as u32) as nat
    }
}

/// `s` without one leading plus sign.
pub open spec fn unsigned(s: Seq<char>) -> Seq<char> {
    if s.len() > 0 && s[0] == '+' {
        s.drop_first()
    } else {
        s
    }
}

/// The number that `s` spells: decimal digits, at least one, behind at most
/// one plus sign, and no more than a `usize` holds.
pub open spec fn parse_number(s: Seq<char>) -> Option<nat> {
    let d = unsigned(s);
    if d.len() > 0 && all_digits(d) && value(d) <= usize::MAX {
        Some(value(d))
    } else {
        None
    }
}

/// `digit_char` for a digit that is at hand.
pub fn digit(d: u8) -> (r: char)
    requires
        d < 16,
    ensures
        r == digit_char(d as nat),
{
    if d < 10 {
        (48 + d) as char
    } else {
        (87 + d) as char
    }
}

/// Appends `n` in decimal.
pub fn push_decimal(out: &mut String, n: u64)
    ensures
        final(out)@ == old(out)@ + decimal(n as nat),
    decreases n,
{
    let ghost was = out@;
    if n >= 10 {
        push_decimal(out, n / 10);
    }
    out.push(digit((n % 10) as u8));
    assert(out@ =~= was + decimal(n as nat));
}

/// The hexadecimal form of `bytes`.
pub fn to_hex(bytes: &[u8]) -> (r: String)
    ensures
        r@ == hex(bytes@),
{
    let mut out = String::new();
    for i in 0..bytes.len()
        invariant
            out@ == hex(bytes@.take(i as int)),
    {
        let ghost was = out@;
        out.push(digit(bytes[i] / 16));
        out.push(digit(bytes[i] % 16));
        proof {
            let next = hex(bytes@.take(i as int + 1));
            assert(next.len() == was.len() + 2);
            assert forall|k: int| 0 <= k < next.len() implies next[k] == out@[k] by {
                if k < 2 * i {
                    assert(bytes@.take(i as int)[k / 2] == bytes@.take(i as int + 1)[k / 2]);
                    assert(was[k] == next[k]);
                }
            }
            assert(out@ =~= next);
        }
    }
    assert(bytes@.take(bytes@.len() as int) =~= bytes@);
    out
}

/// More digits spell no smaller number.
pub proof fn lemma_value_grows(s: Seq<char>, n: int)
    requires
        0 <= n <= s.len(),
    ensures
        value(s.take(n)) <= value(s),
    decreases s.len() - n,
{
    if n == s.len() {
        assert(s.take(n) =~= s);
    } else {
        lemma_value_grows(s, n + 1);
        assert(s.take(n + 1).drop_last() =~= s.take(n));
    }
}

/// Reads a number.
pub fn number(s: &[char]) -> (r: Option<usize>)
    ensures
        match r {
            Some(n) => parse_number(s@) == Some(n as nat),
            None => parse_number(s@) is None,
        },
{
    let d = if s.len() > 0 && s[0] == '+' {
        slice_subrange(s, 1, s.len())
    } else {
        s
    };
    assert(d@ =~= unsigned(s@));
    if d.len() == 0 {
        return None;
    }
    let mut n: usize = 0;
    for i in 0..d.len()
        invariant
            d@ == unsigned(s@),
            d@.len() > 0,
            n == value(d@.take(i as int)),
            forall|j: int| 0 <= j < i ==> '0' <= #[trigger] d@[j] <= '9',
    {
        let c = d[i];
        if c < '0' || '9' < c {
            assert(!all_digits(d@));
            return None;
        }
        let v: usize = (c as u32 - 48) as usize;
        proof {
            assert(d@.take(i as int + 1).drop_last() =~= d@.take(i as int));
            lemma_value_grows(d@, i as int + 1);
        }
        n = match n.checked_mul(10) {
            Some(tens) => match tens.checked_add(v) {
                Some(m) => m,
                None => return None,
            },
            None => return None,
        };
    }
    assert(d@.take(d@.len() as int) =~= d@);
    Some(n)
}

} // verus!
