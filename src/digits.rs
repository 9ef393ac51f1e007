//! Unsigned numbers written in decimal or hexadecimal.
use vstd::prelude::*;

verus! {

/// The value of one digit in base `radix` (10 or 16; letters of either case).
pub open spec fn digit_value(c: char, radix: nat) -> Option<nat> {
    if '0' <= c && c <= '9' && (c as nat) - ('0' as nat) < radix {
        Some((c as nat - '0' as nat) as nat)
    } else if radix == 16 && 'a' <= c && c <= 'f' {
        Some((c as nat - 'a' as nat + 10) as nat)
    } else if radix == 16 && 'A' <= c && c <= 'F' {
        Some((c as nat - 'A' as nat + 10) as nat)
    } else {
        None
    }
}

pub open spec fn all_digits(d: Seq<char>, radix: nat) -> bool {
    forall|i: int| 0 <= i < d.len() ==> #[trigger] digit_value(d[i], radix) is Some
}

/// The number that the digits `d` write, most significant first.
pub open spec fn digits_value(d: Seq<char>, radix: nat) -> nat
    decreases d.len(),
{
    if d.len() == 0 {
        0
    } else {
        digits_value(d.drop_last(), radix) * radix + digit_value(d.last(), radix)->0
    }
}

/// Reading an unsigned number as `str::parse` and `from_str_radix` do: an
/// optional `+`, then at least one digit, and a value no larger than `limit`.
pub open spec fn parse_unsigned_spec(s: Seq<char>, radix: nat, limit: nat) -> Option<nat> {
    let d = if s.len() > 0 && s[0] == '+' {
        s.skip(1)
    } else {
        s
    };
    if d.len() > 0 && all_digits(d, radix) && digits_value(d, radix) <= limit {
        Some(digits_value(d, radix))
    } else {
        None
    }
}

/// The character for a digit value below `radix`; upper-case letters.
pub open spec fn digit_char(v: nat) -> char {
    if v < 10 {
        (('0' as nat) + v) as char
    } else {
        (('A' as nat) + v - 10) as char
    }
}

/// The digits of `n` in base `radix`, without leading zeros.
pub open spec fn digits_of(n: nat, radix: nat) -> Seq<char>
    decreases n,
{
    if radix < 2 || n < radix {
        seq![digit_char(n)]
    } else {
        proof {
            assert(n / radix < n) by (nonlinear_arith)
                requires
                    radix >= 2,
                    n >= radix,
            ;
        }
        digits_of(n / radix, radix).push(digit_char(n % radix))
    }
}

proof fn lemma_digit_char_value(v: nat, radix: nat)
    requires
        radix == 10 || radix == 16,
        v < radix,
    ensures
        digit_value(digit_char(v), radix) == Some(v),
        digit_char(v) != '+',
{
}

pub proof fn lemma_digits_of_value(n: nat, radix: nat)
    requires
        radix == 10 || radix == 16,
    ensures
        digits_of(n, radix).len() > 0,
        all_digits(digits_of(n, radix), radix),
        digits_value(digits_of(n, radix), radix) == n,
        digits_of(n, radix)[0] != '+',
    decreases n,
{
    let d = digits_of(n, radix);
    if n < radix {
        lemma_digit_char_value(n, radix);
        assert(d.drop_last() =~= Seq::<char>::empty());
        assert(digits_value(d, radix) == digits_value(Seq::<char>::empty(), radix) * radix + n);
    } else {
        assert(n / radix < n) by (nonlinear_arith)
            requires
                radix >= 2,
                n >= radix,
        ;
        lemma_digits_of_value(n / radix, radix);
        let h = digits_of(n / radix, radix);
        lemma_digit_char_value(n % radix, radix);
        assert(d.drop_last() =~= h);
        assert(d[0] == h[0]);
        assert forall|i: int| 0 <= i < d.len() implies #[trigger] digit_value(d[i], radix) is Some by {
            if i < h.len() {
                assert(d[i] == h[i]);
            }
        }
        assert((n / radix) * radix + n % radix == n) by (nonlinear_arith)
            requires
                radix > 0,
        ;
        assert(d.last() == digit_char(n % radix));
        assert(digits_value(d, radix) == digits_value(h, radix) * radix + (n % radix));
    }
}

/// Reading back what `digits_of` writes gives the number again.
pub proof fn lemma_parse_digits_round_trip(n: nat, radix: nat, limit: nat)
    requires
        radix == 10 || radix == 16,
        n <= limit,
    ensures
        parse_unsigned_spec(digits_of(n, radix), radix, limit) == Some(n),
{
    lemma_digits_of_value(n, radix);
}

proof fn lemma_prefix_value_grows(d: Seq<char>, radix: nat, i: int, j: int)
    requires
        0 <= i <= j <= d.len(),
        radix >= 1,
    ensures
        digits_value(d.subrange(0, i), radix) <= digits_value(d.subrange(0, j), radix),
    decreases j - i,
{
    if i < j {
        lemma_prefix_value_grows(d, radix, i, j - 1);
        let p = d.subrange(0, j);
        assert(p.drop_last() =~= d.subrange(0, j - 1));
        let v = digits_value(d.subrange(0, j - 1), radix);
        assert(v * radix >= v) by (nonlinear_arith)
            requires
                radix >= 1,
        ;
    }
}

fn digit_of(c: char, radix: u32) -> (r: Option<u32>)
    requires
        radix == 10 || radix == 16,
    ensures
        match digit_value(c, radix as nat) {
            Some(v) => r == Some(v as u32),
            None => r is None,
        },
{
    if '0' <= c && c <= '9' {
        let v = (c as u32) - ('0' as u32);
        if v < radix {
            return Some(v);
        }
        return None;
    }
    if radix == 16 && 'a' <= c && c <= 'f' {
        return Some((c as u32) - ('a' as u32) + 10);
    }
    if radix == 16 && 'A' <= c && c <= 'F' {
        return Some((c as u32) - ('A' as u32) + 10);
    }
    None
}

/// Reads an unsigned number in base 10 or 16 that is at most `limit`.
pub fn parse_unsigned(s: &[char], radix: u32, limit: u128) -> (r: Option<u128>)
    requires
        radix == 10 || radix == 16,
    ensures
        match parse_unsigned_spec(s@, radix as nat, limit as nat) {
            Some(v) => r == Some(v as u128),
            None => r is None,
        },
{
    let ghost d = if s@.len() > 0 && s@[0] == '+' {
        s@.skip(1)
    } else {
        s@
    };
    let mut i: usize = 0;
    if s.len() > 0 && s[0] == '+' {
        i = 1;
    }
    let first = i;
    if first >= s.len() {
        return None;
    }
    let mut v: u128 = 0;
    while i < s.len()
        invariant
            radix == 10 || radix == 16,
            first == s@.len() - d.len(),
            d == s@.skip(first as int),
            d == (if s@.len() > 0 && s@[0] == '+' {
                s@.skip(1)
            } else {
                s@
            }),
            first <= i <= s.len(),
            v as nat == digits_value(d.subrange(0, i - first), radix as nat),
            v <= limit,
            all_digits(d.subrange(0, i - first), radix as nat),
        decreases s.len() - i,
    {
        let ghost k = i - first;
        let c = s[i];
        assert(d[k] == c);
        let dv = match digit_of(c, radix) {
            Some(x) => x,
            None => {
                assert(digit_value(d[k], radix as nat) is None);
                assert(!all_digits(d, radix as nat));
                return None;
            },
        };
        let ghost p = d.subrange(0, k + 1);
        assert(p.drop_last() =~= d.subrange(0, k));
        assert(p.last() == c);
        assert(digits_value(p, radix as nat) == v * radix + dv);
        assert(all_digits(p, radix as nat)) by {
            assert forall|j: int| 0 <= j < p.len() implies #[trigger] digit_value(p[j], radix as nat) is Some by {
                if j < k {
                    assert(p[j] == d.subrange(0, k)[j]);
                }
            }
        }
        if dv as u128 > limit {
            proof {
                lemma_prefix_value_grows(d, radix as nat, k + 1, d.len() as int);
                assert(d.subrange(0, d.len() as int) =~= d);
                assert(v * radix + dv >= dv) by (nonlinear_arith)
                    requires
                        v >= 0,
                        radix > 0,
                ;
            }
            return None;
        }
        if v > (limit - dv as u128) / (radix as u128) {
            proof {
                assert(v * radix + dv > limit) by (nonlinear_arith)
                    requires
                        v > (limit - dv) / (radix as int),
                        radix > 0,
                        dv <= limit,
                ;
                lemma_prefix_value_grows(d, radix as nat, k + 1, d.len() as int);
                assert(d.subrange(0, d.len() as int) =~= d);
            }
            return None;
        }
        assert(v * radix + dv <= limit) by (nonlinear_arith)
            requires
                v <= (limit - dv) / (radix as int),
                radix > 0,
                dv <= limit,
        ;
        v = v * (radix as u128) + dv as u128;
        i += 1;
    }
    assert(d.subrange(0, d.len() as int) =~= d);
    Some(v)
}

/// Writes `n` in base `radix` (10 or 16), upper-case letters, no leading zeros.
pub fn format_unsigned(n: u128, radix: u32) -> (r: Vec<char>)
    requires
        radix == 10 || radix == 16,
    ensures
        r@ == digits_of(n as nat, radix as nat),
    decreases n,
{
    let rd = radix as u128;
    let low = (n % rd) as u32;
    let c = if low < 10 {
        char_from_digit(low)
    } else {
        letter_from_digit(low - 10)
    };
    if n < rd {
        let mut r: Vec<char> = Vec::new();
        r.push(c);
        assert(r@ =~= seq![digit_char(n as nat)]);
        r
    } else {
        let mut r = format_unsigned(n / rd, radix);
        r.push(c);
        r
    }
}

fn char_from_digit(v: u32) -> (c: char)
    requires
        v < 10,
    ensures
        c == (('0' as nat) + v) as char,
{
    if v == 0 { '0' } else if v == 1 { '1' } else if v == 2 { '2' } else if v == 3 { '3' } else if v
        == 4 { '4' } else if v == 5 { '5' } else if v == 6 { '6' } else if v == 7 { '7' } else if v
        == 8 { '8' } else { '9' }
}

fn letter_from_digit(v: u32) -> (c: char)
    requires
        v < 6,
    ensures
        c == (('A' as nat) + v) as char,
{
    if v == 0 { 'A' } else if v == 1 { 'B' } else if v == 2 { 'C' } else if v == 3 { 'D' } else if v
        == 4 { 'E' } else { 'F' }
}

} // verus!
