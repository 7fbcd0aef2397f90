//! Unsigned integers to and from their decimal and hexadecimal text.

use vstd::prelude::*;

verus! {

/// The value of digit `c` in base `radix` (10 or 16), as `char::to_digit`
/// gives it: `0`-`9`, then letters of either case.
pub open spec fn digit_value(c: char, radix: nat) -> Option<nat> {
    let v: int = if '0' <= c && c <= '9' {
        c as int - '0' as int
    } else if 'a' <= c && c <= 'z' {
        c as int - 'a' as int + 10
    } else if 'A' <= c && c <= 'Z' {
        c as int - 'A' as int + 10
    } else {
        radix as int
    };
    if v < radix {
        Some(v as nat)
    } else {
        None
    }
}

/// Every character of `s` is a digit of base `radix`.
pub open spec fn all_digits(s: Seq<char>, radix: nat) -> bool {
    forall|i: int| 0 <= i < s.len() ==> #[trigger] digit_value(s[i], radix) is Some
}

/// The number written by the digits `s` in base `radix`, most significant
/// first.
pub open spec fn digits_value(s: Seq<char>, radix: nat) -> nat
    decreases s.len(),
{
    if s.len() == 0 {
        0
    } else {
        digits_value(s.drop_last(), radix) * radix + digit_value(s.last(), radix).unwrap_or(0)
    }
}

/// `from_str_radix` of an unsigned type whose largest value is `max`: an
/// optional `+`, then one or more digits whose value fits.
pub open spec fn parse_uint(s: Seq<char>, radix: nat, max: nat) -> Option<nat> {
    let d = if s.len() > 0 && s[0] == '+' {
        s.drop_first()
    } else {
        s
    };
    if d.len() > 0 && all_digits(d, radix) && digits_value(d, radix) <= max {
        Some(digits_value(d, radix))
    } else {
        None
    }
}

proof fn lemma_mul_ge(a: nat, r: nat)
    requires
        r >= 1,
    ensures
        a * r >= a,
{
    assert(a * r >= a * 1) by (nonlinear_arith)
        requires
            r >= 1,
    ;
}

/// A prefix of valid digits never writes a larger number than the whole.
proof fn lemma_digits_prefix(s: Seq<char>, radix: nat, k: int)
    requires
        radix >= 1,
        0 <= k <= s.len(),
        all_digits(s, radix),
    ensures
        digits_value(s.take(k), radix) <= digits_value(s, radix),
    decreases s.len(),
{
    if k < s.len() {
        let t = s.drop_last();
        assert(s.take(k) =~= t.take(k));
        assert(all_digits(t, radix)) by {
            assert forall|i: int| 0 <= i < t.len() implies #[trigger] digit_value(t[i], radix) is Some by {
                assert(t[i] == s[i]);
            }
        }
        lemma_digits_prefix(t, radix, k);
        lemma_mul_ge(digits_value(t, radix), radix);
    } else {
        assert(s.take(k) =~= s);
    }
}

/// Executable [`digit_value`].
pub fn digit_of(c: char, radix: u32) -> (r: Option<u32>)
    requires
        radix == 10 || radix == 16,
    ensures
        r is Some <==> digit_value(c, radix as nat) is Some,
        r is Some ==> r->0 == digit_value(c, radix as nat)->0 && r->0 < radix,
{
    let v: u32 = if '0' <= c && c <= '9' {
        (c as u32) - ('0' as u32)
    } else if 'a' <= c && c <= 'z' {
        (c as u32) - ('a' as u32) + 10
    } else if 'A' <= c && c <= 'Z' {
        (c as u32) - ('A' as u32) + 10
    } else {
        radix
    };
    if v < radix {
        Some(v)
    } else {
        None
    }
}

/// `from_str_radix` on `v[lo..hi]` for an unsigned type whose largest value
/// is `max`.
pub fn parse_uint_range(v: &[char], lo: usize, hi: usize, radix: u32, max: u64) -> (r: Option<
    u64,
>)
    requires
        lo <= hi <= v@.len(),
        radix == 10 || radix == 16,
    ensures
        r is Some <==> parse_uint(v@.subrange(lo as int, hi as int), radix as nat, max as nat) is Some,
        r is Some ==> r->0 == parse_uint(
            v@.subrange(lo as int, hi as int),
            radix as nat,
            max as nat,
        )->0,
{
    let ghost s = v@.subrange(lo as int, hi as int);
    let start: usize = if lo < hi && v[lo] == '+' {
        lo + 1
    } else {
        lo
    };
    let ghost d = v@.subrange(start as int, hi as int);
    assert(d =~= (if s.len() > 0 && s[0] == '+' {
        s.drop_first()
    } else {
        s
    }));
    let ghost expect = if d.len() > 0 && all_digits(d, radix as nat) && digits_value(d, radix as nat)
        <= max {
        Some(digits_value(d, radix as nat))
    } else {
        None
    };
    assert(parse_uint(s, radix as nat, max as nat) == expect);
    if start == hi {
        return None;
    }
    let mut acc: u128 = 0;
    let mut i = start;
    while i < hi
        invariant
            lo <= start <= i <= hi <= v@.len(),
            d == v@.subrange(start as int, hi as int),
            s == v@.subrange(lo as int, hi as int),
            parse_uint(s, radix as nat, max as nat) == expect,
            expect == (if d.len() > 0 && all_digits(d, radix as nat) && digits_value(d, radix as nat)
                <= max {
                Some(digits_value(d, radix as nat))
            } else {
                None
            }),
            radix == 10 || radix == 16,
            acc == digits_value(d.take(i - start), radix as nat),
            acc <= max,
            all_digits(d.take(i - start), radix as nat),
        decreases hi - i,
    {
        let ghost k = i - start;
        assert(d.take(k + 1).drop_last() =~= d.take(k));
        assert(d.take(k + 1).last() == v@[i as int]);
        match digit_of(v[i], radix) {
            None => {
                assert(!all_digits(d, radix as nat)) by {
                    assert(d[k] == v@[i as int]);
                }
                return None;
            },
            Some(dg) => {
                assert(acc * (radix as u128) <= (u64::MAX as u128) * 16) by (nonlinear_arith)
                    requires
                        acc <= u64::MAX,
                        radix <= 16,
                ;
                let next: u128 = acc * (radix as u128) + (dg as u128);
                assert(all_digits(d.take(k + 1), radix as nat)) by {
                    assert forall|j: int| 0 <= j < k + 1 implies #[trigger] digit_value(
                        d.take(k + 1)[j],
                        radix as nat,
                    ) is Some by {
                        if j < k {
                            assert(d.take(k + 1)[j] == d.take(k)[j]);
                        }
                    }
                }
                if next > max as u128 {
                    proof {
                        if all_digits(d, radix as nat) {
                            lemma_digits_prefix(d, radix as nat, k + 1);
                        }
                    }
                    return None;
                }
                acc = next;
            },
        }
        i = i + 1;
    }
    assert(d.take(d.len() as int) =~= d);
    Some(acc as u64)
}

/// The hexadecimal digit characters, lower case.
pub open spec fn hex_digit_char(d: nat) -> char {
    seq!['0', '1', '2', '3', '4', '5', '6', '7', '8', '9', 'a', 'b', 'c', 'd', 'e', 'f'][d as int]
}

/// The decimal text of `n`, without leading zeros (`{}` of an unsigned
/// integer).
pub open spec fn decimal(n: nat) -> Seq<char>
    decreases n,
{
    if n < 10 {
        seq![hex_digit_char(n)]
    } else {
        decimal(n / 10) + seq![hex_digit_char(n % 10)]
    }
}

/// The last `width` hexadecimal digits of `n`, lower case, zero filled
/// (`{:0width$x}` of a value below `16^width`).
pub open spec fn hex_fixed(n: nat, width: nat) -> Seq<char>
    decreases width,
{
    if width == 0 {
        seq![]
    } else {
        hex_fixed(n / 16, (width - 1) as nat) + seq![hex_digit_char(n % 16)]
    }
}

/// The decimal text of `n` left-filled with `0` to at least `width`
/// characters (`{:0width$}`).
pub open spec fn decimal_padded(n: nat, width: nat) -> Seq<char> {
    let d = decimal(n);
    if d.len() < width {
        Seq::new((width - d.len()) as nat, |i: int| '0') + d
    } else {
        d
    }
}

/// The character of digit `d` (below 16).
pub fn digit_char(d: u64) -> (c: char)
    requires
        d < 16,
    ensures
        c == hex_digit_char(d as nat),
{
    let t: [char; 16] = ['0', '1', '2', '3', '4', '5', '6', '7', '8', '9', 'a', 'b', 'c', 'd', 'e', 'f'];
    let c = t[d as usize];
    assert(c == hex_digit_char(d as nat)) by {
        assert(t@ =~= seq!['0', '1', '2', '3', '4', '5', '6', '7', '8', '9', 'a', 'b', 'c', 'd', 'e', 'f']);
    }
    c
}

/// Append the decimal text of `n`.
pub fn push_decimal(out: &mut Vec<char>, n: u64)
    ensures
        final(out)@ == old(out)@ + decimal(n as nat),
    decreases n,
{
    if n >= 10 {
        push_decimal(out, n / 10);
    }
    out.push(digit_char(n % 10));
}

/// Append the last `width` hexadecimal digits of `n`.
pub fn push_hex_fixed(out: &mut Vec<char>, n: u64, width: u64)
    ensures
        final(out)@ == old(out)@ + hex_fixed(n as nat, width as nat),
    decreases width,
{
    if width > 0 {
        push_hex_fixed(out, n / 16, width - 1);
        out.push(digit_char(n % 16));
    }
}

/// Append the decimal text of `n` left-filled with `0` to `width`.
pub fn push_decimal_padded(out: &mut Vec<char>, n: u64, width: usize)
    ensures
        final(out)@ == old(out)@ + decimal_padded(n as nat, width as nat),
{
    let mut d: Vec<char> = Vec::new();
    push_decimal(&mut d, n);
    assert(d@ =~= decimal(n as nat));
    let ghost start = out@;
    if d.len() < width {
        let fill = width - d.len();
        let mut k: usize = 0;
        while k < fill
            invariant
                k <= fill,
                out@ == start + Seq::new(k as nat, |i: int| '0'),
            decreases fill - k,
        {
            out.push('0');
            k = k + 1;
            assert(out@ =~= start + Seq::new(k as nat, |i: int| '0'));
        }
    }
    let ghost mid = out@;
    let mut j: usize = 0;
    while j < d.len()
        invariant
            j <= d@.len(),
            out@ == mid + d@.take(j as int),
        decreases d@.len() - j,
    {
        out.push(d[j]);
        j = j + 1;
        assert(out@ =~= mid + d@.take(j as int));
    }
    assert(d@.take(d@.len() as int) =~= d@);
    assert(out@ =~= old(out)@ + decimal_padded(n as nat, width as nat));
}

/// A decimal digit or a lower-case hexadecimal letter.
pub open spec fn is_lower_hex(c: char) -> bool {
    ('0' <= c && c <= '9') || ('a' <= c && c <= 'f')
}

/// `16^w`.
pub open spec fn pow16(w: nat) -> nat
    decreases w,
{
    if w == 0 {
        1
    } else {
        16 * pow16((w - 1) as nat)
    }
}

/// The digit characters read back as their values.
pub proof fn lemma_hex_digit(k: nat)
    requires
        k < 16,
    ensures
        digit_value(hex_digit_char(k), 16) == Some(k),
        k < 10 ==> digit_value(hex_digit_char(k), 10) == Some(k),
        k < 10 ==> '0' <= hex_digit_char(k) <= '9',
        is_lower_hex(hex_digit_char(k)),
{
    let t = seq!['0', '1', '2', '3', '4', '5', '6', '7', '8', '9', 'a', 'b', 'c', 'd', 'e', 'f'];
    assert(hex_digit_char(k) == t[k as int]);
    if k == 0 {
        assert(t[0] == '0');
    } else if k == 1 {
        assert(t[1] == '1');
    } else if k == 2 {
        assert(t[2] == '2');
    } else if k == 3 {
        assert(t[3] == '3');
    } else if k == 4 {
        assert(t[4] == '4');
    } else if k == 5 {
        assert(t[5] == '5');
    } else if k == 6 {
        assert(t[6] == '6');
    } else if k == 7 {
        assert(t[7] == '7');
    } else if k == 8 {
        assert(t[8] == '8');
    } else if k == 9 {
        assert(t[9] == '9');
    } else if k == 10 {
        assert(t[10] == 'a');
    } else if k == 11 {
        assert(t[11] == 'b');
    } else if k == 12 {
        assert(t[12] == 'c');
    } else if k == 13 {
        assert(t[13] == 'd');
    } else if k == 14 {
        assert(t[14] == 'e');
    } else {
        assert(t[15] == 'f');
    }
}

proof fn lemma_digits_value_snoc(s: Seq<char>, c: char, radix: nat)
    ensures
        digits_value(s + seq![c], radix) == digits_value(s, radix) * radix + digit_value(
            c,
            radix,
        ).unwrap_or(0),
{
    assert((s + seq![c]).drop_last() =~= s);
}

proof fn lemma_all_digits_snoc(s: Seq<char>, c: char, radix: nat)
    requires
        all_digits(s, radix),
        digit_value(c, radix) is Some,
    ensures
        all_digits(s + seq![c], radix),
{
    assert forall|i: int| 0 <= i < (s + seq![c]).len() implies #[trigger] digit_value(
        (s + seq![c])[i],
        radix,
    ) is Some by {
        if i < s.len() {
            assert((s + seq![c])[i] == s[i]);
        }
    }
}

/// The fixed-width hexadecimal text: its length, its characters and the
/// value it writes.
pub proof fn lemma_hex_fixed(n: nat, w: nat)
    ensures
        hex_fixed(n, w).len() == w,
        all_digits(hex_fixed(n, w), 16),
        forall|i: int| 0 <= i < w ==> is_lower_hex(#[trigger] hex_fixed(n, w)[i]),
        digits_value(hex_fixed(n, w), 16) == n % pow16(w),
        pow16(w) > 0,
    decreases w,
{
    if w > 0 {
        let w1 = (w - 1) as nat;
        lemma_hex_fixed(n / 16, w1);
        lemma_hex_digit(n % 16);
        let h = hex_fixed(n / 16, w1);
        lemma_digits_value_snoc(h, hex_digit_char(n % 16), 16);
        lemma_all_digits_snoc(h, hex_digit_char(n % 16), 16);
        assert forall|i: int| 0 <= i < w implies is_lower_hex(#[trigger] hex_fixed(n, w)[i]) by {
            if i < w1 {
                assert(hex_fixed(n, w)[i] == h[i]);
            }
        }
        vstd::arithmetic::div_mod::lemma_breakdown(n as int, 16, pow16(w1) as int);
    }
}

/// The decimal text: its characters and the value it writes.
pub proof fn lemma_decimal(n: nat)
    ensures
        decimal(n).len() >= 1,
        all_digits(decimal(n), 10),
        forall|i: int| 0 <= i < decimal(n).len() ==> '0' <= #[trigger] decimal(n)[i] <= '9',
        digits_value(decimal(n), 10) == n,
    decreases n,
{
    lemma_hex_digit(n % 10);
    if n < 10 {
        assert(decimal(n) =~= seq![] + seq![hex_digit_char(n)]);
        lemma_digits_value_snoc(seq![], hex_digit_char(n), 10);
        lemma_all_digits_snoc(seq![], hex_digit_char(n), 10);
    } else {
        let d = decimal(n / 10);
        lemma_decimal(n / 10);
        lemma_digits_value_snoc(d, hex_digit_char(n % 10), 10);
        lemma_all_digits_snoc(d, hex_digit_char(n % 10), 10);
        assert forall|i: int| 0 <= i < decimal(n).len() implies '0' <= #[trigger] decimal(n)[i]
            <= '9' by {
            if i < d.len() {
                assert(decimal(n)[i] == d[i]);
            }
        }
    }
}

/// Decimal text parses back to its value.
pub proof fn lemma_parse_decimal(n: nat, max: nat)
    requires
        n <= max,
    ensures
        parse_uint(decimal(n), 10, max) == Some(n),
{
    lemma_decimal(n);
    assert('0' <= decimal(n)[0] <= '9');
}

/// Fixed-width hexadecimal text of a value that fits parses back to it.
pub proof fn lemma_parse_hex_fixed(n: nat, w: nat, max: nat)
    requires
        w > 0,
        n < pow16(w),
        n <= max,
    ensures
        parse_uint(hex_fixed(n, w), 16, max) == Some(n),
{
    lemma_hex_fixed(n, w);
    assert(is_lower_hex(hex_fixed(n, w)[0]));
    vstd::arithmetic::div_mod::lemma_small_mod(n, pow16(w));
}

proof fn lemma_leading_zeros(z: nat, d: Seq<char>)
    requires
        all_digits(d, 10),
    ensures
        all_digits(Seq::new(z, |i: int| '0') + d, 10),
        digits_value(Seq::new(z, |i: int| '0') + d, 10) == digits_value(d, 10),
    decreases d.len(),
{
    let zs = Seq::new(z, |i: int| '0');
    let s = zs + d;
    assert forall|i: int| 0 <= i < s.len() implies #[trigger] digit_value(s[i], 10) is Some by {
        if i >= z {
            assert(s[i] == d[i - z]);
        } else {
            assert(s[i] == '0');
        }
    }
    if d.len() == 0 {
        assert(s =~= zs);
        lemma_zeros_value(z);
    } else {
        let t = d.drop_last();
        assert(all_digits(t, 10)) by {
            assert forall|i: int| 0 <= i < t.len() implies #[trigger] digit_value(t[i], 10) is Some by {
                assert(t[i] == d[i]);
            }
        }
        lemma_leading_zeros(z, t);
        assert(s.drop_last() =~= zs + t);
        assert(s.last() == d.last());
    }
}

proof fn lemma_zeros_value(z: nat)
    ensures
        digits_value(Seq::new(z, |i: int| '0'), 10) == 0,
    decreases z,
{
    if z > 0 {
        let s = Seq::new(z, |i: int| '0');
        assert(s.drop_last() =~= Seq::new((z - 1) as nat, |i: int| '0'));
        lemma_zeros_value((z - 1) as nat);
        assert(s.last() == '0');
    }
}

/// Zero-filled decimal text parses back to its value.
pub proof fn lemma_parse_decimal_padded(n: nat, w: nat, max: nat)
    requires
        n <= max,
    ensures
        parse_uint(decimal_padded(n, w), 10, max) == Some(n),
        forall|i: int| 0 <= i < decimal_padded(n, w).len() ==> '0' <= #[trigger] decimal_padded(n, w)[i] <= '9',
{
    lemma_decimal(n);
    let d = decimal(n);
    if d.len() < w {
        let z = (w - d.len()) as nat;
        lemma_leading_zeros(z, d);
        let s = Seq::new(z, |i: int| '0') + d;
        assert(s[0] == '0');
        assert forall|i: int| 0 <= i < s.len() implies '0' <= #[trigger] s[i] <= '9' by {
            if i >= z {
                assert(s[i] == d[i - z]);
            }
        }
    } else {
        assert('0' <= d[0] <= '9');
    }
}

} // verus!
