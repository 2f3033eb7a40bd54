//! Decimal and hexadecimal text for unsigned integers, with proofs that
//! formatting and parsing invert each other. The wire codec and the report
//! assembly build on these.

use vstd::prelude::*;

verus! {

/// The character for one decimal digit value.
pub open spec fn dec_digit_char(d: int) -> char {
    if d == 0 {
        '0'
    } else if d == 1 {
        '1'
    } else if d == 2 {
        '2'
    } else if d == 3 {
        '3'
    } else if d == 4 {
        '4'
    } else if d == 5 {
        '5'
    } else if d == 6 {
        '6'
    } else if d == 7 {
        '7'
    } else if d == 8 {
        '8'
    } else {
        '9'
    }
}

/// Whether a character is a decimal digit.
pub open spec fn is_dec_digit(c: char) -> bool {
    48 <= c as int <= 57
}

/// The numeric value of a decimal digit character.
pub open spec fn dec_digit_val(c: char) -> int {
    c as int - 48
}

/// The decimal text of a natural number, most significant digit first,
/// without leading zeros (a single `'0'` for zero).
pub open spec fn dec_str(n: nat) -> Seq<char>
    decreases n,
{
    if n < 10 {
        seq![dec_digit_char(n as int)]
    } else {
        dec_str(n / 10).push(dec_digit_char((n % 10) as int))
    }
}

/// The value of a digit string, most significant digit first.
pub open spec fn dec_val(s: Seq<char>) -> int
    decreases s.len(),
{
    if s.len() == 0 {
        0
    } else {
        dec_val(s.drop_last()) * 10 + dec_digit_val(s.last())
    }
}

/// Digit characters carry their digit value and nothing else does.
pub proof fn lemma_dec_digit_char_val(d: int)
    requires
        0 <= d <= 9,
    ensures
        is_dec_digit(dec_digit_char(d)),
        dec_digit_val(dec_digit_char(d)) == d,
{
}

/// Every character of `dec_str(n)` is a decimal digit, the text is
/// non-empty, and its value is `n`.
pub proof fn lemma_dec_str_val(n: nat)
    ensures
        dec_str(n).len() >= 1,
        forall|i: int| 0 <= i < dec_str(n).len() ==> is_dec_digit(dec_str(n)[i]),
        dec_val(dec_str(n)) == n,
    decreases n,
{
    if n < 10 {
        lemma_dec_digit_char_val(n as int);
        let s = dec_str(n);
        assert(s =~= seq![dec_digit_char(n as int)]);
        assert(s.drop_last() =~= Seq::<char>::empty());
        assert(dec_val(s.drop_last()) == 0);
        assert(s.last() == dec_digit_char(n as int));
        assert(dec_val(s) == dec_digit_val(dec_digit_char(n as int)));
    } else {
        lemma_dec_str_val(n / 10);
        let c = dec_digit_char((n % 10) as int);
        lemma_dec_digit_char_val((n % 10) as int);
        lemma_dec_val_push(dec_str(n / 10), c);
        vstd::arithmetic::div_mod::lemma_fundamental_div_mod(n as int, 10);
        let s = dec_str(n);
        assert(s == dec_str(n / 10).push(c));
        assert(dec_val(s) == dec_val(dec_str(n / 10)) * 10 + dec_digit_val(c));
        assert(dec_val(s) == n);
        assert(forall|i: int|
            0 <= i < s.len() ==> is_dec_digit(#[trigger] s[i])) by {
            assert(forall|i: int|
                0 <= i < s.len() - 1 ==> #[trigger] s[i] == dec_str(n / 10)[i]);
            assert(s[s.len() - 1] == c);
        }
    }
}

/// Extending a digit string by one digit multiplies its value by ten and
/// adds the digit.
pub proof fn lemma_dec_val_push(s: Seq<char>, c: char)
    ensures
        dec_val(s.push(c)) == dec_val(s) * 10 + dec_digit_val(c),
{
    assert(s.push(c).drop_last() =~= s);
    assert(s.push(c).last() == c);
}

/// Appends the decimal text of `n` to a character vector.
pub(crate) fn push_dec_u64(out: &mut Vec<char>, n: u64)
    ensures
        final(out)@ == old(out)@ + dec_str(n as nat),
    decreases n,
{
    if n < 10 {
        let c: char = match n {
            0 => '0',
            1 => '1',
            2 => '2',
            3 => '3',
            4 => '4',
            5 => '5',
            6 => '6',
            7 => '7',
            8 => '8',
            _ => '9',
        };
        out.push(c);
        assert(out@ =~= old(out)@ + dec_str(n as nat));
    } else {
        push_dec_u64(out, n / 10);
        let d = n % 10;
        let c: char = match d {
            0 => '0',
            1 => '1',
            2 => '2',
            3 => '3',
            4 => '4',
            5 => '5',
            6 => '6',
            7 => '7',
            8 => '8',
            _ => '9',
        };
        out.push(c);
        assert(out@ =~= old(out)@ + dec_str(n as nat));
    }
}


/// A digit character is the digit character of its value.
pub proof fn lemma_dec_digit_char_inverse(c: char)
    requires
        is_dec_digit(c),
    ensures
        dec_digit_char(dec_digit_val(c)) == c,
{
    crate::text::lemma_char_bounds(c);
    if c as int == 48 {
        assert(c == '0');
    } else if c as int == 49 {
        assert(c == '1');
    } else if c as int == 50 {
        assert(c == '2');
    } else if c as int == 51 {
        assert(c == '3');
    } else if c as int == 52 {
        assert(c == '4');
    } else if c as int == 53 {
        assert(c == '5');
    } else if c as int == 54 {
        assert(c == '6');
    } else if c as int == 55 {
        assert(c == '7');
    } else if c as int == 56 {
        assert(c == '8');
    } else {
        assert(c == '9');
    }
}

/// Splitting a digit string anywhere splits its value positionally.
pub proof fn lemma_dec_val_concat(a: Seq<char>, b: Seq<char>)
    ensures
        dec_val(a + b) == dec_val(a) * pow10(b.len() as nat) + dec_val(b),
    decreases b.len(),
{
    if b.len() == 0 {
        assert(a + b =~= a);
    } else {
        lemma_dec_val_concat(a, b.drop_last());
        assert((a + b).drop_last() =~= a + b.drop_last());
        assert((a + b).last() == b.last());
        assert(dec_val(a + b) == dec_val(a + b.drop_last()) * 10 + dec_digit_val(b.last()));
        assert(pow10(b.len() as nat) == 10 * pow10((b.len() - 1) as nat));
        assert(dec_val(a) * pow10((b.len() - 1) as nat) * 10 == dec_val(a) * pow10(
            b.len() as nat,
        )) by (nonlinear_arith)
            requires
                pow10(b.len() as nat) == 10 * pow10((b.len() - 1) as nat),
        ;
    }
}

/// A digit string without a leading zero is the decimal text of its value.
pub proof fn lemma_canonical_digits(d: Seq<char>)
    requires
        d.len() >= 1,
        forall|i: int| 0 <= i < d.len() ==> is_dec_digit(d[i]),
        d.len() > 1 ==> d[0] != '0',
    ensures
        dec_str(dec_val(d) as nat) == d,
    decreases d.len(),
{
    reveal_with_fuel(dec_val, 3);
    lemma_dec_val_upper(d);
    let v = dec_val(d);
    if d.len() == 1 {
        lemma_dec_digit_char_inverse(d[0]);
        assert(d.drop_last() =~= Seq::<char>::empty());
        assert(v == dec_digit_val(d[0]));
        assert(dec_str(v as nat) =~= seq![dec_digit_char(v)]);
        assert(dec_str(v as nat) =~= d);
    } else {
        let p = d.drop_last();
        assert(forall|i: int| 0 <= i < p.len() ==> p[i] == d[i]);
        lemma_canonical_digits(p);
        lemma_dec_digit_char_inverse(d.last());
        let pv = dec_val(p);
        assert(v == pv * 10 + dec_digit_val(d.last()));
        assert(pv >= 1) by {
            if pv == 0 {
                lemma_zero_value_digits(p);
            }
        }
        assert(v >= 10);
        vstd::arithmetic::div_mod::lemma_fundamental_div_mod_converse(
            v,
            10,
            pv,
            dec_digit_val(d.last()),
        );
        assert(v / 10 == pv && v % 10 == dec_digit_val(d.last()));
        assert(dec_str(v as nat) == dec_str(pv as nat).push(dec_digit_char(v % 10)));
        assert(dec_str(v as nat) =~= d);
    }
}

/// A digit string with value zero is all zero characters.
proof fn lemma_zero_value_digits(d: Seq<char>)
    requires
        d.len() >= 1,
        forall|i: int| 0 <= i < d.len() ==> is_dec_digit(d[i]),
        dec_val(d) == 0,
    ensures
        d[0] == '0',
    decreases d.len(),
{
    reveal_with_fuel(dec_val, 3);
    lemma_dec_val_upper(d.drop_last());
    assert(dec_val(d) == dec_val(d.drop_last()) * 10 + dec_digit_val(d.last()));
    if d.len() == 1 {
        lemma_dec_digit_char_inverse(d[0]);
        assert(dec_digit_val(d[0]) == 0);
        assert(d[0] == '0');
    } else {
        assert(dec_val(d.drop_last()) == 0);
        lemma_zero_value_digits(d.drop_last());
        assert(d[0] == d.drop_last()[0]);
    }
}

/// Two digit strings of one length and one value are the same string.
pub proof fn lemma_fixed_width_digits_unique(a: Seq<char>, b: Seq<char>)
    requires
        a.len() == b.len(),
        forall|i: int| 0 <= i < a.len() ==> is_dec_digit(a[i]),
        forall|i: int| 0 <= i < b.len() ==> is_dec_digit(b[i]),
        dec_val(a) == dec_val(b),
    ensures
        a == b,
    decreases a.len(),
{
    reveal_with_fuel(dec_val, 3);
    if a.len() == 0 {
        assert(a =~= b);
    } else {
        lemma_dec_val_upper(a.drop_last());
        lemma_dec_val_upper(b.drop_last());
        let va = dec_val(a.drop_last());
        let vb = dec_val(b.drop_last());
        let da = dec_digit_val(a.last());
        let db = dec_digit_val(b.last());
        vstd::arithmetic::div_mod::lemma_fundamental_div_mod_converse(dec_val(a), 10, va, da);
        vstd::arithmetic::div_mod::lemma_fundamental_div_mod_converse(dec_val(b), 10, vb, db);
        assert(va == vb && da == db);
        lemma_dec_digit_char_inverse(a.last());
        lemma_dec_digit_char_inverse(b.last());
        assert(a.last() == b.last());
        lemma_fixed_width_digits_unique(a.drop_last(), b.drop_last());
        assert(a =~= a.drop_last().push(a.last()));
        assert(b =~= b.drop_last().push(b.last()));
    }
}

/// Powers of ten.
pub open spec fn pow10(k: nat) -> int
    decreases k,
{
    if k == 0 {
        1
    } else {
        10 * pow10((k - 1) as nat)
    }
}


/// Every power of ten is positive.
pub proof fn lemma_pow10_pos(k: nat)
    ensures
        pow10(k) >= 1,
    decreases k,
{
    if k > 0 {
        lemma_pow10_pos((k - 1) as nat);
    }
}

/// A number's decimal text never starts with a zero digit unless it is the
/// single digit zero.
pub proof fn lemma_dec_str_no_leading_zero(n: nat)
    ensures
        n >= 10 ==> dec_str(n)[0] != '0',
        n >= 1 ==> dec_str(n)[0] != '0',
    decreases n,
{
    if n >= 10 {
        lemma_dec_str_no_leading_zero(n / 10);
        lemma_dec_str_val(n / 10);
        assert(dec_str(n)[0] == dec_str(n / 10)[0]);
    } else if n >= 1 {
        assert(dec_str(n) =~= seq![dec_digit_char(n as int)]);
    }
}

/// Whether every character in `s[a..b]` is a decimal digit.
pub open spec fn digits_in(s: Seq<char>, a: int, b: int) -> bool {
    forall|i: int| a <= i < b ==> is_dec_digit(#[trigger] s[i])
}

/// A digit string's value stays below ten to the power of its length.
pub proof fn lemma_dec_val_upper(s: Seq<char>)
    requires
        forall|i: int| 0 <= i < s.len() ==> is_dec_digit(s[i]),
    ensures
        0 <= dec_val(s) < pow10(s.len()),
    decreases s.len(),
{
    if s.len() > 0 {
        lemma_dec_val_upper(s.drop_last());
    }
}

/// The first powers of ten stay small enough for 32-bit accumulation.
pub proof fn lemma_pow10_small(k: nat)
    requires
        k <= 8,
    ensures
        1 <= pow10(k) <= 100000000,
{
    assert(pow10(0) == 1);
    assert(pow10(1) == 10);
    assert(pow10(2) == 100);
    assert(pow10(3) == 1000);
    assert(pow10(4) == 10000);
    assert(pow10(5) == 100000);
    assert(pow10(6) == 1000000);
    assert(pow10(7) == 10000000);
    assert(pow10(8) == 100000000);
}

/// Reads the decimal value of `v[start..end]`; `None` when any character in
/// that span is not a digit.
pub(crate) fn parse_digits_u32(v: &Vec<char>, start: usize, end: usize) -> (r: Option<u32>)
    requires
        start <= end <= v@.len(),
        end - start <= 9,
    ensures
        match r {
            Some(n) => digits_in(v@, start as int, end as int) && n == dec_val(
                v@.subrange(start as int, end as int),
            ),
            None => !digits_in(v@, start as int, end as int),
        },
{
    let mut acc: u32 = 0;
    let mut i: usize = start;
    assert(v@.subrange(start as int, start as int) =~= Seq::<char>::empty());
    while i < end
        invariant
            start <= i <= end <= v@.len(),
            end - start <= 9,
            digits_in(v@, start as int, i as int),
            acc == dec_val(v@.subrange(start as int, i as int)),
            acc < pow10((i - start) as nat),
        decreases end - i,
    {
        let c = v[i];
        let u = c as u32;
        proof {
            crate::text::lemma_char_bounds(c);
        }
        if u < 48 || u > 57 {
            assert(!is_dec_digit(v@[i as int]));
            return None;
        }
        let d = u - 48;
        proof {
            lemma_pow10_small((i - start) as nat);
            assert(pow10((i + 1 - start) as nat) == 10 * pow10((i - start) as nat));
            lemma_dec_val_push(v@.subrange(start as int, i as int), c);
            assert(v@.subrange(start as int, i + 1 as int) =~= v@.subrange(
                start as int,
                i as int,
            ).push(v@[i as int]));
        }
        acc = acc * 10 + d;
        i = i + 1;
    }
    Some(acc)
}

/// The decimal text of a number, as a string.
pub fn u64_to_string(n: u64) -> (r: String)
    ensures
        r@ == dec_str(n as nat),
{
    let mut v: Vec<char> = Vec::new();
    push_dec_u64(&mut v, n);
    crate::text::chars_to_string(&v)
}

/// The character for one hexadecimal digit value, upper case.
pub open spec fn hex_digit_char(d: int) -> char {
    if d < 10 {
        dec_digit_char(d)
    } else if d == 10 {
        'A'
    } else if d == 11 {
        'B'
    } else if d == 12 {
        'C'
    } else if d == 13 {
        'D'
    } else if d == 14 {
        'E'
    } else {
        'F'
    }
}

/// The two upper-case hexadecimal digits of a byte.
pub open spec fn hex_byte(b: u8) -> Seq<char> {
    seq![hex_digit_char(b as int / 16), hex_digit_char(b as int % 16)]
}

/// Appends the two upper-case hexadecimal digits of a byte.
pub(crate) fn push_hex_byte(out: &mut Vec<char>, b: u8)
    ensures
        final(out)@ == old(out)@ + hex_byte(b),
{
    let hi = b / 16;
    let lo = b % 16;
    out.push(hex_char_of_nibble(hi));
    out.push(hex_char_of_nibble(lo));
    assert(out@ =~= old(out)@ + hex_byte(b));
}

/// The upper-case hexadecimal digit for a value below sixteen.
pub(crate) fn hex_char_of_nibble(d: u8) -> (c: char)
    requires
        d < 16,
    ensures
        c == hex_digit_char(d as int),
{
    match d {
        0 => '0',
        1 => '1',
        2 => '2',
        3 => '3',
        4 => '4',
        5 => '5',
        6 => '6',
        7 => '7',
        8 => '8',
        9 => '9',
        10 => 'A',
        11 => 'B',
        12 => 'C',
        13 => 'D',
        14 => 'E',
        _ => 'F',
    }
}

} // verus!
