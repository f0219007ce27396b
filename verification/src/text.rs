//! Decimal and hexadecimal text forms of integers.

use vstd::prelude::*;

verus! {

/// Is `c` one of the ASCII decimal digits.
pub open spec fn is_digit(c: char) -> bool {
    '0' <= c && c <= '9'
}

/// The value of a decimal digit.
pub open spec fn digit_value(c: char) -> nat {
    (c as int - '0' as int) as nat
}

/// Are all characters of `s` decimal digits.
pub open spec fn all_digits(s: Seq<char>) -> bool {
    forall|i: int| 0 <= i < s.len() ==> #[trigger] is_digit(s[i])
}

/// The number written by the decimal digits `s` (most significant first).
pub open spec fn digits_value(s: Seq<char>) -> nat
    decreases s.len(),
{
    if s.len() == 0 {
        0
    } else {
        digits_value(s.drop_last()) * 10 + digit_value(s.last())
    }
}

/// What `u32::from_str` accepts and returns: an optional `+` sign followed by
/// at least one decimal digit, with a value that fits in a `u32`.
pub open spec fn parse_u32_spec(s: Seq<char>) -> Option<u32> {
    let digits = if s.len() > 0 && s[0] == '+' { s.drop_first() } else { s };
    if digits.len() > 0 && all_digits(digits) && digits_value(digits) <= u32::MAX {
        Some(digits_value(digits) as u32)
    } else {
        None
    }
}

/// The character of the decimal digit `d < 10`.
pub open spec fn digit_char(d: nat) -> char {
    ('0' as int + d) as char
}

/// The shortest decimal form of `n`.
pub open spec fn decimal(n: nat) -> Seq<char>
    decreases n,
{
    if n < 10 {
        seq![digit_char(n)]
    } else {
        decimal(n / 10) + seq![digit_char(n % 10)]
    }
}

proof fn lemma_digits_prefix(s: Seq<char>, i: int)
    requires
        0 <= i < s.len(),
    ensures
        s.subrange(0, i + 1).drop_last() == s.subrange(0, i),
        s.subrange(0, i + 1).last() == s[i],
{
    assert(s.subrange(0, i + 1).drop_last() =~= s.subrange(0, i));
}

/// Every value of `digits_value` on `k` digits is below `10^k`; used to bound
/// the running value while parsing.
proof fn lemma_digits_value_mono(s: Seq<char>, i: int)
    requires
        0 <= i <= s.len(),
        all_digits(s),
    ensures
        digits_value(s.subrange(0, i)) <= digits_value(s),
    decreases s.len() - i,
{
    if i < s.len() {
        lemma_digits_value_mono(s, i + 1);
        lemma_digits_prefix(s, i);
        assert(is_digit(s[i]));
    } else {
        assert(s.subrange(0, i) =~= s);
    }
}

/// Parses a `u32` the way `u32::from_str` does.
pub fn parse_u32(s: &str) -> (r: Option<u32>)
    ensures
        r == parse_u32_spec(s@),
{
    let chars = str_to_chars(s);
    let r = parse_u32_chars(&chars, 0, chars.len());
    assert(chars@.subrange(0, chars@.len() as int) =~= s@);
    r
}

/// Parses `c[lo..hi]` as a `u32` the way `u32::from_str` does.
pub fn parse_u32_chars(c: &Vec<char>, lo: usize, hi: usize) -> (r: Option<u32>)
    requires
        lo <= hi <= c@.len(),
    ensures
        r == parse_u32_spec(c@.subrange(lo as int, hi as int)),
{
    let ghost s = c@.subrange(lo as int, hi as int);
    let n = hi;
    let mut start: usize = lo;
    if lo < hi && c[lo] == '+' {
        start = lo + 1;
    }
    let ghost digits = if s.len() > 0 && s[0] == '+' { s.drop_first() } else { s };
    assert(digits =~= c@.subrange(start as int, n as int));
    if start >= n {
        return None;
    }
    let mut value: u64 = 0;
    let mut i: usize = start;
    while i < n
        invariant
            start <= i <= n <= c@.len(),
            lo <= start < n,
            n == hi,
            s == c@.subrange(lo as int, hi as int),
            digits =~= c@.subrange(start as int, n as int),
            digits == (if s.len() > 0 && s[0] == '+' { s.drop_first() } else { s }),
            all_digits(digits.subrange(0, i - start)),
            value == digits_value(digits.subrange(0, i - start)),
            value <= u32::MAX,
        decreases n - i,
    {
        let ch = c[i];
        proof {
            lemma_digits_prefix(digits, i - start);
        }
        if !('0' <= ch && ch <= '9') {
            assert(!all_digits(digits)) by {
                assert(!is_digit(digits[i - start]));
            }
            return None;
        }
        let d = (ch as u64) - ('0' as u64);
        value = value * 10 + d;
        i = i + 1;
        assert(value == digits_value(digits.subrange(0, i - start)));
        assert(all_digits(digits.subrange(0, i - start))) by {
            assert forall|j: int| 0 <= j < i - start implies #[trigger] is_digit(
                digits.subrange(0, i - start)[j],
            ) by {
                if j < i - 1 - start {
                    assert(digits.subrange(0, i - start)[j] == digits.subrange(
                        0,
                        i - 1 - start,
                    )[j]);
                }
            }
        }
        if value > 0xffff_ffff {
            proof {
                let k = i - start;
                if all_digits(digits) {
                    lemma_digits_value_mono(digits, k);
                }
            }
            return None;
        }
    }
    assert(digits.subrange(0, n - start) =~= digits);
    Some(value as u32)
}

/// The parts of `s` between the characters on which `at` holds, as
/// `str::split` yields them (so there is always at least one part).
pub open spec fn split_where(s: Seq<char>, at: spec_fn(char) -> bool) -> Seq<Seq<char>>
    decreases s.len(),
{
    if s.len() == 0 {
        seq![Seq::empty()]
    } else {
        let parts = split_where(s.drop_last(), at);
        if at(s.last()) {
            parts.push(Seq::empty())
        } else {
            parts.update(parts.len() - 1, parts.last().push(s.last()))
        }
    }
}

/// Splitting gives at least one part.
pub proof fn lemma_split_len(s: Seq<char>, at: spec_fn(char) -> bool)
    ensures
        split_where(s, at).len() >= 1,
    decreases s.len(),
{
    if s.len() > 0 {
        lemma_split_len(s.drop_last(), at);
    }
}

/// Splitting text joined at a separator splits each side.
pub proof fn lemma_split_join(a: Seq<char>, b: Seq<char>, sep: char, at: spec_fn(char) -> bool)
    requires
        at(sep),
    ensures
        split_where(a + seq![sep] + b, at) == split_where(a, at) + split_where(b, at),
    decreases b.len(),
{
    lemma_split_len(b, at);
    if b.len() == 0 {
        assert(a + seq![sep] + b =~= (a + seq![sep]));
        assert((a + seq![sep]).drop_last() =~= a);
        assert(split_where(a, at) + split_where(b, at) =~= split_where(a, at).push(Seq::empty()));
    } else {
        let s = a + seq![sep] + b;
        lemma_split_join(a, b.drop_last(), sep, at);
        assert(s.drop_last() =~= a + seq![sep] + b.drop_last());
        assert(s.last() == b.last());
        lemma_split_len(b.drop_last(), at);
        let left = split_where(a, at);
        let right = split_where(b.drop_last(), at);
        if at(b.last()) {
            assert((left + right).push(Seq::empty()) =~= left + right.push(Seq::empty()));
        } else {
            let whole = left + right;
            assert(whole.update(whole.len() - 1, whole.last().push(b.last())) =~= left + right.update(
                right.len() - 1,
                right.last().push(b.last()),
            ));
        }
    }
}

/// Text with no separator is a single part.
pub proof fn lemma_split_single(s: Seq<char>, at: spec_fn(char) -> bool)
    requires
        forall|i: int| 0 <= i < s.len() ==> !at(#[trigger] s[i]),
    ensures
        split_where(s, at) == seq![s],
    decreases s.len(),
{
    if s.len() > 0 {
        lemma_split_single(s.drop_last(), at);
        assert(!at(s[s.len() - 1]));
        assert(s.drop_last().push(s.last()) =~= s);
        assert(seq![s.drop_last()].update(0, s.drop_last().push(s.last())) =~= seq![s]);
    } else {
        assert(s =~= Seq::<char>::empty());
    }
}

} // verus!

verus! {

/// The characters `c[lo..hi]` as a string.
pub fn sub_string(c: &Vec<char>, lo: usize, hi: usize) -> (r: String)
    requires
        lo <= hi <= c@.len(),
    ensures
        r@ == c@.subrange(lo as int, hi as int),
{
    let mut v: Vec<char> = Vec::new();
    let mut i: usize = lo;
    while i < hi
        invariant
            lo <= i <= hi <= c@.len(),
            v@ == c@.subrange(lo as int, i as int),
        decreases hi - i,
    {
        v.push(c[i]);
        i = i + 1;
        assert(v@ =~= c@.subrange(lo as int, i as int));
    }
    chars_to_string(v.as_slice())
}

/// The characters of `s`, in order.
pub fn str_to_chars(s: &str) -> (r: Vec<char>)
    ensures
        r@ == s@,
{
    let mut v: Vec<char> = Vec::new();
    for c in iter: s.chars()
        invariant
            v@ == iter.seq().take(iter.index() as int),
    {
        v.push(c);
    }
    v
}

} // verus!

verus! {

/// `String::from_iter` over characters: the string made of exactly these
/// characters, in order.
#[verifier::external_body]
pub fn chars_to_string(v: &[char]) -> (r: String)
    ensures
        r@ == v@,
{
    v.iter().collect()
}

/// The ASCII character of the decimal digit `d`.
pub fn digit_to_char(d: u32) -> (c: char)
    requires
        d < 10,
    ensures
        c == digit_char(d as nat),
{
    let b: u8 = (d as u8) + 48;
    b as char
}

/// Appends the decimal form of `n`.
pub fn push_decimal(out: &mut Vec<char>, n: u64)
    ensures
        final(out)@ == old(out)@ + decimal(n as nat),
    decreases n,
{
    if n >= 10 {
        push_decimal(out, n / 10);
    }
    let c = digit_to_char((n % 10) as u32);
    out.push(c);
}

/// The decimal form of a number holds only digits, does not start with `+`
/// and reads back as the number.
pub proof fn lemma_decimal_digits(n: nat)
    ensures
        decimal(n).len() > 0,
        all_digits(decimal(n)),
        digits_value(decimal(n)) == n,
        decimal(n)[0] != '+',
    decreases n,
{
    if n >= 10 {
        lemma_decimal_digits(n / 10);
        let d = decimal(n);
        assert(d.drop_last() =~= decimal(n / 10));
        assert(forall|i: int| 0 <= i < d.len() - 1 ==> d[i] == decimal(n / 10)[i]);
        assert(d.last() == digit_char(n % 10));
        assert(digit_value(digit_char(n % 10)) == n % 10);
        assert(n == (n / 10) * 10 + n % 10);
        assert(digits_value(d) == digits_value(d.drop_last()) * 10 + digit_value(d.last()));
    } else {
        let d = decimal(n);
        assert(d.drop_last() =~= Seq::<char>::empty());
        assert(digits_value(d.drop_last()) == 0);
        assert(digit_value(digit_char(n)) == n);
    }
}

/// Law: `u32::from_str` reads back what `u32::to_string` writes.
pub proof fn lemma_parse_decimal(n: u32)
    ensures
        parse_u32_spec(decimal(n as nat)) == Some(n),
{
    lemma_decimal_digits(n as nat);
}

/// The ASCII character of the lower-case hexadecimal digit `d < 16`.
pub open spec fn hex_char(d: nat) -> char {
    if d < 10 {
        digit_char(d)
    } else {
        ('a' as int + d - 10) as char
    }
}

/// Lower-case hexadecimal form of bytes, two digits per byte, as
/// `{:02x}` writes each byte.
pub open spec fn hex_lower(b: Seq<u8>) -> Seq<char>
    decreases b.len(),
{
    if b.len() == 0 {
        Seq::empty()
    } else {
        hex_lower(b.drop_last()) + seq![hex_char(b.last() as nat / 16), hex_char(b.last() as nat % 16)]
    }
}

/// The value of a hexadecimal digit of either case, as `char::to_digit(16)`
/// gives it.
pub open spec fn hex_value(c: char) -> Option<nat> {
    if '0' <= c && c <= '9' {
        Some((c as int - '0' as int) as nat)
    } else if 'a' <= c && c <= 'f' {
        Some((c as int - 'a' as int + 10) as nat)
    } else if 'A' <= c && c <= 'F' {
        Some((c as int - 'A' as int + 10) as nat)
    } else {
        None
    }
}

/// Decoding of a hexadecimal string, two digits per byte, first digit the
/// high nibble; `None` for an odd length or a character that is no
/// hexadecimal digit.
pub open spec fn hex_decode(s: Seq<char>) -> Option<Seq<u8>> {
    if s.len() % 2 == 0 && (forall|i: int| 0 <= i < s.len() ==> (#[trigger] hex_value(s[i])) is Some) {
        Some(
            Seq::new(
                s.len() / 2,
                |i: int| (16 * hex_value(s[2 * i])->0 + hex_value(s[2 * i + 1])->0) as u8,
            ),
        )
    } else {
        None
    }
}

/// The lower-case hexadecimal digit of `d`.
fn hex_digit_to_char(d: u8) -> (c: char)
    requires
        d < 16,
    ensures
        c == hex_char(d as nat),
{
    if d < 10 {
        (d + 48) as char
    } else {
        (d + 87) as char
    }
}

/// Appends the lower-case hexadecimal form of `bytes`.
pub fn push_hex_lower(out: &mut Vec<char>, bytes: &[u8])
    ensures
        final(out)@ == old(out)@ + hex_lower(bytes@),
{
    let ghost start = out@;
    let mut i: usize = 0;
    while i < bytes.len()
        invariant
            i <= bytes@.len(),
            out@ == start + hex_lower(bytes@.subrange(0, i as int)),
        decreases bytes.len() - i,
    {
        let b = bytes[i];
        out.push(hex_digit_to_char(b / 16));
        out.push(hex_digit_to_char(b % 16));
        proof {
            let pre = bytes@.subrange(0, i + 1);
            assert(pre.drop_last() =~= bytes@.subrange(0, i as int));
            assert(pre.last() == b);
        }
        i = i + 1;
        assert(out@ =~= start + hex_lower(bytes@.subrange(0, i as int)));
    }
    assert(bytes@.subrange(0, i as int) =~= bytes@);
}

pub proof fn lemma_hex_lower_shape(b: Seq<u8>)
    ensures
        hex_lower(b).len() == 2 * b.len(),
        forall|i: int|
            0 <= i < b.len() ==> #[trigger] hex_lower(b)[2 * i] == hex_char(b[i] as nat / 16)
                && hex_lower(b)[2 * i + 1] == hex_char(b[i] as nat % 16),
    decreases b.len(),
{
    if b.len() > 0 {
        lemma_hex_lower_shape(b.drop_last());
        let h = hex_lower(b);
        assert forall|i: int| 0 <= i < b.len() implies #[trigger] h[2 * i] == hex_char(
            b[i] as nat / 16,
        ) && h[2 * i + 1] == hex_char(b[i] as nat % 16) by {
            if i < b.len() - 1 {
                assert(b.drop_last()[i] == b[i]);
                assert(h[2 * i] == hex_lower(b.drop_last())[2 * i]);
                assert(h[2 * i + 1] == hex_lower(b.drop_last())[2 * i + 1]);
            }
        }
    }
}

/// Law: hexadecimal text written by `hex_lower` decodes back to the bytes.
pub proof fn lemma_hex_roundtrip(b: Seq<u8>)
    ensures
        hex_decode(hex_lower(b)) == Some(b),
{
    lemma_hex_lower_shape(b);
    let h = hex_lower(b);
    assert forall|i: int| 0 <= i < h.len() implies (#[trigger] hex_value(h[i])) is Some by {
        let j = i / 2;
        assert(i == 2 * j || i == 2 * j + 1);
        assert(h[2 * j] == hex_char(b[j] as nat / 16));
    }
    let d = hex_decode(h)->0;
    assert forall|j: int| 0 <= j < b.len() implies #[trigger] d[j] == b[j] by {
        assert(h[2 * j] == hex_char(b[j] as nat / 16));
        assert(h[2 * j + 1] == hex_char(b[j] as nat % 16));
    }
    assert(d =~= b);
}

} // verus!

verus! {

/// Appends the characters of `s`.
pub fn push_str(out: &mut Vec<char>, s: &str)
    ensures
        final(out)@ == old(out)@ + s@,
{
    let mut v = str_to_chars(s);
    out.append(&mut v);
}

} // verus!
