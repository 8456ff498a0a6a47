//! Small text helpers: numbers written out in decimal, hex and binary, and
//! substring search, with what they produce stated over character sequences.

use vstd::prelude::*;

verus! {

/// The character of a digit value below 16 (lower-case hex letters).
pub open spec fn digit_char(d: nat) -> char {
    if d < 10 {
        (('0' as u32) + d) as char
    } else {
        (('a' as u32) + (d - 10)) as char
    }
}

/// `n` written in decimal, without leading zeros.
pub open spec fn decimal(n: nat) -> Seq<char>
    decreases n,
{
    if n < 10 {
        seq![digit_char(n)]
    } else {
        decimal(n / 10) + seq![digit_char(n % 10)]
    }
}

/// A byte as exactly two lower-case hex digits.
pub open spec fn hex2(b: u8) -> Seq<char> {
    seq![digit_char((b / 16) as nat), digit_char((b % 16) as nat)]
}

/// Bit `i` (0 = least significant) of a byte.
pub open spec fn byte_bit(b: u8, i: int) -> nat {
    ((b as int / pow2(i)) % 2) as nat
}

pub open spec fn pow2(i: int) -> int
    decreases i,
{
    if i <= 0 {
        1
    } else {
        2 * pow2(i - 1)
    }
}

/// The lowest `width` bits of `b`, most significant first, as '0'/'1'.
pub open spec fn binary_digits(b: u8, width: int) -> Seq<char>
    decreases width,
{
    if width <= 0 {
        seq![]
    } else {
        binary_digits(b, width - 1).insert(0, digit_char(byte_bit(b, width - 1)))
    }
}

/// A byte as exactly eight binary digits.
pub open spec fn bin8(b: u8) -> Seq<char> {
    binary_digits(b, 8)
}

/// Whether `needle` occurs as a contiguous run inside `hay`.
pub open spec fn contains_sub(hay: Seq<char>, needle: Seq<char>) -> bool {
    exists|i: int| 0 <= i <= hay.len() - needle.len() && #[trigger] hay.subrange(i, i + needle.len()) == needle
}

/// The one-character string of a digit value below 16.
fn digit_str(d: u8) -> (s: &'static str)
    requires
        d < 16,
    ensures
        s@ == seq![digit_char(d as nat)],
{
    proof {
        reveal_strlit("0");
        reveal_strlit("1");
        reveal_strlit("2");
        reveal_strlit("3");
        reveal_strlit("4");
        reveal_strlit("5");
        reveal_strlit("6");
        reveal_strlit("7");
        reveal_strlit("8");
        reveal_strlit("9");
        reveal_strlit("a");
        reveal_strlit("b");
        reveal_strlit("c");
        reveal_strlit("d");
        reveal_strlit("e");
        reveal_strlit("f");
    }
    match d {
        0 => "0",
        1 => "1",
        2 => "2",
        3 => "3",
        4 => "4",
        5 => "5",
        6 => "6",
        7 => "7",
        8 => "8",
        9 => "9",
        10 => "a",
        11 => "b",
        12 => "c",
        13 => "d",
        14 => "e",
        _ => "f",
    }
}

/// Appends `n` in decimal to `s`.
pub fn push_decimal(s: &mut String, n: u64)
    ensures
        final(s)@ == old(s)@ + decimal(n as nat),
    decreases n,
{
    if n >= 10 {
        push_decimal(s, n / 10);
    }
    let d = (n % 10) as u8;
    s.append(digit_str(d));
}

/// Appends `b` as two hex digits to `s`.
pub fn push_hex2(s: &mut String, b: u8)
    ensures
        final(s)@ == old(s)@ + hex2(b),
{
    s.append(digit_str(b / 16));
    s.append(digit_str(b % 16));
    assert(final(s)@ =~= old(s)@ + hex2(b));
}

/// Appends `b` as eight binary digits to `s`.
pub fn push_bin8(s: &mut String, b: u8)
    ensures
        final(s)@ == old(s)@ + bin8(b),
{
    let ghost start = s@;
    let mut i: usize = 8;
    let mut rest: u8 = b;
    let mut digits: Vec<u8> = Vec::new();
    // Collect the bits least significant first.
    let mut k: usize = 0;
    while k < 8
        invariant
            k <= 8,
            digits@.len() == k,
            rest as int == b as int / pow2(k as int),
            forall|j: int| 0 <= j < k ==> digits@[j] as nat == byte_bit(b, j),
        decreases 8 - k,
    {
        assert(pow2(k + 1) == 2 * pow2(k as int));
        assert(pow2(k as int) > 0) by {
            lemma_pow2_positive(k as int);
        }
        assert(b as int / pow2(k + 1) == (b as int / pow2(k as int)) / 2) by {
            lemma_div_div(b as int, pow2(k as int));
        }
        digits.push(rest % 2);
        rest = rest / 2;
        k += 1;
    }
    proof {
        lemma_binary_digits_len(b, 8);
    }
    while i > 0
        invariant
            i <= 8,
            binary_digits(b, 8).len() == 8,
            digits@.len() == 8,
            forall|j: int| 0 <= j < 8 ==> digits@[j] as nat == byte_bit(b, j),
            s@ == start + binary_digits(b, 8).subrange(0, 8 - i),
        decreases i,
    {
        i -= 1;
        let bitv = digits[i];
        assert(digits@[i as int] as nat == byte_bit(b, i as int));
        assert(bitv < 2);
        s.append(digit_str(bitv));
        proof {
            lemma_binary_digits_index(b, 8, 7 - i as int);
        }
        assert(s@ =~= start + binary_digits(b, 8).subrange(0, 8 - i));
    }
    assert(binary_digits(b, 8).subrange(0, 8) =~= bin8(b)) by {
        lemma_binary_digits_len(b, 8);
    }
}

proof fn lemma_pow2_positive(i: int)
    ensures
        pow2(i) > 0,
    decreases i,
{
    if i > 0 {
        lemma_pow2_positive(i - 1);
    }
}

proof fn lemma_div_div(a: int, p: int)
    requires
        a >= 0,
        p > 0,
    ensures
        a / (2 * p) == (a / p) / 2,
{
    vstd::arithmetic::div_mod::lemma_div_denominator(a, p, 2);
}

proof fn lemma_binary_digits_len(b: u8, width: int)
    requires
        width >= 0,
    ensures
        binary_digits(b, width).len() == width,
    decreases width,
{
    if width > 0 {
        lemma_binary_digits_len(b, width - 1);
    }
}

/// Position `j` of the binary digits holds bit `width - 1 - j`.
proof fn lemma_binary_digits_index(b: u8, width: int, j: int)
    requires
        0 <= j < width,
    ensures
        binary_digits(b, width).len() == width,
        binary_digits(b, width)[j] == digit_char(byte_bit(b, width - 1 - j)),
    decreases width,
{
    lemma_binary_digits_len(b, width);
    if j > 0 {
        lemma_binary_digits_index(b, width - 1, j - 1);
    }
}

/// Whether `needle` occurs inside `hay`.
pub fn str_contains(hay: &str, needle: &str) -> (r: bool)
    ensures
        r == contains_sub(hay@, needle@),
{
    let hn = hay.unicode_len();
    let nn = needle.unicode_len();
    if nn > hn {
        return false;
    }
    let mut i: usize = 0;
    while i <= hn - nn
        invariant
            hn == hay@.len(),
            nn == needle@.len(),
            nn <= hn,
            i <= hn - nn + 1,
            forall|k: int| 0 <= k < i ==> #[trigger] hay@.subrange(k, k + nn) != needle@,
        decreases hn - nn + 1 - i,
    {
        let mut j: usize = 0;
        let mut same = true;
        while j < nn
            invariant
                hn == hay@.len(),
                nn == needle@.len(),
                i + nn <= hn,
                j <= nn,
                same == (forall|m: int| 0 <= m < j ==> hay@[i + m] == #[trigger] needle@[m]),
            decreases nn - j,
        {
            if hay.get_char(i + j) != needle.get_char(j) {
                same = false;
            }
            j += 1;
        }
        if same {
            assert(hay@.subrange(i as int, i + nn) =~= needle@);
            return true;
        }
        assert(hay@.subrange(i as int, i + nn) != needle@) by {
            let m = choose|m: int| 0 <= m < nn && hay@[i + m] != needle@[m];
            assert(hay@.subrange(i as int, i + nn)[m] != needle@[m]);
        }
        i += 1;
    }
    false
}

/// Whether two strings hold the same characters.
pub fn str_eq(a: &str, b: &str) -> (r: bool)
    ensures
        r == (a@ == b@),
{
    let n = a.unicode_len();
    if n != b.unicode_len() {
        return false;
    }
    let mut i: usize = 0;
    while i < n
        invariant
            n == a@.len() == b@.len(),
            i <= n,
            forall|k: int| 0 <= k < i ==> a@[k] == b@[k],
        decreases n - i,
    {
        if a.get_char(i) != b.get_char(i) {
            return false;
        }
        i += 1;
    }
    assert(a@ =~= b@);
    true
}

} // verus!
