//! How received bytes are shown: as text when they are printable, else as a
//! hex dump of sixteen bytes a line.

use vstd::prelude::*;
use vstd::utf8::*;

verus! {

/// A Unicode control character (general category Cc): U+0000–U+001F and
/// U+007F–U+009F.
pub open spec fn is_control(cp: u32) -> bool {
    cp <= 0x1f || (0x7f <= cp && cp <= 0x9f)
}

/// A character that may appear in printable text: anything but a control
/// character, except tab, line feed and carriage return.
pub open spec fn printable_char(cp: u32) -> bool {
    !is_control(cp) || cp == 0x09 || cp == 0x0a || cp == 0x0d
}

/// Bytes that are valid UTF-8 whose every character is printable: read from
/// the front, they split into well-formed UTF-8 scalars, none of them a
/// control character other than tab, line feed and carriage return.
pub open spec fn printable_from(b: Seq<u8>) -> bool
    decreases b.len(),
{
    if b.len() == 0 {
        true
    } else if !valid_first_scalar(b) {
        false
    } else {
        proof {
            lemma_pop_shorter(b);
        }
        printable_char(decode_first_scalar(b)) && printable_from(pop_first_scalar(b))
    }
}

pub proof fn lemma_pop_shorter(b: Seq<u8>)
    requires
        b.len() > 0,
        valid_first_scalar(b),
    ensures
        pop_first_scalar(b).len() < b.len(),
{
}

/// Printable bytes are valid UTF-8.
pub proof fn lemma_printable_is_utf8(b: Seq<u8>)
    ensures
        printable_from(b) ==> valid_utf8(b),
    decreases b.len(),
{
    if b.len() > 0 && valid_first_scalar(b) {
        lemma_pop_shorter(b);
        lemma_printable_is_utf8(pop_first_scalar(b));
    }
}

/// Whether `b` is text that can be shown as it is.
pub fn is_printable(b: &[u8]) -> (r: bool)
    ensures
        r == printable_from(b@),
        r ==> valid_utf8(b@),
{
    proof {
        lemma_printable_is_utf8(b@);
    }
    let n = b.len();
    let mut p: usize = 0;
    assert(b@.subrange(0, n as int) =~= b@);
    while p < n
        invariant
            n == b@.len(),
            p <= n,
            printable_from(b@) == printable_from(b@.subrange(p as int, n as int)),
        decreases n - p,
    {
        let ghost rest = b@.subrange(p as int, n as int);
        let b0 = b[p];
        let cp: u32;
        let width: usize;
        if b0 <= 0x7f {
            cp = (b0 & 0x7F) as u32;
            assert((b0 & 0x7F) as u32 <= 0x7f) by (bit_vector);
            width = 1;
        } else if 0xc0 <= b0 && b0 <= 0xdf {
            if n - p < 2 || !(0x80 <= b[p + 1] && b[p + 1] <= 0xbf) {
                return false;
            }
            let b1 = b[p + 1];
            cp = (((b0 & 0x1F) as u32) << 6) | ((b1 & 0x3f) as u32);
            assert((((b0 & 0x1F) as u32) << 6) | ((b1 & 0x3f) as u32) < 0x800) by (bit_vector);
            if cp < 0x80 {
                return false;
            }
            width = 2;
        } else if 0xe0 <= b0 && b0 <= 0xef {
            if n - p < 3 || !(0x80 <= b[p + 1] && b[p + 1] <= 0xbf) || !(0x80 <= b[p + 2] && b[p + 2]
                <= 0xbf) {
                return false;
            }
            cp = (((b0 & 0x0F) as u32) << 12) | (((b[p + 1] & 0x3f) as u32) << 6) | ((b[p + 2] & 0x3f) as u32);
            if cp < 0x800 || (0xD800 <= cp && cp <= 0xDFFF) {
                return false;
            }
            width = 3;
        } else if 0xf0 <= b0 && b0 <= 0xf7 {
            if n - p < 4 || !(0x80 <= b[p + 1] && b[p + 1] <= 0xbf) || !(0x80 <= b[p + 2] && b[p + 2]
                <= 0xbf) || !(0x80 <= b[p + 3] && b[p + 3] <= 0xbf) {
                return false;
            }
            cp = (((b0 & 0x07) as u32) << 18) | (((b[p + 1] & 0x3f) as u32) << 12) | (((b[p + 2] & 0x3f) as u32) << 6)
                | ((b[p + 3] & 0x3f) as u32);
            if cp < 0x10000 || cp > 0x10ffff {
                return false;
            }
            width = 4;
        } else {
            return false;
        }
        assert(valid_first_scalar(rest));
        assert(decode_first_scalar(rest) == cp);
        assert(length_of_first_scalar(rest) == width);
        if !(cp > 0x1f && !(0x7f <= cp && cp <= 0x9f)) && cp != 0x09 && cp != 0x0a && cp != 0x0d {
            return false;
        }
        assert(pop_first_scalar(rest) =~= b@.subrange(p + width, n as int));
        p = p + width;
    }
    assert(b@.subrange(n as int, n as int).len() == 0);
    true
}

/// Where a completed stream goes.
#[derive(Debug, Clone, Copy, PartialEq, Eq, Structural)]
pub enum Delivery {
    /// Written to the file that was named.
    File,
    /// Shown as a hex dump.
    HexDump,
    /// Shown as it is, as text.
    Text,
}

/// A named output file wins; otherwise bytes are dumped in hex when asked
/// for, or when they are not printable text.
pub open spec fn spec_delivery(to_file: bool, hex: bool, b: Seq<u8>) -> Delivery {
    if to_file {
        Delivery::File
    } else if hex || !printable_from(b) {
        Delivery::HexDump
    } else {
        Delivery::Text
    }
}

/// A named output file always gets the payload, whatever its bytes and
/// whatever was asked of the hex dump. Without one, asking for hex or bytes
/// that are not printable text give a hex dump, and only printable text that
/// nobody asked to see in hex is shown as it is, and then it is UTF-8.
pub proof fn lemma_delivery_law(hex: bool, b: Seq<u8>)
    ensures
        spec_delivery(true, hex, b) == Delivery::File,
        spec_delivery(false, true, b) == Delivery::HexDump,
        !printable_from(b) ==> spec_delivery(false, hex, b) == Delivery::HexDump,
        printable_from(b) && !hex ==> spec_delivery(false, hex, b) == Delivery::Text,
        spec_delivery(false, hex, b) == Delivery::Text ==> valid_utf8(b),
{
    lemma_printable_is_utf8(b);
}

/// Decides how a completed stream is delivered.
pub fn delivery(to_file: bool, hex: bool, b: &[u8]) -> (d: Delivery)
    ensures
        d == spec_delivery(to_file, hex, b@),
{
    if to_file {
        Delivery::File
    } else if hex || !is_printable(b) {
        Delivery::HexDump
    } else {
        Delivery::Text
    }
}

/// The ASCII byte of a digit value below 16 (lower-case hex letters).
pub open spec fn digit_byte(d: nat) -> u8 {
    if d < 10 {
        (0x30 + d) as u8
    } else {
        (0x61 + (d - 10)) as u8
    }
}

/// `n` in lower-case hex ASCII, without leading zeros.
pub open spec fn hex_bytes(n: nat) -> Seq<u8>
    decreases n,
{
    if n < 16 {
        seq![digit_byte(n)]
    } else {
        hex_bytes(n / 16).push(digit_byte(n % 16))
    }
}

/// `s` with ASCII zeros in front up to `width` bytes.
pub open spec fn zero_padded(s: Seq<u8>, width: nat) -> Seq<u8> {
    if s.len() < width {
        Seq::new((width - s.len()) as nat, |_i: int| 0x30u8) + s
    } else {
        s
    }
}

/// Each byte as two hex digits and a space.
pub open spec fn hex_column(c: Seq<u8>) -> Seq<u8>
    decreases c.len(),
{
    if c.len() == 0 {
        seq![]
    } else {
        hex_column(c.drop_last()) + seq![
            digit_byte((c.last() / 16) as nat),
            digit_byte((c.last() % 16) as nat),
            0x20u8,
        ]
    }
}

/// A byte as the dump shows it on the right: graphic ASCII and the space
/// as themselves, anything else as a dot.
pub open spec fn shown_byte(x: u8) -> u8 {
    if 0x20 <= x <= 0x7e {
        x
    } else {
        0x2e
    }
}

/// `n` ASCII spaces.
pub open spec fn spaces(n: nat) -> Seq<u8> {
    Seq::new(n, |_i: int| 0x20u8)
}

/// One dump line: the offset as at least eight hex digits, two spaces, the
/// hex column padded to 48, two spaces, and the bytes as shown.
pub open spec fn dump_line(offset: nat, c: Seq<u8>) -> Seq<u8> {
    zero_padded(hex_bytes(offset), 8) + spaces(2) + hex_column(c) + spaces((48 - 3 * c.len()) as nat) + spaces(2)
        + Seq::new(c.len(), |i: int| shown_byte(c[i]))
}

/// The bytes of line `k`: sixteen from `16 k` on, fewer on the last line.
pub open spec fn dump_chunk(b: Seq<u8>, k: int) -> Seq<u8> {
    b.subrange(16 * k, if 16 * k + 16 <= b.len() { 16 * k + 16 } else { b.len() as int })
}

/// The hex dump of `b`, one line per sixteen bytes.
pub open spec fn hex_dump(b: Seq<u8>) -> Seq<Seq<u8>> {
    Seq::new(((b.len() + 15) / 16) as nat, |k: int| dump_line((16 * k) as nat, dump_chunk(b, k)))
}

fn push_hex_digits(out: &mut Vec<u8>, n: u64)
    ensures
        final(out)@ == old(out)@ + hex_bytes(n as nat),
    decreases n,
{
    if n >= 16 {
        push_hex_digits(out, n / 16);
    }
    let d = (n % 16) as u8;
    let c = if d < 10 {
        0x30 + d
    } else {
        0x61 + (d - 10)
    };
    out.push(c);
    proof {
        if n >= 16 {
            assert(hex_bytes(n as nat) == hex_bytes((n / 16) as nat).push(digit_byte((n % 16) as nat)));
        }
        assert(final(out)@ =~= old(out)@ + hex_bytes(n as nat));
    }
}

fn dump_line_of(offset: u64, c: &[u8]) -> (line: Vec<u8>)
    requires
        c@.len() <= 16,
    ensures
        line@ == dump_line(offset as nat, c@),
{
    let mut digits: Vec<u8> = Vec::new();
    push_hex_digits(&mut digits, offset);
    assert(digits@ =~= hex_bytes(offset as nat));
    let mut line: Vec<u8> = Vec::new();
    let mut z: usize = digits.len();
    while z < 8
        invariant
            digits@.len() <= z <= 8 || (z == digits@.len() && z >= 8),
            line@ == Seq::new((z - digits@.len()) as nat, |_i: int| 0x30u8),
        decreases 8 - z,
    {
        line.push(0x30);
        z += 1;
        assert(line@ =~= Seq::new((z - digits@.len()) as nat, |_i: int| 0x30u8));
    }
    let mut t: usize = 0;
    let ghost pad = line@;
    while t < digits.len()
        invariant
            t <= digits@.len(),
            line@ == pad + digits@.subrange(0, t as int),
        decreases digits@.len() - t,
    {
        line.push(digits[t]);
        t += 1;
        assert(line@ =~= pad + digits@.subrange(0, t as int));
    }
    assert(line@ =~= zero_padded(hex_bytes(offset as nat), 8));
    line.push(0x20);
    line.push(0x20);
    let ghost head = line@;
    let n = c.len();
    let mut i: usize = 0;
    while i < n
        invariant
            n == c@.len(),
            i <= n,
            line@ == head + hex_column(c@.subrange(0, i as int)),
        decreases n - i,
    {
        let x = c[i];
        let hi = x / 16;
        let lo = x % 16;
        line.push(if hi < 10 { 0x30 + hi } else { 0x61 + (hi - 10) });
        line.push(if lo < 10 { 0x30 + lo } else { 0x61 + (lo - 10) });
        line.push(0x20);
        assert(c@.subrange(0, i + 1).drop_last() =~= c@.subrange(0, i as int));
        i += 1;
        assert(line@ =~= head + hex_column(c@.subrange(0, i as int)));
    }
    assert(c@.subrange(0, n as int) =~= c@);
    let ghost head2 = line@;
    let mut w: usize = 3 * n;
    while w < 50
        invariant
            3 * n <= w <= 50,
            line@ == head2 + spaces((w - 3 * n) as nat),
        decreases 50 - w,
    {
        line.push(0x20);
        w += 1;
        assert(line@ =~= head2 + spaces((w - 3 * n) as nat));
    }
    assert(spaces((50 - 3 * n) as nat) =~= spaces((48 - 3 * n) as nat) + spaces(2));
    let ghost head3 = line@;
    let mut j: usize = 0;
    while j < n
        invariant
            n == c@.len(),
            j <= n,
            line@ == head3 + Seq::new(j as nat, |m: int| shown_byte(c@[m])),
        decreases n - j,
    {
        let x = c[j];
        line.push(if 0x20 <= x && x <= 0x7e { x } else { 0x2e });
        j += 1;
        assert(line@ =~= head3 + Seq::new(j as nat, |m: int| shown_byte(c@[m])));
    }
    assert(line@ =~= dump_line(offset as nat, c@));
    line
}

/// The hex dump of `b`: one line per sixteen bytes, each without its line
/// ending.
pub fn hex_dump_lines(b: &[u8]) -> (lines: Vec<Vec<u8>>)
    ensures
        lines@.len() == hex_dump(b@).len(),
        forall|k: int| 0 <= k < lines@.len() ==> #[trigger] lines@[k]@ == hex_dump(b@)[k],
{
    let n = b.len();
    let count = n / 16 + if n % 16 == 0 {
        0
    } else {
        1
    };
    assert(count == (n + 15) / 16);
    let mut lines: Vec<Vec<u8>> = Vec::new();
    let mut k: usize = 0;
    while k < count
        invariant
            n == b@.len(),
            count == (n + 15) / 16,
            k <= count,
            lines@.len() == k,
            forall|m: int| 0 <= m < k ==> #[trigger] lines@[m]@ == dump_line((16 * m) as nat, dump_chunk(b@, m)),
        decreases count - k,
    {
        assert(16 * k < n) by (nonlinear_arith)
            requires
                k < count,
                count == (n + 15) / 16,
        ;
        let start = 16 * k;
        let end = if n - start >= 16 {
            start + 16
        } else {
            n
        };
        let chunk = vstd::slice::slice_subrange(b, start, end);
        let line = dump_line_of(start as u64, chunk);
        assert(chunk@ =~= dump_chunk(b@, k as int));
        lines.push(line);
        k += 1;
    }
    assert(lines@.len() == hex_dump(b@).len());
    lines
}

} // verus!
