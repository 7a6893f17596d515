//! Assuan percent escaping: `%XX` hex escapes, with `+` a literal plus (not a
//! space as in URL query strings).
use crate::ipc::hex_char;
use crate::text::{ascii_upper_char, lemma_encode_utf8_concat, lossy_utf8, utf8_lossy};
use vstd::prelude::*;
use vstd::utf8::*;

verus! {

/* Decoding */

pub open spec fn is_hex_digit(b: u8) -> bool {
    ||| 48 <= b <= 57
    ||| 97 <= b <= 102
    ||| 65 <= b <= 70
}

pub open spec fn hex_digit_value(b: u8) -> u8 {
    if 48 <= b <= 57 {
        (b - 48) as u8
    } else if 97 <= b <= 102 {
        (b - 97 + 10) as u8
    } else {
        (b - 65 + 10) as u8
    }
}

/// Bytes with every `%` followed by two hex digits (either case) replaced by
/// the byte they denote; every other byte, a lone `%` included, is kept.
pub open spec fn unescape(b: Seq<u8>) -> Seq<u8>
    decreases b.len(),
{
    if b.len() == 0 {
        seq![]
    } else if b[0] == 37 && b.len() >= 3 && is_hex_digit(b[1]) && is_hex_digit(b[2]) {
        seq![(hex_digit_value(b[1]) * 16 + hex_digit_value(b[2])) as u8] + unescape(b.skip(3))
    } else {
        seq![b[0]] + unescape(b.drop_first())
    }
}

/// What `percent_decode` returns for `s`: the unescaped UTF-8 bytes of `s`,
/// read back as text the way `String::from_utf8_lossy` reads them.
pub open spec fn spec_percent_decode(s: Seq<char>) -> Seq<char> {
    lossy_utf8(unescape(encode_utf8(s)))
}

/// The value of one hex digit byte, if it is one.
pub fn hex_digit(b: u8) -> (r: Option<u8>)
    ensures
        r == (if is_hex_digit(b) {
            Some(hex_digit_value(b))
        } else {
            None
        }),
{
    if 48 <= b && b <= 57 {
        Some(b - 48)
    } else if 97 <= b && b <= 102 {
        Some(b - 97 + 10)
    } else if 65 <= b && b <= 70 {
        Some(b - 65 + 10)
    } else {
        None
    }
}

/// The byte denoted by the two hex digits at `pos` and `pos + 1`, if both
/// are there and are hex digits.
pub fn decode_hex(bytes: &[u8], pos: usize) -> (r: Option<u8>)
    ensures
        r == (if pos + 1 < bytes@.len() && is_hex_digit(bytes@[pos as int]) && is_hex_digit(
            bytes@[pos + 1],
        ) {
            Some((hex_digit_value(bytes@[pos as int]) * 16 + hex_digit_value(
                bytes@[pos + 1],
            )) as u8)
        } else {
            None
        }),
{
    if pos >= bytes.len() || pos + 1 >= bytes.len() {
        return None;
    }
    let hi = match hex_digit(bytes[pos]) {
        Some(v) => v,
        None => return None,
    };
    let lo = match hex_digit(bytes[pos + 1]) {
        Some(v) => v,
        None => return None,
    };
    Some(hi * 16 + lo)
}

/// Decodes Assuan percent escapes in `s`; `+` stays a literal `+`.
pub fn percent_decode(s: &str) -> (r: String)
    ensures
        r@ == spec_percent_decode(s@),
        valid_utf8(unescape(encode_utf8(s@))) ==> r@ == decode_utf8(unescape(encode_utf8(s@))),
{
    let bytes = s.as_bytes();
    let mut out: Vec<u8> = Vec::with_capacity(bytes.len());
    let mut i: usize = 0;
    assert(bytes@.skip(0) =~= bytes@);
    assert(out@ + unescape(bytes@.skip(0)) =~= unescape(bytes@));
    while i < bytes.len()
        invariant
            i <= bytes@.len(),
            out@ + unescape(bytes@.skip(i as int)) == unescape(bytes@),
        decreases bytes@.len() - i,
    {
        let ghost rest = bytes@.skip(i as int);
        let b = bytes[i];
        if b == 37 {
            if let Some(v) = decode_hex(bytes, i + 1) {
                assert(rest[0] == b && rest[1] == bytes@[i + 1] && rest[2] == bytes@[i + 2]);
                assert(rest.skip(3) =~= bytes@.skip(i + 3));
                assert(unescape(rest) == seq![v] + unescape(bytes@.skip(i + 3)));
                out.push(v);
                assert(out@ + unescape(bytes@.skip(i + 3)) =~= unescape(bytes@));
                i = i + 3;
                continue;
            }
        }
        assert(rest.drop_first() =~= bytes@.skip(i + 1));
        assert(unescape(rest) == seq![b] + unescape(bytes@.skip(i + 1)));
        out.push(b);
        assert(out@ + unescape(bytes@.skip(i + 1)) =~= unescape(bytes@));
        i = i + 1;
    }
    assert(bytes@.skip(i as int) =~= Seq::<u8>::empty());
    assert(out@ =~= unescape(bytes@));
    utf8_lossy(out.as_slice())
}

/// Percent decoding turns `%` followed by the two hex digits of any byte,
/// written in lower or in upper case (as `hex_encode` writes them, or
/// upper-cased), back into that byte, and goes on with what follows.
pub proof fn lemma_unescape_hex_byte(x: u8, rest: Seq<u8>)
    ensures
        unescape(seq![37u8, hex_char(x / 16) as u8, hex_char(x % 16) as u8] + rest) == seq![x]
            + unescape(rest),
        unescape(
            seq![
                37u8,
                ascii_upper_char(hex_char(x / 16)) as u8,
                ascii_upper_char(hex_char(x % 16)) as u8,
            ] + rest,
        ) == seq![x] + unescape(rest),
{
    let hi = x / 16;
    let lo = x % 16;
    assert(hi < 16 && lo < 16);
    assert(hi * 16 + lo == x);
    let a = seq![37u8, hex_char(hi) as u8, hex_char(lo) as u8] + rest;
    assert(a.skip(3) =~= rest);
    let b = seq![
        37u8,
        ascii_upper_char(hex_char(hi)) as u8,
        ascii_upper_char(hex_char(lo)) as u8,
    ] + rest;
    assert(b.skip(3) =~= rest);
}

/// A `%` that is not followed by two hex digits (`0`-`9`, `a`-`f`, `A`-`F`)
/// is kept as a literal `%`, and decoding goes on right after it.
pub proof fn lemma_unescape_literal_percent(after: Seq<u8>)
    requires
        !(after.len() >= 2 && (48 <= after[0] <= 57 || 97 <= after[0] <= 102 || 65 <= after[0]
            <= 70) && (48 <= after[1] <= 57 || 97 <= after[1] <= 102 || 65 <= after[1] <= 70)),
    ensures
        unescape(seq![37u8] + after) == seq![37u8] + unescape(after),
{
    let a = seq![37u8] + after;
    assert(a.drop_first() =~= after);
    if a.len() >= 3 {
        assert(a[1] == after[0] && a[2] == after[1]);
    }
}

/* Encoding */

/// How one character is written in an Assuan `D` payload: `%`, line feed
/// and carriage return are escaped, everything else is kept.
pub open spec fn escape_char(c: char) -> Seq<char> {
    if c == '%' {
        seq!['%', '2', '5']
    } else if c == '\n' {
        seq!['%', '0', 'A']
    } else if c == '\r' {
        seq!['%', '0', 'D']
    } else {
        seq![c]
    }
}

/// `s` with each character replaced by its escape.
pub open spec fn spec_percent_encode(s: Seq<char>) -> Seq<char>
    decreases s.len(),
{
    if s.len() == 0 {
        seq![]
    } else {
        spec_percent_encode(s.drop_last()) + escape_char(s.last())
    }
}

/// Percent encoding never produces a line feed or a carriage return, so an
/// encoded payload always fits on one protocol line.
pub proof fn lemma_encode_no_line_breaks(s: Seq<char>)
    ensures
        forall|i: int|
            0 <= i < spec_percent_encode(s).len() ==> #[trigger] spec_percent_encode(s)[i]
                != '\n' && spec_percent_encode(s)[i] != '\r',
    decreases s.len(),
{
    if s.len() > 0 {
        lemma_encode_no_line_breaks(s.drop_last());
        let a = spec_percent_encode(s.drop_last());
        let e = escape_char(s.last());
        assert forall|i: int| 0 <= i < (a + e).len() implies #[trigger] (a + e)[i] != '\n' && (a
            + e)[i] != '\r' by {
            if i >= a.len() {
                assert((a + e)[i] == e[i - a.len()]);
            } else {
                assert((a + e)[i] == a[i]);
            }
        }
    }
}

/// Whether percent encoding escapes `c`.
pub open spec fn is_escaped(c: char) -> bool {
    c == '%' || c == '\n' || c == '\r'
}

/// How many characters of `s` percent encoding escapes.
pub open spec fn escaped_count(s: Seq<char>) -> nat
    decreases s.len(),
{
    if s.len() == 0 {
        0
    } else {
        escaped_count(s.drop_last()) + if is_escaped(s.last()) {
            1nat
        } else {
            0nat
        }
    }
}

/// Each escaped character grows by two: the encoding of `s` is
/// `s.len() + 2 * escaped_count(s)` characters long, and text with nothing to
/// escape (no `%`, line feed or carriage return) is encoded as itself.
pub proof fn lemma_percent_encode_length(s: Seq<char>)
    ensures
        spec_percent_encode(s).len() == s.len() + 2 * escaped_count(s),
        escaped_count(s) == 0 ==> spec_percent_encode(s) == s,
    decreases s.len(),
{
    if s.len() > 0 {
        lemma_percent_encode_length(s.drop_last());
        if escaped_count(s) == 0 {
            assert(s.drop_last().push(s.last()) =~= s);
        }
    }
}

/// Percent-escapes `%`, `\n` and `\r` for an Assuan `D` payload; every other
/// character, `+` and space included, is copied as it is.
pub fn percent_encode(s: &str) -> (r: String)
    ensures
        r@ == spec_percent_encode(s@),
        forall|i: int| 0 <= i < r@.len() ==> #[trigger] r@[i] != '\n' && r@[i] != '\r',
        r@.len() == s@.len() + 2 * escaped_count(s@),
        escaped_count(s@) == 0 ==> r@ == s@,
{
    let mut out = String::new();
    for c in it: s.chars()
        invariant
            it.seq() == s@,
            out@ == spec_percent_encode(it.seq().take(it.index() as int)),
    {
        let ghost before = it.seq().take(it.index() as int);
        let ghost after = it.seq().take(it.index() + 1);
        assert(after.drop_last() =~= before);
        if c == '%' {
            out.push('%');
            out.push('2');
            out.push('5');
        } else if c == '\n' {
            out.push('%');
            out.push('0');
            out.push('A');
        } else if c == '\r' {
            out.push('%');
            out.push('0');
            out.push('D');
        } else {
            out.push(c);
        }
        assert(out@ =~= spec_percent_encode(before) + escape_char(c));
    }
    assert(s@.take(s@.len() as int) =~= s@);
    proof {
        lemma_encode_no_line_breaks(s@);
        lemma_percent_encode_length(s@);
    }
    out
}

/* Decoding undoes encoding */

proof fn lemma_percent_encode_front(s: Seq<char>)
    requires
        s.len() > 0,
    ensures
        spec_percent_encode(s) == escape_char(s[0]) + spec_percent_encode(s.drop_first()),
    decreases s.len(),
{
    if s.len() == 1 {
        assert(s.drop_last() =~= Seq::<char>::empty());
        assert(s.drop_first() =~= Seq::<char>::empty());
    } else {
        lemma_percent_encode_front(s.drop_last());
        assert(s.drop_last().drop_first() =~= s.drop_first().drop_last());
        assert(s.drop_last()[0] == s[0]);
        assert(s.drop_first().last() == s.last());
    }
}

proof fn lemma_unescape_plain(p: Seq<u8>, rest: Seq<u8>)
    requires
        forall|i: int| 0 <= i < p.len() ==> p[i] != 37,
    ensures
        unescape(p + rest) == p + unescape(rest),
    decreases p.len(),
{
    if p.len() == 0 {
        assert(p + rest =~= rest);
    } else {
        assert((p + rest)[0] == p[0]);
        assert((p + rest).drop_first() =~= p.drop_first() + rest);
        lemma_unescape_plain(p.drop_first(), rest);
        assert(p + unescape(rest) =~= seq![p[0]] + (p.drop_first() + unescape(rest)));
    }
}

proof fn lemma_ascii_scalar(c: char)
    requires
        (c as u32) < 0x80,
    ensures
        encode_scalar(c as u32) == seq![(c as u32) as u8],
{
    let v = c as u32;
    assert(v < 0x80 ==> (v & 0x7F) as u8 == v as u8) by (bit_vector);
}

proof fn lemma_scalar_has_no_percent(c: char)
    requires
        c != '%',
    ensures
        forall|i: int|
            0 <= i < encode_scalar(c as u32).len() ==> #[trigger] encode_scalar(c as u32)[i] != 37,
{
    let v = c as u32;
    if v < 0x80 {
        lemma_ascii_scalar(c);
    } else {
        assert(forall|x: u32| #[trigger] (0xC0u8 | ((x >> 6) & 0x1F) as u8) >= 0xC0) by (
        bit_vector);
        assert(forall|x: u32| #[trigger] (0xE0u8 | ((x >> 12) & 0x0F) as u8) >= 0xE0) by (
        bit_vector);
        assert(forall|x: u32| #[trigger] (0xF0u8 | ((x >> 18) & 0x7) as u8) >= 0xF0) by (
        bit_vector);
        assert(forall|x: u32| #[trigger] (0x80u8 | (x & 0x3F) as u8) >= 0x80) by (bit_vector);
        assert(forall|x: u32| #[trigger] (0x80u8 | ((x >> 6) & 0x3F) as u8) >= 0x80) by (
        bit_vector);
        assert(forall|x: u32| #[trigger] (0x80u8 | ((x >> 12) & 0x3F) as u8) >= 0x80) by (
        bit_vector);
    }
}

proof fn lemma_escape_bytes(c: char, rest: Seq<u8>)
    ensures
        unescape(encode_utf8(escape_char(c)) + rest) == encode_scalar(c as u32) + unescape(rest),
{
    reveal_with_fuel(encode_utf8, 4);
    if c == '%' || c == '\n' || c == '\r' {
        let e = escape_char(c);
        lemma_ascii_scalar(e[0]);
        lemma_ascii_scalar(e[1]);
        lemma_ascii_scalar(e[2]);
        lemma_ascii_scalar(c);
        assert(e.drop_first().drop_first().drop_first() =~= Seq::<char>::empty());
        assert(e.drop_first().drop_first() =~= seq![e[2]]);
        assert(e.drop_first() =~= seq![e[1], e[2]]);
        let b = encode_utf8(e);
        assert(b =~= seq![(e[0] as u32) as u8, (e[1] as u32) as u8, (e[2] as u32) as u8]);
        let br = b + rest;
        assert(br[0] == 37 && br[1] == b[1] && br[2] == b[2]);
        assert(br.skip(3) =~= rest);
    } else {
        lemma_scalar_has_no_percent(c);
        assert(escape_char(c).drop_first() =~= Seq::<char>::empty());
        assert(encode_utf8(escape_char(c)) =~= encode_scalar(c as u32));
        lemma_unescape_plain(encode_scalar(c as u32), rest);
    }
}

/// Percent decoding undoes percent encoding: for every string `s`, the bytes
/// that `percent_decode` reads back from `percent_encode(s)` are valid UTF-8
/// and decode to `s` itself. With the contract of `percent_decode`, this
/// gives `percent_decode(&percent_encode(s)) == s`.
pub proof fn lemma_percent_roundtrip(s: Seq<char>)
    ensures
        unescape(encode_utf8(spec_percent_encode(s))) == encode_utf8(s),
        valid_utf8(unescape(encode_utf8(spec_percent_encode(s)))),
        decode_utf8(unescape(encode_utf8(spec_percent_encode(s)))) == s,
    decreases s.len(),
{
    broadcast use encode_utf8_valid_utf8, encode_utf8_decode_utf8;

    if s.len() == 0 {
        assert(unescape(Seq::<u8>::empty()) =~= Seq::<u8>::empty());
    } else {
        let t = s.drop_first();
        lemma_percent_encode_front(s);
        lemma_encode_utf8_concat(escape_char(s[0]), spec_percent_encode(t));
        lemma_escape_bytes(s[0], encode_utf8(spec_percent_encode(t)));
        lemma_percent_roundtrip(t);
    }
}

proof fn lemma_no_percent_byte(s: Seq<char>)
    requires
        !s.contains('%'),
    ensures
        forall|i: int| 0 <= i < encode_utf8(s).len() ==> #[trigger] encode_utf8(s)[i] != 37,
    decreases s.len(),
{
    if s.len() > 0 {
        let t = s.drop_first();
        assert(!t.contains('%')) by {
            if t.contains('%') {
                let k = choose|k: int| 0 <= k < t.len() && t[k] == '%';
                assert(s[k + 1] == '%');
            }
        }
        assert(s[0] != '%') by {
            if s[0] == '%' {
                assert(s.contains('%'));
            }
        }
        lemma_no_percent_byte(t);
        lemma_scalar_has_no_percent(s[0]);
        let a = encode_scalar(s[0] as u32);
        let b = encode_utf8(t);
        assert forall|i: int| 0 <= i < (a + b).len() implies #[trigger] (a + b)[i] != 37 by {
            if i < a.len() {
                assert((a + b)[i] == a[i]);
            } else {
                assert((a + b)[i] == b[i - a.len()]);
            }
        }
    }
}

/// Text without a `%` has no escape in it: percent decoding leaves it
/// unchanged (`+`, space and every other character stay literal). With the
/// contract of `percent_decode`, this gives `percent_decode(s) == s` for
/// every such `s`.
pub proof fn lemma_decode_without_percent(s: Seq<char>)
    requires
        !s.contains('%'),
    ensures
        unescape(encode_utf8(s)) == encode_utf8(s),
        valid_utf8(unescape(encode_utf8(s))),
        decode_utf8(unescape(encode_utf8(s))) == s,
{
    broadcast use encode_utf8_valid_utf8, encode_utf8_decode_utf8;

    lemma_no_percent_byte(s);
    lemma_unescape_plain(encode_utf8(s), Seq::<u8>::empty());
    assert(encode_utf8(s) + Seq::<u8>::empty() =~= encode_utf8(s));
    assert(encode_utf8(s) + unescape(Seq::<u8>::empty()) =~= encode_utf8(s));
}

} // verus!
