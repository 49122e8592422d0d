//! Small text utilities over `String`: appending characters, rendering and
//! reading unsigned decimal numbers.
use vstd::prelude::*;
use vstd::string::*;

verus! {

/// The character of a decimal digit `d < 10`.
pub open spec fn digit_char(d: nat) -> char
    recommends
        d < 10,
{
    ((48 + d) as u8) as char
}

/// The canonical decimal spelling of `n`: no sign and no leading zeros.
pub open spec fn decimal(n: nat) -> Seq<char>
    decreases n,
{
    if n < 10 {
        seq![digit_char(n)]
    } else {
        decimal(n / 10).push(digit_char(n % 10))
    }
}

/// Relies on String::push: the character is appended at the end.
#[verifier::external_body]
pub(crate) fn push_char(s: &mut String, c: char)
    ensures
        final(s)@ == old(s)@.push(c),
{
    s.push(c)
}

fn append_decimal(s: &mut String, n: usize)
    ensures
        final(s)@ == old(s)@ + decimal(n as nat),
    decreases n,
{
    if n >= 10 {
        append_decimal(s, n / 10);
    }
    let d: u8 = (n % 10) as u8;
    push_char(s, (48u8 + d) as char);
    assert(s@ =~= old(s)@ + decimal(n as nat));
}

/// Renders `n` in decimal.
pub fn usize_to_decimal(n: usize) -> (r: String)
    ensures
        r@ == decimal(n as nat),
{
    let mut s = String::new();
    append_decimal(&mut s, n);
    assert(s@ =~= decimal(n as nat));
    s
}


pub open spec fn is_digit(c: char) -> bool {
    '0' <= c && c <= '9'
}

pub open spec fn all_digits(s: Seq<char>) -> bool {
    forall|i: int| 0 <= i < s.len() ==> is_digit(#[trigger] s[i])
}

/// The number that a string of decimal digits spells.
pub open spec fn digits_value(s: Seq<char>) -> nat
    decreases s.len(),
{
    if s.len() == 0 {
        0
    } else {
        digits_value(s.drop_last()) * 10 + (s.last() as nat - '0' as nat) as nat
    }
}

/// The digits of an unsigned number: one leading `+` is allowed.
pub open spec fn unsigned_digits(s: Seq<char>) -> Seq<char> {
    if s.len() > 0 && s[0] == '+' {
        s.drop_first()
    } else {
        s
    }
}

/// `s` is the text of a `usize`: an optional `+`, then at least one decimal
/// digit, with a value that fits.
pub open spec fn is_usize_text(s: Seq<char>) -> bool {
    let d = unsigned_digits(s);
    d.len() > 0 && all_digits(d) && digits_value(d) <= usize::MAX
}

proof fn lemma_digits_value_prefix(s: Seq<char>, k: int)
    requires
        0 <= k <= s.len(),
        all_digits(s),
    ensures
        digits_value(s.subrange(0, k)) <= digits_value(s),
    decreases s.len(),
{
    if k < s.len() {
        let t = s.drop_last();
        assert(all_digits(t)) by {
            assert forall|i: int| 0 <= i < t.len() implies is_digit(#[trigger] t[i]) by {
                assert(t[i] == s[i]);
            }
        }
        lemma_digits_value_prefix(t, k);
        assert(t.subrange(0, k) =~= s.subrange(0, k));
    } else {
        assert(s.subrange(0, k) =~= s);
    }
}

/// Reads an unsigned decimal number, as `usize::from_str` does.
pub fn parse_usize(s: &str) -> (r: Option<usize>)
    ensures
        r is Some <==> is_usize_text(s@),
        r matches Some(v) ==> v as nat == digits_value(unsigned_digits(s@)),
{
    let n = s.unicode_len();
    let start: usize = if n > 0 && s.get_char(0) == '+' { 1 } else { 0 };
    let ghost d = unsigned_digits(s@);
    assert(d =~= s@.subrange(start as int, n as int));
    if start == n {
        return None;
    }
    let mut acc: usize = 0;
    let mut i: usize = start;
    while i < n
        invariant
            start <= i <= n,
            n == s@.len(),
            d =~= s@.subrange(start as int, n as int),
            d == unsigned_digits(s@),
            all_digits(d.subrange(0, i - start)),
            acc as nat == digits_value(d.subrange(0, i - start)),
        decreases n - i,
    {
        let c = s.get_char(i);
        assert(d[i - start] == c);
        if !('0' <= c && c <= '9') {
            assert(!is_digit(d[i - start]));
            return None;
        }
        let ghost p = d.subrange(0, i + 1 - start);
        assert(p.drop_last() =~= d.subrange(0, i - start));
        assert(p.last() == c);
        assert(all_digits(p)) by {
            assert forall|j: int| 0 <= j < p.len() implies is_digit(#[trigger] p[j]) by {
                if j < p.len() - 1 {
                    assert(p[j] == d.subrange(0, i - start)[j]);
                }
            }
        }
        let v: u32 = (c as u32) - 48;
        assert(digits_value(p) == acc * 10 + v);
        let m = acc.checked_mul(10);
        if m.is_none() {
            proof {
                if all_digits(d) {
                    lemma_digits_value_prefix(d, i + 1 - start);
                }
            }
            return None;
        }
        let a = m.unwrap().checked_add(v as usize);
        if a.is_none() {
            proof {
                if all_digits(d) {
                    lemma_digits_value_prefix(d, i + 1 - start);
                }
            }
            return None;
        }
        acc = a.unwrap();
        i = i + 1;
    }
    assert(d.subrange(0, i - start) =~= d);
    Some(acc)
}

/// The characters that stand for themselves in a query component.
pub open spec fn is_unreserved(c: char) -> bool {
    ('a' <= c && c <= 'z') || ('A' <= c && c <= 'Z') || ('0' <= c && c <= '9') || c == '-' || c == '.'
        || c == '_' || c == '~'
}

/// The upper-case hexadecimal digit of `d < 16`.
pub open spec fn hex_digit(d: nat) -> char
    recommends
        d < 16,
{
    if d < 10 {
        ((48 + d) as u8) as char
    } else {
        ((55 + d) as u8) as char
    }
}

/// `%XX` for one byte.
pub open spec fn percent_byte(b: nat) -> Seq<char> {
    seq!['%', hex_digit(b / 16), hex_digit(b % 16)]
}

/// The UTF-8 encoding of a code point.
pub open spec fn utf8_bytes(c: nat) -> Seq<nat> {
    if c < 0x80 {
        seq![c]
    } else if c < 0x800 {
        seq![0xC0 + c / 64, 0x80 + c % 64]
    } else if c < 0x10000 {
        seq![0xE0 + c / 4096, 0x80 + (c / 64) % 64, 0x80 + c % 64]
    } else {
        seq![0xF0 + c / 262144, 0x80 + (c / 4096) % 64, 0x80 + (c / 64) % 64, 0x80 + c % 64]
    }
}

pub open spec fn percent_bytes(bs: Seq<nat>) -> Seq<char>
    decreases bs.len(),
{
    if bs.len() == 0 {
        Seq::empty()
    } else {
        percent_bytes(bs.drop_last()) + percent_byte(bs.last())
    }
}

/// One character of a query component: itself where it is unreserved, else
/// each byte of its UTF-8 encoding as `%XX`.
pub open spec fn encode_char(c: char) -> Seq<char> {
    if is_unreserved(c) {
        seq![c]
    } else {
        percent_bytes(utf8_bytes(c as u32 as nat))
    }
}

/// The percent-encoding of a text, as a query key or value.
pub open spec fn percent_encoded(s: Seq<char>) -> Seq<char>
    decreases s.len(),
{
    if s.len() == 0 {
        Seq::empty()
    } else {
        percent_encoded(s.drop_last()) + encode_char(s.last())
    }
}

fn hex_char(d: u32) -> (c: char)
    requires
        d < 16,
    ensures
        c == hex_digit(d as nat),
{
    if d < 10 {
        ((48 + d) as u8) as char
    } else {
        ((55 + d) as u8) as char
    }
}

fn append_percent_byte(s: &mut String, b: u32)
    requires
        b < 256,
    ensures
        final(s)@ == old(s)@ + percent_byte(b as nat),
{
    push_char(s, '%');
    push_char(s, hex_char(b / 16));
    push_char(s, hex_char(b % 16));
    assert(s@ =~= old(s)@ + percent_byte(b as nat));
}

fn append_encoded_char(s: &mut String, c: char)
    ensures
        final(s)@ == old(s)@ + encode_char(c),
{
    if ('a' <= c && c <= 'z') || ('A' <= c && c <= 'Z') || ('0' <= c && c <= '9') || c == '-' || c == '.'
        || c == '_' || c == '~' {
        push_char(s, c);
        assert(s@ =~= old(s)@ + encode_char(c));
    } else {
        let u = c as u32;
        let ghost bs = utf8_bytes(u as nat);
        let ghost before = s@;
        if u < 0x80 {
            append_percent_byte(s, u);
        } else if u < 0x800 {
            append_percent_byte(s, 0xC0 + u / 64);
            append_percent_byte(s, 0x80 + u % 64);
            assert(bs.drop_last() =~= seq![bs[0]]);
        } else if u < 0x10000 {
            append_percent_byte(s, 0xE0 + u / 4096);
            append_percent_byte(s, 0x80 + (u / 64) % 64);
            append_percent_byte(s, 0x80 + u % 64);
            assert(bs.drop_last() =~= seq![bs[0], bs[1]]);
            assert(bs.drop_last().drop_last() =~= seq![bs[0]]);
        } else {
            assert(u < 0x110000);
            append_percent_byte(s, 0xF0 + u / 262144);
            append_percent_byte(s, 0x80 + (u / 4096) % 64);
            append_percent_byte(s, 0x80 + (u / 64) % 64);
            append_percent_byte(s, 0x80 + u % 64);
            assert(bs.drop_last() =~= seq![bs[0], bs[1], bs[2]]);
            assert(bs.drop_last().drop_last() =~= seq![bs[0], bs[1]]);
            assert(bs.drop_last().drop_last().drop_last() =~= seq![bs[0]]);
        }
        proof {
            reveal_with_fuel(percent_bytes, 5);
        }
        assert(s@ =~= before + percent_bytes(bs));
        assert(s@ =~= old(s)@ + encode_char(c));
    }
}

/// Appends the percent-encoding of `t`.
pub fn append_percent_encoded(s: &mut String, t: &str)
    ensures
        final(s)@ == old(s)@ + percent_encoded(t@),
{
    let n = t.unicode_len();
    let ghost start = s@;
    let mut i: usize = 0;
    while i < n
        invariant
            0 <= i <= n,
            n == t@.len(),
            s@ == start + percent_encoded(t@.take(i as int)),
        decreases n - i,
    {
        let c = t.get_char(i);
        assert(t@.take(i + 1).drop_last() =~= t@.take(i as int));
        assert(t@.take(i + 1).last() == c);
        append_encoded_char(s, c);
        assert(s@ =~= start + percent_encoded(t@.take(i + 1)));
        i = i + 1;
    }
    assert(t@.take(n as int) =~= t@);
}

} // verus!
