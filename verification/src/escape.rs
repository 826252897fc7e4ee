//! HTML and href escaping, matching the byte-level escaping rules that the
//! stock CommonMark HTML renderer applies.

use vstd::prelude::*;
use vstd::utf8::encode_scalar;

verus! {

/// How one character is escaped in HTML text: `"`, `&`, `<` and `>` become
/// entities, everything else passes through.
pub open spec fn esc_html_char(c: char) -> Seq<char> {
    if c == '"' {
        "&quot;"@
    } else if c == '&' {
        "&amp;"@
    } else if c == '<' {
        "&lt;"@
    } else if c == '>' {
        "&gt;"@
    } else {
        seq![c]
    }
}

/// HTML-escaping of a whole character sequence.
pub open spec fn esc_html(s: Seq<char>) -> Seq<char>
    decreases s.len(),
{
    if s.len() == 0 {
        Seq::empty()
    } else {
        esc_html(s.drop_last()) + esc_html_char(s.last())
    }
}

/// HTML-escape a string.
pub fn escape_html(s: &str) -> (r: String)
    ensures
        r@ == esc_html(s@),
{
    let n = s.unicode_len();
    let mut r = String::new();
    let mut i: usize = 0;
    while i < n
        invariant
            i <= n,
            n == s@.len(),
            r@ == esc_html(s@.subrange(0, i as int)),
        decreases n - i,
    {
        let c = s.get_char(i);
        if c == '"' {
            r.append("&quot;");
        } else if c == '&' {
            r.append("&amp;");
        } else if c == '<' {
            r.append("&lt;");
        } else if c == '>' {
            r.append("&gt;");
        } else {
            push_char_local(&mut r, c);
        }
        i = i + 1;
        proof {
            let pre = s@.subrange(0, i as int);
            assert(pre.drop_last() =~= s@.subrange(0, i - 1));
            assert(pre.last() == c);
        }
    }
    proof {
        assert(s@.subrange(0, n as int) =~= s@);
    }
    r
}

/// A single character appended through the shared helper.
fn push_char_local(s: &mut String, c: char)
    ensures
        final(s)@ == old(s)@ + seq![c],
{
    crate::strutil::push_char(s, c);
    proof {
        assert(old(s)@.push(c) =~= old(s)@ + seq![c]);
    }
}

/// The character for a single hexadecimal digit, upper case.
pub open spec fn hex_char(d: nat) -> char {
    if d == 0 {
        '0'
    } else if d == 1 {
        '1'
    } else if d == 2 {
        '2'
    } else if d == 3 {
        '3'
    } else if d == 4 {
        '4'
    } else if d == 5 {
        '5'
    } else if d == 6 {
        '6'
    } else if d == 7 {
        '7'
    } else if d == 8 {
        '8'
    } else if d == 9 {
        '9'
    } else if d == 10 {
        'A'
    } else if d == 11 {
        'B'
    } else if d == 12 {
        'C'
    } else if d == 13 {
        'D'
    } else if d == 14 {
        'E'
    } else {
        'F'
    }
}

/// A byte percent-encoded as `%XX`.
pub open spec fn pct_byte(b: u8) -> Seq<char> {
    seq!['%', hex_char((b / 16) as nat), hex_char((b % 16) as nat)]
}

/// A byte sequence percent-encoded byte for byte.
pub open spec fn pct_bytes(bs: Seq<u8>) -> Seq<char>
    decreases bs.len(),
{
    if bs.len() == 0 {
        Seq::empty()
    } else {
        pct_bytes(bs.drop_last()) + pct_byte(bs.last())
    }
}

/// Whether an ASCII character passes through an href unescaped.
pub open spec fn href_safe(c: char) -> bool {
    ('0' <= c && c <= '9') || ('A' <= c && c <= 'Z') || ('a' <= c && c <= 'z') || c == '!' || c
        == '#' || c == '$' || c == '%' || c == '(' || c == ')' || c == '*' || c == '+' || c == ','
        || c == '-' || c == '.' || c == '/' || c == ':' || c == ';' || c == '=' || c == '?' || c
        == '@' || c == '_'
}

/// How one character is escaped inside an href attribute: safe ASCII passes
/// through, `&` and `'` become entities, any other character has each byte of
/// its UTF-8 encoding percent-encoded.
pub open spec fn esc_href_char(c: char) -> Seq<char> {
    if (c as u32) < 128 && href_safe(c) {
        seq![c]
    } else if c == '&' {
        "&amp;"@
    } else if c == '\'' {
        "&#x27;"@
    } else {
        pct_bytes(encode_scalar(c as u32))
    }
}

/// Href-escaping of a whole character sequence.
pub open spec fn esc_href(s: Seq<char>) -> Seq<char>
    decreases s.len(),
{
    if s.len() == 0 {
        Seq::empty()
    } else {
        esc_href(s.drop_last()) + esc_href_char(s.last())
    }
}

/// Append `%XX` for one byte.
fn append_pct_byte(r: &mut String, b: u8)
    ensures
        final(r)@ == old(r)@ + pct_byte(b),
{
    push_char_local(r, '%');
    let hi = b / 16;
    let lo = b % 16;
    push_char_local(r, hex_digit_exec(hi));
    push_char_local(r, hex_digit_exec(lo));
    proof {
        assert(old(r)@ + seq!['%'] + seq![hex_char((b / 16) as nat)] + seq![
            hex_char((b % 16) as nat),
        ] =~= old(r)@ + pct_byte(b));
    }
}

/// The hex digit character of a value below 16.
fn hex_digit_exec(d: u8) -> (c: char)
    requires
        d < 16,
    ensures
        c == hex_char(d as nat),
{
    match d {
        0 => '0',
        1 => '1',
        2 => '2',
        3 => '3',
        4 => '4',
        5 => '5',
        6 => '6',
        7 => '7',
        8 => '8',
        9 => '9',
        10 => 'A',
        11 => 'B',
        12 => 'C',
        13 => 'D',
        14 => 'E',
        _ => 'F',
    }
}

/// The UTF-8 bytes of one character.
fn utf8_bytes_of_char(c: char) -> (r: Vec<u8>)
    ensures
        r@ == encode_scalar(c as u32),
{
    let u = c as u32;
    let mut r: Vec<u8> = Vec::new();
    if u < 0x80 {
        r.push(u as u8);
        proof {
            assert(u as u8 == ((u & 0x7F) as u8)) by (bit_vector)
                requires
                    u < 0x80,
            ;
            assert(r@ =~= encode_scalar(c as u32));
        }
    } else if u < 0x800 {
        r.push(0xC0u8 | (((u >> 6u32) & 0x1Fu32) as u8));
        r.push(0x80u8 | ((u & 0x3Fu32) as u8));
        proof {
            assert(r@ =~= encode_scalar(c as u32));
        }
    } else if u < 0x10000 {
        r.push(0xE0u8 | (((u >> 12u32) & 0x0Fu32) as u8));
        r.push(0x80u8 | (((u >> 6u32) & 0x3Fu32) as u8));
        r.push(0x80u8 | ((u & 0x3Fu32) as u8));
        proof {
            assert(r@ =~= encode_scalar(c as u32));
        }
    } else {
        r.push(0xF0u8 | (((u >> 18u32) & 0x7u32) as u8));
        r.push(0x80u8 | (((u >> 12u32) & 0x3Fu32) as u8));
        r.push(0x80u8 | (((u >> 6u32) & 0x3Fu32) as u8));
        r.push(0x80u8 | ((u & 0x3Fu32) as u8));
        proof {
            assert(r@ =~= encode_scalar(c as u32));
        }
    }
    r
}

/// Escape a string for use inside an href attribute.
pub fn escape_href(s: &str) -> (r: String)
    ensures
        r@ == esc_href(s@),
{
    let n = s.unicode_len();
    let mut r = String::new();
    let mut i: usize = 0;
    while i < n
        invariant
            i <= n,
            n == s@.len(),
            r@ == esc_href(s@.subrange(0, i as int)),
        decreases n - i,
    {
        let c = s.get_char(i);
        let u = c as u32;
        if u < 128 && href_safe_exec(c) {
            push_char_local(&mut r, c);
        } else if c == '&' {
            r.append("&amp;");
        } else if c == '\'' {
            r.append("&#x27;");
        } else {
            let bs = utf8_bytes_of_char(c);
            let ghost target = pct_bytes(bs@);
            let mut j: usize = 0;
            let ghost r0 = r@;
            while j < bs.len()
                invariant
                    j <= bs@.len(),
                    r@ == r0 + pct_bytes(bs@.subrange(0, j as int)),
                decreases bs@.len() - j,
            {
                append_pct_byte(&mut r, bs[j]);
                j = j + 1;
                proof {
                    let pre = bs@.subrange(0, j as int);
                    assert(pre.drop_last() =~= bs@.subrange(0, j - 1));
                    assert(r@ =~= r0 + pct_bytes(pre));
                }
            }
            proof {
                assert(bs@.subrange(0, bs@.len() as int) =~= bs@);
            }
        }
        i = i + 1;
        proof {
            let pre = s@.subrange(0, i as int);
            assert(pre.drop_last() =~= s@.subrange(0, i - 1));
            assert(pre.last() == c);
        }
    }
    proof {
        assert(s@.subrange(0, n as int) =~= s@);
    }
    r
}

/// Executable test for `href_safe`.
fn href_safe_exec(c: char) -> (r: bool)
    ensures
        r == href_safe(c),
{
    ('0' <= c && c <= '9') || ('A' <= c && c <= 'Z') || ('a' <= c && c <= 'z') || c == '!' || c
        == '#' || c == '$' || c == '%' || c == '(' || c == ')' || c == '*' || c == '+' || c == ','
        || c == '-' || c == '.' || c == '/' || c == ':' || c == ';' || c == '=' || c == '?' || c
        == '@' || c == '_'
}

} // verus!
