//! The JSON text layer of the record codec: escaping of string contents,
//! and consuming parsers for literals, quoted strings and optional fields,
//! with round-trip lemmas.

use vstd::prelude::*;
use crate::digits::is_digit_char;
use crate::digits::digit_val;

verus! {

/// The lower-case hex digit character of a value below sixteen.
pub open spec fn hex_digit_char(d: int) -> char {
    if d < 10 {
        (d + '0' as int) as char
    } else {
        (d - 10 + 'a' as int) as char
    }
}

/// Whether `c` is a lower-case hex digit.
pub open spec fn is_hex_lower(c: char) -> bool {
    is_digit_char(c) || ('a' <= c && c <= 'f')
}

/// The numeric value of a lower-case hex digit.
pub open spec fn hex_val(c: char) -> int {
    if is_digit_char(c) {
        digit_val(c)
    } else {
        c as int - 'a' as int + 10
    }
}

/// Hex digit characters evaluate back to their value.
pub proof fn lemma_hex_digit_char(d: int)
    requires
        0 <= d < 16,
    ensures
        is_hex_lower(hex_digit_char(d)),
        hex_val(hex_digit_char(d)) == d,
{
    if d < 10 {
        assert(d + ('0' as int) < 0xD800);
        assert(hex_digit_char(d) as int == d + ('0' as int));
    } else {
        assert(d - 10 + ('a' as int) < 0xD800);
        assert(hex_digit_char(d) as int == d - 10 + ('a' as int));
    }
}

/// The JSON escape of one character: quotes and backslashes get a backslash,
/// control characters a `\u00xx` escape, and every other character stands as
/// itself.
pub open spec fn esc_char(c: char) -> Seq<char> {
    if c == '"' {
        seq!['\\', '"']
    } else if c == '\\' {
        seq!['\\', '\\']
    } else if (c as int) < 32 {
        seq!['\\', 'u', '0', '0', hex_digit_char(c as int / 16), hex_digit_char(c as int % 16)]
    } else {
        seq![c]
    }
}

/// The JSON escape of a whole string content.
pub open spec fn esc_str(s: Seq<char>) -> Seq<char>
    decreases s.len(),
{
    if s.len() == 0 {
        Seq::empty()
    } else {
        esc_char(s[0]) + esc_str(s.drop_first())
    }
}

/// Escaping distributes over appending one character.
pub proof fn lemma_esc_str_snoc(s: Seq<char>, c: char)
    ensures
        esc_str(s.push(c)) == esc_str(s) + esc_char(c),
    decreases s.len(),
{
    if s.len() == 0 {
        assert(s.push(c)[0] == c);
        assert(s.push(c).drop_first() =~= Seq::<char>::empty());
        assert(esc_str(Seq::<char>::empty()) == Seq::<char>::empty());
        assert(esc_str(s.push(c)) == esc_char(c) + esc_str(Seq::<char>::empty()));
        assert(esc_str(s.push(c)) =~= esc_str(s) + esc_char(c));
    } else {
        assert(s.push(c)[0] == s[0]);
        assert(s.push(c).drop_first() =~= s.drop_first().push(c));
        lemma_esc_str_snoc(s.drop_first(), c);
        assert(esc_char(s[0]) + (esc_str(s.drop_first()) + esc_char(c)) =~= (esc_char(s[0])
            + esc_str(s.drop_first())) + esc_char(c));
    }
}

/// A string content in its JSON form: escaped and surrounded by quotes.
pub open spec fn quoted(s: Seq<char>) -> Seq<char> {
    seq!['"'] + esc_str(s) + seq!['"']
}

/// Consume an exact literal prefix, returning what follows it.
pub open spec fn skip_lit(s: Seq<char>, l: Seq<char>) -> Option<Seq<char>> {
    if l.len() <= s.len() && s.subrange(0, l.len() as int) == l {
        Some(s.skip(l.len() as int))
    } else {
        None
    }
}

/// A literal prefix is consumed exactly.
pub proof fn lemma_skip_lit(l: Seq<char>, rest: Seq<char>)
    ensures
        skip_lit(l + rest, l) == Some(rest),
{
    let s = l + rest;
    assert(s.subrange(0, l.len() as int) =~= l);
    assert(s.skip(l.len() as int) =~= rest);
}

/// Consume an escaped string body up to its unescaped closing quote,
/// returning the unescaped content and what follows the quote.  The opening
/// quote must already have been consumed.
pub open spec fn take_str_body(s: Seq<char>) -> Option<(Seq<char>, Seq<char>)>
    decreases s.len(),
{
    if s.len() == 0 {
        None
    } else if s[0] == '"' {
        Some((Seq::empty(), s.drop_first()))
    } else if s[0] == '\\' {
        if s.len() >= 2 && (s[1] == '"' || s[1] == '\\') {
            match take_str_body(s.skip(2)) {
                Some(p) => Some((seq![s[1]] + p.0, p.1)),
                None => None,
            }
        } else if s.len() >= 6 && s[1] == 'u' && s[2] == '0' && s[3] == '0' && is_hex_lower(s[4])
            && is_hex_lower(s[5]) {
            match take_str_body(s.skip(6)) {
                Some(p) => Some((seq![(hex_val(s[4]) * 16 + hex_val(s[5])) as char] + p.0, p.1)),
                None => None,
            }
        } else {
            None
        }
    } else {
        match take_str_body(s.drop_first()) {
            Some(p) => Some((seq![s[0]] + p.0, p.1)),
            None => None,
        }
    }
}

/// Parsing an escaped content followed by a closing quote recovers the
/// content and the remainder: the string codec round-trips.
pub proof fn lemma_take_str_body(x: Seq<char>, rest: Seq<char>)
    ensures
        take_str_body(esc_str(x) + seq!['"'] + rest) == Some((x, rest)),
    decreases x.len(),
{
    let s = esc_str(x) + seq!['"'] + rest;
    if x.len() == 0 {
        assert(s =~= seq!['"'] + rest);
        assert(s[0] == '"');
        assert(s.drop_first() =~= rest);
        assert(take_str_body(s) == Some((Seq::<char>::empty(), rest)));
        assert(x =~= Seq::<char>::empty());
    } else {
        let c = x[0];
        let t = esc_str(x.drop_first()) + seq!['"'] + rest;
        lemma_take_str_body(x.drop_first(), rest);
        assert(esc_str(x) == esc_char(c) + esc_str(x.drop_first()));
        if c == '"' {
            assert(s =~= seq!['\\', '"'] + t);
            assert(s[0] == '\\' && s[1] == '"');
            assert(s.skip(2) =~= t);
            assert(take_str_body(s) == Some((seq!['"'] + x.drop_first(), rest)));
            assert(seq!['"'] + x.drop_first() =~= x);
        } else if c == '\\' {
            assert(s =~= seq!['\\', '\\'] + t);
            assert(s[0] == '\\' && s[1] == '\\');
            assert(s.skip(2) =~= t);
            assert(take_str_body(s) == Some((seq!['\\'] + x.drop_first(), rest)));
            assert(seq!['\\'] + x.drop_first() =~= x);
        } else if (c as int) < 32 {
            let h1 = hex_digit_char(c as int / 16);
            let h2 = hex_digit_char(c as int % 16);
            assert(s =~= seq!['\\', 'u', '0', '0', h1, h2] + t);
            assert(s[0] == '\\' && s[1] == 'u' && s[2] == '0' && s[3] == '0');
            assert(s[4] == h1 && s[5] == h2);
            vstd::utf8::char_is_scalar(c);
            vstd::utf8::char_u32_cast(c, c as u32);
            assert(c as u32 as int == c as int);
            assert(0 <= (c as int) && (c as int) < 32);
            assert(0 <= (c as int) / 16 && (c as int) / 16 < 16 && 0 <= (c as int) % 16 && (c
                as int) % 16 < 16) by (nonlinear_arith)
                requires
                    0 <= (c as int) && (c as int) < 32,
            ;
            lemma_hex_digit_char(c as int / 16);
            lemma_hex_digit_char(c as int % 16);
            vstd::arithmetic::div_mod::lemma_fundamental_div_mod(c as int, 16);
            assert(hex_val(s[4]) * 16 + hex_val(s[5]) == c as int);
            assert((c as int) as char == c);
            assert(s.skip(6) =~= t);
            assert(take_str_body(s) == Some((seq![c] + x.drop_first(), rest)));
            assert(seq![c] + x.drop_first() =~= x);
        } else {
            assert(s =~= seq![c] + t);
            assert(s[0] == c);
            assert(s.drop_first() =~= t);
            assert(take_str_body(s) == Some((seq![c] + x.drop_first(), rest)));
            assert(seq![c] + x.drop_first() =~= x);
        }
    }
}

/// Consume a complete JSON string, opening quote included.
pub open spec fn take_qstring(s: Seq<char>) -> Option<(Seq<char>, Seq<char>)> {
    if s.len() > 0 && s[0] == '"' {
        take_str_body(s.drop_first())
    } else {
        None
    }
}

/// Parsing a quoted string recovers its content and the remainder.
pub proof fn lemma_take_qstring(x: Seq<char>, rest: Seq<char>)
    ensures
        take_qstring(quoted(x) + rest) == Some((x, rest)),
{
    let s = quoted(x) + rest;
    assert(s =~= seq!['"'] + (esc_str(x) + seq!['"'] + rest));
    assert(s[0] == '"');
    assert(s.drop_first() =~= esc_str(x) + seq!['"'] + rest);
    lemma_take_str_body(x, rest);
}

/// The characters of the JSON `null` literal.
pub open spec fn null_chars() -> Seq<char> {
    seq!['n', 'u', 'l', 'l']
}

/// An optional string content in its JSON form: `null` or a quoted string.
pub open spec fn opt_json(o: Option<Seq<char>>) -> Seq<char> {
    match o {
        None => null_chars(),
        Some(s) => quoted(s),
    }
}

/// Consume an optional string field: `null` or a quoted string.
pub open spec fn take_opt_json(s: Seq<char>) -> Option<(Option<Seq<char>>, Seq<char>)> {
    if s.len() > 0 && s[0] == 'n' {
        match skip_lit(s, null_chars()) {
            Some(r) => Some((None, r)),
            None => None,
        }
    } else {
        match take_qstring(s) {
            Some(p) => Some((Some(p.0), p.1)),
            None => None,
        }
    }
}

/// Parsing an optional field recovers the option and the remainder.
pub proof fn lemma_take_opt_json(o: Option<Seq<char>>, rest: Seq<char>)
    ensures
        take_opt_json(opt_json(o) + rest) == Some((o, rest)),
{
    let s = opt_json(o) + rest;
    match o {
        None => {
            assert(s[0] == 'n');
            lemma_skip_lit(null_chars(), rest);
        },
        Some(x) => {
            assert(s =~= quoted(x) + rest);
            assert(s[0] == '"');
            lemma_take_qstring(x, rest);
        },
    }
}

} // verus!

verus! {

/// The lower-case hex digit character of `d`, executable form.
fn hex_char_of(d: u32) -> (r: char)
    requires
        d < 16,
    ensures
        r == hex_digit_char(d as int),
{
    if d < 10 {
        (48 + d as u8) as char
    } else {
        (87 + d as u8) as char
    }
}

/// Whether `c` is a lower-case hex digit, executable form.
fn is_hex_digit(c: char) -> (b: bool)
    ensures
        b == is_hex_lower(c),
{
    (c >= '0' && c <= '9') || (c >= 'a' && c <= 'f')
}

/// The value of a lower-case hex digit, executable form.
fn hex_value(c: char) -> (r: u32)
    requires
        is_hex_lower(c),
    ensures
        r as int == hex_val(c),
{
    proof {
        vstd::utf8::char_is_scalar(c);
    }
    if c >= '0' && c <= '9' {
        c as u32 - 48
    } else {
        c as u32 - 97 + 10
    }
}

/// Append the characters of a literal to `out`.
pub fn push_lit(out: &mut Vec<char>, lit: &str)
    ensures
        final(out)@ == old(out)@ + lit@,
{
    let cs = crate::text::str_chars_vec(lit);
    let ghost base = out@;
    let mut i: usize = 0;
    while i < cs.len()
        invariant
            0 <= i <= cs@.len(),
            cs@ == lit@,
            out@ == base + cs@.take(i as int),
        decreases cs@.len() - i,
    {
        out.push(cs[i]);
        proof {
            assert(base + cs@.take(i as int).push(cs@[i as int]) =~= base + cs@.take(i + 1));
        }
        i = i + 1;
    }
    proof {
        assert(base + cs@.take(i as int) =~= base + lit@);
    }
}

/// Append the escape of one character to `out`.
pub fn push_esc_char(out: &mut Vec<char>, c: char)
    ensures
        final(out)@ == old(out)@ + esc_char(c),
{
    let ghost base = out@;
    proof {
        vstd::utf8::char_is_scalar(c);
        assert(c as u32 as int == c as int);
    }
    if c == '"' {
        out.push('\\');
        out.push('"');
        assert(out@ =~= base + esc_char(c));
    } else if c == '\\' {
        out.push('\\');
        out.push('\\');
        assert(out@ =~= base + esc_char(c));
    } else if (c as u32) < 32 {
        let n = c as u32;
        proof {
            assert(0 <= (n as int) / 16 && (n as int) / 16 < 16 && 0 <= (n as int) % 16 && (n
                as int) % 16 < 16) by (nonlinear_arith)
                requires
                    0 <= (n as int) && (n as int) < 32,
            ;
        }
        let h1 = hex_char_of(n / 16);
        let h2 = hex_char_of(n % 16);
        out.push('\\');
        out.push('u');
        out.push('0');
        out.push('0');
        out.push(h1);
        out.push(h2);
        assert(out@ =~= base + esc_char(c));
    } else {
        out.push(c);
        assert(out@ =~= base + esc_char(c));
    }
}

/// Append a quoted, escaped string content to `out`.
pub fn push_quoted(out: &mut Vec<char>, s: &str)
    ensures
        final(out)@ == old(out)@ + quoted(s@),
{
    let ghost base = out@;
    let cs = crate::text::str_chars_vec(s);
    out.push('"');
    proof {
        assert(out@ =~= base + seq!['"'] + esc_str(cs@.take(0)));
    }
    let mut i: usize = 0;
    while i < cs.len()
        invariant
            0 <= i <= cs@.len(),
            cs@ == s@,
            out@ == base + seq!['"'] + esc_str(cs@.take(i as int)),
        decreases cs@.len() - i,
    {
        push_esc_char(out, cs[i]);
        proof {
            lemma_esc_str_snoc(cs@.take(i as int), cs@[i as int]);
            assert(cs@.take(i as int).push(cs@[i as int]) =~= cs@.take(i + 1));
            assert((base + seq!['"'] + esc_str(cs@.take(i as int))) + esc_char(cs@[i as int])
                =~= base + seq!['"'] + esc_str(cs@.take(i + 1)));
        }
        i = i + 1;
    }
    out.push('"');
    proof {
        assert(cs@.take(i as int) =~= s@);
        assert((base + seq!['"'] + esc_str(s@)).push('"') =~= base + quoted(s@));
    }
}

/// Append an optional string content in its JSON form to `out`.
pub fn push_opt_json(out: &mut Vec<char>, o: &Option<String>)
    ensures
        final(out)@ == old(out)@ + opt_json(
            match o {
                Some(m) => Some(m@),
                None => None,
            },
        ),
{
    let ghost base = out@;
    match o {
        None => {
            push_lit(out, "null");
            proof {
                reveal_strlit("null");
                assert("null"@ =~= null_chars());
            }
        },
        Some(m) => {
            push_quoted(out, m.as_str());
        },
    }
}

/// Scan an exact literal at position `i`, returning the position after it.
pub fn scan_lit(v: &Vec<char>, i: usize, lit: &str) -> (r: Option<usize>)
    requires
        i <= v@.len(),
    ensures
        match r {
            Some(j) => i <= j <= v@.len() && skip_lit(v@.skip(i as int), lit@) == Some(
                v@.skip(j as int),
            ),
            None => skip_lit(v@.skip(i as int), lit@) is None,
        },
{
    let cs = crate::text::str_chars_vec(lit);
    if v.len() - i < cs.len() {
        return None;
    }
    let mut k: usize = 0;
    while k < cs.len()
        invariant
            0 <= k <= cs@.len(),
            cs@ == lit@,
            i + cs@.len() <= v@.len(),
            v@.len() <= usize::MAX,
            forall|t: int| 0 <= t < k ==> v@[i + t] == cs@[t],
        decreases cs@.len() - k,
    {
        assert(i + k < v@.len());
        if v[i + k] != cs[k] {
            proof {
                let s = v@.skip(i as int);
                if skip_lit(s, lit@) is Some {
                    assert(s.subrange(0, lit@.len() as int)[k as int] == s[k as int]);
                    assert(s[k as int] == v@[i + k]);
                }
            }
            return None;
        }
        k = k + 1;
    }
    proof {
        let s = v@.skip(i as int);
        assert(s.subrange(0, lit@.len() as int) =~= lit@);
        assert(s.skip(lit@.len() as int) =~= v@.skip(i + lit@.len()));
    }
    Some(i + cs.len())
}

/// Scan an escaped string body at position `i` up to its closing quote,
/// returning the unescaped content and the position after the quote.
pub fn scan_str_body(v: &Vec<char>, i: usize) -> (r: Option<(Vec<char>, usize)>)
    requires
        i <= v@.len(),
    ensures
        match r {
            Some(p) => p.1 <= v@.len() && take_str_body(v@.skip(i as int)) == Some(
                (p.0@, v@.skip(p.1 as int)),
            ),
            None => take_str_body(v@.skip(i as int)) is None,
        },
{
    let mut out: Vec<char> = Vec::new();
    let mut j: usize = i;
    loop
        invariant
            i <= j <= v@.len(),
            (match take_str_body(v@.skip(j as int)) {
                Some(p) => take_str_body(v@.skip(i as int)) == Some((out@ + p.0, p.1)),
                None => take_str_body(v@.skip(i as int)) is None,
            }),
        decreases v@.len() - j,
    {
        let ghost s = v@.skip(j as int);
        if j == v.len() {
            return None;
        }
        let c = v[j];
        assert(s[0] == c);
        if c == '"' {
            proof {
                assert(s.drop_first() =~= v@.skip(j + 1));
                assert(out@ + Seq::<char>::empty() =~= out@);
            }
            return Some((out, j + 1));
        } else if c == '\\' {
            if j + 1 < v.len() && (v[j + 1] == '"' || v[j + 1] == '\\') {
                let ghost prev = out@;
                out.push(v[j + 1]);
                proof {
                    assert(s.len() >= 2 && s[1] == v@[j + 1]);
                    assert(s.skip(2) =~= v@.skip(j + 2));
                    match take_str_body(v@.skip(j + 2)) {
                        Some(p) => {
                            assert(take_str_body(s) == Some((seq![s[1]] + p.0, p.1)));
                            assert(prev + (seq![s[1]] + p.0) =~= out@ + p.0);
                        },
                        None => {},
                    }
                }
                j = j + 2;
            } else if v.len() - j > 5 && v[j + 1] == 'u' && v[j + 2] == '0' && v[j + 3] == '0'
                && is_hex_digit(v[j + 4]) && is_hex_digit(v[j + 5]) {
                let d: u32 = hex_value(v[j + 4]) * 16 + hex_value(v[j + 5]);
                let ghost prev = out@;
                out.push((d as u8) as char);
                proof {
                    assert(s.len() >= 6);
                    assert(s[1] == 'u' && s[2] == '0' && s[3] == '0');
                    assert(s[4] == v@[j + 4] && s[5] == v@[j + 5]);
                    assert((d as int) == hex_val(s[4]) * 16 + hex_val(s[5]));
                    assert(0 <= (d as int) && (d as int) < 256);
                    assert((d as u8) as char == (hex_val(s[4]) * 16 + hex_val(s[5])) as char);
                    assert(s.skip(6) =~= v@.skip(j + 6));
                    match take_str_body(v@.skip(j + 6)) {
                        Some(p) => {
                            assert(take_str_body(s) == Some(
                                (seq![(hex_val(s[4]) * 16 + hex_val(s[5])) as char] + p.0, p.1),
                            ));
                            assert(prev + (seq![(hex_val(s[4]) * 16 + hex_val(s[5])) as char]
                                + p.0) =~= out@ + p.0);
                        },
                        None => {},
                    }
                }
                j = j + 6;
            } else {
                return None;
            }
        } else {
            let ghost prev = out@;
            out.push(c);
            proof {
                assert(s.drop_first() =~= v@.skip(j + 1));
                match take_str_body(v@.skip(j + 1)) {
                    Some(p) => {
                        assert(take_str_body(s) == Some((seq![s[0]] + p.0, p.1)));
                        assert(prev + (seq![s[0]] + p.0) =~= out@ + p.0);
                    },
                    None => {},
                }
            }
            j = j + 1;
        }
    }
}

/// Scan a complete JSON string at position `i`, opening quote included.
pub fn scan_qstring(v: &Vec<char>, i: usize) -> (r: Option<(Vec<char>, usize)>)
    requires
        i <= v@.len(),
    ensures
        match r {
            Some(p) => p.1 <= v@.len() && take_qstring(v@.skip(i as int)) == Some(
                (p.0@, v@.skip(p.1 as int)),
            ),
            None => take_qstring(v@.skip(i as int)) is None,
        },
{
    if i < v.len() && v[i] == '"' {
        proof {
            assert(v@.skip(i as int).drop_first() =~= v@.skip(i + 1));
        }
        scan_str_body(v, i + 1)
    } else {
        None
    }
}

/// Scan an optional string field at position `i`: `null` or a quoted string.
pub fn scan_opt_json(v: &Vec<char>, i: usize) -> (r: Option<(Option<Vec<char>>, usize)>)
    requires
        i <= v@.len(),
    ensures
        match r {
            Some(p) => p.1 <= v@.len() && take_opt_json(v@.skip(i as int)) == Some(
                (
                    match p.0 {
                        Some(ref m) => Some(m@),
                        None => None,
                    },
                    v@.skip(p.1 as int),
                ),
            ),
            None => take_opt_json(v@.skip(i as int)) is None,
        },
{
    if i < v.len() && v[i] == 'n' {
        proof {
            reveal_strlit("null");
            assert("null"@ =~= null_chars());
        }
        match scan_lit(v, i, "null") {
            Some(j) => Some((None, j)),
            None => None,
        }
    } else {
        match scan_qstring(v, i) {
            Some((m, j)) => Some((Some(m), j)),
            None => None,
        }
    }
}

} // verus!
