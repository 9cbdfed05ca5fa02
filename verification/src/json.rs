//! JSON line framing for scraped records.
//!
//! A record is persisted as one newline-delimited JSON object of the shape
//! `{"content": "..."}`.  The string body is escaped the way serde_json
//! escapes it: quote, backslash and the named control characters get a
//! two-character escape, the remaining control characters a `\u00..`
//! escape, and every other character stands as itself.  Parsing undoes the
//! framing, and a proved round-trip law says that a framed record parses
//! back to its exact content.

use vstd::prelude::*;

use crate::text::chars_of;
use crate::text::starts_with_chars;
use crate::text::string_of;
use vstd::arithmetic::div_mod::lemma_fundamental_div_mod;
use vstd::utf8::char_u32_cast;

verus! {

/// The lowercase hex digit for a nibble.
pub open spec fn hex_digit_spec(n: int) -> char {
    if n == 0 {
        '0'
    } else if n == 1 {
        '1'
    } else if n == 2 {
        '2'
    } else if n == 3 {
        '3'
    } else if n == 4 {
        '4'
    } else if n == 5 {
        '5'
    } else if n == 6 {
        '6'
    } else if n == 7 {
        '7'
    } else if n == 8 {
        '8'
    } else if n == 9 {
        '9'
    } else if n == 10 {
        'a'
    } else if n == 11 {
        'b'
    } else if n == 12 {
        'c'
    } else if n == 13 {
        'd'
    } else if n == 14 {
        'e'
    } else if n == 15 {
        'f'
    } else {
        '0'
    }
}

/// The value of a hex digit, or -1 for any other character.
pub open spec fn hex_val_spec(c: char) -> int {
    if c == '0' {
        0
    } else if c == '1' {
        1
    } else if c == '2' {
        2
    } else if c == '3' {
        3
    } else if c == '4' {
        4
    } else if c == '5' {
        5
    } else if c == '6' {
        6
    } else if c == '7' {
        7
    } else if c == '8' {
        8
    } else if c == '9' {
        9
    } else if c == 'a' {
        10
    } else if c == 'b' {
        11
    } else if c == 'c' {
        12
    } else if c == 'd' {
        13
    } else if c == 'e' {
        14
    } else if c == 'f' {
        15
    } else {
        -1
    }
}

/// How one character appears inside a JSON string body.
pub open spec fn escape_char_spec(c: char) -> Seq<char> {
    if c == '"' {
        seq!['\\', '"']
    } else if c == '\\' {
        seq!['\\', '\\']
    } else if c == '\u{8}' {
        seq!['\\', 'b']
    } else if c == '\u{9}' {
        seq!['\\', 't']
    } else if c == '\u{a}' {
        seq!['\\', 'n']
    } else if c == '\u{c}' {
        seq!['\\', 'f']
    } else if c == '\u{d}' {
        seq!['\\', 'r']
    } else if (c as u32) < 0x20 {
        seq![
            '\\',
            'u',
            '0',
            '0',
            hex_digit_spec((c as u32) as int / 16),
            hex_digit_spec((c as u32) as int % 16),
        ]
    } else {
        seq![c]
    }
}

/// A whole string body, escaped character by character.
pub open spec fn escape_spec(s: Seq<char>) -> Seq<char>
    decreases s.len(),
{
    if s.len() == 0 {
        Seq::empty()
    } else {
        escape_char_spec(s[0]) + escape_spec(s.drop_first())
    }
}

/// The one-line JSON object that frames a record's content.
pub open spec fn record_line_spec(content: Seq<char>) -> Seq<char> {
    "{\"content\":\""@ + escape_spec(content) + "\"}"@
}

/// The character a two-character escape stands for, if the second
/// character is a legal escape name.
pub open spec fn unescape_char_spec(e: char) -> Option<char> {
    if e == '"' {
        Some('"')
    } else if e == '\\' {
        Some('\\')
    } else if e == '/' {
        Some('/')
    } else if e == 'b' {
        Some('\u{8}')
    } else if e == 't' {
        Some('\u{9}')
    } else if e == 'n' {
        Some('\u{a}')
    } else if e == 'f' {
        Some('\u{c}')
    } else if e == 'r' {
        Some('\u{d}')
    } else {
        None
    }
}

/// Reads a JSON string body up to its closing quote.  Yields the decoded
/// content and what follows the quote, or nothing when the body is
/// malformed.  `\u` escapes are accepted for code points below 0x80,
/// which covers every escape the encoder emits.
pub open spec fn unescape_spec(s: Seq<char>) -> Option<(Seq<char>, Seq<char>)>
    decreases s.len(),
{
    if s.len() == 0 {
        None
    } else if s[0] == '"' {
        Some((Seq::empty(), s.drop_first()))
    } else if s[0] == '\\' {
        if s.len() < 2 {
            None
        } else if s[1] == 'u' {
            if s.len() >= 6 && hex_val_spec(s[2]) >= 0 && hex_val_spec(s[3]) >= 0 && hex_val_spec(
                s[4],
            ) >= 0 && hex_val_spec(s[5]) >= 0 {
                let v = ((hex_val_spec(s[2]) * 16 + hex_val_spec(s[3])) * 16 + hex_val_spec(s[4]))
                    * 16 + hex_val_spec(s[5]);
                if v < 0x80 {
                    match unescape_spec(s.skip(6)) {
                        Some(p) => Some((seq![(v as char)] + p.0, p.1)),
                        None => None,
                    }
                } else {
                    None
                }
            } else {
                None
            }
        } else {
            match unescape_char_spec(s[1]) {
                Some(c) => match unescape_spec(s.skip(2)) {
                    Some(p) => Some((seq![c] + p.0, p.1)),
                    None => None,
                },
                None => None,
            }
        }
    } else if (s[0] as u32) < 0x20 {
        None
    } else {
        match unescape_spec(s.drop_first()) {
            Some(p) => Some((seq![s[0]] + p.0, p.1)),
            None => None,
        }
    }
}

/// What parsing one output line yields: the record's content, or nothing
/// when the line is not a well-formed framed record.
pub open spec fn parse_record_line_spec(line: Seq<char>) -> Option<Seq<char>> {
    let p = "{\"content\":\""@;
    if line.len() >= p.len() && line.subrange(0, p.len() as int) == p {
        match unescape_spec(line.skip(p.len() as int)) {
            Some(pr) => if pr.1 == "}"@ {
                Some(pr.0)
            } else {
                None
            },
            None => None,
        }
    } else {
        None
    }
}

proof fn lemma_escape_push(a: Seq<char>, x: char)
    ensures
        escape_spec(a.push(x)) == escape_spec(a) + escape_char_spec(x),
    decreases a.len(),
{
    if a.len() == 0 {
        assert(a.push(x)[0] == x);
        assert(a.push(x).drop_first() =~= a);
        assert(escape_spec(a) == Seq::<char>::empty());
        assert(escape_spec(a.push(x)) == escape_char_spec(x) + Seq::<char>::empty());
        assert(escape_char_spec(x) + Seq::<char>::empty() =~= escape_char_spec(x));
        assert(escape_spec(a) + escape_char_spec(x) =~= escape_char_spec(x));
    } else {
        assert(a.push(x).drop_first() =~= a.drop_first().push(x));
        lemma_escape_push(a.drop_first(), x);
        assert(escape_spec(a.push(x)) =~= escape_spec(a) + escape_char_spec(x));
    }
}

fn hex_digit(n: u32) -> (c: char)
    requires
        n < 16,
    ensures
        c == hex_digit_spec(n as int),
{
    if n == 0 {
        '0'
    } else if n == 1 {
        '1'
    } else if n == 2 {
        '2'
    } else if n == 3 {
        '3'
    } else if n == 4 {
        '4'
    } else if n == 5 {
        '5'
    } else if n == 6 {
        '6'
    } else if n == 7 {
        '7'
    } else if n == 8 {
        '8'
    } else if n == 9 {
        '9'
    } else if n == 10 {
        'a'
    } else if n == 11 {
        'b'
    } else if n == 12 {
        'c'
    } else if n == 13 {
        'd'
    } else if n == 14 {
        'e'
    } else {
        'f'
    }
}

fn push_escaped(out: &mut Vec<char>, c: char)
    ensures
        final(out)@ == old(out)@ + escape_char_spec(c),
{
    if c == '"' {
        out.push('\\');
        out.push('"');
    } else if c == '\\' {
        out.push('\\');
        out.push('\\');
    } else if c == '\u{8}' {
        out.push('\\');
        out.push('b');
    } else if c == '\u{9}' {
        out.push('\\');
        out.push('t');
    } else if c == '\u{a}' {
        out.push('\\');
        out.push('n');
    } else if c == '\u{c}' {
        out.push('\\');
        out.push('f');
    } else if c == '\u{d}' {
        out.push('\\');
        out.push('r');
    } else {
        let u = c as u32;
        if u < 0x20 {
            out.push('\\');
            out.push('u');
            out.push('0');
            out.push('0');
            out.push(hex_digit(u / 16));
            out.push(hex_digit(u % 16));
        } else {
            out.push(c);
        }
    }
    assert(final(out)@ =~= old(out)@ + escape_char_spec(c));
}

/// The one-line JSON object `{"content":"..."}` that carries a record.
pub fn encode_record_line(content: &str) -> (r: String)
    ensures
        r@ == record_line_spec(content@),
{
    let cs = chars_of(content);
    let mut out: Vec<char> = chars_of("{\"content\":\"");
    let mut i: usize = 0;
    while i < cs.len()
        invariant
            0 <= i <= cs.len(),
            cs@ == content@,
            out@ == "{\"content\":\""@ + escape_spec(cs@.subrange(0, i as int)),
        decreases cs.len() - i,
    {
        push_escaped(&mut out, cs[i]);
        proof {
            lemma_escape_push(cs@.subrange(0, i as int), cs@[i as int]);
            assert(cs@.subrange(0, i + 1) =~= cs@.subrange(0, i as int).push(cs@[i as int]));
        }
        i = i + 1;
    }
    assert(cs@.subrange(0, cs@.len() as int) =~= cs@);
    out.push('"');
    out.push('}');
    proof {
        reveal_strlit("\"}");
        assert("\"}"@ =~= seq!['"', '}']);
        assert(out@ =~= record_line_spec(content@));
    }
    string_of(&out)
}

proof fn lemma_unescape_escape(content: Seq<char>, rest: Seq<char>)
    ensures
        unescape_spec(escape_spec(content) + seq!['"'] + rest) == Some((content, rest)),
    decreases content.len(),
{
    let s = escape_spec(content) + seq!['"'] + rest;
    if content.len() == 0 {
        assert(escape_spec(content) == Seq::<char>::empty());
        assert(s[0] == '"');
        assert(s.drop_first() =~= rest);
        assert(content =~= Seq::<char>::empty());
    } else {
        let c = content[0];
        let tail = content.drop_first();
        let e = escape_char_spec(c);
        let rest2 = escape_spec(tail) + seq!['"'] + rest;
        assert(escape_spec(content) == e + escape_spec(tail));
        assert(s =~= e + rest2);
        lemma_unescape_escape(tail, rest);
        let u = c as u32;
        if c == '"' || c == '\\' || c == '\u{8}' || c == '\u{9}' || c == '\u{a}' || c == '\u{c}'
            || c == '\u{d}' {
            assert(e.len() == 2 && e[0] == '\\');
            assert(s[0] == '\\' && s[1] == e[1]);
            assert(e[1] != 'u');
            assert(unescape_char_spec(e[1]) == Some(c));
            assert(s.skip(2) =~= rest2);
            assert(unescape_spec(s) == Some((seq![c] + tail, rest)));
            assert(seq![c] + tail =~= content);
        } else if u < 0x20 {
            assert(e == seq![
                '\\',
                'u',
                '0',
                '0',
                hex_digit_spec((u as int) / 16),
                hex_digit_spec((u as int) % 16),
            ]);
            assert(s[0] == '\\' && s[1] == 'u' && s[2] == '0' && s[3] == '0' && s[4] == e[4] && s[5]
                == e[5]);
            assert(s.len() >= 6);
            lemma_fundamental_div_mod(u as int, 16);
            let hi = (u as int) / 16;
            let lo = (u as int) % 16;
            assert(0 <= hi < 16);
            assert(0 <= lo < 16);
            assert(hex_val_spec(hex_digit_spec(hi)) == hi);
            assert(hex_val_spec(hex_digit_spec(lo)) == lo);
            assert(hex_val_spec('0') == 0);
            let v = ((hex_val_spec(s[2]) * 16 + hex_val_spec(s[3])) * 16 + hex_val_spec(s[4])) * 16
                + hex_val_spec(s[5]);
            assert(v == u as int);
            assert(v < 0x80);
            char_u32_cast(c, u);
            assert((v as char) == c);
            assert(s.skip(6) =~= rest2);
            assert(unescape_spec(s) == Some((seq![c] + tail, rest)));
            assert(seq![c] + tail =~= content);
        } else {
            assert(e == seq![c]);
            assert(s[0] == c);
            assert(s.drop_first() =~= rest2);
            assert(unescape_spec(s) == Some((seq![c] + tail, rest)));
            assert(seq![c] + tail =~= content);
        }
    }
}

/// Law: a record framed as a JSON line parses back to its exact content.
pub proof fn lemma_record_round_trip(content: Seq<char>)
    ensures
        parse_record_line_spec(record_line_spec(content)) == Some(content),
{
    reveal_strlit("{\"content\":\"");
    reveal_strlit("\"}");
    reveal_strlit("}");
    let p = "{\"content\":\""@;
    let line = record_line_spec(content);
    assert("\"}"@ =~= seq!['"', '}']);
    assert(line.subrange(0, p.len() as int) =~= p);
    assert(line.skip(p.len() as int) =~= escape_spec(content) + seq!['"'] + "}"@);
    lemma_unescape_escape(content, "}"@);
}

fn hex_val(c: char) -> (r: i32)
    ensures
        r as int == hex_val_spec(c),
{
    if c == '0' {
        0
    } else if c == '1' {
        1
    } else if c == '2' {
        2
    } else if c == '3' {
        3
    } else if c == '4' {
        4
    } else if c == '5' {
        5
    } else if c == '6' {
        6
    } else if c == '7' {
        7
    } else if c == '8' {
        8
    } else if c == '9' {
        9
    } else if c == 'a' {
        10
    } else if c == 'b' {
        11
    } else if c == 'c' {
        12
    } else if c == 'd' {
        13
    } else if c == 'e' {
        14
    } else if c == 'f' {
        15
    } else {
        -1
    }
}

fn unescape_named(e: char) -> (r: Option<char>)
    ensures
        r == unescape_char_spec(e),
{
    if e == '"' {
        Some('"')
    } else if e == '\\' {
        Some('\\')
    } else if e == '/' {
        Some('/')
    } else if e == 'b' {
        Some('\u{8}')
    } else if e == 't' {
        Some('\u{9}')
    } else if e == 'n' {
        Some('\u{a}')
    } else if e == 'f' {
        Some('\u{c}')
    } else if e == 'r' {
        Some('\u{d}')
    } else {
        None
    }
}

/// The content of a framed record line, or nothing when the line is not
/// one well-formed `{"content":"..."}` object.
pub fn parse_record_line(line: &str) -> (r: Option<String>)
    ensures
        match r {
            Some(c) => parse_record_line_spec(line@) == Some(c@),
            None => parse_record_line_spec(line@) is None,
        },
{
    let v = chars_of(line);
    let p = chars_of("{\"content\":\"");
    if !starts_with_chars(&v, &p) {
        return None;
    }
    let plen = p.len();
    let n = v.len();
    let mut out: Vec<char> = Vec::new();
    let mut i: usize = plen;
    loop
        invariant
            plen == "{\"content\":\""@.len(),
            plen <= i <= n,
            n == v.len(),
            v@ == line@,
            line@.subrange(0, plen as int) == "{\"content\":\""@,
            (match unescape_spec(line@.skip(i as int)) {
                Some(pr) => unescape_spec(line@.skip(plen as int)) == Some((out@ + pr.0, pr.1)),
                None => unescape_spec(line@.skip(plen as int)) is None,
            }),
        decreases n - i,
    {
        if i == n {
            proof {
                assert(line@.skip(i as int) =~= Seq::<char>::empty());
            }
            return None;
        }
        let c = v[i];
        proof {
            assert(line@.skip(i as int)[0] == line@[i as int]);
            assert(line@.skip(i as int).len() == n - i);
        }
        if c == '"' {
            proof {
                assert(line@.skip(i as int).drop_first() =~= line@.skip(i + 1));
                assert(out@ + Seq::<char>::empty() =~= out@);
            }
            if n - i == 2 && v[i + 1] == '}' {
                proof {
                    reveal_strlit("}");
                    assert(line@.skip(i + 1) =~= "}"@);
                }
                let s = string_of(&out);
                return Some(s);
            } else {
                proof {
                    reveal_strlit("}");
                    if n - i == 2 {
                        assert(line@.skip(i + 1)[0] != '}');
                        assert(line@.skip(i + 1) != "}"@);
                    } else {
                        assert(line@.skip(i + 1).len() != 1);
                        assert(line@.skip(i + 1) != "}"@);
                    }
                }
                return None;
            }
        } else if c == '\\' {
            if i + 1 == n {
                proof {
                    assert(line@.skip(i as int).len() < 2);
                }
                return None;
            }
            let e = v[i + 1];
            proof {
                assert(line@.skip(i as int)[1] == line@[i + 1]);
            }
            if e == 'u' {
                if n - i < 6 {
                    proof {
                        assert(line@.skip(i as int).len() < 6);
                    }
                    return None;
                }
                proof {
                    assert(line@.skip(i as int)[2] == line@[i + 2]);
                    assert(line@.skip(i as int)[3] == line@[i + 3]);
                    assert(line@.skip(i as int)[4] == line@[i + 4]);
                    assert(line@.skip(i as int)[5] == line@[i + 5]);
                }
                let h2 = hex_val(v[i + 2]);
                let h3 = hex_val(v[i + 3]);
                let h4 = hex_val(v[i + 4]);
                let h5 = hex_val(v[i + 5]);
                if h2 < 0 || h3 < 0 || h4 < 0 || h5 < 0 {
                    return None;
                }
                let val = ((h2 * 16 + h3) * 16 + h4) * 16 + h5;
                if val >= 0x80 {
                    return None;
                }
                let b = val as u8;
                let ch = b as char;
                proof {
                    assert(b as i32 == val) by (bit_vector)
                        requires
                            0 <= val < 0x80,
                            b == val as u8,
                    ;
                }
                let ghost oi = i as int;
                let ghost old_out = out@;
                out.push(ch);
                i = i + 6;
                proof {
                    assert(line@.skip(oi).skip(6) =~= line@.skip(i as int));
                    match unescape_spec(line@.skip(i as int)) {
                        Some(pr) => {
                            assert(unescape_spec(line@.skip(oi)) == Some(
                                (seq![ch] + pr.0, pr.1),
                            ));
                            assert(old_out + (seq![ch] + pr.0) =~= out@ + pr.0);
                        },
                        None => {
                            assert(unescape_spec(line@.skip(oi)) is None);
                        },
                    }
                }
            } else {
                match unescape_named(e) {
                    Some(d) => {
                        let ghost oi = i as int;
                        let ghost old_out = out@;
                        out.push(d);
                        i = i + 2;
                        proof {
                            assert(line@.skip(oi).skip(2) =~= line@.skip(i as int));
                            match unescape_spec(line@.skip(i as int)) {
                                Some(pr) => {
                                    assert(unescape_spec(line@.skip(oi)) == Some(
                                        (seq![d] + pr.0, pr.1),
                                    ));
                                    assert(old_out + (seq![d] + pr.0) =~= out@ + pr.0);
                                },
                                None => {
                                    assert(unescape_spec(line@.skip(oi)) is None);
                                },
                            }
                        }
                    },
                    None => {
                        return None;
                    },
                }
            }
        } else if (c as u32) < 0x20 {
            return None;
        } else {
            let ghost oi = i as int;
            let ghost old_out = out@;
            out.push(c);
            i = i + 1;
            proof {
                assert(line@.skip(oi).drop_first() =~= line@.skip(i as int));
                match unescape_spec(line@.skip(i as int)) {
                    Some(pr) => {
                        assert(unescape_spec(line@.skip(oi)) == Some((seq![c] + pr.0, pr.1)));
                        assert(old_out + (seq![c] + pr.0) =~= out@ + pr.0);
                    },
                    None => {
                        assert(unescape_spec(line@.skip(oi)) is None);
                    },
                }
            }
        }
    }
}

} // verus!
