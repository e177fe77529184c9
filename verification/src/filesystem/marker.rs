//! The identity marker document.
//!
//! A repository's identity is persisted as a small pretty-printed JSON
//! document with the fields `uuid`, `name` and `sign`, ending in a
//! newline. The id and the signature are fixed-width hex text and need
//! no escaping; the name is arbitrary text and is JSON-escaped. This
//! module renders the document and parses it back, and proves that the
//! two are inverse to each other.
use vstd::prelude::*;

use crate::filesystem::repository::{is_hex_lower, is_hex_lower64, is_uuid_text, RepositoryID};

verus! {

/// The lowercase hex digit with value `n`.
pub open spec fn hex_char(n: int) -> char {
    if n == 0 {
        '0'
    } else if n == 1 {
        '1'
    } else if n == 2 {
        '2'
    } else if n == 3 {
        '3'
    } else if n == 4 {
        '4'
    } else if n == 5 {
        '5'
    } else if n == 6 {
        '6'
    } else if n == 7 {
        '7'
    } else if n == 8 {
        '8'
    } else if n == 9 {
        '9'
    } else if n == 10 {
        'a'
    } else if n == 11 {
        'b'
    } else if n == 12 {
        'c'
    } else if n == 13 {
        'd'
    } else if n == 14 {
        'e'
    } else {
        'f'
    }
}

/// The value of a lowercase hex digit.
pub open spec fn hex_val(c: char) -> int {
    if c == '0' {
        0
    } else if c == '1' {
        1
    } else if c == '2' {
        2
    } else if c == '3' {
        3
    } else if c == '4' {
        4
    } else if c == '5' {
        5
    } else if c == '6' {
        6
    } else if c == '7' {
        7
    } else if c == '8' {
        8
    } else if c == '9' {
        9
    } else if c == 'a' {
        10
    } else if c == 'b' {
        11
    } else if c == 'c' {
        12
    } else if c == 'd' {
        13
    } else if c == 'e' {
        14
    } else {
        15
    }
}

pub proof fn lemma_hex_char_val(n: int)
    requires
        0 <= n < 16,
    ensures
        hex_val(hex_char(n)) == n,
        is_hex_lower(hex_char(n)),
{
}

/// How a single character of the name renders inside the marker
/// document: quote, backslash and the common control characters take
/// their two-character JSON escapes, any other control character takes
/// its `\u00..` escape, and everything else stands for itself.
pub open spec fn escape_char(c: char) -> Seq<char> {
    if c == '"' {
        seq!['\\', '"']
    } else if c == '\\' {
        seq!['\\', '\\']
    } else if c == '\n' {
        seq!['\\', 'n']
    } else if c == '\r' {
        seq!['\\', 'r']
    } else if c == '\t' {
        seq!['\\', 't']
    } else if (c as u32) < 0x20 {
        seq!['\\', 'u', '0', '0', hex_char((c as u32) as int / 16), hex_char((c as u32) as int % 16)]
    } else {
        seq![c]
    }
}

/// The JSON escaping of a whole name.
pub open spec fn escaped(s: Seq<char>) -> Seq<char>
    decreases s.len(),
{
    if s.len() == 0 {
        Seq::empty()
    } else {
        escape_char(s[0]) + escaped(s.skip(1))
    }
}

pub proof fn lemma_escaped_concat(a: Seq<char>, b: Seq<char>)
    ensures
        escaped(a + b) == escaped(a) + escaped(b),
    decreases a.len(),
{
    if a.len() == 0 {
        assert(a + b =~= b);
        assert(escaped(a) + escaped(b) =~= escaped(b));
    } else {
        assert((a + b).skip(1) =~= a.skip(1) + b);
        lemma_escaped_concat(a.skip(1), b);
        assert(escaped(a + b) =~= escaped(a) + escaped(b));
    }
}

pub proof fn lemma_escaped_single(c: char)
    ensures
        escaped(seq![c]) == escape_char(c),
{
    assert(seq![c].skip(1) =~= Seq::<char>::empty());
    assert(escaped(Seq::<char>::empty()) == Seq::<char>::empty());
    assert(escaped(seq![c]) =~= escape_char(c));
}

pub proof fn lemma_escaped_len(s: Seq<char>)
    ensures
        escaped(s).len() >= s.len(),
    decreases s.len(),
{
    if s.len() > 0 {
        lemma_escaped_len(s.skip(1));
    }
}

/// Relies on `String`'s `FromIterator` over `char`: collecting a vector
/// of characters yields the string of exactly those characters in order.
#[verifier::external_body]
pub(crate) fn string_from_chars(v: &Vec<char>) -> (r: String)
    ensures
        r@ == v@,
{
    v.iter().collect()
}

/// Appends the characters of `s` to `out`.
fn append_str_chars(out: &mut Vec<char>, s: &str)
    ensures
        final(out)@ == old(out)@ + s@,
{
    let n = s.unicode_len();
    let mut i: usize = 0;
    while i < n
        invariant
            i <= n,
            n == s@.len(),
            out@ == old(out)@ + s@.subrange(0, i as int),
        decreases n - i,
    {
        let c = s.get_char(i);
        out.push(c);
        i = i + 1;
        proof {
            assert(out@ =~= old(out)@ + s@.subrange(0, i as int));
        }
    }
    proof {
        assert(s@.subrange(0, n as int) =~= s@);
    }
}

/// The lowercase hex digit with value `n`, executably.
fn hex_char_exec(n: u32) -> (c: char)
    requires
        n < 16,
    ensures
        c == hex_char(n as int),
{
    if n == 0 {
        '0'
    } else if n == 1 {
        '1'
    } else if n == 2 {
        '2'
    } else if n == 3 {
        '3'
    } else if n == 4 {
        '4'
    } else if n == 5 {
        '5'
    } else if n == 6 {
        '6'
    } else if n == 7 {
        '7'
    } else if n == 8 {
        '8'
    } else if n == 9 {
        '9'
    } else if n == 10 {
        'a'
    } else if n == 11 {
        'b'
    } else if n == 12 {
        'c'
    } else if n == 13 {
        'd'
    } else if n == 14 {
        'e'
    } else {
        'f'
    }
}

/// Appends the escape of a single name character to `out`.
fn push_escaped_char(out: &mut Vec<char>, c: char)
    ensures
        final(out)@ == old(out)@ + escape_char(c),
{
    if c == '"' {
        out.push('\\');
        out.push('"');
    } else if c == '\\' {
        out.push('\\');
        out.push('\\');
    } else if c == '\n' {
        out.push('\\');
        out.push('n');
    } else if c == '\r' {
        out.push('\\');
        out.push('r');
    } else if c == '\t' {
        out.push('\\');
        out.push('t');
    } else {
        let v = c as u32;
        if v < 0x20 {
            out.push('\\');
            out.push('u');
            out.push('0');
            out.push('0');
            out.push(hex_char_exec(v / 16));
            out.push(hex_char_exec(v % 16));
        } else {
            out.push(c);
        }
    }
    proof {
        assert(out@ =~= old(out)@ + escape_char(c));
    }
}

/// Appends the JSON escaping of `s` to `out`.
fn escape_into(out: &mut Vec<char>, s: &str)
    ensures
        final(out)@ == old(out)@ + escaped(s@),
{
    let n = s.unicode_len();
    let mut i: usize = 0;
    while i < n
        invariant
            i <= n,
            n == s@.len(),
            out@ == old(out)@ + escaped(s@.subrange(0, i as int)),
        decreases n - i,
    {
        let c = s.get_char(i);
        push_escaped_char(out, c);
        i = i + 1;
        proof {
            assert(s@.subrange(0, i as int) =~= s@.subrange(0, i - 1) + seq![c]);
            lemma_escaped_concat(s@.subrange(0, i - 1), seq![c]);
            lemma_escaped_single(c);
            assert(out@ =~= old(out)@ + escaped(s@.subrange(0, i as int)));
        }
    }
    proof {
        assert(s@.subrange(0, n as int) =~= s@);
    }
}

/// Decides whether a character is a lowercase hex digit.
fn is_hex_lower_exec(c: char) -> (r: bool)
    ensures
        r == is_hex_lower(c),
{
    ('0' <= c && c <= '9') || ('a' <= c && c <= 'f')
}

/// The value of a lowercase hex digit, executably.
fn hex_val_exec(c: char) -> (r: u8)
    requires
        is_hex_lower(c),
    ensures
        r as int == hex_val(c),
        r < 16,
{
    if c == '0' {
        0
    } else if c == '1' {
        1
    } else if c == '2' {
        2
    } else if c == '3' {
        3
    } else if c == '4' {
        4
    } else if c == '5' {
        5
    } else if c == '6' {
        6
    } else if c == '7' {
        7
    } else if c == '8' {
        8
    } else if c == '9' {
        9
    } else if c == 'a' {
        10
    } else if c == 'b' {
        11
    } else if c == 'c' {
        12
    } else if c == 'd' {
        13
    } else if c == 'e' {
        14
    } else {
        15
    }
}

/// Lifting [`opt_prepend`] over one decoded character.
proof fn lemma_opt_prepend_cons(p: Seq<char>, c: char, o: Option<Seq<char>>)
    ensures
        opt_prepend(p, cons_opt(c, o)) == opt_prepend(p.push(c), o),
{
    match o {
        Some(t) => {
            assert(p + (seq![c] + t) =~= p.push(c) + t);
        },
        None => {},
    }
}

/// Decodes the escaped region `doc[from..to]`, or reports that it is not
/// a well-formed canonically escaped name region.
fn unescape_region(doc: &Vec<char>, from: usize, to: usize) -> (r: Option<Vec<char>>)
    requires
        from <= to <= doc@.len(),
    ensures
        (r matches Some(out) ==> unescaped(doc@.subrange(from as int, to as int)) == Some(out@)),
        (r is None ==> unescaped(doc@.subrange(from as int, to as int)) is None),
{
    let ghost region = doc@.subrange(from as int, to as int);
    let mut out: Vec<char> = Vec::new();
    let mut i: usize = from;
    while i < to
        invariant
            from <= i <= to <= doc@.len(),
            region == doc@.subrange(from as int, to as int),
            unescaped(region) == opt_prepend(out@, unescaped(doc@.subrange(i as int, to as int))),
        decreases to - i,
    {
        let ghost rem = doc@.subrange(i as int, to as int);
        let c = doc[i];
        proof {
            assert(rem[0] == c);
        }
        if c == '\\' {
            if to - i < 2 {
                proof {
                    assert(rem.len() < 2);
                    assert(unescaped(rem) is None);
                }
                return None;
            }
            let c2 = doc[i + 1];
            proof {
                assert(rem[1] == c2);
            }
            if c2 == '"' || c2 == '\\' || c2 == 'n' || c2 == 'r' || c2 == 't' {
                let dec = if c2 == '"' {
                    '"'
                } else if c2 == '\\' {
                    '\\'
                } else if c2 == 'n' {
                    '\n'
                } else if c2 == 'r' {
                    '\r'
                } else {
                    '\t'
                };
                proof {
                    assert(rem.skip(2) =~= doc@.subrange(i + 2, to as int));
                    assert(unescaped(rem) == cons_opt(dec, unescaped(rem.skip(2))));
                    lemma_opt_prepend_cons(out@, dec, unescaped(rem.skip(2)));
                }
                out.push(dec);
                i = i + 2;
            } else if c2 == 'u' {
                if to - i < 6 {
                    proof {
                        assert(rem.len() < 6);
                        assert(unescaped(rem) is None);
                    }
                    return None;
                }
                let d2 = doc[i + 2];
                let d3 = doc[i + 3];
                let h4 = doc[i + 4];
                let h5 = doc[i + 5];
                proof {
                    assert(rem[2] == d2 && rem[3] == d3 && rem[4] == h4 && rem[5] == h5);
                }
                if d2 != '0' || d3 != '0' || !is_hex_lower_exec(h4) || !is_hex_lower_exec(h5) {
                    proof {
                        assert(unescaped(rem) is None);
                    }
                    return None;
                }
                let v: u8 = 16 * hex_val_exec(h4) + hex_val_exec(h5);
                let dec: char = v as char;
                proof {
                    assert(v as int == 16 * hex_val(rem[4]) + hex_val(rem[5]));
                    assert(dec == (16 * hex_val(rem[4]) + hex_val(rem[5])) as char);
                }
                if v >= 0x20 || v == 0x0a || v == 0x0d || v == 0x09 {
                    proof {
                        vstd::utf8::char_u32_cast(dec, dec as u32);
                        assert(dec as u32 == v as u32);
                        assert(escape_char(dec) != rem.subrange(0, 6)) by {
                            if (dec as u32) < 0x20 {
                                assert(dec == '\n' || dec == '\r' || dec == '\t');
                            }
                            assert(escape_char(dec).len() <= 2);
                            assert(rem.subrange(0, 6).len() == 6);
                        }
                        assert(unescaped(rem) is None);
                    }
                    return None;
                }
                proof {
                    assert(dec as u32 == v as u32);
                    assert((dec as u32) < 0x20);
                    assert(dec != '"' && dec != '\\' && dec != '\n' && dec != '\r' && dec != '\t')
                        by {
                        assert(('"' as u32) == 0x22 && ('\\' as u32) == 0x5c && ('\n' as u32)
                            == 0x0a && ('\r' as u32) == 0x0d && ('\t' as u32) == 0x09);
                    }
                    let vi = (dec as u32) as int;
                    lemma_hex_val_char(rem[4]);
                    lemma_hex_val_char(rem[5]);
                    assert(vi / 16 == hex_val(rem[4]) && vi % 16 == hex_val(rem[5]));
                    assert(escape_char(dec) =~= rem.subrange(0, 6));
                    assert(rem.skip(6) =~= doc@.subrange(i + 6, to as int));
                    assert(unescaped(rem) == cons_opt(dec, unescaped(rem.skip(6))));
                    lemma_opt_prepend_cons(out@, dec, unescaped(rem.skip(6)));
                }
                out.push(dec);
                i = i + 6;
            } else {
                proof {
                    assert(unescaped(rem) is None);
                }
                return None;
            }
        } else if c == '"' || (c as u32) < 0x20 {
            proof {
                assert(unescaped(rem) is None);
            }
            return None;
        } else {
            proof {
                assert(rem.skip(1) =~= doc@.subrange(i + 1, to as int));
                assert(unescaped(rem) == cons_opt(c, unescaped(rem.skip(1))));
                lemma_opt_prepend_cons(out@, c, unescaped(rem.skip(1)));
            }
            out.push(c);
            i = i + 1;
        }
    }
    proof {
        assert(doc@.subrange(to as int, to as int) =~= Seq::<char>::empty());
        assert(unescaped(Seq::<char>::empty()) == Some(Seq::<char>::empty()));
        assert(out@ + Seq::<char>::empty() =~= out@);
    }
    Some(out)
}

/// The exact text of the marker document recording the given id, name
/// and signature: a pretty-printed JSON object ending in a newline.
pub open spec fn marker_doc(uuid: Seq<char>, name: Seq<char>, sign: Seq<char>) -> Seq<char> {
    "{\n  \"uuid\": \""@ + uuid + "\",\n  \"name\": \""@ + escaped(name) + "\",\n  \"sign\": \""@
        + sign + "\"\n}\n"@
}

/// The triples an identity marker can record: a hyphenated uuid, a
/// non-empty name, a 64-digit hex signature.
pub open spec fn valid_marker_triple(u: Seq<char>, n: Seq<char>, s: Seq<char>) -> bool {
    is_uuid_text(u) && n.len() >= 1 && is_hex_lower64(s)
}

/// Prepends a character to the result of an unescaping step.
pub open spec fn cons_opt(c: char, rest: Option<Seq<char>>) -> Option<Seq<char>> {
    match rest {
        Some(t) => Some(seq![c] + t),
        None => None,
    }
}

/// Prepends already-decoded characters to the result of unescaping the
/// rest of a region.
pub open spec fn opt_prepend(p: Seq<char>, o: Option<Seq<char>>) -> Option<Seq<char>> {
    match o {
        Some(t) => Some(p + t),
        None => None,
    }
}

/// The inverse of [`escaped`]: decodes an escaped name region, accepting
/// exactly the escapes that [`escape_char`] emits, and refusing
/// everything else (a stray quote, backslash or control character, an
/// unknown or non-canonical escape).
pub open spec fn unescaped(s: Seq<char>) -> Option<Seq<char>>
    decreases s.len(),
{
    if s.len() == 0 {
        Some(Seq::empty())
    } else if s[0] == '\\' {
        if s.len() >= 2 && s[1] == '"' {
            cons_opt('"', unescaped(s.skip(2)))
        } else if s.len() >= 2 && s[1] == '\\' {
            cons_opt('\\', unescaped(s.skip(2)))
        } else if s.len() >= 2 && s[1] == 'n' {
            cons_opt('\n', unescaped(s.skip(2)))
        } else if s.len() >= 2 && s[1] == 'r' {
            cons_opt('\r', unescaped(s.skip(2)))
        } else if s.len() >= 2 && s[1] == 't' {
            cons_opt('\t', unescaped(s.skip(2)))
        } else if s.len() >= 6 && s[1] == 'u' && s[2] == '0' && s[3] == '0' && is_hex_lower(s[4])
            && is_hex_lower(s[5]) && escape_char((16 * hex_val(s[4]) + hex_val(s[5])) as char)
            == s.subrange(0, 6) {
            cons_opt((16 * hex_val(s[4]) + hex_val(s[5])) as char, unescaped(s.skip(6)))
        } else {
            None
        }
    } else if s[0] == '"' || (s[0] as u32) < 0x20 {
        None
    } else {
        cons_opt(s[0], unescaped(s.skip(1)))
    }
}

/// A lowercase hex digit is recovered from its value.
pub proof fn lemma_hex_val_char(c: char)
    requires
        is_hex_lower(c),
    ensures
        0 <= hex_val(c) < 16,
        hex_char(hex_val(c)) == c,
{
}

/// Whatever unescapes successfully is exactly the escaping of its
/// decoding: the marker's escape syntax is canonical.
pub proof fn lemma_unescaped_escape_inverse(e: Seq<char>, t: Seq<char>)
    requires
        unescaped(e) == Some(t),
    ensures
        escaped(t) == e,
    decreases e.len(),
{
    if e.len() == 0 {
        assert(t =~= Seq::<char>::empty());
        assert(escaped(t) =~= e);
    } else if e[0] == '\\' {
        if e.len() >= 2 && (e[1] == '"' || e[1] == '\\' || e[1] == 'n' || e[1] == 'r' || e[1]
            == 't') {
            let c = if e[1] == '"' {
                '"'
            } else if e[1] == '\\' {
                '\\'
            } else if e[1] == 'n' {
                '\n'
            } else if e[1] == 'r' {
                '\r'
            } else {
                '\t'
            };
            let t2 = unescaped(e.skip(2))->Some_0;
            lemma_unescaped_escape_inverse(e.skip(2), t2);
            assert(t == seq![c] + t2);
            assert(t.skip(1) =~= t2);
            assert(escaped(t) =~= e);
        } else if e.len() >= 6 && e[1] == 'u' && e[2] == '0' && e[3] == '0' && is_hex_lower(e[4])
            && is_hex_lower(e[5]) && escape_char((16 * hex_val(e[4]) + hex_val(e[5])) as char)
            == e.subrange(0, 6) {
            let c = (16 * hex_val(e[4]) + hex_val(e[5])) as char;
            let t2 = unescaped(e.skip(6))->Some_0;
            lemma_unescaped_escape_inverse(e.skip(6), t2);
            assert(t == seq![c] + t2);
            assert(t.skip(1) =~= t2);
            assert(escaped(t) =~= escape_char(c) + escaped(t2));
            assert(escaped(t) =~= e.subrange(0, 6) + e.skip(6));
            assert(escaped(t) =~= e);
        } else {
            assert(false);
        }
    } else {
        let c = e[0];
        let t2 = unescaped(e.skip(1))->Some_0;
        lemma_unescaped_escape_inverse(e.skip(1), t2);
        assert(c != '"' && c != '\\' && (c as u32) >= 0x20);
        assert(c != '\n' && c != '\r' && c != '\t') by {
            assert(('\n' as u32) < 0x20 && ('\r' as u32) < 0x20 && ('\t' as u32) < 0x20);
        }
        assert(escape_char(c) == seq![c]);
        assert(t == seq![c] + t2);
        assert(t.skip(1) =~= t2);
        assert(escaped(t) =~= e);
    }
}

/// Unescaping inverts escaping: every name is recovered exactly from its
/// escaped rendering.
pub proof fn lemma_escape_unescape(s: Seq<char>)
    ensures
        unescaped(escaped(s)) == Some(s),
    decreases s.len(),
{
    broadcast use vstd::utf8::char_u32_cast;

    if s.len() == 0 {
        assert(s =~= Seq::<char>::empty());
    } else {
        let c = s[0];
        let rest = s.skip(1);
        lemma_escape_unescape(rest);
        let e = escaped(s);
        let er = escaped(rest);
        assert(e == escape_char(c) + er);
        if c == '"' || c == '\\' || c == '\n' || c == '\r' || c == '\t' {
            assert(e.skip(2) =~= er);
            assert(unescaped(e) == cons_opt(c, Some(rest)));
            assert(seq![c] + rest =~= s);
        } else if (c as u32) < 0x20 {
            let vi = (c as u32) as int;
            assert(0 <= vi < 0x20);
            assert(e[0] == '\\' && e[1] == 'u' && e[2] == '0' && e[3] == '0');
            assert(e[4] == hex_char(vi / 16) && e[5] == hex_char(vi % 16));
            lemma_hex_char_val(vi / 16);
            lemma_hex_char_val(vi % 16);
            assert(16 * hex_val(e[4]) + hex_val(e[5]) == vi);
            let c2 = (16 * hex_val(e[4]) + hex_val(e[5])) as char;
            vstd::utf8::char_u32_cast(c, c as u32);
            assert(c2 == c);
            assert(e.subrange(0, 6) =~= escape_char(c));
            assert(e.skip(6) =~= er);
            assert(unescaped(e) == cons_opt(c, Some(rest)));
            assert(seq![c] + rest =~= s);
        } else {
            assert(escape_char(c) == seq![c]);
            assert(e[0] == c);
            assert(e.skip(1) =~= er);
            assert(unescaped(e) == cons_opt(c, Some(rest)));
            assert(seq![c] + rest =~= s);
        }
    }
}

/// A non-empty escaped region never decodes to an empty name.
pub proof fn lemma_unescaped_nonempty(e: Seq<char>, t: Seq<char>)
    requires
        unescaped(e) == Some(t),
        e.len() > 0,
    ensures
        t.len() > 0,
{
}

/// How a marker document splits into its seven parts: the three fixed
/// separators and the trailer at known offsets around the 36-character
/// id, the escaped name, and the 64-character signature.
pub proof fn lemma_marker_doc_parts(u: Seq<char>, n: Seq<char>, s: Seq<char>)
    requires
        u.len() == 36,
        s.len() == 64,
    ensures
        ({
            let d = marker_doc(u, n, s);
            let e = escaped(n);
            &&& d.len() == 145 + e.len()
            &&& d.subrange(0, 13) == "{\n  \"uuid\": \""@
            &&& d.subrange(13, 49) == u
            &&& d.subrange(49, 63) == "\",\n  \"name\": \""@
            &&& d.subrange(63, d.len() - 82) == e
            &&& d.subrange(d.len() - 82, d.len() - 68) == "\",\n  \"sign\": \""@
            &&& d.subrange(d.len() - 68, d.len() - 4) == s
            &&& d.subrange(d.len() - 4, d.len() as int) == "\"\n}\n"@
        }),
{
    reveal_strlit("{\n  \"uuid\": \"");
    reveal_strlit("\",\n  \"name\": \"");
    reveal_strlit("\",\n  \"sign\": \"");
    reveal_strlit("\"\n}\n");
    let d = marker_doc(u, n, s);
    let e = escaped(n);
    assert(d.len() == 145 + e.len());
    assert(d.subrange(0, 13) =~= "{\n  \"uuid\": \""@);
    assert(d.subrange(13, 49) =~= u);
    assert(d.subrange(49, 63) =~= "\",\n  \"name\": \""@);
    assert(d.subrange(63, d.len() - 82) =~= e);
    assert(d.subrange(d.len() - 82, d.len() - 68) =~= "\",\n  \"sign\": \""@);
    assert(d.subrange(d.len() - 68, d.len() - 4) =~= s);
    assert(d.subrange(d.len() - 4, d.len() as int) =~= "\"\n}\n"@);
}

/// The converse of [`lemma_marker_doc_parts`]: a text whose seven parts
/// are in place is the marker document of what they record.
pub proof fn lemma_marker_doc_assemble(d: Seq<char>, u: Seq<char>, n: Seq<char>, s: Seq<char>)
    requires
        d.len() >= 145,
        u == d.subrange(13, 49),
        escaped(n) == d.subrange(63, d.len() - 82),
        s == d.subrange(d.len() - 68, d.len() - 4),
        d.subrange(0, 13) == "{\n  \"uuid\": \""@,
        d.subrange(49, 63) == "\",\n  \"name\": \""@,
        d.subrange(d.len() - 82, d.len() - 68) == "\",\n  \"sign\": \""@,
        d.subrange(d.len() - 4, d.len() as int) == "\"\n}\n"@,
    ensures
        d == marker_doc(u, n, s),
{
    reveal_strlit("{\n  \"uuid\": \"");
    reveal_strlit("\",\n  \"name\": \"");
    reveal_strlit("\",\n  \"sign\": \"");
    reveal_strlit("\"\n}\n");
    assert(d =~= marker_doc(u, n, s));
}

/// Two different identities never share a marker document: together with
/// the contracts of [`render_marker`] and [`parse_marker`], parsing a
/// rendered marker recovers exactly the identity that was rendered.
pub proof fn lemma_marker_doc_injective(
    u1: Seq<char>,
    n1: Seq<char>,
    s1: Seq<char>,
    u2: Seq<char>,
    n2: Seq<char>,
    s2: Seq<char>,
)
    requires
        u1.len() == 36,
        u2.len() == 36,
        s1.len() == 64,
        s2.len() == 64,
        marker_doc(u1, n1, s1) == marker_doc(u2, n2, s2),
    ensures
        u1 == u2,
        n1 == n2,
        s1 == s2,
{
    lemma_marker_doc_parts(u1, n1, s1);
    lemma_marker_doc_parts(u2, n2, s2);
    assert(escaped(n1) == escaped(n2));
    lemma_escape_unescape(n1);
    lemma_escape_unescape(n2);
}

/// Compares `doc[at..at + lit.len()]` with `lit`, reporting false when
/// the region runs past the end of `doc`.
fn region_matches(doc: &Vec<char>, at: usize, lit: &str) -> (r: bool)
    requires
        at <= doc@.len(),
    ensures
        r == (at + lit@.len() <= doc@.len() && doc@.subrange(at as int, at + lit@.len()) == lit@),
{
    let n = lit.unicode_len();
    let dl = doc.len();
    if n > dl - at {
        return false;
    }
    let mut j: usize = 0;
    while j < n
        invariant
            j <= n,
            n == lit@.len(),
            dl == doc@.len(),
            at + n <= dl,
            forall|k: int| 0 <= k < j ==> doc@[at + k] == lit@[k],
        decreases n - j,
    {
        if doc[at + j] != lit.get_char(j) {
            proof {
                assert(doc@.subrange(at as int, at + lit@.len())[j as int] != lit@[j as int]);
            }
            return false;
        }
        j = j + 1;
    }
    proof {
        assert(doc@.subrange(at as int, at + lit@.len()) =~= lit@);
    }
    true
}

/// Checks that `doc[at..at + 36]` has the shape of a hyphenated uuid.
fn check_uuid_region(doc: &Vec<char>, at: usize) -> (r: bool)
    requires
        at + 36 <= doc@.len(),
    ensures
        r == is_uuid_text(doc@.subrange(at as int, at + 36)),
{
    let ghost region = doc@.subrange(at as int, at + 36);
    let dl = doc.len();
    let mut j: usize = 0;
    while j < 36
        invariant
            j <= 36,
            dl == doc@.len(),
            at + 36 <= dl,
            region == doc@.subrange(at as int, at + 36),
            forall|k: int|
                0 <= k < j ==> (if k == 8 || k == 13 || k == 18 || k == 23 {
                    region[k] == '-'
                } else {
                    is_hex_lower(#[trigger] region[k])
                }),
        decreases 36 - j,
    {
        let c = doc[at + j];
        proof {
            assert(region[j as int] == c);
        }
        if j == 8 || j == 13 || j == 18 || j == 23 {
            if c != '-' {
                return false;
            }
        } else {
            if !is_hex_lower_exec(c) {
                return false;
            }
        }
        j = j + 1;
    }
    true
}

/// Checks that `doc[at..at + 64]` is all lowercase hex.
fn check_hex64_region(doc: &Vec<char>, at: usize) -> (r: bool)
    requires
        at + 64 <= doc@.len(),
    ensures
        r == is_hex_lower64(doc@.subrange(at as int, at + 64)),
{
    let ghost region = doc@.subrange(at as int, at + 64);
    let dl = doc.len();
    let mut j: usize = 0;
    while j < 64
        invariant
            j <= 64,
            dl == doc@.len(),
            at + 64 <= dl,
            region == doc@.subrange(at as int, at + 64),
            forall|k: int| 0 <= k < j ==> is_hex_lower(#[trigger] region[k]),
        decreases 64 - j,
    {
        let c = doc[at + j];
        proof {
            assert(region[j as int] == c);
        }
        if !is_hex_lower_exec(c) {
            return false;
        }
        j = j + 1;
    }
    true
}

/// Copies `doc[from..to]` out as its own vector.
fn sub_chars(doc: &Vec<char>, from: usize, to: usize) -> (r: Vec<char>)
    requires
        from <= to <= doc@.len(),
    ensures
        r@ == doc@.subrange(from as int, to as int),
{
    let mut out: Vec<char> = Vec::new();
    let mut i: usize = from;
    while i < to
        invariant
            from <= i <= to <= doc@.len(),
            out@ == doc@.subrange(from as int, i as int),
        decreases to - i,
    {
        out.push(doc[i]);
        i = i + 1;
        proof {
            assert(out@ =~= doc@.subrange(from as int, i as int));
        }
    }
    out
}

/// The characters of a string, as a vector.
fn str_chars(s: &str) -> (r: Vec<char>)
    ensures
        r@ == s@,
{
    let mut out: Vec<char> = Vec::new();
    append_str_chars(&mut out, s);
    out
}

/// Parses a marker document back into the identity it records.
///
/// Succeeds exactly on the texts that [`render_marker`] produces for a
/// well-formed identity, and then recovers that identity's id, name and
/// signature: together with the contract of `render_marker` this is the
/// round trip between an identity and its marker file.
pub fn parse_marker(text: &str) -> (r: Option<RepositoryID>)
    ensures
        (r matches Some(id) ==> id.valid() && text@ == marker_doc(id.uuid@, id.name@, id.sign@)),
        (r is None ==> forall|u: Seq<char>, n: Seq<char>, s: Seq<char>|
            valid_marker_triple(u, n, s) ==> text@ != marker_doc(u, n, s)),
{
    let doc = str_chars(text);
    let len = doc.len();
    proof {
        reveal_strlit("{\n  \"uuid\": \"");
        reveal_strlit("\",\n  \"name\": \"");
        reveal_strlit("\",\n  \"sign\": \"");
        reveal_strlit("\"\n}\n");
        assert(("{\n  \"uuid\": \""@).len() == 13);
        assert(("\",\n  \"name\": \""@).len() == 14);
        assert(("\",\n  \"sign\": \""@).len() == 14);
        assert(("\"\n}\n"@).len() == 4);
    }
    if len < 146 {
        proof {
            assert forall|u: Seq<char>, n: Seq<char>, s: Seq<char>|
                valid_marker_triple(u, n, s) implies text@ != marker_doc(u, n, s) by {
                lemma_marker_doc_parts(u, n, s);
                lemma_escaped_len(n);
            }
        }
        return None;
    }
    if !region_matches(&doc, 0, "{\n  \"uuid\": \"") {
        proof {
            assert forall|u: Seq<char>, n: Seq<char>, s: Seq<char>|
                valid_marker_triple(u, n, s) implies text@ != marker_doc(u, n, s) by {
                lemma_marker_doc_parts(u, n, s);
            }
        }
        return None;
    }
    if !check_uuid_region(&doc, 13) {
        proof {
            assert forall|u: Seq<char>, n: Seq<char>, s: Seq<char>|
                valid_marker_triple(u, n, s) implies text@ != marker_doc(u, n, s) by {
                lemma_marker_doc_parts(u, n, s);
            }
        }
        return None;
    }
    if !region_matches(&doc, 49, "\",\n  \"name\": \"") {
        proof {
            assert forall|u: Seq<char>, n: Seq<char>, s: Seq<char>|
                valid_marker_triple(u, n, s) implies text@ != marker_doc(u, n, s) by {
                lemma_marker_doc_parts(u, n, s);
            }
        }
        return None;
    }
    if !region_matches(&doc, len - 82, "\",\n  \"sign\": \"") {
        proof {
            assert forall|u: Seq<char>, n: Seq<char>, s: Seq<char>|
                valid_marker_triple(u, n, s) implies text@ != marker_doc(u, n, s) by {
                lemma_marker_doc_parts(u, n, s);
            }
        }
        return None;
    }
    if !check_hex64_region(&doc, len - 68) {
        proof {
            assert forall|u: Seq<char>, n: Seq<char>, s: Seq<char>|
                valid_marker_triple(u, n, s) implies text@ != marker_doc(u, n, s) by {
                lemma_marker_doc_parts(u, n, s);
            }
        }
        return None;
    }
    if !region_matches(&doc, len - 4, "\"\n}\n") {
        proof {
            assert forall|u: Seq<char>, n: Seq<char>, s: Seq<char>|
                valid_marker_triple(u, n, s) implies text@ != marker_doc(u, n, s) by {
                lemma_marker_doc_parts(u, n, s);
            }
        }
        return None;
    }
    let name_chars = match unescape_region(&doc, 63, len - 82) {
        Some(v) => v,
        None => {
            proof {
                assert forall|u: Seq<char>, n: Seq<char>, s: Seq<char>|
                    valid_marker_triple(u, n, s) implies text@ != marker_doc(u, n, s) by {
                    lemma_marker_doc_parts(u, n, s);
                    lemma_escape_unescape(n);
                }
            }
            return None;
        },
    };
    let uuid_chars = sub_chars(&doc, 13, 49);
    let sign_chars = sub_chars(&doc, len - 68, len - 4);
    let id = RepositoryID {
        uuid: string_from_chars(&uuid_chars),
        name: string_from_chars(&name_chars),
        sign: string_from_chars(&sign_chars),
    };
    proof {
        lemma_unescaped_nonempty(doc@.subrange(63, len - 82), name_chars@);
        lemma_unescaped_escape_inverse(doc@.subrange(63, len - 82), name_chars@);
        lemma_marker_doc_assemble(doc@, id.uuid@, id.name@, id.sign@);
    }
    Some(id)
}

/// Renders the marker document for an identity.
pub(crate) fn render_marker(id: &RepositoryID) -> (r: String)
    ensures
        r@ == marker_doc(id.uuid@, id.name@, id.sign@),
{
    let mut out: Vec<char> = Vec::new();
    append_str_chars(&mut out, "{\n  \"uuid\": \"");
    append_str_chars(&mut out, id.uuid.as_str());
    append_str_chars(&mut out, "\",\n  \"name\": \"");
    escape_into(&mut out, id.name.as_str());
    append_str_chars(&mut out, "\",\n  \"sign\": \"");
    append_str_chars(&mut out, id.sign.as_str());
    append_str_chars(&mut out, "\"\n}\n");
    proof {
        assert(out@ =~= marker_doc(id.uuid@, id.name@, id.sign@));
    }
    string_from_chars(&out)
}

} // verus!
