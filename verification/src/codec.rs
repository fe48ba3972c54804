//! The sidecar file format: a canonical JSON encoding of [`EngineMetadata`]
//! and a parser for it.
//!
//! A sidecar is a JSON object with the keys `display_name` (string,
//! required), `source_code`, `website` and `authors` (string or null,
//! optional; a missing key reads the same as null). Unknown keys are skipped
//! for forward compatibility, their values held to the JSON grammar; a known
//! key seen twice is an error. Strings carry raw UTF-8 and the JSON escapes,
//! `\uXXXX` with surrogate pairs included; numbers follow the JSON number
//! grammar.

use vstd::prelude::*;
use crate::metadata::EngineMetadata;
use crate::metadata::MetaError;
use crate::metadata::MetaFields;

verus! {

/// Relies on String::push: appends the one character to the end.
#[verifier::external_body]
fn push_char(s: &mut String, c: char)
    ensures
        final(s)@ == old(s)@.push(c),
{
    s.push(c);
}

/// Relies on char::from_u32: every integer below 0xD800 or between 0xE000
/// and 0x10FFFF is a Unicode scalar value, and the conversion yields the
/// character with that value.
#[verifier::external_body]
fn char_from_u32(u: u32) -> (c: char)
    requires
        u < 0xD800 || (0xE000 <= u && u <= 0x10FFFF),
    ensures
        c as u32 == u,
{
    char::from_u32(u).unwrap()
}

/// The characters of `s`, in order.
fn chars_of(s: &str) -> (v: Vec<char>)
    ensures
        v@ == s@,
{
    let n: usize = s.unicode_len();
    let mut v: Vec<char> = Vec::new();
    let mut i: usize = 0;
    while i < n
        invariant
            n == s@.len(),
            i <= n,
            v@ == s@.take(i as int),
        decreases n - i,
    {
        let c: char = s.get_char(i);
        proof {
            assert(s@.take(i + 1) =~= s@.take(i as int).push(s@[i as int]));
        }
        v.push(c);
        i = i + 1;
    }
    proof {
        assert(s@.take(n as int) =~= s@);
    }
    v
}

/// The lower-case hexadecimal digit for `n`.
pub open spec fn hex_digit(n: int) -> char {
    if n == 0 { '0' }
    else if n == 1 { '1' }
    else if n == 2 { '2' }
    else if n == 3 { '3' }
    else if n == 4 { '4' }
    else if n == 5 { '5' }
    else if n == 6 { '6' }
    else if n == 7 { '7' }
    else if n == 8 { '8' }
    else if n == 9 { '9' }
    else if n == 10 { 'a' }
    else if n == 11 { 'b' }
    else if n == 12 { 'c' }
    else if n == 13 { 'd' }
    else if n == 14 { 'e' }
    else { 'f' }
}

fn hex_digit_exec(n: u32) -> (c: char)
    requires
        n < 16,
    ensures
        c == hex_digit(n as int),
{
    if n == 0 { '0' }
    else if n == 1 { '1' }
    else if n == 2 { '2' }
    else if n == 3 { '3' }
    else if n == 4 { '4' }
    else if n == 5 { '5' }
    else if n == 6 { '6' }
    else if n == 7 { '7' }
    else if n == 8 { '8' }
    else if n == 9 { '9' }
    else if n == 10 { 'a' }
    else if n == 11 { 'b' }
    else if n == 12 { 'c' }
    else if n == 13 { 'd' }
    else if n == 14 { 'e' }
    else { 'f' }
}

/// How one character is written inside a JSON string of the encoding.
pub open spec fn escape_char(c: char) -> Seq<char> {
    if c == '"' { seq!['\\', '"'] }
    else if c == '\\' { seq!['\\', '\\'] }
    else if c == '\n' { seq!['\\', 'n'] }
    else if c == '\r' { seq!['\\', 'r'] }
    else if c == '\t' { seq!['\\', 't'] }
    else if c == '\u{8}' { seq!['\\', 'b'] }
    else if c == '\u{c}' { seq!['\\', 'f'] }
    else if (c as u32) < 32 {
        seq!['\\', 'u', '0', '0', hex_digit((c as u32) as int / 16), hex_digit((c as u32) as int % 16)]
    } else {
        seq![c]
    }
}

/// How a whole string is written, character by character.
pub open spec fn escape_str(s: Seq<char>) -> Seq<char>
    decreases s.len(),
{
    if s.len() == 0 {
        Seq::<char>::empty()
    } else {
        escape_char(s[0]) + escape_str(s.drop_first())
    }
}

/// How an optional string field is written: `null` when absent.
pub open spec fn json_opt(o: Option<Seq<char>>) -> Seq<char> {
    match o {
        Option::None => "null"@,
        Option::Some(s) => "\""@ + escape_str(s) + "\""@,
    }
}

/// The canonical encoding of a metadata record: one JSON object, all four
/// keys present, in declaration order, with no interior whitespace.
pub open spec fn json_of(m: MetaFields) -> Seq<char> {
    "{\"display_name\":\""@ + escape_str(m.display_name)
        + "\",\"source_code\":"@ + json_opt(m.source_code)
        + ",\"website\":"@ + json_opt(m.website)
        + ",\"authors\":"@ + json_opt(m.authors)
        + "}"@
}

proof fn lemma_escape_str_snoc(s: Seq<char>, c: char)
    ensures
        escape_str(s.push(c)) == escape_str(s) + escape_char(c),
    decreases s.len(),
{
    if s.len() == 0 {
        assert(s.push(c)[0] == c);
        assert(s.push(c).drop_first() =~= s);
        assert(escape_str(s.push(c)) =~= escape_str(s) + escape_char(c));
    } else {
        assert(s.push(c).drop_first() =~= s.drop_first().push(c));
        lemma_escape_str_snoc(s.drop_first(), c);
        assert(escape_str(s.push(c)) =~= escape_str(s) + escape_char(c));
    }
}

fn write_escaped_char(out: &mut String, c: char)
    ensures
        final(out)@ == old(out)@ + escape_char(c),
{
    if c == '"' {
        out.append("\\\"");
        proof {
            reveal_strlit("\\\"");
            assert(out@ =~= old(out)@ + escape_char(c));
        }
    } else if c == '\\' {
        out.append("\\\\");
        proof {
            reveal_strlit("\\\\");
            assert(out@ =~= old(out)@ + escape_char(c));
        }
    } else if c == '\n' {
        out.append("\\n");
        proof {
            reveal_strlit("\\n");
            assert(out@ =~= old(out)@ + escape_char(c));
        }
    } else if c == '\r' {
        out.append("\\r");
        proof {
            reveal_strlit("\\r");
            assert(out@ =~= old(out)@ + escape_char(c));
        }
    } else if c == '\t' {
        out.append("\\t");
        proof {
            reveal_strlit("\\t");
            assert(out@ =~= old(out)@ + escape_char(c));
        }
    } else if c == '\u{8}' {
        out.append("\\b");
        proof {
            reveal_strlit("\\b");
            assert(out@ =~= old(out)@ + escape_char(c));
        }
    } else if c == '\u{c}' {
        out.append("\\f");
        proof {
            reveal_strlit("\\f");
            assert(out@ =~= old(out)@ + escape_char(c));
        }
    } else if (c as u32) < 32 {
        let code: u32 = c as u32;
        out.append("\\u00");
        push_char(out, hex_digit_exec(code / 16));
        push_char(out, hex_digit_exec(code % 16));
        proof {
            reveal_strlit("\\u00");
            assert(out@ =~= old(out)@ + escape_char(c));
        }
    } else {
        push_char(out, c);
        proof {
            assert(out@ =~= old(out)@ + escape_char(c));
        }
    }
}

fn write_escaped(out: &mut String, s: &str)
    ensures
        final(out)@ == old(out)@ + escape_str(s@),
{
    let cs: Vec<char> = chars_of(s);
    let n: usize = cs.len();
    let mut i: usize = 0;
    proof {
        assert(s@.take(0) =~= Seq::<char>::empty());
        assert(out@ =~= out@ + escape_str(s@.take(0)));
    }
    while i < n
        invariant
            n == s@.len(),
            cs@ == s@,
            i <= n,
            out@ == old(out)@ + escape_str(s@.take(i as int)),
        decreases n - i,
    {
        write_escaped_char(out, cs[i]);
        proof {
            assert(s@.take(i + 1) =~= s@.take(i as int).push(s@[i as int]));
            lemma_escape_str_snoc(s@.take(i as int), s@[i as int]);
            assert(out@ =~= old(out)@ + escape_str(s@.take(i + 1)));
        }
        i = i + 1;
    }
    proof {
        assert(s@.take(n as int) =~= s@);
    }
}

fn write_opt(out: &mut String, o: &Option<String>)
    ensures
        final(out)@ == old(out)@ + json_opt(o.deep_view()),
{
    match o {
        Option::None => {
            out.append("null");
        },
        Option::Some(s) => {
            out.append("\"");
            write_escaped(out, s.as_str());
            out.append("\"");
            proof {
                assert(out@ =~= old(out)@ + json_opt(o.deep_view()));
            }
        },
    }
}

/// Serializes a metadata record to the canonical sidecar text.
pub fn to_json(m: &EngineMetadata) -> (r: String)
    ensures
        r@ == json_of(m@),
{
    let mut out: String = String::new();
    out.append("{\"display_name\":\"");
    write_escaped(&mut out, m.display_name.as_str());
    out.append("\",\"source_code\":");
    write_opt(&mut out, &m.source_code);
    out.append(",\"website\":");
    write_opt(&mut out, &m.website);
    out.append(",\"authors\":");
    write_opt(&mut out, &m.authors);
    out.append("}");
    proof {
        assert(out@ =~= json_of(m@));
    }
    out
}

/// A whitespace character of JSON.
pub open spec fn is_ws(c: char) -> bool {
    c == ' ' || c == '\t' || c == '\n' || c == '\r'
}

/// The first position at or after `i` that does not hold whitespace.
pub open spec fn skip_ws(s: Seq<char>, i: int) -> int
    decreases s.len() - i,
{
    if 0 <= i < s.len() && is_ws(s[i]) {
        skip_ws(s, i + 1)
    } else {
        i
    }
}

/// The value of a hexadecimal digit, either case.
pub open spec fn hex_val(c: char) -> Option<int> {
    let u = c as u32;
    if '0' as u32 <= u && u <= '9' as u32 {
        Some(u - '0' as u32)
    } else if 'a' as u32 <= u && u <= 'f' as u32 {
        Some(u - 'a' as u32 + 10)
    } else if 'A' as u32 <= u && u <= 'F' as u32 {
        Some(u - 'A' as u32 + 10)
    } else {
        None
    }
}

/// What a one-letter escape stands for; `u` is handled apart.
pub open spec fn short_unescape(c: char) -> Option<char> {
    if c == '"' { Some('"') }
    else if c == '\\' { Some('\\') }
    else if c == '/' { Some('/') }
    else if c == 'b' { Some('\u{8}') }
    else if c == 'f' { Some('\u{c}') }
    else if c == 'n' { Some('\n') }
    else if c == 'r' { Some('\r') }
    else if c == 't' { Some('\t') }
    else { None }
}

/// Reads the four hexadecimal digits of a `\u` escape standing at `p`,
/// and, after a high surrogate, the continuing `\uXXXX` low surrogate:
/// the character written and the position after what was read.
pub open spec fn unicode_escape(s: Seq<char>, p: int) -> Option<(char, int)> {
    if p + 3 < s.len() {
        match (hex_val(s[p]), hex_val(s[p + 1]), hex_val(s[p + 2]), hex_val(s[p + 3])) {
            (Some(h1), Some(h2), Some(h3), Some(h4)) => {
                let u = h1 * 4096 + h2 * 256 + h3 * 16 + h4;
                if u < 0xD800 || u >= 0xE000 {
                    Some((((u as u32) as char), p + 4))
                } else if u < 0xDC00 {
                    if p + 9 < s.len() && s[p + 4] == '\\' && s[p + 5] == 'u' {
                        match (hex_val(s[p + 6]), hex_val(s[p + 7]), hex_val(s[p + 8]), hex_val(
                            s[p + 9],
                        )) {
                            (Some(g1), Some(g2), Some(g3), Some(g4)) => {
                                let w = g1 * 4096 + g2 * 256 + g3 * 16 + g4;
                                if 0xDC00 <= w && w < 0xE000 {
                                    Some(
                                        (
                                            (((0x10000 + (u - 0xD800) * 1024 + (w
                                                - 0xDC00)) as u32) as char),
                                            p + 10,
                                        ),
                                    )
                                } else {
                                    None
                                }
                            },
                            _ => None,
                        }
                    } else {
                        None
                    }
                } else {
                    None
                }
            },
            _ => None,
        }
    } else {
        None
    }
}

/// Reads the rest of a JSON string whose opening quote stands before `i`,
/// decoding escapes onto `acc`; yields the string and the position after the
/// closing quote.
pub open spec fn parse_string_body(s: Seq<char>, i: int, acc: Seq<char>, fuel: nat) -> Option<
    (Seq<char>, int),
>
    decreases fuel,
{
    if fuel == 0 {
        None
    } else if !(0 <= i < s.len()) {
        None
    } else {
        let c = s[i];
        if c == '"' {
            Some((acc, i + 1))
        } else if c == '\\' {
            if i + 1 < s.len() {
                let e = s[i + 1];
                if e == 'u' {
                    match unicode_escape(s, i + 2) {
                        Some(dj) => parse_string_body(s, dj.1, acc.push(dj.0), (fuel - 1) as nat),
                        None => None,
                    }
                } else {
                    match short_unescape(e) {
                        Some(d) => parse_string_body(s, i + 2, acc.push(d), (fuel - 1) as nat),
                        None => None,
                    }
                }
            } else {
                None
            }
        } else if (c as u32) < 32 {
            None
        } else {
            parse_string_body(s, i + 1, acc.push(c), (fuel - 1) as nat)
        }
    }
}

/// A decimal digit.
pub open spec fn is_digit(c: char) -> bool {
    '0' as u32 <= c as u32 && c as u32 <= '9' as u32
}

/// A character that may open a number token.
pub open spec fn is_num_start(c: char) -> bool {
    is_digit(c) || c == '-'
}

/// The first position at or after `i` past a run of decimal digits.
pub open spec fn skip_digits(s: Seq<char>, i: int) -> int
    decreases s.len() - i,
{
    if 0 <= i < s.len() && is_digit(s[i]) {
        skip_digits(s, i + 1)
    } else {
        i
    }
}

/// The position after the fraction part standing at `k`, if any: a dot must
/// be followed by at least one digit.
pub open spec fn frac_end(s: Seq<char>, k: int) -> Option<int> {
    if 0 <= k < s.len() && s[k] == '.' {
        if k + 1 < s.len() && is_digit(s[k + 1]) {
            Some(skip_digits(s, k + 1))
        } else {
            None
        }
    } else {
        Some(k)
    }
}

/// The position after the exponent part standing at `l`, if any: `e` or
/// `E`, an optional sign, then at least one digit.
pub open spec fn exp_end(s: Seq<char>, l: int) -> Option<int> {
    if 0 <= l < s.len() && (s[l] == 'e' || s[l] == 'E') {
        let m = if l + 1 < s.len() && (s[l + 1] == '+' || s[l + 1] == '-') {
            l + 2
        } else {
            l + 1
        };
        if 0 <= m < s.len() && is_digit(s[m]) {
            Some(skip_digits(s, m))
        } else {
            None
        }
    } else {
        Some(l)
    }
}

/// The position after a number of the JSON grammar standing at `i`: an
/// optional minus, an integer part without leading zeroes, then optional
/// fraction and exponent parts.
pub open spec fn number_end(s: Seq<char>, i: int) -> Option<int> {
    let j = if 0 <= i < s.len() && s[i] == '-' {
        i + 1
    } else {
        i
    };
    if 0 <= j < s.len() && is_digit(s[j]) {
        let k = if s[j] == '0' {
            j + 1
        } else {
            skip_digits(s, j)
        };
        match frac_end(s, k) {
            Some(l) => exp_end(s, l),
            None => None,
        }
    } else {
        None
    }
}

/// Skips one JSON value starting at `i`: the position after it, or `None`
/// where none stands there.
pub open spec fn skip_value(s: Seq<char>, i: int, fuel: nat) -> Option<int>
    decreases fuel,
{
    if fuel == 0 {
        None
    } else if !(0 <= i < s.len()) {
        None
    } else {
        let c = s[i];
        if c == '"' {
            match parse_string_body(s, i + 1, Seq::<char>::empty(), fuel) {
                Some(p) => Some(p.1),
                None => None,
            }
        } else if c == '{' {
            let j = skip_ws(s, i + 1);
            if j < s.len() && s[j] == '}' {
                Some(j + 1)
            } else {
                skip_members(s, j, (fuel - 1) as nat)
            }
        } else if c == '[' {
            let j = skip_ws(s, i + 1);
            if j < s.len() && s[j] == ']' {
                Some(j + 1)
            } else {
                skip_elems(s, j, (fuel - 1) as nat)
            }
        } else if c == 't' {
            if i + 3 < s.len() && s[i + 1] == 'r' && s[i + 2] == 'u' && s[i + 3] == 'e' {
                Some(i + 4)
            } else {
                None
            }
        } else if c == 'f' {
            if i + 4 < s.len() && s[i + 1] == 'a' && s[i + 2] == 'l' && s[i + 3] == 's' && s[i + 4]
                == 'e' {
                Some(i + 5)
            } else {
                None
            }
        } else if c == 'n' {
            if i + 3 < s.len() && s[i + 1] == 'u' && s[i + 2] == 'l' && s[i + 3] == 'l' {
                Some(i + 4)
            } else {
                None
            }
        } else if is_num_start(c) {
            number_end(s, i)
        } else {
            None
        }
    }
}

/// Skips the members of an object from the start of a member (whitespace
/// already passed) to the position after the closing brace.
pub open spec fn skip_members(s: Seq<char>, i: int, fuel: nat) -> Option<int>
    decreases fuel,
{
    if fuel == 0 {
        None
    } else if 0 <= i < s.len() && s[i] == '"' {
        match parse_string_body(s, i + 1, Seq::<char>::empty(), fuel) {
            Some(kj) => {
                let k = skip_ws(s, kj.1);
                if k < s.len() && s[k] == ':' {
                    let m = skip_ws(s, k + 1);
                    match skip_value(s, m, (fuel - 1) as nat) {
                        Some(n) => {
                            let q = skip_ws(s, n);
                            if q < s.len() && s[q] == ',' {
                                skip_members(s, skip_ws(s, q + 1), (fuel - 1) as nat)
                            } else if q < s.len() && s[q] == '}' {
                                Some(q + 1)
                            } else {
                                None
                            }
                        },
                        None => None,
                    }
                } else {
                    None
                }
            },
            None => None,
        }
    } else {
        None
    }
}

/// Skips the elements of an array from the start of an element to the
/// position after the closing bracket.
pub open spec fn skip_elems(s: Seq<char>, i: int, fuel: nat) -> Option<int>
    decreases fuel,
{
    if fuel == 0 {
        None
    } else {
        match skip_value(s, i, (fuel - 1) as nat) {
            Some(n) => {
                let q = skip_ws(s, n);
                if q < s.len() && s[q] == ',' {
                    skip_elems(s, skip_ws(s, q + 1), (fuel - 1) as nat)
                } else if q < s.len() && s[q] == ']' {
                    Some(q + 1)
                } else {
                    None
                }
            },
            None => None,
        }
    }
}

/// What has been gathered of a record while its members are read.
#[verifier::ext_equal]
pub struct PartialMeta {
    pub display_name: Option<Seq<char>>,
    pub source_code_seen: bool,
    pub source_code: Option<Seq<char>>,
    pub website_seen: bool,
    pub website: Option<Seq<char>>,
    pub authors_seen: bool,
    pub authors: Option<Seq<char>>,
}

/// The state before any member has been read.
pub open spec fn empty_partial() -> PartialMeta {
    PartialMeta {
        display_name: None,
        source_code_seen: false,
        source_code: None,
        website_seen: false,
        website: None,
        authors_seen: false,
        authors: None,
    }
}

/// Reads a string or the literal `null` at `i`.
pub open spec fn string_or_null(s: Seq<char>, i: int, fuel: nat) -> Option<
    (Option<Seq<char>>, int),
> {
    if !(0 <= i < s.len()) {
        None
    } else if s[i] == '"' {
        match parse_string_body(s, i + 1, Seq::<char>::empty(), fuel) {
            Some(p) => Some((Some(p.0), p.1)),
            None => None,
        }
    } else if s[i] == 'n' && i + 3 < s.len() && s[i + 1] == 'u' && s[i + 2] == 'l' && s[i + 3]
        == 'l' {
        Some((None, i + 4))
    } else {
        None
    }
}

/// Reads the members of the metadata object from the start of a member to
/// the position after the closing brace, folding them into `p`. A known key
/// seen twice is an error; an unknown key's value is skipped.
pub open spec fn parse_members(s: Seq<char>, i: int, p: PartialMeta, fuel: nat) -> Option<
    (PartialMeta, int),
>
    decreases fuel,
{
    if fuel == 0 {
        None
    } else if 0 <= i < s.len() && s[i] == '"' {
        match parse_string_body(s, i + 1, Seq::<char>::empty(), fuel) {
            Some(kj) => {
                let key = kj.0;
                let k = skip_ws(s, kj.1);
                if k < s.len() && s[k] == ':' {
                    let m = skip_ws(s, k + 1);
                    let step: Option<(PartialMeta, int)> = if key == "display_name"@ {
                        if p.display_name is Some {
                            None
                        } else if m < s.len() && s[m] == '"' {
                            match parse_string_body(s, m + 1, Seq::<char>::empty(), fuel) {
                                Some(vn) => Some(
                                    (PartialMeta { display_name: Some(vn.0), ..p }, vn.1),
                                ),
                                None => None,
                            }
                        } else {
                            None
                        }
                    } else if key == "source_code"@ {
                        if p.source_code_seen {
                            None
                        } else {
                            match string_or_null(s, m, fuel) {
                                Some(vn) => Some(
                                    (
                                        PartialMeta {
                                            source_code_seen: true,
                                            source_code: vn.0,
                                            ..p
                                        },
                                        vn.1,
                                    ),
                                ),
                                None => None,
                            }
                        }
                    } else if key == "website"@ {
                        if p.website_seen {
                            None
                        } else {
                            match string_or_null(s, m, fuel) {
                                Some(vn) => Some(
                                    (PartialMeta { website_seen: true, website: vn.0, ..p }, vn.1),
                                ),
                                None => None,
                            }
                        }
                    } else if key == "authors"@ {
                        if p.authors_seen {
                            None
                        } else {
                            match string_or_null(s, m, fuel) {
                                Some(vn) => Some(
                                    (PartialMeta { authors_seen: true, authors: vn.0, ..p }, vn.1),
                                ),
                                None => None,
                            }
                        }
                    } else {
                        match skip_value(s, m, fuel) {
                            Some(n) => Some((p, n)),
                            None => None,
                        }
                    };
                    match step {
                        Some(pn) => {
                            let q = skip_ws(s, pn.1);
                            if q < s.len() && s[q] == ',' {
                                parse_members(s, skip_ws(s, q + 1), pn.0, (fuel - 1) as nat)
                            } else if q < s.len() && s[q] == '}' {
                                Some((pn.0, q + 1))
                            } else {
                                None
                            }
                        },
                        None => None,
                    }
                } else {
                    None
                }
            },
            None => None,
        }
    } else {
        None
    }
}

/// The record described by a sidecar text, or `None` where the text is not
/// a JSON object of the format or lacks the required `display_name`.
pub open spec fn meta_of_json(s: Seq<char>) -> Option<MetaFields> {
    let i = skip_ws(s, 0);
    if i < s.len() && s[i] == '{' {
        let j = skip_ws(s, i + 1);
        let parsed: Option<(PartialMeta, int)> = if j < s.len() && s[j] == '}' {
            Some((empty_partial(), j + 1))
        } else {
            parse_members(s, j, empty_partial(), s.len())
        };
        match parsed {
            Some(pe) => {
                if skip_ws(s, pe.1) == s.len() {
                    match pe.0.display_name {
                        Some(dn) => Some(
                            MetaFields {
                                display_name: dn,
                                source_code: pe.0.source_code,
                                website: pe.0.website,
                                authors: pe.0.authors,
                            },
                        ),
                        None => None,
                    }
                } else {
                    None
                }
            },
            None => None,
        }
    } else {
        None
    }
}

/// A character written as itself inside a JSON string.
pub open spec fn plain_char(c: char) -> bool {
    c != '"' && c != '\\' && c as u32 >= 32
}

/// Reading a string body over plain characters up to a closing quote yields
/// those characters.
proof fn lemma_parse_plain(s: Seq<char>, i: int, x: Seq<char>, acc: Seq<char>, fuel: nat)
    requires
        0 <= i,
        i + x.len() + 1 <= s.len(),
        forall|k: int| 0 <= k < x.len() ==> s[i + k] == x[k],
        forall|k: int| 0 <= k < x.len() ==> plain_char(x[k]),
        s[i + x.len()] == '"',
        fuel > x.len(),
    ensures
        parse_string_body(s, i, acc, fuel) == Some((acc + x, i + x.len() + 1)),
    decreases x.len(),
{
    if x.len() == 0 {
        assert(s[i] == '"');
        assert(acc + x =~= acc);
    } else {
        let c = x[0];
        assert(s[i + 0] == c);
        assert(plain_char(c));
        assert forall|k: int| 0 <= k < x.drop_first().len() implies s[i + 1 + k]
            == x.drop_first()[k] by {
            assert(x.drop_first()[k] == x[k + 1]);
            assert(s[i + (k + 1)] == x[k + 1]);
        }
        assert forall|k: int| 0 <= k < x.drop_first().len() implies plain_char(
            x.drop_first()[k],
        ) by {
            assert(x.drop_first()[k] == x[k + 1]);
        }
        assert(s[(i + 1) + x.drop_first().len()] == '"');
        lemma_parse_plain(s, i + 1, x.drop_first(), acc.push(c), (fuel - 1) as nat);
        assert(acc.push(c) + x.drop_first() =~= acc + x);
    }
}

/// An escaped string is at least as long as the string itself.
proof fn lemma_escape_len(x: Seq<char>)
    ensures
        escape_str(x).len() >= x.len(),
    decreases x.len(),
{
    if x.len() > 0 {
        lemma_escape_len(x.drop_first());
    }
}

/// Reading a hexadecimal digit back gives the value it was written for.
proof fn lemma_hex_digit_val(v: int)
    requires
        0 <= v < 16,
    ensures
        hex_val(hex_digit(v)) == Some(v),
{
}

/// Reading a string body over any escaped string up to a closing quote
/// yields the string back.
#[verifier::rlimit(100)]
proof fn lemma_parse_escaped(s: Seq<char>, i: int, x: Seq<char>, acc: Seq<char>, fuel: nat)
    requires
        0 <= i,
        i + escape_str(x).len() + 1 <= s.len(),
        forall|k: int| 0 <= k < escape_str(x).len() ==> s[i + k] == escape_str(x)[k],
        s[i + escape_str(x).len()] == '"',
        fuel > x.len(),
    ensures
        parse_string_body(s, i, acc, fuel) == Some((acc + x, i + escape_str(x).len() + 1)),
    decreases x.len(),
{
    if x.len() == 0 {
        assert(s[i] == '"');
        assert(acc + x =~= acc);
    } else {
        let c = x[0];
        let e1 = escape_char(c);
        let x2 = x.drop_first();
        let ex = escape_str(x);
        assert(ex == e1 + escape_str(x2));
        assert forall|k: int| 0 <= k < e1.len() implies s[i + k] == e1[k] by {
            assert(ex[k] == e1[k]);
        }
        let j = i + e1.len();
        assert forall|k: int| 0 <= k < escape_str(x2).len() implies s[j + k] == escape_str(
            x2,
        )[k] by {
            assert(ex[e1.len() + k] == escape_str(x2)[k]);
            assert(s[i + (e1.len() + k)] == ex[e1.len() + k]);
        }
        assert(s[j + escape_str(x2).len()] == '"') by {
            assert(j + escape_str(x2).len() == i + ex.len());
        }
        lemma_parse_escaped(s, j, x2, acc.push(c), (fuel - 1) as nat);
        assert(acc.push(c) + x2 =~= acc + x);
        if c == '"' || c == '\\' || c == '\n' || c == '\r' || c == '\t' || c == '\u{8}' || c
            == '\u{c}' {
            assert(s[i] == '\\' && s[i + 1] == e1[1]);
            assert(parse_string_body(s, i, acc, fuel) == parse_string_body(
                s,
                i + 2,
                acc.push(c),
                (fuel - 1) as nat,
            ));
        } else if (c as u32) < 32 {
            let v = c as u32 as int;
            assert(s[i] == '\\' && s[i + 1] == 'u' && s[i + 2] == '0' && s[i + 3] == '0');
            assert(s[i + 4] == hex_digit(v / 16) && s[i + 5] == hex_digit(v % 16));
            assert(hex_val('0') == Some(0int));
            lemma_hex_digit_val(v / 16);
            lemma_hex_digit_val(v % 16);
            assert((v / 16) * 16 + (v % 16) == v) by (nonlinear_arith);
            assert(0 * 4096 + 0 * 256 + (v / 16) * 16 + (v % 16) == v);
            vstd::utf8::char_u32_cast(c, c as u32);
            assert(((v as u32) as char) == c);
            assert(parse_string_body(s, i, acc, fuel) == parse_string_body(
                s,
                i + 6,
                acc.push(c),
                (fuel - 1) as nat,
            ));
        } else {
            assert(s[i + 0] == e1[0]);
            assert(e1 == seq![c]);
            assert(s[i] == c && plain_char(c));
            assert(parse_string_body(s, i, acc, fuel) == parse_string_body(
                s,
                i + 1,
                acc.push(c),
                (fuel - 1) as nat,
            ));
        }
    }
}

/// Reading an optional field's value back from its canonical form yields
/// the field.
proof fn lemma_parse_opt_value(s: Seq<char>, q: int, o: Option<Seq<char>>, fuel: nat)
    requires
        0 <= q,
        q + json_opt(o).len() < s.len(),
        forall|k: int| 0 <= k < json_opt(o).len() ==> s[q + k] == json_opt(o)[k],
        fuel > (match o {
            Option::Some(x) => x.len() as int,
            Option::None => 0int,
        }),
    ensures
        string_or_null(s, q, fuel) == Some((o, q + json_opt(o).len())),
{
    reveal_strlit("null");
    reveal_strlit("\"");
    match o {
        Option::None => {
            assert(json_opt(o) == "null"@);
            assert(json_opt(o).len() == 4);
            assert(s[q + 0] == json_opt(o)[0] && s[q + 1] == json_opt(o)[1] && s[q + 2]
                == json_opt(o)[2] && s[q + 3] == json_opt(o)[3]);
            assert("null"@[0] == 'n' && "null"@[1] == 'u' && "null"@[2] == 'l' && "null"@[3]
                == 'l');
            assert(s[q] == 'n' && s[q] != '"');
        },
        Option::Some(x) => {
            let ex = escape_str(x);
            assert(json_opt(o) == "\""@ + ex + "\""@);
            assert(json_opt(o).len() == ex.len() + 2);
            assert(s[q + 0] == json_opt(o)[0]);
            assert(json_opt(o)[0] == '"');
            assert forall|k: int| 0 <= k < ex.len() implies s[q + 1 + k] == ex[k] by {
                assert(json_opt(o)[1 + k] == ex[k]);
                assert(s[q + (1 + k)] == json_opt(o)[1 + k]);
            }
            assert(s[(q + 1) + ex.len() as int] == '"') by {
                assert(json_opt(o)[1 + ex.len() as int] == '"');
                assert(s[q + (1 + ex.len() as int)] == json_opt(o)[1 + ex.len() as int]);
            }
            lemma_parse_escaped(s, q + 1, x, Seq::<char>::empty(), fuel);
            assert(Seq::<char>::empty() + x =~= x);
        },
    }
}

/// Round trip on the default record: the canonical text written for a fresh
/// sidecar reads back as exactly the record it was written from.
pub proof fn lemma_template_round_trip()
    ensures
        meta_of_json(json_of(crate::metadata::template_fields())) == Some(
            crate::metadata::template_fields(),
        ),
{
    lemma_round_trip(crate::metadata::template_fields());
}

/// Where each piece of a record's canonical document stands: the fixed
/// punctuation, the escaped display name, and the three optional values, at
/// the offsets their lengths dictate.
#[verifier::rlimit(100)]
proof fn lemma_doc_regions(m: MetaFields)
    ensures
        ({
            let a = "{\"display_name\":\""@;
            let e = escape_str(m.display_name);
            let b = "\",\"source_code\":"@;
            let v1 = json_opt(m.source_code);
            let c2 = ",\"website\":"@;
            let v2 = json_opt(m.website);
            let d = ",\"authors\":"@;
            let v3 = json_opt(m.authors);
            let z = "}"@;
            let s = json_of(m);
            let n0 = 17 + e.len() as int;
            let n1 = n0 + 16;
            let n2 = n1 + v1.len() as int;
            let n3 = n2 + 11;
            let n4 = n3 + v2.len() as int;
            let n5 = n4 + 11;
            let n6 = n5 + v3.len() as int;
            &&& a.len() == 17
            &&& b.len() == 16
            &&& c2.len() == 11
            &&& d.len() == 11
            &&& z.len() == 1
            &&& s.len() == n6 + 1
            &&& forall|k: int| 0 <= k < 17 ==> s[k] == a[k]
            &&& forall|k: int| 0 <= k < e.len() ==> s[17 + k] == e[k]
            &&& forall|k: int| 0 <= k < 16 ==> s[n0 + k] == b[k]
            &&& forall|k: int| 0 <= k < v1.len() ==> s[n1 + k] == v1[k]
            &&& forall|k: int| 0 <= k < 11 ==> s[n2 + k] == c2[k]
            &&& forall|k: int| 0 <= k < v2.len() ==> s[n3 + k] == v2[k]
            &&& forall|k: int| 0 <= k < 11 ==> s[n4 + k] == d[k]
            &&& forall|k: int| 0 <= k < v3.len() ==> s[n5 + k] == v3[k]
            &&& s[n6] == '}'
        }),
{
    reveal_strlit("{\"display_name\":\"");
    reveal_strlit("\",\"source_code\":");
    reveal_strlit("null");
    reveal_strlit("\"");
    reveal_strlit(",\"website\":");
    reveal_strlit(",\"authors\":");
    reveal_strlit("}");
    let a = "{\"display_name\":\""@;
    let e = escape_str(m.display_name);
    let b = "\",\"source_code\":"@;
    let v1 = json_opt(m.source_code);
    let c2 = ",\"website\":"@;
    let v2 = json_opt(m.website);
    let d = ",\"authors\":"@;
    let v3 = json_opt(m.authors);
    let z = "}"@;
    let s = json_of(m);
    let n0 = 17 + e.len() as int;
    let n1 = n0 + 16;
    let n2 = n1 + v1.len() as int;
    let n3 = n2 + 11;
    let n4 = n3 + v2.len() as int;
    let n5 = n4 + 11;
    let n6 = n5 + v3.len() as int;
    assert(s.len() == n6 + 1);
    assert forall|k: int| 0 <= k < 17 implies s[k] == a[k] by {
        assert(s =~= a + (e + b + v1 + c2 + v2 + d + v3 + z));
        assert((a + (e + b + v1 + c2 + v2 + d + v3 + z))[k] == a[k]);
    }
    assert forall|k: int| 0 <= k < e.len() implies s[17 + k] == e[k] by {
        assert(s =~= a + e + (b + v1 + c2 + v2 + d + v3 + z));
        assert((a + e + (b + v1 + c2 + v2 + d + v3 + z))[17 + k] == e[k]);
    }
    assert forall|k: int| 0 <= k < 16 implies s[n0 + k] == b[k] by {
        assert(s =~= (a + e) + b + (v1 + c2 + v2 + d + v3 + z));
        assert(((a + e) + b + (v1 + c2 + v2 + d + v3 + z))[n0 + k] == b[k]);
    }
    assert forall|k: int| 0 <= k < v1.len() implies s[n1 + k] == v1[k] by {
        assert(s =~= (a + e + b) + v1 + (c2 + v2 + d + v3 + z));
        assert(((a + e + b) + v1 + (c2 + v2 + d + v3 + z))[n1 + k] == v1[k]);
    }
    assert forall|k: int| 0 <= k < 11 implies s[n2 + k] == c2[k] by {
        assert(s =~= (a + e + b + v1) + c2 + (v2 + d + v3 + z));
        assert(((a + e + b + v1) + c2 + (v2 + d + v3 + z))[n2 + k] == c2[k]);
    }
    assert forall|k: int| 0 <= k < v2.len() implies s[n3 + k] == v2[k] by {
        assert(s =~= (a + e + b + v1 + c2) + v2 + (d + v3 + z));
        assert(((a + e + b + v1 + c2) + v2 + (d + v3 + z))[n3 + k] == v2[k]);
    }
    assert forall|k: int| 0 <= k < 11 implies s[n4 + k] == d[k] by {
        assert(s =~= (a + e + b + v1 + c2 + v2) + d + (v3 + z));
        assert(((a + e + b + v1 + c2 + v2) + d + (v3 + z))[n4 + k] == d[k]);
    }
    assert forall|k: int| 0 <= k < v3.len() implies s[n5 + k] == v3[k] by {
        assert(s =~= (a + e + b + v1 + c2 + v2 + d) + v3 + z);
        assert(((a + e + b + v1 + c2 + v2 + d) + v3 + z)[n5 + k] == v3[k]);
    }
    assert(s[n6] == '}') by {
        assert(s =~= (a + e + b + v1 + c2 + v2 + d + v3) + z);
        assert(((a + e + b + v1 + c2 + v2 + d + v3) + z)[n6 + 0] == z[0]);
    }
}

/// Where the second fixed literal of a canonical document begins: after the
/// opening brace, the display-name key and the escaped display name.
spec fn pos0(m: MetaFields) -> int {
    17 + escape_str(m.display_name).len() as int
}

/// Where the `website` literal of a canonical document begins.
spec fn pos2(m: MetaFields) -> int {
    pos0(m) + 16 + json_opt(m.source_code).len() as int
}

/// Where the `authors` literal of a canonical document begins.
spec fn pos4(m: MetaFields) -> int {
    pos2(m) + 11 + json_opt(m.website).len() as int
}

/// Where the closing brace of a canonical document stands.
spec fn pos6(m: MetaFields) -> int {
    pos4(m) + 11 + json_opt(m.authors).len() as int
}

/// The state after the display-name member of a canonical document.
spec fn partial_dn(m: MetaFields) -> PartialMeta {
    PartialMeta { display_name: Some(m.display_name), ..empty_partial() }
}

/// The state after the source-code member of a canonical document.
spec fn partial_sc(m: MetaFields) -> PartialMeta {
    PartialMeta { source_code_seen: true, source_code: m.source_code, ..partial_dn(m) }
}

/// The state after the website member of a canonical document.
spec fn partial_ws(m: MetaFields) -> PartialMeta {
    PartialMeta { website_seen: true, website: m.website, ..partial_sc(m) }
}

/// The state after all four members of a canonical document.
spec fn partial_all(m: MetaFields) -> PartialMeta {
    PartialMeta { authors_seen: true, authors: m.authors, ..partial_ws(m) }
}

/// Reading the fourth member of a canonical document, `"authors":<value>`,
/// consumes the rest of the object.
#[verifier::rlimit(100)]
proof fn lemma_member_authors(m: MetaFields)
    ensures
        parse_members(
            json_of(m),
            pos4(m) + 1,
            partial_ws(m),
            (json_of(m).len() - 3) as nat,
        ) == Some((partial_all(m), pos6(m) + 1)),
{
    reveal_strlit("null");
    reveal_strlit("\"");
    reveal_strlit(",\"authors\":");
    reveal_strlit("display_name");
    reveal_strlit("source_code");
    reveal_strlit("website");
    reveal_strlit("authors");
    let s = json_of(m);
    let d = ",\"authors\":"@;
    let v3 = json_opt(m.authors);
    let n4 = pos4(m);
    let n5 = n4 + 11;
    let n6 = pos6(m);
    lemma_doc_regions(m);
    assert(s.len() == n6 + 1 && s.len() >= 56);
    if let Option::Some(x) = m.authors {
        lemma_escape_len(x);
        assert(v3.len() >= x.len() + 2);
    }
    let f4 = (s.len() - 3) as nat;
    assert forall|k: int| 0 <= k < "authors"@.len() implies s[(n4 + 2) + k] == "authors"@[k]
        && plain_char("authors"@[k]) by {
        assert(s[n4 + (2 + k)] == d[2 + k]);
    }
    assert(s[n4 + 1] == d[1] && d[1] == '"');
    assert(s[(n4 + 2) + 7] == '"') by {
        assert(s[n4 + 9] == d[9]);
    }
    lemma_parse_plain(s, n4 + 2, "authors"@, Seq::<char>::empty(), f4);
    assert(Seq::<char>::empty() + "authors"@ =~= "authors"@);
    assert("authors"@ != "display_name"@);
    assert("authors"@ != "source_code"@);
    assert("authors"@ != "website"@) by {
        assert("authors"@[0] == 'a');
        assert("website"@[0] == 'w');
    }
    assert(s[n4 + 10] == d[10] && d[10] == ':');
    assert(skip_ws(s, n4 + 10) == n4 + 10);
    assert(s[n5 + 0] == v3[0]);
    assert(!is_ws(v3[0]));
    assert(skip_ws(s, n5) == n5);
    lemma_parse_opt_value(s, n5, m.authors, f4);
    assert(skip_ws(s, n6) == n6);
    assert(parse_members(s, n4 + 1, partial_ws(m), f4) == Some((partial_all(m), n6 + 1)));
}

/// Reading the third member of a canonical document, `"website":<value>`,
/// hands the rest of the object to the fourth.
#[verifier::rlimit(100)]
proof fn lemma_member_website(m: MetaFields)
    ensures
        parse_members(
            json_of(m),
            pos2(m) + 1,
            partial_sc(m),
            (json_of(m).len() - 2) as nat,
        ) == parse_members(
            json_of(m),
            pos4(m) + 1,
            partial_ws(m),
            (json_of(m).len() - 3) as nat,
        ),
{
    reveal_strlit("null");
    reveal_strlit("\"");
    reveal_strlit(",\"website\":");
    reveal_strlit(",\"authors\":");
    reveal_strlit("display_name");
    reveal_strlit("source_code");
    reveal_strlit("website");
    let s = json_of(m);
    let c2 = ",\"website\":"@;
    let d = ",\"authors\":"@;
    let v2 = json_opt(m.website);
    let n2 = pos2(m);
    let n3 = n2 + 11;
    let n4 = pos4(m);
    lemma_doc_regions(m);
    assert(s.len() == pos6(m) + 1 && s.len() >= 56);
    if let Option::Some(x) = m.website {
        lemma_escape_len(x);
        assert(v2.len() >= x.len() + 2);
    }
    let f3 = (s.len() - 2) as nat;
    assert((f3 - 1) as nat == (s.len() - 3) as nat);
    assert forall|k: int| 0 <= k < "website"@.len() implies s[(n2 + 2) + k] == "website"@[k]
        && plain_char("website"@[k]) by {
        assert(s[n2 + (2 + k)] == c2[2 + k]);
    }
    assert(s[n2 + 1] == c2[1] && c2[1] == '"');
    assert(s[(n2 + 2) + 7] == '"') by {
        assert(s[n2 + 9] == c2[9]);
    }
    lemma_parse_plain(s, n2 + 2, "website"@, Seq::<char>::empty(), f3);
    assert(Seq::<char>::empty() + "website"@ =~= "website"@);
    assert("website"@ != "display_name"@);
    assert("website"@ != "source_code"@);
    assert(s[n2 + 10] == c2[10] && c2[10] == ':');
    assert(skip_ws(s, n2 + 10) == n2 + 10);
    assert(s[n3 + 0] == v2[0]);
    assert(!is_ws(v2[0]));
    assert(skip_ws(s, n3) == n3);
    lemma_parse_opt_value(s, n3, m.website, f3);
    assert(skip_ws(s, n4) == n4) by {
        assert(s[n4 + 0] == d[0]);
    }
    assert(s[n4 + 0] == d[0] && d[0] == ',');
    assert(skip_ws(s, n4 + 1) == n4 + 1);
    assert(parse_members(s, n2 + 1, partial_sc(m), f3) == parse_members(
        s,
        n4 + 1,
        partial_ws(m),
        (f3 - 1) as nat,
    ));
}

/// Reading the second member of a canonical document,
/// `"source_code":<value>`, hands the rest of the object to the third.
#[verifier::rlimit(100)]
proof fn lemma_member_source_code(m: MetaFields)
    ensures
        parse_members(
            json_of(m),
            pos0(m) + 2,
            partial_dn(m),
            (json_of(m).len() - 1) as nat,
        ) == parse_members(
            json_of(m),
            pos2(m) + 1,
            partial_sc(m),
            (json_of(m).len() - 2) as nat,
        ),
{
    reveal_strlit("null");
    reveal_strlit("\"");
    reveal_strlit("\",\"source_code\":");
    reveal_strlit(",\"website\":");
    reveal_strlit("display_name");
    reveal_strlit("source_code");
    let s = json_of(m);
    let b = "\",\"source_code\":"@;
    let c2 = ",\"website\":"@;
    let v1 = json_opt(m.source_code);
    let n0 = pos0(m);
    let n1 = n0 + 16;
    let n2 = pos2(m);
    lemma_doc_regions(m);
    assert(s.len() == pos6(m) + 1 && s.len() >= 56);
    if let Option::Some(x) = m.source_code {
        lemma_escape_len(x);
        assert(v1.len() >= x.len() + 2);
    }
    let f2 = (s.len() - 1) as nat;
    assert((f2 - 1) as nat == (s.len() - 2) as nat);
    assert forall|k: int| 0 <= k < "source_code"@.len() implies s[(n0 + 3) + k]
        == "source_code"@[k] && plain_char("source_code"@[k]) by {
        assert(s[n0 + (3 + k)] == b[3 + k]);
    }
    assert(s[n0 + 2] == b[2] && b[2] == '"');
    assert(s[(n0 + 3) + 11] == '"') by {
        assert(s[n0 + 14] == b[14]);
    }
    lemma_parse_plain(s, n0 + 3, "source_code"@, Seq::<char>::empty(), f2);
    assert(Seq::<char>::empty() + "source_code"@ =~= "source_code"@);
    assert("source_code"@ != "display_name"@);
    assert(s[n0 + 15] == b[15] && b[15] == ':');
    assert(skip_ws(s, n0 + 15) == n0 + 15);
    assert(s[n1 + 0] == v1[0]);
    assert(!is_ws(v1[0]));
    assert(skip_ws(s, n1) == n1);
    lemma_parse_opt_value(s, n1, m.source_code, f2);
    assert(skip_ws(s, n2) == n2) by {
        assert(s[n2 + 0] == c2[0]);
    }
    assert(s[n2 + 0] == c2[0] && c2[0] == ',');
    assert(skip_ws(s, n2 + 1) == n2 + 1);
    assert(parse_members(s, n0 + 2, partial_dn(m), f2) == parse_members(
        s,
        n2 + 1,
        partial_sc(m),
        (f2 - 1) as nat,
    ));
}

/// Reading the first member of a canonical document,
/// `"display_name":"<name>"`, hands the rest of the object to the second.
#[verifier::rlimit(100)]
proof fn lemma_member_display_name(m: MetaFields)
    ensures
        parse_members(json_of(m), 1, empty_partial(), json_of(m).len()) == parse_members(
            json_of(m),
            pos0(m) + 2,
            partial_dn(m),
            (json_of(m).len() - 1) as nat,
        ),
{
    reveal_strlit("{\"display_name\":\"");
    reveal_strlit("\",\"source_code\":");
    reveal_strlit("display_name");
    let s = json_of(m);
    let a = "{\"display_name\":\""@;
    let b = "\",\"source_code\":"@;
    let e = escape_str(m.display_name);
    let n0 = pos0(m);
    lemma_doc_regions(m);
    assert(s.len() == pos6(m) + 1 && s.len() >= 56);
    lemma_escape_len(m.display_name);
    let f1 = s.len();
    assert((f1 - 1) as nat == (s.len() - 1) as nat);
    assert forall|k: int| 0 <= k < "display_name"@.len() implies s[2 + k] == "display_name"@[k]
        && plain_char("display_name"@[k]) by {
        assert(s[2 + k] == a[2 + k]);
    }
    assert(s[1] == a[1] && a[1] == '"');
    assert(s[14int] == '"') by {
        assert(s[14] == a[14]);
    }
    lemma_parse_plain(s, 2, "display_name"@, Seq::<char>::empty(), f1);
    assert(Seq::<char>::empty() + "display_name"@ =~= "display_name"@);
    assert(s[15] == a[15] && a[15] == ':');
    assert(skip_ws(s, 15) == 15);
    assert(s[16] == a[16] && a[16] == '"');
    assert(skip_ws(s, 16) == 16);
    assert(s[17 + e.len() as int] == '"') by {
        assert(s[n0 + 0] == b[0]);
    }
    lemma_parse_escaped(s, 17, m.display_name, Seq::<char>::empty(), f1);
    assert(Seq::<char>::empty() + m.display_name =~= m.display_name);
    assert(skip_ws(s, n0 + 1) == n0 + 1) by {
        assert(s[n0 + 1] == b[1]);
    }
    assert(s[n0 + 1] == b[1] && b[1] == ',');
    assert(skip_ws(s, n0 + 2) == n0 + 2);
    assert(parse_members(s, 1, empty_partial(), f1) == parse_members(
        s,
        n0 + 2,
        partial_dn(m),
        (f1 - 1) as nat,
    ));
}

/// Round trip in general: the canonical text of any record reads back as
/// exactly that record.
#[verifier::rlimit(100)]
pub proof fn lemma_round_trip(m: MetaFields)
    ensures
        meta_of_json(json_of(m)) == Some(m),
{
    reveal_strlit("{\"display_name\":\"");
    let s = json_of(m);
    let a = "{\"display_name\":\""@;
    let n6 = pos6(m);
    lemma_doc_regions(m);
    assert(s.len() == n6 + 1);
    lemma_member_display_name(m);
    lemma_member_source_code(m);
    lemma_member_website(m);
    lemma_member_authors(m);
    assert(parse_members(s, 1, empty_partial(), s.len()) == Some((partial_all(m), n6 + 1)));
    assert(s[0] == a[0] && a[0] == '{');
    assert(skip_ws(s, 0) == 0);
    assert(s[1] == a[1] && a[1] == '"');
    assert(skip_ws(s, 1) == 1);
    assert(skip_ws(s, n6 + 1) == n6 + 1);
    assert(meta_of_json(s) =~= Some(m));
}

/// How an executable position result must relate to the specification's.
spec fn idx_matches(r: Option<usize>, m: Option<int>) -> bool {
    match (r, m) {
        (Some(a), Some(b)) => a as int == b,
        (None, None) => true,
        _ => false,
    }
}

/// How an executable string-and-position result must relate to the
/// specification's.
spec fn str_idx_matches(r: Option<(String, usize)>, m: Option<(Seq<char>, int)>) -> bool {
    match (r, m) {
        (Some(a), Some(b)) => a.0@ == b.0 && a.1 as int == b.1,
        (None, None) => true,
        _ => false,
    }
}

/// How an executable optional-string result must relate to the
/// specification's.
spec fn optstr_idx_matches(r: Option<(Option<String>, usize)>, m: Option<(Option<Seq<char>>, int)>) -> bool {
    match (r, m) {
        (Some(a), Some(b)) => a.0.deep_view() == b.0 && a.1 as int == b.1,
        (None, None) => true,
        _ => false,
    }
}

fn skip_ws_exec(v: &Vec<char>, i: usize) -> (r: usize)
    ensures
        r as int == skip_ws(v@, i as int),
        i <= r,
        i <= v@.len() ==> r <= v@.len(),
    decreases v@.len() - i,
{
    if i < v.len() {
        let c: char = v[i];
        if c == ' ' || c == '\t' || c == '\n' || c == '\r' {
            return skip_ws_exec(v, i + 1);
        }
    }
    i
}

fn hex_val_exec(c: char) -> (r: Option<u32>)
    ensures
        match (r, hex_val(c)) {
            (Some(a), Some(b)) => a as int == b && a < 16,
            (None, None) => true,
            _ => false,
        },
{
    let u: u32 = c as u32;
    if '0' as u32 <= u && u <= '9' as u32 {
        Some(u - '0' as u32)
    } else if 'a' as u32 <= u && u <= 'f' as u32 {
        Some(u - 'a' as u32 + 10)
    } else if 'A' as u32 <= u && u <= 'F' as u32 {
        Some(u - 'A' as u32 + 10)
    } else {
        None
    }
}

fn short_unescape_exec(c: char) -> (r: Option<char>)
    ensures
        r == short_unescape(c),
{
    if c == '"' { Some('"') }
    else if c == '\\' { Some('\\') }
    else if c == '/' { Some('/') }
    else if c == 'b' { Some('\u{8}') }
    else if c == 'f' { Some('\u{c}') }
    else if c == 'n' { Some('\n') }
    else if c == 'r' { Some('\r') }
    else if c == 't' { Some('\t') }
    else { None }
}

/// How an executable character-and-position result must relate to the
/// specification's.
spec fn char_idx_matches(r: Option<(char, usize)>, m: Option<(char, int)>) -> bool {
    match (r, m) {
        (Some(a), Some(b)) => a.0 == b.0 && a.1 as int == b.1,
        (None, None) => true,
        _ => false,
    }
}

fn unicode_escape_exec(v: &Vec<char>, p: usize) -> (r: Option<(char, usize)>)
    requires
        p <= v@.len(),
    ensures
        char_idx_matches(r, unicode_escape(v@, p as int)),
        r matches Some(x) ==> x.1 <= v@.len(),
{
    if v.len() - p > 3 {
        match (hex_val_exec(v[p]), hex_val_exec(v[p + 1]), hex_val_exec(v[p + 2]), hex_val_exec(
            v[p + 3],
        )) {
            (Some(h1), Some(h2), Some(h3), Some(h4)) => {
                let u: u32 = h1 * 4096 + h2 * 256 + h3 * 16 + h4;
                if u < 0xD800 || u >= 0xE000 {
                    let d: char = char_from_u32(u);
                    proof {
                        vstd::utf8::char_u32_cast(d, u);
                    }
                    Some((d, p + 4))
                } else if u < 0xDC00 {
                    if v.len() - p > 9 && v[p + 4] == '\\' && v[p + 5] == 'u' {
                        match (hex_val_exec(v[p + 6]), hex_val_exec(v[p + 7]), hex_val_exec(
                            v[p + 8],
                        ), hex_val_exec(v[p + 9])) {
                            (Some(g1), Some(g2), Some(g3), Some(g4)) => {
                                let w: u32 = g1 * 4096 + g2 * 256 + g3 * 16 + g4;
                                if 0xDC00 <= w && w < 0xE000 {
                                    let cp: u32 = 0x10000 + (u - 0xD800) * 1024 + (w - 0xDC00);
                                    let d: char = char_from_u32(cp);
                                    proof {
                                        vstd::utf8::char_u32_cast(d, cp);
                                    }
                                    Some((d, p + 10))
                                } else {
                                    None
                                }
                            },
                            _ => None,
                        }
                    } else {
                        None
                    }
                } else {
                    None
                }
            },
            _ => None,
        }
    } else {
        None
    }
}

fn parse_string_body_exec(v: &Vec<char>, i: usize, acc: String, fuel: usize) -> (r: Option<
    (String, usize),
>)
    ensures
        str_idx_matches(r, parse_string_body(v@, i as int, acc@, fuel as nat)),
        r matches Some(x) ==> x.1 <= v@.len(),
    decreases fuel,
{
    if fuel == 0 {
        return None;
    }
    if !(i < v.len()) {
        return None;
    }
    let c: char = v[i];
    if c == '"' {
        Some((acc, i + 1))
    } else if c == '\\' {
        if v.len() - i > 1 {
            let e: char = v[i + 1];
            if e == 'u' {
                match unicode_escape_exec(v, i + 2) {
                    Some(dj) => {
                        let mut a: String = acc;
                        push_char(&mut a, dj.0);
                        parse_string_body_exec(v, dj.1, a, fuel - 1)
                    },
                    None => None,
                }
            } else {
                match short_unescape_exec(e) {
                    Some(d) => {
                        let mut a: String = acc;
                        push_char(&mut a, d);
                        parse_string_body_exec(v, i + 2, a, fuel - 1)
                    },
                    None => None,
                }
            }
        } else {
            None
        }
    } else if (c as u32) < 32 {
        None
    } else {
        let mut a: String = acc;
        push_char(&mut a, c);
        parse_string_body_exec(v, i + 1, a, fuel - 1)
    }
}

fn skip_digits_exec(v: &Vec<char>, i: usize) -> (r: usize)
    ensures
        r as int == skip_digits(v@, i as int),
        i <= r,
        i <= v@.len() ==> r <= v@.len(),
    decreases v@.len() - i,
{
    if i < v.len() {
        let c: char = v[i];
        if '0' as u32 <= c as u32 && c as u32 <= '9' as u32 {
            return skip_digits_exec(v, i + 1);
        }
    }
    i
}

fn frac_end_exec(v: &Vec<char>, k: usize) -> (r: Option<usize>)
    requires
        k <= v@.len(),
    ensures
        idx_matches(r, frac_end(v@, k as int)),
        r matches Some(x) ==> x <= v@.len(),
{
    if k < v.len() && v[k] == '.' {
        if v.len() - k > 1 {
            let c: char = v[k + 1];
            if '0' as u32 <= c as u32 && c as u32 <= '9' as u32 {
                return Some(skip_digits_exec(v, k + 1));
            }
        }
        None
    } else {
        Some(k)
    }
}

fn exp_end_exec(v: &Vec<char>, l: usize) -> (r: Option<usize>)
    requires
        l <= v@.len(),
    ensures
        idx_matches(r, exp_end(v@, l as int)),
        r matches Some(x) ==> x <= v@.len(),
{
    if l < v.len() {
        let c0: char = v[l];
        if c0 == 'e' || c0 == 'E' {
            let mut m: usize = l + 1;
            if v.len() - l > 1 {
                let c1: char = v[l + 1];
                if c1 == '+' || c1 == '-' {
                    m = l + 2;
                }
            }
            if m < v.len() {
                let d: char = v[m];
                if '0' as u32 <= d as u32 && d as u32 <= '9' as u32 {
                    return Some(skip_digits_exec(v, m));
                }
            }
            return None;
        }
    }
    Some(l)
}

fn number_end_exec(v: &Vec<char>, i: usize) -> (r: Option<usize>)
    requires
        i <= v@.len(),
    ensures
        idx_matches(r, number_end(v@, i as int)),
        r matches Some(x) ==> x <= v@.len(),
{
    let mut j: usize = i;
    if i < v.len() && v[i] == '-' {
        j = i + 1;
    }
    if j < v.len() {
        let c: char = v[j];
        if '0' as u32 <= c as u32 && c as u32 <= '9' as u32 {
            let k: usize = if c == '0' {
                j + 1
            } else {
                skip_digits_exec(v, j)
            };
            match frac_end_exec(v, k) {
                Some(l) => {
                    return exp_end_exec(v, l);
                },
                None => {
                    return None;
                },
            }
        }
    }
    None
}

fn skip_value_exec(v: &Vec<char>, i: usize, fuel: usize) -> (r: Option<usize>)
    requires
        i <= v@.len(),
    ensures
        idx_matches(r, skip_value(v@, i as int, fuel as nat)),
        r matches Some(x) ==> x <= v@.len(),
    decreases fuel,
{
    if fuel == 0 {
        return None;
    }
    if !(i < v.len()) {
        return None;
    }
    let c: char = v[i];
    if c == '"' {
        match parse_string_body_exec(v, i + 1, String::new(), fuel) {
            Some(p) => Some(p.1),
            None => None,
        }
    } else if c == '{' {
        let j: usize = skip_ws_exec(v, i + 1);
        if j < v.len() && v[j] == '}' {
            Some(j + 1)
        } else {
            skip_members_exec(v, j, fuel - 1)
        }
    } else if c == '[' {
        let j: usize = skip_ws_exec(v, i + 1);
        if j < v.len() && v[j] == ']' {
            Some(j + 1)
        } else {
            skip_elems_exec(v, j, fuel - 1)
        }
    } else if c == 't' {
        if v.len() - i > 3 && v[i + 1] == 'r' && v[i + 2] == 'u' && v[i + 3] == 'e' {
            Some(i + 4)
        } else {
            None
        }
    } else if c == 'f' {
        if v.len() - i > 4 && v[i + 1] == 'a' && v[i + 2] == 'l' && v[i + 3] == 's' && v[i + 4]
            == 'e' {
            Some(i + 5)
        } else {
            None
        }
    } else if c == 'n' {
        if v.len() - i > 3 && v[i + 1] == 'u' && v[i + 2] == 'l' && v[i + 3] == 'l' {
            Some(i + 4)
        } else {
            None
        }
    } else if ('0' as u32 <= c as u32 && c as u32 <= '9' as u32) || c == '-' {
        number_end_exec(v, i)
    } else {
        None
    }
}

fn skip_members_exec(v: &Vec<char>, i: usize, fuel: usize) -> (r: Option<usize>)
    requires
        i <= v@.len(),
    ensures
        idx_matches(r, skip_members(v@, i as int, fuel as nat)),
        r matches Some(x) ==> x <= v@.len(),
    decreases fuel,
{
    if fuel == 0 {
        return None;
    }
    if i < v.len() && v[i] == '"' {
        match parse_string_body_exec(v, i + 1, String::new(), fuel) {
            Some(kj) => {
                let k: usize = skip_ws_exec(v, kj.1);
                if k < v.len() && v[k] == ':' {
                    let m: usize = skip_ws_exec(v, k + 1);
                    match skip_value_exec(v, m, fuel - 1) {
                        Some(n) => {
                            let q: usize = skip_ws_exec(v, n);
                            if q < v.len() && v[q] == ',' {
                                let i2: usize = skip_ws_exec(v, q + 1);
                                skip_members_exec(v, i2, fuel - 1)
                            } else if q < v.len() && v[q] == '}' {
                                Some(q + 1)
                            } else {
                                None
                            }
                        },
                        None => None,
                    }
                } else {
                    None
                }
            },
            None => None,
        }
    } else {
        None
    }
}

fn skip_elems_exec(v: &Vec<char>, i: usize, fuel: usize) -> (r: Option<usize>)
    requires
        i <= v@.len(),
    ensures
        idx_matches(r, skip_elems(v@, i as int, fuel as nat)),
        r matches Some(x) ==> x <= v@.len(),
    decreases fuel,
{
    if fuel == 0 {
        return None;
    }
    match skip_value_exec(v, i, fuel - 1) {
        Some(n) => {
            let q: usize = skip_ws_exec(v, n);
            if q < v.len() && v[q] == ',' {
                let i2: usize = skip_ws_exec(v, q + 1);
                skip_elems_exec(v, i2, fuel - 1)
            } else if q < v.len() && v[q] == ']' {
                Some(q + 1)
            } else {
                None
            }
        },
        None => None,
    }
}

fn string_or_null_exec(v: &Vec<char>, i: usize, fuel: usize) -> (r: Option<(Option<String>, usize)>)
    ensures
        optstr_idx_matches(r, string_or_null(v@, i as int, fuel as nat)),
        r matches Some(x) ==> x.1 <= v@.len(),
{
    if !(i < v.len()) {
        return None;
    }
    if v[i] == '"' {
        match parse_string_body_exec(v, i + 1, String::new(), fuel) {
            Some(p) => Some((Some(p.0), p.1)),
            None => None,
        }
    } else if v[i] == 'n' && v.len() - i > 3 && v[i + 1] == 'u' && v[i + 2] == 'l' && v[i + 3]
        == 'l' {
        Some((None, i + 4))
    } else {
        None
    }
}

struct PartialExec {
    display_name: Option<String>,
    source_code_seen: bool,
    source_code: Option<String>,
    website_seen: bool,
    website: Option<String>,
    authors_seen: bool,
    authors: Option<String>,
}

impl View for PartialExec {
    type V = PartialMeta;

    closed spec fn view(&self) -> PartialMeta {
        PartialMeta {
            display_name: self.display_name.deep_view(),
            source_code_seen: self.source_code_seen,
            source_code: self.source_code.deep_view(),
            website_seen: self.website_seen,
            website: self.website.deep_view(),
            authors_seen: self.authors_seen,
            authors: self.authors.deep_view(),
        }
    }
}

/// How an executable partial-record result must relate to the
/// specification's.
spec fn partial_idx_matches(r: Option<(PartialExec, usize)>, m: Option<(PartialMeta, int)>) -> bool {
    match (r, m) {
        (Some(a), Some(b)) => a.0@ == b.0 && a.1 as int == b.1,
        (None, None) => true,
        _ => false,
    }
}

/// Whether the string equals the literal.
fn str_is(a: &String, lit: &str) -> (r: bool)
    ensures
        r == (a@ == lit@),
{
    let b: String = String::from_str(lit);
    a.eq(&b)
}

fn parse_members_exec(v: &Vec<char>, i: usize, p: PartialExec, fuel: usize) -> (r: Option<
    (PartialExec, usize),
>)
    requires
        i <= v@.len(),
    ensures
        partial_idx_matches(r, parse_members(v@, i as int, p@, fuel as nat)),
        r matches Some(x) ==> x.1 <= v@.len(),
    decreases fuel,
{
    if fuel == 0 {
        return None;
    }
    if i < v.len() && v[i] == '"' {
        match parse_string_body_exec(v, i + 1, String::new(), fuel) {
            Some(kj) => {
                let key: String = kj.0;
                let k: usize = skip_ws_exec(v, kj.1);
                if k < v.len() && v[k] == ':' {
                    let m: usize = skip_ws_exec(v, k + 1);
                    let step: Option<(PartialExec, usize)> = if str_is(&key, "display_name") {
                        if p.display_name.is_some() {
                            None
                        } else if m < v.len() && v[m] == '"' {
                            match parse_string_body_exec(v, m + 1, String::new(), fuel) {
                                Some(vn) => Some(
                                    (PartialExec { display_name: Some(vn.0), ..p }, vn.1),
                                ),
                                None => None,
                            }
                        } else {
                            None
                        }
                    } else if str_is(&key, "source_code") {
                        if p.source_code_seen {
                            None
                        } else {
                            match string_or_null_exec(v, m, fuel) {
                                Some(vn) => Some(
                                    (
                                        PartialExec {
                                            source_code_seen: true,
                                            source_code: vn.0,
                                            ..p
                                        },
                                        vn.1,
                                    ),
                                ),
                                None => None,
                            }
                        }
                    } else if str_is(&key, "website") {
                        if p.website_seen {
                            None
                        } else {
                            match string_or_null_exec(v, m, fuel) {
                                Some(vn) => Some(
                                    (PartialExec { website_seen: true, website: vn.0, ..p }, vn.1),
                                ),
                                None => None,
                            }
                        }
                    } else if str_is(&key, "authors") {
                        if p.authors_seen {
                            None
                        } else {
                            match string_or_null_exec(v, m, fuel) {
                                Some(vn) => Some(
                                    (PartialExec { authors_seen: true, authors: vn.0, ..p }, vn.1),
                                ),
                                None => None,
                            }
                        }
                    } else {
                        match skip_value_exec(v, m, fuel) {
                            Some(n) => Some((p, n)),
                            None => None,
                        }
                    };
                    match step {
                        Some(pn) => {
                            let q: usize = skip_ws_exec(v, pn.1);
                            if q < v.len() && v[q] == ',' {
                                let i2: usize = skip_ws_exec(v, q + 1);
                                parse_members_exec(v, i2, pn.0, fuel - 1)
                            } else if q < v.len() && v[q] == '}' {
                                Some((pn.0, q + 1))
                            } else {
                                None
                            }
                        },
                        None => None,
                    }
                } else {
                    None
                }
            },
            None => None,
        }
    } else {
        None
    }
}

/// Parses a sidecar text. Returns the record exactly when
/// [`meta_of_json`] accepts the text, and [`MetaError::Malformed`] otherwise.
pub fn from_json(s: &str) -> (r: Result<EngineMetadata, MetaError>)
    ensures
        match meta_of_json(s@) {
            Some(m) => r matches Ok(md) && md@ == m,
            None => r matches Err(e) && e == MetaError::Malformed,
        },
{
    let v: Vec<char> = chars_of(s);
    let i: usize = skip_ws_exec(&v, 0);
    if i < v.len() && v[i] == '{' {
        let j: usize = skip_ws_exec(&v, i + 1);
        let parsed: Option<(PartialExec, usize)> = if j < v.len() && v[j] == '}' {
            Some(
                (
                    PartialExec {
                        display_name: None,
                        source_code_seen: false,
                        source_code: None,
                        website_seen: false,
                        website: None,
                        authors_seen: false,
                        authors: None,
                    },
                    j + 1,
                ),
            )
        } else {
            let p0: PartialExec = PartialExec {
                display_name: None,
                source_code_seen: false,
                source_code: None,
                website_seen: false,
                website: None,
                authors_seen: false,
                authors: None,
            };
            proof {
                assert(p0@ =~= empty_partial());
            }
            parse_members_exec(&v, j, p0, v.len())
        };
        match parsed {
            Some(pe) => {
                let t: usize = skip_ws_exec(&v, pe.1);
                if t == v.len() {
                    match pe.0.display_name {
                        Some(dn) => {
                            let md: EngineMetadata = EngineMetadata {
                                display_name: dn,
                                source_code: pe.0.source_code,
                                website: pe.0.website,
                                authors: pe.0.authors,
                            };
                            Ok(md)
                        },
                        None => Err(MetaError::Malformed),
                    }
                } else {
                    Err(MetaError::Malformed)
                }
            },
            None => Err(MetaError::Malformed),
        }
    } else {
        Err(MetaError::Malformed)
    }
}

} // verus!
