//! The line format: one JSON object per line whose members are strings.
//!
//! Writing uses the shortest escapes; reading accepts every escape of JSON
//! and blanks between the tokens. What is read is stated by the `scan_`
//! functions below, one per rule of the grammar, each over a line and a
//! position in it.

use vstd::prelude::*;
use crate::text::code_of;

verus! {

/// A member of an object: its key and its value.
pub type Member = (Seq<char>, Seq<char>);

/// The blanks that may stand between tokens.
pub open spec fn is_json_space(c: char) -> bool {
    c == ' ' || c == '\t' || c == '\n' || c == '\r'
}

/// The lower-case hexadecimal digit for a number below 16.
pub open spec fn hex_digit(n: int) -> char {
    if n < 10 {
        (0x30 + n) as char
    } else {
        (0x61 + n - 10) as char
    }
}

/// The number that a hexadecimal digit stands for, in either case.
pub open spec fn hex_value(c: char) -> Option<int> {
    let code = c as int;
    if 0x30 <= code <= 0x39 {
        Some(code - 0x30)
    } else if 0x61 <= code <= 0x66 {
        Some(code - 0x61 + 10)
    } else if 0x41 <= code <= 0x46 {
        Some(code - 0x41 + 10)
    } else {
        None
    }
}

/// How one character is written inside a string literal.
pub open spec fn escaped(c: char) -> Seq<char> {
    if c == '"' {
        seq!['\\', '"']
    } else if c == '\\' {
        seq!['\\', '\\']
    } else if c == '\n' {
        seq!['\\', 'n']
    } else if c == '\r' {
        seq!['\\', 'r']
    } else if c == '\t' {
        seq!['\\', 't']
    } else if c == '\u{08}' {
        seq!['\\', 'b']
    } else if c == '\u{0c}' {
        seq!['\\', 'f']
    } else if (c as int) < 0x20 {
        seq!['\\', 'u', '0', '0', hex_digit(c as int / 16), hex_digit(c as int % 16)]
    } else {
        seq![c]
    }
}

/// A text between the quotes of a string literal.
pub open spec fn quoted_body(s: Seq<char>) -> Seq<char>
    decreases s.len(),
{
    if s.len() == 0 {
        Seq::empty()
    } else {
        escaped(s[0]) + quoted_body(s.drop_first())
    }
}

/// A text as a string literal.
pub open spec fn quoted(s: Seq<char>) -> Seq<char> {
    seq!['"'] + quoted_body(s) + seq!['"']
}

/// A member as text: key, colon, value.
pub open spec fn member_text(m: Member) -> Seq<char> {
    quoted(m.0) + seq![':'] + quoted(m.1)
}

/// Members as text, with commas between them.
pub open spec fn members_text(ms: Seq<Member>) -> Seq<char>
    decreases ms.len(),
{
    if ms.len() == 0 {
        Seq::empty()
    } else if ms.len() == 1 {
        member_text(ms[0])
    } else {
        member_text(ms[0]) + seq![','] + members_text(ms.drop_first())
    }
}

/// An object as text.
pub open spec fn object_text(ms: Seq<Member>) -> Seq<char> {
    seq!['{'] + members_text(ms) + seq!['}']
}

/// The text of `a` followed by `b` is the text of `a` followed by that of `b`.
pub proof fn lemma_quoted_body_concat(a: Seq<char>, b: Seq<char>)
    ensures
        quoted_body(a + b) == quoted_body(a) + quoted_body(b),
    decreases a.len(),
{
    if a.len() == 0 {
        assert(a + b =~= b);
        assert(quoted_body(a) + quoted_body(b) =~= quoted_body(b));
    } else {
        lemma_quoted_body_concat(a.drop_first(), b);
        assert((a + b).drop_first() =~= a.drop_first() + b);
        assert((a + b)[0] == a[0]);
        assert(escaped(a[0]) + (quoted_body(a.drop_first()) + quoted_body(b)) =~= (escaped(a[0])
            + quoted_body(a.drop_first())) + quoted_body(b));
    }
}

fn push_hex_digit(out: &mut String, n: u8)
    requires
        n < 16,
    ensures
        final(out)@ == old(out)@.push(hex_digit(n as int)),
{
    let digit: char = if n < 10 { (0x30u8 + n) as char } else { (0x61u8 + (n - 10)) as char };
    out.push(digit);
}

/// Appends one character as a string literal holds it.
fn push_escaped(out: &mut String, c: char)
    ensures
        final(out)@ == old(out)@ + escaped(c),
{
    let ghost before = out@;
    if c == '"' {
        out.push('\\');
        out.push('"');
    } else if c == '\\' {
        out.push('\\');
        out.push('\\');
    } else if c == '\n' {
        out.push('\\');
        out.push('n');
    } else if c == '\r' {
        out.push('\\');
        out.push('r');
    } else if c == '\t' {
        out.push('\\');
        out.push('t');
    } else if c == '\u{08}' {
        out.push('\\');
        out.push('b');
    } else if c == '\u{0c}' {
        out.push('\\');
        out.push('f');
    } else if (c as u32) < 0x20 {
        let code: u8 = c as u8;
        out.push('\\');
        out.push('u');
        out.push('0');
        out.push('0');
        push_hex_digit(out, code / 16);
        push_hex_digit(out, code % 16);
    } else {
        out.push(c);
    }
    assert(out@ =~= before + escaped(c));
}

/// Appends a text as a string literal.
pub fn push_quoted(out: &mut String, s: &str)
    ensures
        final(out)@ == old(out)@ + quoted(s@),
{
    let ghost before = out@;
    out.push('"');
    for c in it: s.chars()
        invariant
            it.seq() == s@,
            out@ == before.push('"') + quoted_body(s@.take(it.index() as int)),
    {
        let ghost done = s@.take(it.index() as int);
        push_escaped(out, c);
        proof {
            lemma_quoted_body_concat(done, seq![c]);
            assert(quoted_body(seq![c]) =~= escaped(c)) by {
                assert(seq![c].drop_first() =~= Seq::<char>::empty());
                assert(quoted_body(seq![c].drop_first()) =~= Seq::<char>::empty());
                assert(seq![c][0] == c);
            }
            assert(s@.take(it.index() + 1) =~= done + seq![c]);
            assert(out@ =~= before.push('"') + quoted_body(done + seq![c]));
        }
    }
    assert(s@.take(s@.len() as int) =~= s@);
    out.push('"');
    assert(out@ =~= before + quoted(s@));
}

/// The number in the four hexadecimal digits at `at`.
pub open spec fn scan_hex4(line: Seq<char>, at: int) -> Option<int> {
    if 0 <= at && at + 4 <= line.len() {
        match (
            hex_value(line[at]),
            hex_value(line[at + 1]),
            hex_value(line[at + 2]),
            hex_value(line[at + 3]),
        ) {
            (Some(a), Some(b), Some(c), Some(d)) => Some(a * 0x1000 + b * 0x100 + c * 0x10 + d),
            _ => None,
        }
    } else {
        None
    }
}

/// The character that a `\u` escape at `at` stands for, and the escape's
/// width: four digits, or a surrogate pair in two escapes. A surrogate that
/// is alone stands for nothing.
pub open spec fn scan_unicode(line: Seq<char>, at: int) -> Option<(char, int)> {
    match scan_hex4(line, at + 2) {
        Some(first) => if 0xD800 <= first < 0xDC00 {
            if at + 8 <= line.len() && line[at + 6] == '\\' && line[at + 7] == 'u' {
                match scan_hex4(line, at + 8) {
                    Some(second) => if 0xDC00 <= second < 0xE000 {
                        Some(
                            (
                                (0x10000 + (first - 0xD800) * 0x400 + (second - 0xDC00)) as char,
                                12,
                            ),
                        )
                    } else {
                        None
                    },
                    None => None,
                }
            } else {
                None
            }
        } else if 0xDC00 <= first < 0xE000 {
            None
        } else {
            Some((first as char, 6))
        },
        None => None,
    }
}

/// The character that stands at `at` inside a string literal, and how many
/// characters of the line write it. The closing quote, a control character
/// and an escape that JSON does not know stand for nothing.
pub open spec fn scan_char(line: Seq<char>, at: int) -> Option<(char, int)> {
    if at < 0 || at >= line.len() {
        None
    } else if line[at] == '"' || (line[at] as int) < 0x20 {
        None
    } else if line[at] != '\\' {
        Some((line[at], 1))
    } else if at + 1 >= line.len() {
        None
    } else {
        let e = line[at + 1];
        if e == '"' {
            Some(('"', 2))
        } else if e == '\\' {
            Some(('\\', 2))
        } else if e == '/' {
            Some(('/', 2))
        } else if e == 'b' {
            Some(('\u{08}', 2))
        } else if e == 'f' {
            Some(('\u{0c}', 2))
        } else if e == 'n' {
            Some(('\n', 2))
        } else if e == 'r' {
            Some(('\r', 2))
        } else if e == 't' {
            Some(('\t', 2))
        } else if e == 'u' {
            scan_unicode(line, at)
        } else {
            None
        }
    }
}

/// The text of the string literal whose first character after the opening
/// quote stands at `at`, and the position after its closing quote.
pub open spec fn scan_string(line: Seq<char>, at: int) -> Option<(Seq<char>, int)>
    decreases line.len() - at,
{
    if at < 0 || at >= line.len() {
        None
    } else if line[at] == '"' {
        Some((Seq::empty(), at + 1))
    } else {
        match scan_char(line, at) {
            Some((c, width)) => if width >= 1 {
                match scan_string(line, at + width) {
                    Some((rest, end)) => Some((seq![c] + rest, end)),
                    None => None,
                }
            } else {
                None
            },
            None => None,
        }
    }
}

/// The first position from `at` on that holds no blank.
pub open spec fn skip_ws(line: Seq<char>, at: int) -> int
    decreases line.len() - at,
{
    if 0 <= at < line.len() && is_json_space(line[at]) {
        skip_ws(line, at + 1)
    } else {
        at
    }
}

/// The member whose key opens at `at`, and the position after its value.
pub open spec fn scan_member(line: Seq<char>, at: int) -> Option<(Member, int)> {
    if 0 <= at < line.len() && line[at] == '"' {
        match scan_string(line, at + 1) {
            Some((key, after_key)) => {
                let colon = skip_ws(line, after_key);
                let open = skip_ws(line, colon + 1);
                if 0 <= colon < line.len() && line[colon] == ':' && open < line.len() && line[open]
                    == '"' {
                    match scan_string(line, open + 1) {
                        Some((value, end)) => Some(((key, value), end)),
                        None => None,
                    }
                } else {
                    None
                }
            },
            None => None,
        }
    } else {
        None
    }
}

/// The members from `at` up to the closing brace, and the position after
/// that brace.
pub open spec fn scan_members(line: Seq<char>, at: int) -> Option<(Seq<Member>, int)>
    decreases line.len() - at,
{
    match scan_member(line, at) {
        Some((member, after)) => {
            let mark = skip_ws(line, after);
            if 0 <= mark < line.len() && line[mark] == '}' {
                Some((seq![member], mark + 1))
            } else if 0 <= mark < line.len() && line[mark] == ',' {
                let next = skip_ws(line, mark + 1);
                if at < next <= line.len() {
                    match scan_members(line, next) {
                        Some((rest, end)) => Some((seq![member] + rest, end)),
                        None => None,
                    }
                } else {
                    None
                }
            } else {
                None
            }
        },
        None => None,
    }
}

/// The members of the object that a line holds, where the line holds one
/// object of string members and nothing else but blanks.
pub open spec fn scan_object(line: Seq<char>) -> Option<Seq<Member>> {
    let brace = skip_ws(line, 0);
    let first = skip_ws(line, brace + 1);
    if 0 <= brace < line.len() && line[brace] == '{' {
        if 0 <= first < line.len() && line[first] == '}' {
            if skip_ws(line, first + 1) == line.len() {
                Some(Seq::empty())
            } else {
                None
            }
        } else {
            match scan_members(line, first) {
                Some((members, end)) => if skip_ws(line, end) == line.len() {
                    Some(members)
                } else {
                    None
                },
                None => None,
            }
        }
    } else {
        None
    }
}

fn skip_blanks(line: &[char], at: usize) -> (r: usize)
    requires
        at <= line@.len(),
    ensures
        r == skip_ws(line@, at as int),
        at <= r <= line@.len(),
{
    let mut i: usize = at;
    while i < line.len() && (line[i] == ' ' || line[i] == '\t' || line[i] == '\n' || line[i]
        == '\r')
        invariant
            at <= i <= line@.len(),
            skip_ws(line@, at as int) == skip_ws(line@, i as int),
        decreases line@.len() - i,
    {
        i += 1;
    }
    i
}

fn hex_of(c: char) -> (r: Option<u32>)
    ensures
        match r {
            Some(v) => hex_value(c) == Some(v as int) && v < 16,
            None => hex_value(c) is None,
        },
{
    let code: u32 = c as u32;
    if 0x30 <= code && code <= 0x39 {
        Some(code - 0x30)
    } else if 0x61 <= code && code <= 0x66 {
        Some(code - 0x61 + 10)
    } else if 0x41 <= code && code <= 0x46 {
        Some(code - 0x41 + 10)
    } else {
        None
    }
}

fn read_hex4(line: &[char], at: usize) -> (r: Option<u32>)
    requires
        at <= line@.len(),
    ensures
        match r {
            Some(v) => scan_hex4(line@, at as int) == Some(v as int) && v < 0x10000,
            None => scan_hex4(line@, at as int) is None,
        },
{
    if line.len() - at < 4 {
        return None;
    }
    match (hex_of(line[at]), hex_of(line[at + 1]), hex_of(line[at + 2]), hex_of(line[at + 3])) {
        (Some(a), Some(b), Some(c), Some(d)) => Some(a * 0x1000 + b * 0x100 + c * 0x10 + d),
        _ => None,
    }
}

fn read_unicode(line: &[char], at: usize) -> (r: Option<(char, usize)>)
    requires
        at + 2 <= line@.len(),
    ensures
        match r {
            Some((c, width)) => scan_unicode(line@, at as int) == Some((c, width as int)) && 1
                <= width && at + width <= line@.len(),
            None => scan_unicode(line@, at as int) is None,
        },
{
    let len: usize = line.len();
    let first: u32 = match read_hex4(line, at + 2) {
        Some(v) => v,
        None => { return None; },
    };
    if 0xD800 <= first && first < 0xDC00 {
        if line.len() - at < 8 || line[at + 6] != '\\' || line[at + 7] != 'u' {
            return None;
        }
        let second: u32 = match read_hex4(line, at + 8) {
            Some(v) => v,
            None => { return None; },
        };
        if 0xDC00 <= second && second < 0xE000 {
            let code: u32 = 0x10000 + (first - 0xD800) * 0x400 + (second - 0xDC00);
            match char::from_u32(code) {
                Some(c) => Some((c, 12)),
                None => None,
            }
        } else {
            None
        }
    } else if 0xDC00 <= first && first < 0xE000 {
        None
    } else {
        match char::from_u32(first) {
            Some(c) => Some((c, 6)),
            None => None,
        }
    }
}

fn read_char(line: &[char], at: usize) -> (r: Option<(char, usize)>)
    requires
        at < line@.len(),
    ensures
        match r {
            Some((c, width)) => scan_char(line@, at as int) == Some((c, width as int)) && 1
                <= width && at + width <= line@.len(),
            None => scan_char(line@, at as int) is None,
        },
{
    let c: char = line[at];
    if c == '"' || code_of(c) < 0x20 {
        None
    } else if c != '\\' {
        Some((c, 1))
    } else if line.len() - at < 2 {
        None
    } else {
        let e: char = line[at + 1];
        if e == '"' {
            Some(('"', 2))
        } else if e == '\\' {
            Some(('\\', 2))
        } else if e == '/' {
            Some(('/', 2))
        } else if e == 'b' {
            Some(('\u{08}', 2))
        } else if e == 'f' {
            Some(('\u{0c}', 2))
        } else if e == 'n' {
            Some(('\n', 2))
        } else if e == 'r' {
            Some(('\r', 2))
        } else if e == 't' {
            Some(('\t', 2))
        } else if e == 'u' {
            read_unicode(line, at)
        } else {
            None
        }
    }
}

fn read_string(line: &[char], at: usize) -> (r: Option<(String, usize)>)
    requires
        at <= line@.len(),
    ensures
        match r {
            Some((text, end)) => scan_string(line@, at as int) == Some((text@, end as int)) && at
                < end <= line@.len(),
            None => scan_string(line@, at as int) is None,
        },
{
    let mut text = String::new();
    let mut i: usize = at;
    loop
        invariant
            at <= i <= line@.len(),
            scan_string(line@, at as int) == (match scan_string(line@, i as int) {
                Some((rest, end)) => Some((text@ + rest, end)),
                None => None,
            }),
        decreases line@.len() - i,
    {
        if i >= line.len() {
            return None;
        }
        if line[i] == '"' {
            assert(text@ + Seq::<char>::empty() =~= text@);
            return Some((text, i + 1));
        }
        match read_char(line, i) {
            Some((c, width)) => {
                proof {
                    let before = text@;
                    assert forall|rest: Seq<char>| before.push(c) + rest == before + (seq![c]
                        + rest) by {
                        assert(before.push(c) + rest =~= before + (seq![c] + rest));
                    }
                }
                text.push(c);
                i += width;
            },
            None => {
                return None;
            },
        }
    }
}

fn read_member(line: &[char], at: usize) -> (r: Option<((String, String), usize)>)
    requires
        at <= line@.len(),
    ensures
        match r {
            Some((member, end)) => scan_member(line@, at as int) == Some(
                (member.deep_view(), end as int),
            ) && at < end <= line@.len(),
            None => scan_member(line@, at as int) is None,
        },
{
    if at >= line.len() || line[at] != '"' {
        return None;
    }
    let (key, after_key) = match read_string(line, at + 1) {
        Some(found) => found,
        None => { return None; },
    };
    let colon: usize = skip_blanks(line, after_key);
    if colon >= line.len() || line[colon] != ':' {
        return None;
    }
    let open: usize = skip_blanks(line, colon + 1);
    if open >= line.len() || line[open] != '"' {
        return None;
    }
    match read_string(line, open + 1) {
        Some((value, end)) => Some(((key, value), end)),
        None => None,
    }
}

fn read_members(line: &[char], at: usize) -> (r: Option<(Vec<(String, String)>, usize)>)
    requires
        at <= line@.len(),
    ensures
        match r {
            Some((members, end)) => scan_members(line@, at as int) == Some(
                (members.deep_view(), end as int),
            ) && at < end <= line@.len(),
            None => scan_members(line@, at as int) is None,
        },
{
    let mut members: Vec<(String, String)> = Vec::new();
    let mut i: usize = at;
    loop
        invariant
            at <= i <= line@.len(),
            scan_members(line@, at as int) == (match scan_members(line@, i as int) {
                Some((rest, end)) => Some((members.deep_view() + rest, end)),
                None => None,
            }),
        decreases line@.len() - i,
    {
        let (member, after) = match read_member(line, i) {
            Some(found) => found,
            None => { return None; },
        };
        let mark: usize = skip_blanks(line, after);
        if mark >= line.len() {
            return None;
        }
        proof {
            let before = members.deep_view();
            let m = member.deep_view();
            assert forall|rest: Seq<Member>| before.push(m) + rest == before + (seq![m] + rest) by {
                assert(before.push(m) + rest =~= before + (seq![m] + rest));
            }
            assert(before.push(m) =~= before + seq![m]);
        }
        let ghost before = members.deep_view();
        let ghost m = member.deep_view();
        members.push(member);
        assert(members.deep_view() =~= before.push(m));
        if line[mark] == '}' {
            return Some((members, mark + 1));
        } else if line[mark] == ',' {
            i = skip_blanks(line, mark + 1);
        } else {
            return None;
        }
    }
}

/// The members of the object that a line holds.
pub fn read_object(line: &str) -> (r: Option<Vec<(String, String)>>)
    ensures
        match r {
            Some(members) => scan_object(line@) == Some(members.deep_view()),
            None => scan_object(line@) is None,
        },
{
    let chars: Vec<char> = crate::text::chars_of(line);
    let line: &[char] = chars.as_slice();
    let brace: usize = skip_blanks(line, 0);
    if brace >= line.len() || line[brace] != '{' {
        return None;
    }
    let first: usize = skip_blanks(line, brace + 1);
    if first < line.len() && line[first] == '}' {
        if skip_blanks(line, first + 1) == line.len() {
            let members: Vec<(String, String)> = Vec::new();
            assert(members.deep_view() =~= Seq::<Member>::empty());
            Some(members)
        } else {
            None
        }
    } else {
        match read_members(line, first) {
            Some((members, end)) => if skip_blanks(line, end) == line.len() {
                Some(members)
            } else {
                None
            },
            None => None,
        }
    }
}

/// Whether `text` stands in `line` from `at` on.
pub open spec fn stands_at(line: Seq<char>, at: int, text: Seq<char>) -> bool {
    0 <= at && at + text.len() <= line.len() && line.subrange(at, at + text.len()) == text
}

/// A part of what stands in a line stands there too.
pub proof fn lemma_stands_part(line: Seq<char>, at: int, a: Seq<char>, b: Seq<char>, c: Seq<char>)
    requires
        stands_at(line, at, a + b + c),
    ensures
        stands_at(line, at + a.len(), b),
{
    let whole = a + b + c;
    assert(line.subrange(at + a.len(), at + a.len() + b.len()) =~= b) by {
        assert forall|i: int| 0 <= i < b.len() implies line[at + a.len() + i] == b[i] by {
            assert(line.subrange(at, at + whole.len())[a.len() + i] == whole[a.len() + i]);
        }
    }
}

proof fn lemma_hex_digit_value(n: int)
    requires
        0 <= n < 16,
    ensures
        hex_value(hex_digit(n)) == Some(n),
{
}

/// Reading what `escaped` wrote gives the character back.
proof fn lemma_scan_escaped(line: Seq<char>, at: int, c: char)
    requires
        stands_at(line, at, escaped(c)),
    ensures
        scan_char(line, at) == Some((c, escaped(c).len() as int)),
        line[at] != '"',
        escaped(c).len() >= 1,
{
    let e = escaped(c);
    assert forall|i: int| 0 <= i < e.len() implies line[at + i] == e[i] by {
        assert(line.subrange(at, at + e.len())[i] == e[i]);
    }
    assert(line[at] == e[0]);
    if c == '"' || c == '\\' || c == '\n' || c == '\r' || c == '\t' || c == '\u{08}' || c
        == '\u{0c}' {
        assert(line[at + 1] == e[1]);
    } else if (c as int) < 0x20 {
        assert(line[at + 1] == e[1]);
        assert(line[at + 2] == e[2]);
        assert(line[at + 3] == e[3]);
        assert(line[at + 4] == e[4]);
        assert(line[at + 5] == e[5]);
        lemma_hex_digit_value(c as int / 16);
        lemma_hex_digit_value(c as int % 16);
        assert(hex_value('0') == Some(0int));
        assert(scan_hex4(line, at + 2) == Some(c as int));
    } else {
    }
}

/// Reading the inside of a string literal gives the text back.
proof fn lemma_scan_quoted_body(line: Seq<char>, at: int, s: Seq<char>)
    requires
        stands_at(line, at, quoted_body(s) + seq!['"']),
    ensures
        scan_string(line, at) == Some((s, at + quoted_body(s).len() + 1)),
    decreases s.len(),
{
    let close = seq!['"'];
    if s.len() == 0 {
        assert(line.subrange(at, at + 1)[0] == close[0]);
        assert(s =~= Seq::<char>::empty());
    } else {
        let c = s[0];
        let tail = s.drop_first();
        let e = escaped(c);
        assert(quoted_body(s) + close =~= Seq::<char>::empty() + e + (quoted_body(tail) + close));
        lemma_stands_part(line, at, Seq::empty(), e, quoted_body(tail) + close);
        lemma_scan_escaped(line, at, c);
        assert(quoted_body(s) + close =~= e + (quoted_body(tail) + close) + Seq::<char>::empty());
        lemma_stands_part(line, at, e, quoted_body(tail) + close, Seq::empty());
        lemma_scan_quoted_body(line, at + e.len(), tail);
        assert(seq![c] + tail =~= s);
    }
}

/// Reading a string literal, from its opening quote on, gives the text back.
proof fn lemma_scan_quoted(line: Seq<char>, at: int, s: Seq<char>)
    requires
        stands_at(line, at, quoted(s)),
    ensures
        line[at] == '"',
        scan_string(line, at + 1) == Some((s, at + quoted(s).len())),
{
    let q = seq!['"'];
    assert(line.subrange(at, at + quoted(s).len())[0] == quoted(s)[0]);
    assert(quoted(s) =~= q + (quoted_body(s) + q) + Seq::<char>::empty());
    lemma_stands_part(line, at, q, quoted_body(s) + q, Seq::empty());
    lemma_scan_quoted_body(line, at + 1, s);
}

/// Reading a member gives its key and its value back.
proof fn lemma_scan_member_text(line: Seq<char>, at: int, m: Member)
    requires
        stands_at(line, at, member_text(m)),
    ensures
        scan_member(line, at) == Some((m, at + member_text(m).len())),
        member_text(m).len() >= 5,
        line[at] == '"',
{
    let key = quoted(m.0);
    let value = quoted(m.1);
    let colon = seq![':'];
    assert(member_text(m) =~= Seq::<char>::empty() + key + (colon + value));
    lemma_stands_part(line, at, Seq::empty(), key, colon + value);
    lemma_scan_quoted(line, at, m.0);
    assert(member_text(m) =~= key + colon + value);
    lemma_stands_part(line, at, key, colon, value);
    assert(line.subrange(at + key.len(), at + key.len() + 1)[0] == colon[0]);
    assert(member_text(m) =~= (key + colon) + value + Seq::<char>::empty());
    lemma_stands_part(line, at, key + colon, value, Seq::empty());
    lemma_scan_quoted(line, at + key.len() + 1, m.1);
    let c = at + key.len();
    assert(line[c] == ':');
    assert(skip_ws(line, c) == c);
    assert(line[c + 1] == '"');
    assert(skip_ws(line, c + 1) == c + 1);
}

/// Reading a list of members up to the closing brace gives the list back.
proof fn lemma_scan_members_text(line: Seq<char>, at: int, ms: Seq<Member>)
    requires
        ms.len() >= 1,
        stands_at(line, at, members_text(ms) + seq!['}']),
    ensures
        scan_members(line, at) == Some((ms, at + members_text(ms).len() + 1)),
        line[at] == '"',
    decreases ms.len(),
{
    let close = seq!['}'];
    let head = member_text(ms[0]);
    if ms.len() == 1 {
        assert(members_text(ms) + close =~= Seq::<char>::empty() + head + close);
        lemma_stands_part(line, at, Seq::empty(), head, close);
        lemma_scan_member_text(line, at, ms[0]);
        assert(members_text(ms) + close =~= head + close + Seq::<char>::empty());
        lemma_stands_part(line, at, head, close, Seq::empty());
        assert(line.subrange(at + head.len(), at + head.len() + 1)[0] == close[0]);
        let mark = at + head.len();
        assert(line[mark] == '}');
        assert(skip_ws(line, mark) == mark);
        assert(seq![ms[0]] =~= ms);
    } else {
        let comma = seq![','];
        let tail = ms.drop_first();
        let rest = members_text(tail) + close;
        assert(members_text(ms) + close =~= Seq::<char>::empty() + head + (comma + rest));
        lemma_stands_part(line, at, Seq::empty(), head, comma + rest);
        lemma_scan_member_text(line, at, ms[0]);
        assert(members_text(ms) + close =~= head + comma + rest);
        lemma_stands_part(line, at, head, comma, rest);
        assert(line.subrange(at + head.len(), at + head.len() + 1)[0] == comma[0]);
        assert(members_text(ms) + close =~= (head + comma) + rest + Seq::<char>::empty());
        lemma_stands_part(line, at, head + comma, rest, Seq::empty());
        lemma_scan_members_text(line, at + head.len() + 1, tail);
        let mark = at + head.len();
        assert(line[mark] == ',');
        assert(skip_ws(line, mark) == mark);
        assert(line[mark + 1] == '"');
        assert(skip_ws(line, mark + 1) == mark + 1);
        assert(seq![ms[0]] + tail =~= ms);
    }
}

/// Reading an object as it is written gives its members back.
pub proof fn lemma_scan_object_text(ms: Seq<Member>)
    ensures
        scan_object(object_text(ms)) == Some(ms),
{
    let line = object_text(ms);
    let open = seq!['{'];
    let close = seq!['}'];
    assert(line[0] == '{');
    assert(skip_ws(line, 0) == 0);
    if ms.len() == 0 {
        assert(members_text(ms) =~= Seq::<char>::empty());
        assert(line =~= seq!['{', '}']);
        assert(line[1] == '}');
        assert(skip_ws(line, 1) == 1);
        assert(skip_ws(line, 2) == 2);
        assert(ms =~= Seq::<Member>::empty());
    } else {
        let body = members_text(ms) + close;
        assert(line =~= open + body + Seq::<char>::empty());
        assert(line.subrange(0, line.len() as int) =~= line);
        lemma_stands_part(line, 0, open, body, Seq::empty());
        lemma_scan_members_text(line, 1, ms);
        assert(line[1] == '"');
        assert(skip_ws(line, 1) == 1);
        assert(skip_ws(line, line.len() as int) == line.len());
    }
}

/// Whether a text is free of line breaks.
pub open spec fn one_line(text: Seq<char>) -> bool {
    forall|i: int| 0 <= i < text.len() ==> #[trigger] text[i] != '\n'
}

proof fn lemma_one_line_concat(a: Seq<char>, b: Seq<char>)
    requires
        one_line(a),
        one_line(b),
    ensures
        one_line(a + b),
{
    assert forall|i: int| 0 <= i < (a + b).len() implies #[trigger] (a + b)[i] != '\n' by {
        if i < a.len() {
            assert((a + b)[i] == a[i]);
        } else {
            assert((a + b)[i] == b[i - a.len()]);
        }
    }
}

proof fn lemma_one_line_escaped(c: char)
    ensures
        one_line(escaped(c)),
{
    let e = escaped(c);
    if (c as int) < 0x20 {
        assert(hex_digit(c as int / 16) != '\n');
        assert(hex_digit(c as int % 16) != '\n');
    }
}

proof fn lemma_one_line_quoted(s: Seq<char>)
    ensures
        one_line(quoted_body(s)),
        one_line(quoted(s)),
    decreases s.len(),
{
    if s.len() > 0 {
        lemma_one_line_escaped(s[0]);
        lemma_one_line_quoted(s.drop_first());
        lemma_one_line_concat(escaped(s[0]), quoted_body(s.drop_first()));
    }
    lemma_one_line_concat(seq!['"'], quoted_body(s));
    lemma_one_line_concat(seq!['"'] + quoted_body(s), seq!['"']);
}

proof fn lemma_one_line_members(ms: Seq<Member>)
    ensures
        one_line(members_text(ms)),
    decreases ms.len(),
{
    if ms.len() >= 1 {
        let m = ms[0];
        lemma_one_line_quoted(m.0);
        lemma_one_line_quoted(m.1);
        lemma_one_line_concat(quoted(m.0), seq![':']);
        lemma_one_line_concat(quoted(m.0) + seq![':'], quoted(m.1));
        if ms.len() > 1 {
            lemma_one_line_members(ms.drop_first());
            lemma_one_line_concat(member_text(m), seq![',']);
            lemma_one_line_concat(member_text(m) + seq![','], members_text(ms.drop_first()));
        }
    }
}

/// An object is written without a line break, whatever its members hold.
pub proof fn lemma_one_line_object(ms: Seq<Member>)
    ensures
        one_line(object_text(ms)),
        object_text(ms).len() >= 2,
{
    lemma_one_line_members(ms);
    lemma_one_line_concat(seq!['{'], members_text(ms));
    lemma_one_line_concat(seq!['{'] + members_text(ms), seq!['}']);
}

} // verus!
