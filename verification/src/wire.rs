//! The textual wire format of operations.
//!
//! An operation travels as one line of JSON text: an object whose single key
//! names the kind of edit and whose value holds the fields,
//! `{"Insert":{"index":0,"value":"a","id":"1"}}` or
//! `{"Delete":{"index":0,"id":"1"}}`. Positions are decimal numerals, the
//! character and the identifier are quoted strings with the usual escapes.
//! Decoding accepts that shape and nothing else, and gives back every
//! operation that encoding wrote.

use vstd::prelude::*;
use vstd::string::StringExecFns;
use crate::data::{Operation, OperationView};
use crate::errors::CollaboriError;
use crate::text::{chars_of, is_scalar_value};

verus! {

/// What stands before the position of an insert.
pub const INSERT_HEAD: &'static str = "{\"Insert\":{\"index\":";

/// What stands before the position of a delete.
pub const DELETE_HEAD: &'static str = "{\"Delete\":{\"index\":";

/// What stands before the character of an insert.
pub const VALUE_KEY: &'static str = ",\"value\":";

/// What stands before the identifier.
pub const ID_KEY: &'static str = ",\"id\":";

/// What closes the record.
pub const TAIL: &'static str = "}}";

/// Whether `c` is a decimal digit.
pub open spec fn is_digit(c: char) -> bool {
    '0' <= c && c <= '9'
}

/// The decimal digit that stands for `d`, for `d` below ten.
pub open spec fn digit_char(d: nat) -> char {
    (48 + d) as char
}

/// The number that the decimal digit `c` stands for.
pub open spec fn digit_value(c: char) -> nat {
    (c as nat - 48) as nat
}

/// The decimal numeral of `n`, without leading zeros.
pub open spec fn numeral(n: nat) -> Seq<char>
    decreases n,
{
    if n < 10 {
        seq![digit_char(n)]
    } else {
        numeral(n / 10).push(digit_char(n % 10))
    }
}

/// The lowercase hexadecimal digit that stands for `d`, for `d` below 16.
pub open spec fn hex_char(d: nat) -> char {
    if d < 10 {
        (48 + d) as char
    } else {
        (87 + d) as char
    }
}

/// The number that the hexadecimal digit `c` stands for, in either case.
pub open spec fn hex_value(c: char) -> Option<nat> {
    if '0' <= c && c <= '9' {
        Some((c as nat - 48) as nat)
    } else if 'a' <= c && c <= 'f' {
        Some((c as nat - 87) as nat)
    } else if 'A' <= c && c <= 'F' {
        Some((c as nat - 55) as nat)
    } else {
        None
    }
}

/// How one character is written inside a quoted string: the quote, the
/// backslash and the control characters are escaped, everything else stands
/// for itself.
pub open spec fn escape_char(c: char) -> Seq<char> {
    if c == '"' {
        seq!['\\', '"']
    } else if c == '\\' {
        seq!['\\', '\\']
    } else if c == '\u{08}' {
        seq!['\\', 'b']
    } else if c == '\u{0c}' {
        seq!['\\', 'f']
    } else if c == '\n' {
        seq!['\\', 'n']
    } else if c == '\r' {
        seq!['\\', 'r']
    } else if c == '\t' {
        seq!['\\', 't']
    } else if (c as nat) < 0x20 {
        seq!['\\', 'u', '0', '0', hex_char(c as nat / 16), hex_char(c as nat % 16)]
    } else {
        seq![c]
    }
}

/// The characters of `s`, each written as [`escape_char`] says.
pub open spec fn escape(s: Seq<char>) -> Seq<char>
    decreases s.len(),
{
    if s.len() == 0 {
        Seq::empty()
    } else {
        escape_char(s[0]) + escape(s.skip(1))
    }
}

/// `s` as a quoted string.
pub open spec fn quoted(s: Seq<char>) -> Seq<char> {
    seq!['"'] + escape(s) + seq!['"']
}

/// The wire text of an operation.
pub open spec fn encode_spec(op: OperationView) -> Seq<char> {
    match op {
        OperationView::Insert { index, value, id } => INSERT_HEAD@ + numeral(index) + VALUE_KEY@
            + quoted(seq![value]) + ID_KEY@ + quoted(id) + TAIL@,
        OperationView::Delete { index, id } => DELETE_HEAD@ + numeral(index) + ID_KEY@ + quoted(
            id,
        ) + TAIL@,
    }
}

/// What follows `lit` in `s`, when `s` begins with `lit`.
pub open spec fn after_literal(s: Seq<char>, lit: Seq<char>) -> Option<Seq<char>> {
    if lit.len() <= s.len() && s.take(lit.len() as int) == lit {
        Some(s.skip(lit.len() as int))
    } else {
        None
    }
}

/// How many decimal digits `s` begins with.
pub open spec fn digit_run(s: Seq<char>) -> nat
    decreases s.len(),
{
    if s.len() > 0 && is_digit(s[0]) {
        1 + digit_run(s.skip(1))
    } else {
        0
    }
}

/// The number written by the decimal digits `s`.
pub open spec fn decimal_value(s: Seq<char>) -> nat
    decreases s.len(),
{
    if s.len() == 0 {
        0
    } else {
        decimal_value(s.drop_last()) * 10 + digit_value(s.last())
    }
}

/// The numeral that `s` begins with and what follows it. A numeral is a run
/// of decimal digits that is as long as possible and has no leading zero.
pub open spec fn read_number(s: Seq<char>) -> Option<(nat, Seq<char>)> {
    let n = digit_run(s);
    if n == 0 || (n > 1 && s[0] == '0') {
        None
    } else {
        Some((decimal_value(s.take(n as int)), s.skip(n as int)))
    }
}

/// The number written by four hexadecimal digits.
pub open spec fn hex4(a: char, b: char, c: char, d: char) -> Option<nat> {
    match (hex_value(a), hex_value(b), hex_value(c), hex_value(d)) {
        (Some(w), Some(x), Some(y), Some(z)) => Some(((w * 16 + x) * 16 + y) * 16 + z),
        _ => None,
    }
}

/// The character that the inside of a quoted string begins with, and how
/// many characters of text write it: one for a plain character, two for a
/// short escape, six for `\u` and four hexadecimal digits. Control
/// characters, a bare quote, unknown escapes and surrogates are refused.
pub open spec fn read_char(s: Seq<char>) -> Option<(char, nat)> {
    if s.len() == 0 {
        None
    } else if s[0] == '\\' {
        if s.len() < 2 {
            None
        } else if s[1] == '"' {
            Some(('"', 2))
        } else if s[1] == '\\' {
            Some(('\\', 2))
        } else if s[1] == '/' {
            Some(('/', 2))
        } else if s[1] == 'b' {
            Some(('\u{08}', 2))
        } else if s[1] == 'f' {
            Some(('\u{0c}', 2))
        } else if s[1] == 'n' {
            Some(('\n', 2))
        } else if s[1] == 'r' {
            Some(('\r', 2))
        } else if s[1] == 't' {
            Some(('\t', 2))
        } else if s[1] == 'u' && s.len() >= 6 {
            match hex4(s[2], s[3], s[4], s[5]) {
                Some(v) => if is_scalar_value(v) {
                    Some((v as char, 6))
                } else {
                    None
                },
                None => None,
            }
        } else {
            None
        }
    } else if s[0] == '"' || (s[0] as nat) < 0x20 {
        None
    } else {
        Some((s[0], 1))
    }
}

/// `front` put before the text of a reading.
pub open spec fn prepend(front: Seq<char>, reading: Option<(Seq<char>, Seq<char>)>) -> Option<
    (Seq<char>, Seq<char>),
> {
    match reading {
        Some((text, rest)) => Some((front + text, rest)),
        None => None,
    }
}

/// The text written by the inside of a quoted string up to its closing
/// quote, and what follows that quote.
pub open spec fn read_body(s: Seq<char>) -> Option<(Seq<char>, Seq<char>)>
    decreases s.len(),
{
    if s.len() > 0 && s[0] == '"' {
        Some((Seq::empty(), s.skip(1)))
    } else {
        match read_char(s) {
            Some((c, n)) => prepend(seq![c], read_body(s.skip(n as int))),
            None => None,
        }
    }
}

/// The quoted string that `s` begins with, unescaped, and what follows it.
pub open spec fn read_string(s: Seq<char>) -> Option<(Seq<char>, Seq<char>)> {
    if s.len() > 0 && s[0] == '"' {
        read_body(s.skip(1))
    } else {
        None
    }
}

/// The insert written by the fields in `s`, which follow [`INSERT_HEAD`].
pub open spec fn decode_insert(s: Seq<char>) -> Option<OperationView> {
    match read_number(s) {
        Some((index, after_index)) => match after_literal(after_index, VALUE_KEY@) {
            Some(at_value) => match read_string(at_value) {
                Some((value, after_value)) => match after_literal(after_value, ID_KEY@) {
                    Some(at_id) => match read_string(at_id) {
                        Some((id, after_id)) => if after_id == TAIL@ && value.len() == 1 && index
                            <= usize::MAX {
                            Some(OperationView::Insert { index, value: value[0], id })
                        } else {
                            None
                        },
                        None => None,
                    },
                    None => None,
                },
                None => None,
            },
            None => None,
        },
        None => None,
    }
}

/// The delete written by the fields in `s`, which follow [`DELETE_HEAD`].
pub open spec fn decode_delete(s: Seq<char>) -> Option<OperationView> {
    match read_number(s) {
        Some((index, after_index)) => match after_literal(after_index, ID_KEY@) {
            Some(at_id) => match read_string(at_id) {
                Some((id, after_id)) => if after_id == TAIL@ && index <= usize::MAX {
                    Some(OperationView::Delete { index, id })
                } else {
                    None
                },
                None => None,
            },
            None => None,
        },
        None => None,
    }
}

/// The operation that the wire text `s` writes, if it writes one: the whole
/// of `s` must be one record in the shape that [`encode_spec`] gives, with a
/// position that fits the machine's index type.
pub open spec fn decode_spec(s: Seq<char>) -> Option<OperationView> {
    match after_literal(s, INSERT_HEAD@) {
        Some(fields) => decode_insert(fields),
        None => match after_literal(s, DELETE_HEAD@) {
            Some(fields) => decode_delete(fields),
            None => None,
        },
    }
}

/// Escaping one more character at the end appends its escaped form.
pub proof fn lemma_escape_push(s: Seq<char>, c: char)
    ensures
        escape(s.push(c)) == escape(s) + escape_char(c),
    decreases s.len(),
{
    if s.len() == 0 {
        assert(s.push(c).skip(1) =~= Seq::<char>::empty());
        assert(escape(s.push(c).skip(1)) =~= Seq::<char>::empty());
        assert(escape(s.push(c)) =~= escape(s) + escape_char(c));
    } else {
        assert(s.push(c).skip(1) =~= s.skip(1).push(c));
        lemma_escape_push(s.skip(1), c);
        assert(escape(s.push(c)) =~= escape(s) + escape_char(c));
    }
}

/// Appends the decimal numeral of `n`.
fn push_numeral(out: &mut String, n: usize)
    ensures
        final(out)@ == old(out)@ + numeral(n as nat),
    decreases n,
{
    if n >= 10 {
        push_numeral(out, n / 10);
    }
    let d: u8 = (n % 10) as u8;
    out.push((48u8 + d) as char);
    assert(out@ =~= old(out)@ + numeral(n as nat));
}

/// The lowercase hexadecimal digit for `d`.
fn hex_digit(d: u8) -> (c: char)
    requires
        d < 16,
    ensures
        c == hex_char(d as nat),
{
    if d < 10 {
        (48u8 + d) as char
    } else {
        (87u8 + d) as char
    }
}

/// Appends one character in its escaped form.
fn push_escaped(out: &mut String, c: char)
    ensures
        final(out)@ == old(out)@ + escape_char(c),
{
    if c == '"' {
        out.push('\\');
        out.push('"');
    } else if c == '\\' {
        out.push('\\');
        out.push('\\');
    } else if c == '\u{08}' {
        out.push('\\');
        out.push('b');
    } else if c == '\u{0c}' {
        out.push('\\');
        out.push('f');
    } else if c == '\n' {
        out.push('\\');
        out.push('n');
    } else if c == '\r' {
        out.push('\\');
        out.push('r');
    } else if c == '\t' {
        out.push('\\');
        out.push('t');
    } else if (c as u32) < 0x20 {
        let code: u8 = c as u32 as u8;
        out.push('\\');
        out.push('u');
        out.push('0');
        out.push('0');
        out.push(hex_digit(code / 16));
        out.push(hex_digit(code % 16));
    } else {
        out.push(c);
    }
    assert(out@ =~= old(out)@ + escape_char(c));
}

/// Appends `s` as a quoted string.
fn push_quoted(out: &mut String, s: &str)
    ensures
        final(out)@ == old(out)@ + quoted(s@),
{
    let chars = chars_of(s);
    out.push('"');
    let mut i: usize = 0;
    assert(chars@.take(0) =~= Seq::<char>::empty());
    assert(out@ =~= old(out)@ + seq!['"'] + escape(chars@.take(0)));
    while i < chars.len()
        invariant
            i <= chars.len(),
            out@ == old(out)@ + seq!['"'] + escape(chars@.take(i as int)),
        decreases chars.len() - i,
    {
        push_escaped(out, chars[i]);
        proof {
            assert(chars@.take(i + 1) =~= chars@.take(i as int).push(chars@[i as int]));
            lemma_escape_push(chars@.take(i as int), chars@[i as int]);
            assert(out@ =~= old(out)@ + seq!['"'] + escape(chars@.take(i + 1)));
        }
        i += 1;
    }
    assert(chars@.take(i as int) =~= chars@);
    out.push('"');
    assert(out@ =~= old(out)@ + quoted(s@));
}

/// Appends the one character `c` as a quoted string.
fn push_quoted_char(out: &mut String, c: char)
    ensures
        final(out)@ == old(out)@ + quoted(seq![c]),
{
    out.push('"');
    push_escaped(out, c);
    out.push('"');
    proof {
        lemma_escape_push(Seq::<char>::empty(), c);
        assert(Seq::<char>::empty().push(c) =~= seq![c]);
        assert(escape(seq![c]) =~= escape_char(c));
        assert(out@ =~= old(out)@ + quoted(seq![c]));
    }
}

/// Writes an operation as wire text, from which [`deserialize`] reads the
/// same operation back.
pub fn serialize(op: &Operation) -> (text: String)
    ensures
        text@ == encode_spec(op@),
        decode_spec(text@) == Some(op@),
{
    proof {
        lemma_round_trip(op@);
    }
    let mut text = String::new();
    match op {
        Operation::Insert { index, value, id } => {
            text.append(INSERT_HEAD);
            push_numeral(&mut text, *index);
            text.append(VALUE_KEY);
            push_quoted_char(&mut text, *value);
            text.append(ID_KEY);
            push_quoted(&mut text, id.as_str());
            text.append(TAIL);
            assert(text@ =~= encode_spec(op@));
        },
        Operation::Delete { index, id } => {
            text.append(DELETE_HEAD);
            push_numeral(&mut text, *index);
            text.append(ID_KEY);
            push_quoted(&mut text, id.as_str());
            text.append(TAIL);
            assert(text@ =~= encode_spec(op@));
        },
    }
    text
}

/// The position behind `lit`, when the text from `pos` on begins with `lit`.
fn take_literal(s: &Vec<char>, pos: usize, lit: &str) -> (r: Option<usize>)
    requires
        pos <= s.len(),
    ensures
        match r {
            Some(next) => {
                &&& next == pos + lit@.len()
                &&& next <= s.len()
                &&& after_literal(s@.skip(pos as int), lit@) == Some(s@.skip(next as int))
            },
            None => after_literal(s@.skip(pos as int), lit@) is None,
        },
{
    let l = chars_of(lit);
    if l.len() > s.len() - pos {
        return None;
    }
    let mut i: usize = 0;
    while i < l.len()
        invariant
            i <= l.len(),
            pos <= s.len(),
            l.len() <= s.len() - pos,
            l@ == lit@,
            forall|j: int| 0 <= j < i ==> s@[pos + j] == l@[j],
        decreases l.len() - i,
    {
        if s[pos + i] != l[i] {
            assert(s@.skip(pos as int).take(l.len() as int)[i as int] != l@[i as int]);
            return None;
        }
        i += 1;
    }
    proof {
        assert(s@.skip(pos as int).take(l.len() as int) =~= l@);
        assert(s@.skip(pos as int).skip(l.len() as int) =~= s@.skip(pos + l.len()));
    }
    Some(pos + l.len())
}

/// The number written by a longer run of digits is not smaller.
proof fn lemma_decimal_value_grows(t: Seq<char>, k: int, m: int)
    requires
        0 <= k <= m <= t.len(),
    ensures
        decimal_value(t.take(k)) <= decimal_value(t.take(m)),
    decreases m - k,
{
    if k < m {
        lemma_decimal_value_grows(t, k, m - 1);
        assert(t.take(m).drop_last() =~= t.take(m - 1));
    }
}

/// The numeral at `pos` and the position behind it, unless there is none or
/// the number does not fit the machine's index type.
fn take_number(s: &Vec<char>, pos: usize) -> (r: Option<(usize, usize)>)
    requires
        pos <= s.len(),
    ensures
        match r {
            Some((n, next)) => pos <= next <= s.len() && read_number(s@.skip(pos as int)) == Some(
                (n as nat, s@.skip(next as int)),
            ),
            None => match read_number(s@.skip(pos as int)) {
                Some((n, _)) => n > usize::MAX,
                None => true,
            },
        },
{
    let ghost t = s@.skip(pos as int);
    let mut end: usize = pos;
    let mut value: usize = 0;
    assert(t.take(0) =~= Seq::<char>::empty());
    assert(s@.skip(end as int) =~= t);
    while end < s.len() && '0' <= s[end] && s[end] <= '9'
        invariant
            pos <= end <= s.len(),
            t == s@.skip(pos as int),
            digit_run(t) == (end - pos) + digit_run(s@.skip(end as int)),
            value == decimal_value(t.take(end - pos)),
        decreases s.len() - end,
    {
        let d = (s[end] as u32 - 48) as usize;
        proof {
            assert(s@.skip(end as int).skip(1) =~= s@.skip(end + 1));
            assert(t.take(end + 1 - pos).drop_last() =~= t.take(end - pos));
            assert(t.take(end + 1 - pos).last() == s@[end as int]);
        }
        if value > (usize::MAX - d) / 10 {
            proof {
                let run = digit_run(t);
                assert(decimal_value(t.take(end + 1 - pos)) > usize::MAX);
                lemma_digit_run_bound(t);
                lemma_decimal_value_grows(t, end + 1 - pos, run as int);
            }
            return None;
        }
        value = value * 10 + d;
        end += 1;
    }
    if end == pos {
        return None;
    }
    if end - pos > 1 && s[pos] == '0' {
        return None;
    }
    Some((value, end))
}

/// A run of digits is no longer than the text it stands in.
proof fn lemma_digit_run_bound(s: Seq<char>)
    ensures
        digit_run(s) <= s.len(),
    decreases s.len(),
{
    if s.len() > 0 && is_digit(s[0]) {
        lemma_digit_run_bound(s.skip(1));
    }
}

/// The number that the hexadecimal digit `c` stands for.
fn hex_digit_value(c: char) -> (r: Option<u32>)
    ensures
        match r {
            Some(v) => hex_value(c) == Some(v as nat) && v < 16,
            None => hex_value(c) is None,
        },
{
    if '0' <= c && c <= '9' {
        Some(c as u32 - 48)
    } else if 'a' <= c && c <= 'f' {
        Some(c as u32 - 87)
    } else if 'A' <= c && c <= 'F' {
        Some(c as u32 - 55)
    } else {
        None
    }
}

/// The character written by `\u` and the four hexadecimal digits behind it.
fn take_unicode_escape(s: &Vec<char>, i: usize) -> (r: Option<char>)
    requires
        i + 6 <= s.len(),
    ensures
        r == match hex4(s@[i + 2], s@[i + 3], s@[i + 4], s@[i + 5]) {
            Some(v) => if is_scalar_value(v) {
                Some(v as char)
            } else {
                None
            },
            None => None,
        },
{
    let w = hex_digit_value(s[i + 2]);
    let x = hex_digit_value(s[i + 3]);
    let y = hex_digit_value(s[i + 4]);
    let z = hex_digit_value(s[i + 5]);
    match (w, x, y, z) {
        (Some(w), Some(x), Some(y), Some(z)) => char::from_u32(((w * 16 + x) * 16 + y) * 16 + z),
        _ => None,
    }
}

/// The character at position `i`.
fn char_at(s: &Vec<char>, i: usize) -> (c: char)
    requires
        i < s.len(),
    ensures
        c == s@[i as int],
{
    s[i]
}

/// The character written at position `i` inside a quoted string, and the
/// position behind it.
fn take_char(s: &Vec<char>, i: usize) -> (r: Option<(char, usize)>)
    requires
        i < s.len(),
    ensures
        match r {
            Some((c, next)) => i < next <= s.len() && read_char(s@.skip(i as int)) == Some(
                (c, (next - i) as nat),
            ),
            None => read_char(s@.skip(i as int)) is None,
        },
{
    let c = char_at(s, i);
    if c == '\\' {
        if i + 1 >= s.len() {
            return None;
        }
        let e = s[i + 1];
        if e == '"' {
            Some(('"', i + 2))
        } else if e == '\\' {
            Some(('\\', i + 2))
        } else if e == '/' {
            Some(('/', i + 2))
        } else if e == 'b' {
            Some(('\u{08}', i + 2))
        } else if e == 'f' {
            Some(('\u{0c}', i + 2))
        } else if e == 'n' {
            Some(('\n', i + 2))
        } else if e == 'r' {
            Some(('\r', i + 2))
        } else if e == 't' {
            Some(('\t', i + 2))
        } else if e == 'u' && s.len() - i >= 6 {
            match take_unicode_escape(s, i) {
                Some(ch) => Some((ch, i + 6)),
                None => None,
            }
        } else {
            None
        }
    } else if c == '"' || (c as u32) < 0x20 {
        None
    } else {
        Some((c, i + 1))
    }
}

/// The quoted string at `pos`, unescaped, and the position behind it.
fn take_string(s: &Vec<char>, pos: usize) -> (r: Option<(String, usize)>)
    requires
        pos <= s.len(),
    ensures
        match r {
            Some((text, next)) => pos <= next <= s.len() && read_string(s@.skip(pos as int))
                == Some((text@, s@.skip(next as int))),
            None => read_string(s@.skip(pos as int)) is None,
        },
{
    if pos >= s.len() || s[pos] != '"' {
        return None;
    }
    let mut out = String::new();
    let mut i: usize = pos + 1;
    let ghost whole = read_body(s@.skip(pos + 1));
    proof {
        assert(s@.skip(pos as int).skip(1) =~= s@.skip(pos + 1));
        lemma_prepend_nothing(whole);
    }
    loop
        invariant
            pos < i <= s.len(),
            whole == read_string(s@.skip(pos as int)),
            whole == prepend(out@, read_body(s@.skip(i as int))),
        decreases s.len() - i,
    {
        if i >= s.len() {
            return None;
        }
        if s[i] == '"' {
            proof {
                assert(s@.skip(i as int).skip(1) =~= s@.skip(i + 1));
                assert(out@ + Seq::<char>::empty() =~= out@);
            }
            return Some((out, i + 1));
        }
        match take_char(s, i) {
            Some((c, next)) => {
                proof {
                    assert(s@.skip(i as int).skip(next - i) =~= s@.skip(next as int));
                    lemma_prepend_twice(out@, c, read_body(s@.skip(next as int)));
                }
                out.push(c);
                i = next;
            },
            None => {
                return None;
            },
        }
    }
}

/// Putting nothing in front changes no reading.
proof fn lemma_prepend_nothing(reading: Option<(Seq<char>, Seq<char>)>)
    ensures
        prepend(Seq::empty(), reading) == reading,
{
    if let Some((text, rest)) = reading {
        assert(Seq::<char>::empty() + text =~= text);
    }
}

/// Putting a character and then a text in front is putting the longer text
/// in front.
proof fn lemma_prepend_twice(front: Seq<char>, c: char, reading: Option<(Seq<char>, Seq<char>)>)
    ensures
        prepend(front, prepend(seq![c], reading)) == prepend(front.push(c), reading),
{
    if let Some((text, rest)) = reading {
        assert(front + (seq![c] + text) =~= front.push(c) + text);
    }
}

/// Whether nothing but `lit` stands from `pos` to the end.
fn ends_with_literal(s: &Vec<char>, pos: usize, lit: &str) -> (r: bool)
    requires
        pos <= s.len(),
    ensures
        r == (s@.skip(pos as int) == lit@),
{
    match take_literal(s, pos, lit) {
        Some(next) => {
            proof {
                let t = s@.skip(pos as int);
                assert(t.take(lit@.len() as int) == lit@);
                if next == s.len() {
                    assert(t.take(lit@.len() as int) =~= t);
                } else {
                    assert(t.len() != lit@.len());
                }
            }
            next == s.len()
        },
        None => {
            proof {
                let t = s@.skip(pos as int);
                if t == lit@ {
                    assert(t.take(lit@.len() as int) =~= t);
                }
            }
            false
        },
    }
}

/// Reads the fields of an insert, which begin at `pos`.
fn take_insert(s: &Vec<char>, pos: usize) -> (r: Option<Operation>)
    requires
        pos <= s.len(),
    ensures
        match r {
            Some(op) => decode_insert(s@.skip(pos as int)) == Some(op@),
            None => decode_insert(s@.skip(pos as int)) is None,
        },
{
    let (index, after_index) = match take_number(s, pos) {
        Some(found) => found,
        None => {
            return None;
        },
    };
    let at_value = match take_literal(s, after_index, VALUE_KEY) {
        Some(next) => next,
        None => {
            return None;
        },
    };
    let (value, after_value) = match take_string(s, at_value) {
        Some(found) => found,
        None => {
            return None;
        },
    };
    let at_id = match take_literal(s, after_value, ID_KEY) {
        Some(next) => next,
        None => {
            return None;
        },
    };
    let (id, after_id) = match take_string(s, at_id) {
        Some(found) => found,
        None => {
            return None;
        },
    };
    if !ends_with_literal(s, after_id, TAIL) {
        return None;
    }
    let letters = chars_of(value.as_str());
    if letters.len() != 1 {
        return None;
    }
    Some(Operation::Insert { index, value: letters[0], id })
}

/// Reads the fields of a delete, which begin at `pos`.
fn take_delete(s: &Vec<char>, pos: usize) -> (r: Option<Operation>)
    requires
        pos <= s.len(),
    ensures
        match r {
            Some(op) => decode_delete(s@.skip(pos as int)) == Some(op@),
            None => decode_delete(s@.skip(pos as int)) is None,
        },
{
    let (index, after_index) = match take_number(s, pos) {
        Some(found) => found,
        None => {
            return None;
        },
    };
    let at_id = match take_literal(s, after_index, ID_KEY) {
        Some(next) => next,
        None => {
            return None;
        },
    };
    let (id, after_id) = match take_string(s, at_id) {
        Some(found) => found,
        None => {
            return None;
        },
    };
    if !ends_with_literal(s, after_id, TAIL) {
        return None;
    }
    Some(Operation::Delete { index, id })
}

/// Reads an operation from wire text.
///
/// Succeeds exactly on the texts that write an operation, and fails with
/// `SerializationError` on every other text.
pub fn deserialize(text: &str) -> (r: Result<Operation, CollaboriError>)
    ensures
        match r {
            Ok(op) => decode_spec(text@) == Some(op@),
            Err(e) => e == CollaboriError::SerializationError && decode_spec(text@) is None,
        },
{
    let s = chars_of(text);
    assert(s@.skip(0) =~= s@);
    let found = match take_literal(&s, 0, INSERT_HEAD) {
        Some(pos) => take_insert(&s, pos),
        None => match take_literal(&s, 0, DELETE_HEAD) {
            Some(pos) => take_delete(&s, pos),
            None => None,
        },
    };
    match found {
        Some(op) => Ok(op),
        None => Err(CollaboriError::SerializationError),
    }
}

/// A text that begins with `lit` is read as `lit` and what follows.
pub proof fn lemma_after_literal(lit: Seq<char>, rest: Seq<char>)
    ensures
        after_literal(lit + rest, lit) == Some(rest),
{
    assert((lit + rest).take(lit.len() as int) =~= lit);
    assert((lit + rest).skip(lit.len() as int) =~= rest);
}

/// A numeral is made of digits, has no leading zero, and writes its number.
pub proof fn lemma_numeral(n: nat)
    ensures
        numeral(n).len() >= 1,
        forall|i: int| 0 <= i < numeral(n).len() ==> is_digit(#[trigger] numeral(n)[i]),
        numeral(n).len() > 1 ==> numeral(n)[0] != '0',
        decimal_value(numeral(n)) == n,
    decreases n,
{
    if n < 10 {
        assert(numeral(n).drop_last() =~= Seq::<char>::empty());
        assert(decimal_value(numeral(n).drop_last()) == 0);
    } else {
        lemma_numeral(n / 10);
        assert(numeral(n).drop_last() =~= numeral(n / 10));
        if numeral(n / 10).len() == 1 {
            assert(decimal_value(numeral(n / 10).drop_last()) == 0);
        }
    }
}

/// Digits followed by something that is no digit form a run of exactly
/// their own length.
pub proof fn lemma_digit_run(digits: Seq<char>, rest: Seq<char>)
    requires
        forall|i: int| 0 <= i < digits.len() ==> is_digit(#[trigger] digits[i]),
        rest.len() == 0 || !is_digit(rest[0]),
    ensures
        digit_run(digits + rest) == digits.len(),
    decreases digits.len(),
{
    if digits.len() == 0 {
        assert(digits + rest =~= rest);
    } else {
        assert((digits + rest).skip(1) =~= digits.skip(1) + rest);
        assert forall|i: int| 0 <= i < digits.skip(1).len() implies is_digit(
            #[trigger] digits.skip(1)[i],
        ) by {
            assert(digits.skip(1)[i] == digits[i + 1]);
        }
        lemma_digit_run(digits.skip(1), rest);
        assert((digits + rest)[0] == digits[0]);
    }
}

/// The numeral of `n`, followed by something that is no digit, is read back
/// as `n`.
pub proof fn lemma_read_number(n: nat, rest: Seq<char>)
    requires
        rest.len() == 0 || !is_digit(rest[0]),
    ensures
        read_number(numeral(n) + rest) == Some((n, rest)),
{
    let d = numeral(n);
    lemma_numeral(n);
    lemma_digit_run(d, rest);
    assert((d + rest).take(d.len() as int) =~= d);
    assert((d + rest).skip(d.len() as int) =~= rest);
    assert((d + rest)[0] == d[0]);
}

/// The escaped form of a character is read back as that character.
pub proof fn lemma_read_char(c: char, rest: Seq<char>)
    ensures
        read_char(escape_char(c) + rest) == Some((c, escape_char(c).len())),
        (escape_char(c) + rest)[0] != '"',
{
    let e = escape_char(c);
    let t = e + rest;
    assert(forall|i: int| 0 <= i < e.len() ==> t[i] == e[i]);
    if c != '"' && c != '\\' && c != '\u{08}' && c != '\u{0c}' && c != '\n' && c != '\r' && c
        != '\t' && (c as nat) < 0x20 {
        let hi = c as nat / 16;
        let lo = c as nat % 16;
        assert(t[0] == '\\' && t[1] == 'u' && t[2] == '0' && t[3] == '0');
        assert(t[4] == hex_char(hi) && t[5] == hex_char(lo));
        assert(hex_value('0') == Some(0nat));
        assert(hex_value(hex_char(hi)) == Some(hi));
        assert(hex_value(hex_char(lo)) == Some(lo));
        assert(hex4(t[2], t[3], t[4], t[5]) == Some(c as nat));
        assert((c as nat) as char == c);
    }
}

/// The escaped form of a text, closed by a quote, is read back as that text.
pub proof fn lemma_read_body(x: Seq<char>, rest: Seq<char>)
    ensures
        read_body(escape(x) + seq!['"'] + rest) == Some((x, rest)),
    decreases x.len(),
{
    let t = escape(x) + seq!['"'] + rest;
    if x.len() == 0 {
        assert(t =~= seq!['"'] + rest);
        assert(t.skip(1) =~= rest);
    } else {
        let e = escape_char(x[0]);
        let tail = escape(x.skip(1)) + seq!['"'] + rest;
        assert(t =~= e + tail);
        lemma_read_char(x[0], tail);
        assert(t.skip(e.len() as int) =~= tail);
        lemma_read_body(x.skip(1), rest);
        assert(seq![x[0]] + x.skip(1) =~= x);
    }
}

/// A quoted text is read back as that text.
pub proof fn lemma_read_string(x: Seq<char>, rest: Seq<char>)
    ensures
        read_string(quoted(x) + rest) == Some((x, rest)),
{
    let t = quoted(x) + rest;
    assert(t[0] == '"');
    assert(t.skip(1) =~= escape(x) + seq!['"'] + rest);
    lemma_read_body(x, rest);
}

/// Decoding gives back every operation that encoding wrote: for every
/// operation whose position fits the machine's index type, the wire text of
/// the operation is read as that operation.
pub proof fn lemma_round_trip(op: OperationView)
    requires
        op.index() <= usize::MAX,
    ensures
        decode_spec(encode_spec(op)) == Some(op),
{
    reveal_strlit("{\"Insert\":{\"index\":");
    reveal_strlit("{\"Delete\":{\"index\":");
    reveal_strlit(",\"value\":");
    reveal_strlit(",\"id\":");
    reveal_strlit("}}");
    let text = encode_spec(op);
    match op {
        OperationView::Insert { index, value, id } => {
            let tail = TAIL@;
            let id_on = quoted(id) + tail;
            let id_key_on = ID_KEY@ + id_on;
            let value_on = quoted(seq![value]) + id_key_on;
            let value_key_on = VALUE_KEY@ + value_on;
            let fields = numeral(index) + value_key_on;
            assert(text =~= INSERT_HEAD@ + fields);
            lemma_after_literal(INSERT_HEAD@, fields);
            assert(value_key_on[0] == ',');
            lemma_read_number(index, value_key_on);
            lemma_after_literal(VALUE_KEY@, value_on);
            lemma_read_string(seq![value], id_key_on);
            lemma_after_literal(ID_KEY@, id_on);
            lemma_read_string(id, tail);
            assert(decode_insert(fields) == Some(op));
        },
        OperationView::Delete { index, id } => {
            let tail = TAIL@;
            let id_on = quoted(id) + tail;
            let id_key_on = ID_KEY@ + id_on;
            let fields = numeral(index) + id_key_on;
            assert(text =~= DELETE_HEAD@ + fields);
            lemma_after_literal(DELETE_HEAD@, fields);
            assert(text.take(19)[2] == 'D');
            assert(INSERT_HEAD@[2] == 'I');
            assert(after_literal(text, INSERT_HEAD@) is None);
            assert(id_key_on[0] == ',');
            lemma_read_number(index, id_key_on);
            lemma_after_literal(ID_KEY@, id_on);
            lemma_read_string(id, tail);
            assert(decode_delete(fields) == Some(op));
        },
    }
}

/// Two operations with the same wire text are the same operation.
pub proof fn lemma_encoding_is_injective(a: OperationView, b: OperationView)
    requires
        a.index() <= usize::MAX,
        b.index() <= usize::MAX,
        encode_spec(a) == encode_spec(b),
    ensures
        a == b,
{
    lemma_round_trip(a);
    lemma_round_trip(b);
}

} // verus!
