//! The structured-text form of a record set, and its exact inverse.
//!
//! A record set serializes to one line of field-named text,
//! `{"records":[{"name":"..","password":".."},..]}`, with `"` and `\`
//! escaped as `\"` and `\\`, and control characters as `\u00` plus two
//! lowercase hex digits. [`deserialize`] accepts the image of [`serialize`]
//! and, for the sake of stores written by other JSON writers, the short
//! escapes `\b \t \n \f \r` as well; its contract states that its result
//! is exactly what the spec-level parser [`parse_top`] gives, and that the
//! serialization of any record set parses back to that set, which makes the
//! round trip a consequence of the two contracts.

use vstd::prelude::*;
use crate::error::StoreError;
use crate::records::{Record, Records};

verus! {

/// The lowercase hexadecimal digit of a value below 16.
pub open spec fn hex_digit(d: nat) -> char {
    if d == 0 {
        '0'
    } else if d == 1 {
        '1'
    } else if d == 2 {
        '2'
    } else if d == 3 {
        '3'
    } else if d == 4 {
        '4'
    } else if d == 5 {
        '5'
    } else if d == 6 {
        '6'
    } else if d == 7 {
        '7'
    } else if d == 8 {
        '8'
    } else if d == 9 {
        '9'
    } else if d == 10 {
        'a'
    } else if d == 11 {
        'b'
    } else if d == 12 {
        'c'
    } else if d == 13 {
        'd'
    } else if d == 14 {
        'e'
    } else {
        'f'
    }
}

/// The value of a lowercase hexadecimal digit.
pub open spec fn hex_val(c: char) -> nat {
    if c == '0' {
        0
    } else if c == '1' {
        1
    } else if c == '2' {
        2
    } else if c == '3' {
        3
    } else if c == '4' {
        4
    } else if c == '5' {
        5
    } else if c == '6' {
        6
    } else if c == '7' {
        7
    } else if c == '8' {
        8
    } else if c == '9' {
        9
    } else if c == 'a' {
        10
    } else if c == 'b' {
        11
    } else if c == 'c' {
        12
    } else if c == 'd' {
        13
    } else if c == 'e' {
        14
    } else {
        15
    }
}

/// Whether `c` is a lowercase hexadecimal digit.
pub open spec fn is_lhex(c: char) -> bool {
    ('0' <= c && c <= '9') || ('a' <= c && c <= 'f')
}

/// The character with code point `n`, for codes below 32.
pub open spec fn ctrl_char(n: nat) -> char {
    if n == 0 {
        '\u{00}'
    } else if n == 1 {
        '\u{01}'
    } else if n == 2 {
        '\u{02}'
    } else if n == 3 {
        '\u{03}'
    } else if n == 4 {
        '\u{04}'
    } else if n == 5 {
        '\u{05}'
    } else if n == 6 {
        '\u{06}'
    } else if n == 7 {
        '\u{07}'
    } else if n == 8 {
        '\u{08}'
    } else if n == 9 {
        '\u{09}'
    } else if n == 10 {
        '\u{0a}'
    } else if n == 11 {
        '\u{0b}'
    } else if n == 12 {
        '\u{0c}'
    } else if n == 13 {
        '\u{0d}'
    } else if n == 14 {
        '\u{0e}'
    } else if n == 15 {
        '\u{0f}'
    } else if n == 16 {
        '\u{10}'
    } else if n == 17 {
        '\u{11}'
    } else if n == 18 {
        '\u{12}'
    } else if n == 19 {
        '\u{13}'
    } else if n == 20 {
        '\u{14}'
    } else if n == 21 {
        '\u{15}'
    } else if n == 22 {
        '\u{16}'
    } else if n == 23 {
        '\u{17}'
    } else if n == 24 {
        '\u{18}'
    } else if n == 25 {
        '\u{19}'
    } else if n == 26 {
        '\u{1a}'
    } else if n == 27 {
        '\u{1b}'
    } else if n == 28 {
        '\u{1c}'
    } else if n == 29 {
        '\u{1d}'
    } else if n == 30 {
        '\u{1e}'
    } else {
        '\u{1f}'
    }
}

/// Every code below 32 is the code of its [`ctrl_char`], and the two hex
/// functions invert each other on digits.
pub proof fn lemma_codes()
    ensures
        forall|n: nat| n < 32 ==> (#[trigger] ctrl_char(n)) as u32 == n,
        forall|d: nat| d < 16 ==> is_lhex(#[trigger] hex_digit(d)) && hex_val(hex_digit(d)) == d,
{
}

/// The escaped form of one character.
pub open spec fn esc_char(c: char) -> Seq<char> {
    if c == '"' {
        seq!['\\', '"']
    } else if c == '\\' {
        seq!['\\', '\\']
    } else if (c as u32) < 32 {
        seq!['\\', 'u', '0', '0', hex_digit((c as u32) as nat / 16), hex_digit((c as u32) as nat % 16)]
    } else {
        seq![c]
    }
}

/// The escaped form of a string.
pub open spec fn esc(s: Seq<char>) -> Seq<char>
    decreases s.len(),
{
    if s.len() == 0 {
        Seq::empty()
    } else {
        esc_char(s[0]) + esc(s.drop_first())
    }
}

/// An escaped string with its closing quote.
pub open spec fn ser_str(s: Seq<char>) -> Seq<char> {
    esc(s) + seq!['"']
}

/// The opening of the whole text, through the bracket of the record list.
pub open spec fn tok_header() -> Seq<char> {
    seq!['{', '"', 'r', 'e', 'c', 'o', 'r', 'd', 's', '"', ':', '[']
}

/// The opening of one record, through the quote of the name value.
pub open spec fn tok_name() -> Seq<char> {
    seq!['{', '"', 'n', 'a', 'm', 'e', '"', ':', '"']
}

/// Between the name value and the password value.
pub open spec fn tok_pw() -> Seq<char> {
    seq![',', '"', 'p', 'a', 's', 's', 'w', 'o', 'r', 'd', '"', ':', '"']
}

/// The close of the record list and of the whole text.
pub open spec fn tok_tail() -> Seq<char> {
    seq![']', '}']
}

/// One serialized record.
pub open spec fn ser_rec(r: (Seq<char>, Seq<char>)) -> Seq<char> {
    tok_name() + ser_str(r.0) + tok_pw() + ser_str(r.1) + seq!['}']
}

/// The serialized record list from one position on: a comma before every
/// record but the first of the whole list.
pub open spec fn items_text(v: Seq<(Seq<char>, Seq<char>)>, first: bool) -> Seq<char>
    decreases v.len(),
{
    if v.len() == 0 {
        Seq::empty()
    } else {
        (if first {
            Seq::empty()
        } else {
            seq![',']
        }) + ser_rec(v[0]) + items_text(v.drop_first(), false)
    }
}

/// The serialized form of a whole record set.
pub open spec fn ser(v: Seq<(Seq<char>, Seq<char>)>) -> Seq<char> {
    tok_header() + items_text(v, true) + tok_tail()
}

/// Appending one record extends the serialized list on the right.
pub proof fn lemma_items_text_push(v: Seq<(Seq<char>, Seq<char>)>, r: (Seq<char>, Seq<char>), first: bool)
    ensures
        items_text(v.push(r), first) == items_text(v, first) + (if v.len() == 0 && first {
            Seq::<char>::empty()
        } else {
            seq![',']
        }) + ser_rec(r),
    decreases v.len(),
{
    if v.len() == 0 {
        assert(v.push(r)[0] == r);
        assert(v.push(r).drop_first() =~= Seq::<(Seq<char>, Seq<char>)>::empty());
        assert(items_text(Seq::<(Seq<char>, Seq<char>)>::empty(), false) =~= Seq::<char>::empty());
        assert(items_text(v.push(r), first) =~= items_text(v, first) + (if v.len() == 0 && first {
            Seq::<char>::empty()
        } else {
            seq![',']
        }) + ser_rec(r));
    } else {
        assert(v.push(r).drop_first() =~= v.drop_first().push(r));
        assert(v.push(r)[0] == v[0]);
        lemma_items_text_push(v.drop_first(), r, false);
        assert(items_text(v.push(r), first) =~= items_text(v, first) + seq![','] + ser_rec(r));
    }
}

} // verus!

use vstd::string::StrSliceExecFns;

verus! {

/// Relies on String's `FromIterator<char>` impl: collecting characters
/// yields the string of exactly those characters, in order. (vstd offers no
/// verified way to build a `String` character by character.)
#[verifier::external_body]
fn chars_to_string(v: &Vec<char>) -> (r: String)
    ensures
        r@ == v@,
{
    v.iter().collect()
}

/// The lowercase hexadecimal digit of a value below 16.
fn hex_digit_exec(d: u32) -> (r: char)
    requires
        d < 16,
    ensures
        r == hex_digit(d as nat),
{
    if d == 0 {
        '0'
    } else if d == 1 {
        '1'
    } else if d == 2 {
        '2'
    } else if d == 3 {
        '3'
    } else if d == 4 {
        '4'
    } else if d == 5 {
        '5'
    } else if d == 6 {
        '6'
    } else if d == 7 {
        '7'
    } else if d == 8 {
        '8'
    } else if d == 9 {
        '9'
    } else if d == 10 {
        'a'
    } else if d == 11 {
        'b'
    } else if d == 12 {
        'c'
    } else if d == 13 {
        'd'
    } else if d == 14 {
        'e'
    } else {
        'f'
    }
}

/// Appends the escaped form of one character.
fn push_esc_char(out: &mut Vec<char>, c: char)
    ensures
        final(out)@ == old(out)@ + esc_char(c),
{
    let ghost pre = out@;
    if c == '"' {
        out.push('\\');
        out.push('"');
    } else if c == '\\' {
        out.push('\\');
        out.push('\\');
    } else {
        let code: u32 = c as u32;
        if code < 32 {
            out.push('\\');
            out.push('u');
            out.push('0');
            out.push('0');
            out.push(hex_digit_exec(code / 16));
            out.push(hex_digit_exec(code % 16));
        } else {
            out.push(c);
        }
    }
    proof {
        assert(out@ =~= pre + esc_char(c));
    }
}

/// Appending one character extends the escaped text on the right.
proof fn lemma_esc_push(t: Seq<char>, c: char)
    ensures
        esc(t.push(c)) == esc(t) + esc_char(c),
    decreases t.len(),
{
    if t.len() == 0 {
        assert(t.push(c)[0] == c);
        assert(t.push(c).drop_first() =~= Seq::<char>::empty());
        assert(esc(Seq::<char>::empty()) =~= Seq::<char>::empty());
        assert(esc(t.push(c)) =~= esc(t) + esc_char(c));
    } else {
        assert(t.push(c)[0] == t[0]);
        assert(t.push(c).drop_first() =~= t.drop_first().push(c));
        lemma_esc_push(t.drop_first(), c);
        assert(esc(t.push(c)) =~= esc(t) + esc_char(c));
    }
}

/// Appends the escaped form of `s`.
fn esc_append(out: &mut Vec<char>, s: &str)
    ensures
        final(out)@ == old(out)@ + esc(s@),
{
    let ghost pre = out@;
    let n = s.unicode_len();
    let mut i: usize = 0;
    proof {
        assert(s@.take(0) =~= Seq::<char>::empty());
        assert(pre + esc(s@.take(0)) =~= pre);
    }
    while i < n
        invariant
            n == s@.len(),
            i <= n,
            out@ == pre + esc(s@.take(i as int)),
        decreases n - i,
    {
        let c = s.get_char(i);
        push_esc_char(out, c);
        proof {
            assert(s@.take(i + 1) =~= s@.take(i as int).push(s@[i as int]));
            lemma_esc_push(s@.take(i as int), s@[i as int]);
            assert(out@ =~= pre + esc(s@.take(i + 1)));
        }
        i += 1;
    }
    proof {
        assert(s@.take(n as int) =~= s@);
    }
}

/// Appends the list header.
fn push_tok_header(out: &mut Vec<char>)
    ensures
        final(out)@ == old(out)@ + tok_header(),
{
    let ghost pre = out@;
    out.push('{');
    out.push('"');
    out.push('r');
    out.push('e');
    out.push('c');
    out.push('o');
    out.push('r');
    out.push('d');
    out.push('s');
    out.push('"');
    out.push(':');
    out.push('[');
    proof {
        assert(out@ =~= pre + tok_header());
    }
}

/// Appends the record opening, through the quote of the name value.
fn push_tok_name(out: &mut Vec<char>)
    ensures
        final(out)@ == old(out)@ + tok_name(),
{
    let ghost pre = out@;
    out.push('{');
    out.push('"');
    out.push('n');
    out.push('a');
    out.push('m');
    out.push('e');
    out.push('"');
    out.push(':');
    out.push('"');
    proof {
        assert(out@ =~= pre + tok_name());
    }
}

/// Appends the text between the name value and the password value.
fn push_tok_pw(out: &mut Vec<char>)
    ensures
        final(out)@ == old(out)@ + tok_pw(),
{
    let ghost pre = out@;
    out.push(',');
    out.push('"');
    out.push('p');
    out.push('a');
    out.push('s');
    out.push('s');
    out.push('w');
    out.push('o');
    out.push('r');
    out.push('d');
    out.push('"');
    out.push(':');
    out.push('"');
    proof {
        assert(out@ =~= pre + tok_pw());
    }
}

/// Appends one serialized record.
fn rec_append(out: &mut Vec<char>, rec: &Record)
    ensures
        final(out)@ == old(out)@ + ser_rec(rec@),
{
    let ghost pre = out@;
    push_tok_name(out);
    esc_append(out, rec.name.as_str());
    out.push('"');
    push_tok_pw(out);
    esc_append(out, rec.password.as_str());
    out.push('"');
    out.push('}');
    proof {
        assert(out@ =~= pre + ser_rec(rec@));
    }
}

/// Serializes a record set to its structured-text form.
pub fn serialize(data: &Records) -> (r: String)
    ensures
        r@ == ser(data@),
{
    let mut out: Vec<char> = Vec::new();
    push_tok_header(&mut out);
    let n = data.records.len();
    let mut i: usize = 0;
    proof {
        assert(data@.take(0) =~= Seq::<(Seq<char>, Seq<char>)>::empty());
        assert(out@ =~= tok_header() + items_text(data@.take(0), true));
    }
    while i < n
        invariant
            n == data.records.len(),
            i <= n,
            out@ == tok_header() + items_text(data@.take(i as int), true),
        decreases n - i,
    {
        let ghost mid = out@;
        if i > 0 {
            out.push(',');
        }
        rec_append(&mut out, &data.records[i]);
        proof {
            assert(data@[i as int] == data.records@[i as int]@);
            assert(data@.take(i + 1) =~= data@.take(i as int).push(data@[i as int]));
            lemma_items_text_push(data@.take(i as int), data@[i as int], true);
            assert(data@.take(i as int).len() == i as int);
            assert(out@ =~= tok_header() + items_text(data@.take(i + 1), true));
        }
        i += 1;
    }
    out.push(']');
    out.push('}');
    proof {
        assert(data@.take(n as int) =~= data@);
        assert(out@ =~= ser(data@));
    }
    chars_to_string(&out)
}

} // verus!

verus! {

/// The control character behind one of the five short escapes
/// `\b \t \n \f \r` that other JSON writers use.
pub open spec fn short_char(c: char) -> char {
    if c == 'b' {
        '\u{08}'
    } else if c == 't' {
        '\u{09}'
    } else if c == 'n' {
        '\u{0a}'
    } else if c == 'f' {
        '\u{0c}'
    } else {
        '\u{0d}'
    }
}

/// The inverse of [`ser_str`]: reads an escaped string up to and including
/// its closing quote, returning the unescaped characters and the position
/// after the quote. Beside what [`ser_str`] produces it accepts the five
/// short control escapes; everything else is `None`.
pub open spec fn parse_str(s: Seq<char>, i: int) -> Option<(Seq<char>, int)>
    decreases s.len() - i,
{
    if i < 0 || i >= s.len() {
        None
    } else if s[i] == '"' {
        Some((Seq::empty(), i + 1))
    } else if s[i] == '\\' {
        if i + 1 < s.len() && (s[i + 1] == '"' || s[i + 1] == '\\') {
            match parse_str(s, i + 2) {
                None => None,
                Some((x, j)) => Some((seq![s[i + 1]] + x, j)),
            }
        } else if i + 1 < s.len() && (s[i + 1] == 'b' || s[i + 1] == 't' || s[i + 1] == 'n' || s[i
            + 1] == 'f' || s[i + 1] == 'r') {
            match parse_str(s, i + 2) {
                None => None,
                Some((x, j)) => Some((seq![short_char(s[i + 1])] + x, j)),
            }
        } else if i + 5 < s.len() && s[i + 1] == 'u' && s[i + 2] == '0' && s[i + 3] == '0'
            && is_lhex(s[i + 4]) && is_lhex(s[i + 5]) && hex_val(s[i + 4]) * 16 + hex_val(s[i + 5])
            < 32 {
            match parse_str(s, i + 6) {
                None => None,
                Some((x, j)) => Some(
                    (seq![ctrl_char(hex_val(s[i + 4]) * 16 + hex_val(s[i + 5]))] + x, j),
                ),
            }
        } else {
            None
        }
    } else if 32 <= s[i] as u32 {
        match parse_str(s, i + 1) {
            None => None,
            Some((x, j)) => Some((seq![s[i]] + x, j)),
        }
    } else {
        None
    }
}

/// The inverse of [`ser_rec`]: reads one record, returning it and the
/// position after its closing brace.
pub open spec fn parse_rec(s: Seq<char>, i: int) -> Option<((Seq<char>, Seq<char>), int)> {
    if 0 <= i && i + 9 <= s.len() && s.subrange(i, i + 9) == tok_name() {
        match parse_str(s, i + 9) {
            None => None,
            Some((n, j)) => if j + 13 <= s.len() && s.subrange(j, j + 13) == tok_pw() {
                match parse_str(s, j + 13) {
                    None => None,
                    Some((p, k)) => if k < s.len() && s[k] == '}' {
                        Some(((n, p), k + 1))
                    } else {
                        None
                    },
                }
            } else {
                None
            },
        }
    } else {
        None
    }
}

/// The inverse of [`items_text`] followed by [`tok_tail`]: reads the record
/// list and requires it to close the text exactly.
pub open spec fn parse_items(s: Seq<char>, i: int, first: bool) -> Option<
    Seq<(Seq<char>, Seq<char>)>,
>
    decreases s.len() - i,
{
    if i < 0 || i >= s.len() {
        None
    } else if s[i] == ']' {
        if i + 2 == s.len() && s[i + 1] == '}' {
            Some(Seq::empty())
        } else {
            None
        }
    } else {
        let i2: int = if first {
            i
        } else if s[i] == ',' {
            i + 1
        } else {
            -1
        };
        if i2 < 0 {
            None
        } else {
            match parse_rec(s, i2) {
                None => None,
                Some((r, j)) => if i < j && j <= s.len() {
                    match parse_items(s, j, false) {
                        None => None,
                        Some(v) => Some(seq![r] + v),
                    }
                } else {
                    None
                },
            }
        }
    }
}

/// The inverse of [`ser`]: the record set whose serialization is exactly `s`.
pub open spec fn parse_top(s: Seq<char>) -> Option<Seq<(Seq<char>, Seq<char>)>> {
    if s.len() >= 12 && s.subrange(0, 12) == tok_header() {
        parse_items(s, 12, true)
    } else {
        None
    }
}

/// Two characters with one code point are one character.
proof fn lemma_char_inj(c1: char, c2: char)
    requires
        c1 as u32 == c2 as u32,
    ensures
        c1 == c2,
{
}

/// A prefix equality against a concatenation splits into its two halves.
proof fn lemma_prefix_split(s: Seq<char>, i: int, a: Seq<char>, b: Seq<char>)
    requires
        0 <= i,
        i + a.len() + b.len() <= s.len(),
        s.subrange(i, i + a.len() + b.len()) == a + b,
    ensures
        s.subrange(i, i + a.len()) == a,
        s.subrange(i + a.len(), i + a.len() + b.len()) == b,
{
    let whole = s.subrange(i, i + a.len() + b.len());
    assert forall|k: int| 0 <= k < a.len() implies s.subrange(i, i + a.len())[k] == a[k] by {
        assert(whole[k] == (a + b)[k]);
        assert(s[i + k] == whole[k]);
    }
    assert(s.subrange(i, i + a.len()) =~= a);
    assert forall|k: int| 0 <= k < b.len() implies s.subrange(
        i + a.len(),
        i + a.len() + b.len(),
    )[k] == b[k] by {
        assert(whole[a.len() + k] == (a + b)[a.len() + k]);
        assert(s[i + a.len() + k] == whole[a.len() + k]);
    }
    assert(s.subrange(i + a.len(), i + a.len() + b.len()) =~= b);
}

/// A successful string parse moves the position forward, within bounds.
proof fn lemma_parse_str_bounds(s: Seq<char>, i: int)
    ensures
        parse_str(s, i) matches Some((x, j)) ==> 0 <= i && i < j <= s.len(),
    decreases s.len() - i,
{
    if parse_str(s, i) is Some {
        if s[i] == '"' {
        } else if s[i] == '\\' {
            if i + 1 < s.len() && (s[i + 1] == '"' || s[i + 1] == '\\') {
                lemma_parse_str_bounds(s, i + 2);
            } else if i + 1 < s.len() && (s[i + 1] == 'b' || s[i + 1] == 't' || s[i + 1] == 'n'
                || s[i + 1] == 'f' || s[i + 1] == 'r') {
                lemma_parse_str_bounds(s, i + 2);
            } else {
                lemma_parse_str_bounds(s, i + 6);
            }
        } else {
            lemma_parse_str_bounds(s, i + 1);
        }
    }
}

/// `parse_str` accepts every serialized string, whatever follows it.
proof fn lemma_parse_str_complete(s: Seq<char>, i: int, x: Seq<char>)
    requires
        0 <= i,
        i + ser_str(x).len() <= s.len(),
        s.subrange(i, i + ser_str(x).len()) == ser_str(x),
    ensures
        parse_str(s, i) == Some((x, i + ser_str(x).len())),
    decreases x.len(),
{
    lemma_codes();
    if x.len() == 0 {
        assert(ser_str(x) =~= seq!['"']);
        assert(s.subrange(i, i + ser_str(x).len())[0] == s[i]);
        assert(s[i] == '"');
    } else {
        let c = x[0];
        let x1 = x.drop_first();
        assert(esc(x) == esc_char(c) + esc(x1));
        assert(ser_str(x) =~= esc_char(c) + ser_str(x1));
        lemma_prefix_split(s, i, esc_char(c), ser_str(x1));
        let e = esc_char(c).len();
        assert forall|k: int| 0 <= k < e implies s[i + k] == esc_char(c)[k] by {
            assert(s.subrange(i, i + e)[k] == s[i + k]);
        }
        lemma_parse_str_complete(s, i + e, x1);
        if c == '"' {
            assert(s[i + 0] == esc_char(c)[0] && s[i + 1] == esc_char(c)[1]);
            assert(s[i] == '\\' && s[i + 1] == '"');
            assert(seq![s[i + 1]] + x1 =~= x);
        } else if c == '\\' {
            assert(s[i + 0] == esc_char(c)[0] && s[i + 1] == esc_char(c)[1]);
            assert(s[i] == '\\' && s[i + 1] == '\\');
            assert(seq![s[i + 1]] + x1 =~= x);
        } else if (c as u32) < 32 {
            let code = (c as u32) as nat;
            assert(s[i + 0] == esc_char(c)[0] && s[i + 1] == esc_char(c)[1] && s[i + 2]
                == esc_char(c)[2] && s[i + 3] == esc_char(c)[3] && s[i + 4] == esc_char(c)[4] && s[i
                + 5] == esc_char(c)[5]);
            assert(s[i] == '\\' && s[i + 1] == 'u' && s[i + 2] == '0' && s[i + 3] == '0');
            assert(s[i + 4] == hex_digit(code / 16) && s[i + 5] == hex_digit(code % 16));
            assert(code / 16 < 16 && code % 16 < 16);
            assert(is_lhex(s[i + 4]) && is_lhex(s[i + 5]));
            assert(hex_val(s[i + 4]) == code / 16 && hex_val(s[i + 5]) == code % 16);
            assert(hex_val(s[i + 4]) * 16 + hex_val(s[i + 5]) == code);
            assert(ctrl_char(code) as u32 == code);
            lemma_char_inj(ctrl_char(code), c);
            assert(ctrl_char(code) == c);
            assert(s[i + 1] != '"' && s[i + 1] != '\\');
            assert(seq![ctrl_char(hex_val(s[i + 4]) * 16 + hex_val(s[i + 5]))] + x1 =~= x);
        } else {
            assert(s[i + 0] == esc_char(c)[0]);
            assert(s[i] == c);
            assert(s[i] != '"' && s[i] != '\\' && 32 <= s[i] as u32);
            assert(seq![s[i]] + x1 =~= x);
        }
    }
}

} // verus!

verus! {

/// `parse_rec` accepts every serialized record, whatever follows it.
proof fn lemma_parse_rec_complete(s: Seq<char>, i: int, r: (Seq<char>, Seq<char>))
    requires
        0 <= i,
        i + ser_rec(r).len() <= s.len(),
        s.subrange(i, i + ser_rec(r).len()) == ser_rec(r),
    ensures
        parse_rec(s, i) == Some((r, i + ser_rec(r).len())),
{
    let b1 = ser_str(r.0) + tok_pw() + ser_str(r.1) + seq!['}'];
    assert(ser_rec(r) =~= tok_name() + b1);
    lemma_prefix_split(s, i, tok_name(), b1);
    let b2 = tok_pw() + ser_str(r.1) + seq!['}'];
    assert(b1 =~= ser_str(r.0) + b2);
    lemma_prefix_split(s, i + 9, ser_str(r.0), b2);
    lemma_parse_str_complete(s, i + 9, r.0);
    let j1 = i + 9 + ser_str(r.0).len();
    let b3 = ser_str(r.1) + seq!['}'];
    assert(b2 =~= tok_pw() + b3);
    lemma_prefix_split(s, j1, tok_pw(), b3);
    lemma_prefix_split(s, j1 + 13, ser_str(r.1), seq!['}']);
    lemma_parse_str_complete(s, j1 + 13, r.1);
    let j2 = j1 + 13 + ser_str(r.1).len();
    assert(s.subrange(j2, j2 + 1)[0] == s[j2]);
    assert(s[j2] == '}');
    assert((r.0, r.1) == r);
    assert(parse_rec(s, i) == Some((r, i + ser_rec(r).len())));
}

/// `parse_items` accepts every serialized record list that closes the text.
proof fn lemma_parse_items_complete(
    s: Seq<char>,
    i: int,
    first: bool,
    v: Seq<(Seq<char>, Seq<char>)>,
)
    requires
        0 <= i <= s.len(),
        s.subrange(i, s.len() as int) == items_text(v, first) + tok_tail(),
    ensures
        parse_items(s, i, first) == Some(v),
    decreases v.len(),
{
    if v.len() == 0 {
        assert(items_text(v, first) + tok_tail() =~= tok_tail());
        assert(s.subrange(i, s.len() as int).len() == s.len() - i);
        assert(s.len() - i == 2);
        assert(s.subrange(i, s.len() as int)[0] == tok_tail()[0]);
        assert(s.subrange(i, s.len() as int)[1] == tok_tail()[1]);
        assert(s[i] == ']' && s[i + 1] == '}');
        assert(v =~= Seq::<(Seq<char>, Seq<char>)>::empty());
        assert(parse_items(s, i, first) == Some(v));
    } else {
        let r = v[0];
        let v1 = v.drop_first();
        let i2: int = if first {
            i
        } else {
            i + 1
        };
        let rest = items_text(v1, false) + tok_tail();
        assert(items_text(v, first) == (if first {
            Seq::<char>::empty()
        } else {
            seq![',']
        }) + ser_rec(r) + items_text(v1, false));
        if first {
            assert(items_text(v, first) + tok_tail() =~= ser_rec(r) + rest);
        } else {
            assert(items_text(v, first) + tok_tail() =~= seq![','] + (ser_rec(r) + rest));
            lemma_prefix_split(s, i, seq![','], ser_rec(r) + rest);
            assert(s.subrange(i, i + 1)[0] == s[i]);
            assert(s[i] == ',');
        }
        assert(s.subrange(i2, s.len() as int) == ser_rec(r) + rest);
        lemma_prefix_split(s, i2, ser_rec(r), rest);
        lemma_parse_rec_complete(s, i2, r);
        let j = i2 + ser_rec(r).len();
        assert(ser_rec(r).len() >= 25) by {
            assert(ser_str(r.0).len() >= 1 && ser_str(r.1).len() >= 1);
        }
        assert(s.subrange(i2, i2 + ser_rec(r).len())[0] == s[i2]);
        assert(ser_rec(r)[0] == '{');
        assert(s[i2] == '{');
        assert(s[i] != ']');
        lemma_parse_items_complete(s, j, false, v1);
        assert(seq![r] + v1 =~= v);
        assert(parse_items(s, i, first) == Some(v));
    }
}

/// `parse_top` accepts every serialized record set.
#[verifier::rlimit(50)]
pub proof fn lemma_parse_top_complete(s: Seq<char>, v: Seq<(Seq<char>, Seq<char>)>)
    requires
        s == ser(v),
    ensures
        parse_top(s) == Some(v),
{
    assert(s.subrange(0, s.len() as int) =~= s);
    assert(ser(v) =~= tok_header() + (items_text(v, true) + tok_tail()));
    lemma_prefix_split(s, 0, tok_header(), items_text(v, true) + tok_tail());
    lemma_parse_items_complete(s, 12, true, v);
}

} // verus!

verus! {

/// Whether `c` is a lowercase hexadecimal digit.
fn is_lhex_exec(c: char) -> (r: bool)
    ensures
        r == is_lhex(c),
{
    ('0' <= c && c <= '9') || ('a' <= c && c <= 'f')
}

/// The value of a lowercase hexadecimal digit.
fn hex_val_exec(c: char) -> (r: u32)
    ensures
        r == hex_val(c),
        r < 16,
{
    if c == '0' {
        0
    } else if c == '1' {
        1
    } else if c == '2' {
        2
    } else if c == '3' {
        3
    } else if c == '4' {
        4
    } else if c == '5' {
        5
    } else if c == '6' {
        6
    } else if c == '7' {
        7
    } else if c == '8' {
        8
    } else if c == '9' {
        9
    } else if c == 'a' {
        10
    } else if c == 'b' {
        11
    } else if c == 'c' {
        12
    } else if c == 'd' {
        13
    } else if c == 'e' {
        14
    } else {
        15
    }
}

/// The character with code point `n`, for codes below 32.
fn ctrl_char_exec(n: u32) -> (r: char)
    requires
        n < 32,
    ensures
        r == ctrl_char(n as nat),
{
    if n == 0 {
        '\u{00}'
    } else if n == 1 {
        '\u{01}'
    } else if n == 2 {
        '\u{02}'
    } else if n == 3 {
        '\u{03}'
    } else if n == 4 {
        '\u{04}'
    } else if n == 5 {
        '\u{05}'
    } else if n == 6 {
        '\u{06}'
    } else if n == 7 {
        '\u{07}'
    } else if n == 8 {
        '\u{08}'
    } else if n == 9 {
        '\u{09}'
    } else if n == 10 {
        '\u{0a}'
    } else if n == 11 {
        '\u{0b}'
    } else if n == 12 {
        '\u{0c}'
    } else if n == 13 {
        '\u{0d}'
    } else if n == 14 {
        '\u{0e}'
    } else if n == 15 {
        '\u{0f}'
    } else if n == 16 {
        '\u{10}'
    } else if n == 17 {
        '\u{11}'
    } else if n == 18 {
        '\u{12}'
    } else if n == 19 {
        '\u{13}'
    } else if n == 20 {
        '\u{14}'
    } else if n == 21 {
        '\u{15}'
    } else if n == 22 {
        '\u{16}'
    } else if n == 23 {
        '\u{17}'
    } else if n == 24 {
        '\u{18}'
    } else if n == 25 {
        '\u{19}'
    } else if n == 26 {
        '\u{1a}'
    } else if n == 27 {
        '\u{1b}'
    } else if n == 28 {
        '\u{1c}'
    } else if n == 29 {
        '\u{1d}'
    } else if n == 30 {
        '\u{1e}'
    } else {
        '\u{1f}'
    }
}

/// The control character behind one of the five short escapes.
fn short_char_exec(c: char) -> (r: char)
    ensures
        r == short_char(c),
{
    if c == 'b' {
        '\u{08}'
    } else if c == 't' {
        '\u{09}'
    } else if c == 'n' {
        '\u{0a}'
    } else if c == 'f' {
        '\u{0c}'
    } else {
        '\u{0d}'
    }
}

/// Runs [`parse_str`] on the characters, consuming one escape unit per
/// iteration.
fn parse_str_exec(s: &Vec<char>, i: usize) -> (r: Option<(Vec<char>, usize)>)
    ensures
        r is Some <==> parse_str(s@, i as int) is Some,
        r matches Some((x, j)) ==> (parse_str(s@, i as int) == Some((x@, j as int)) && i < j
            && j <= s@.len()),
{
    proof {
        lemma_parse_str_bounds(s@, i as int);
    }
    let n = s.len();
    if i >= n {
        return None;
    }
    let mut cur = i;
    let mut acc: Vec<char> = Vec::new();
    proof {
        if parse_str(s@, i as int) is Some {
            let (x, j) = parse_str(s@, i as int)->Some_0;
            assert(acc@ + x =~= x);
        }
    }
    loop
        invariant
            i <= cur <= n,
            n == s@.len(),
            parse_str(s@, i as int) == (match parse_str(s@, cur as int) {
                None => None::<(Seq<char>, int)>,
                Some((x, j)) => Some((acc@ + x, j)),
            }),
        decreases n - cur,
    {
        if cur >= n {
            return None;
        }
        let c = s[cur];
        if c == '"' {
            proof {
                assert(acc@ + Seq::<char>::empty() =~= acc@);
            }
            return Some((acc, cur + 1));
        }
        let ghost accv = acc@;
        if c == '\\' {
            if n - cur >= 2 && (s[cur + 1] == '"' || s[cur + 1] == '\\') {
                acc.push(s[cur + 1]);
                proof {
                    if parse_str(s@, cur + 2) is Some {
                        let (x, j) = parse_str(s@, cur + 2)->Some_0;
                        assert(accv + (seq![s@[cur + 1]] + x) =~= acc@ + x);
                    }
                }
                cur = cur + 2;
            } else if n - cur >= 2 && (s[cur + 1] == 'b' || s[cur + 1] == 't' || s[cur + 1] == 'n'
                || s[cur + 1] == 'f' || s[cur + 1] == 'r') {
                acc.push(short_char_exec(s[cur + 1]));
                proof {
                    if parse_str(s@, cur + 2) is Some {
                        let (x, j) = parse_str(s@, cur + 2)->Some_0;
                        assert(accv + (seq![short_char(s@[cur + 1])] + x) =~= acc@ + x);
                    }
                }
                cur = cur + 2;
            } else if n - cur >= 6 && s[cur + 1] == 'u' && s[cur + 2] == '0' && s[cur + 3] == '0'
                && is_lhex_exec(s[cur + 4]) && is_lhex_exec(s[cur + 5]) && hex_val_exec(s[cur + 4])
                * 16 + hex_val_exec(s[cur + 5]) < 32 {
                let code = hex_val_exec(s[cur + 4]) * 16 + hex_val_exec(s[cur + 5]);
                acc.push(ctrl_char_exec(code));
                proof {
                    if parse_str(s@, cur + 6) is Some {
                        let (x, j) = parse_str(s@, cur + 6)->Some_0;
                        assert(accv + (seq![ctrl_char(
                            hex_val(s@[cur + 4]) * 16 + hex_val(s@[cur + 5]),
                        )] + x) =~= acc@ + x);
                    }
                }
                cur = cur + 6;
            } else {
                return None;
            }
        } else if c as u32 >= 32 {
            acc.push(c);
            proof {
                if parse_str(s@, cur + 1) is Some {
                    let (x, j) = parse_str(s@, cur + 1)->Some_0;
                    assert(accv + (seq![s@[cur as int]] + x) =~= acc@ + x);
                }
            }
            cur = cur + 1;
        } else {
            return None;
        }
    }
}

/// Whether [`tok_name`] stands at position `i`.
fn has_tok_name(s: &Vec<char>, i: usize) -> (r: bool)
    requires
        i <= s@.len(),
    ensures
        r == (i + 9 <= s@.len() && s@.subrange(i as int, i as int + 9) == tok_name()),
{
    if s.len() - i < 9 {
        return false;
    }
    let ok = s[i] == '{' && s[i + 1] == '"' && s[i + 2] == 'n' && s[i + 3] == 'a' && s[i + 4]
        == 'm' && s[i + 5] == 'e' && s[i + 6] == '"' && s[i + 7] == ':' && s[i + 8] == '"';
    proof {
        let sub = s@.subrange(i as int, i as int + 9);
        if ok {
            assert(sub =~= tok_name());
        } else if sub == tok_name() {
            assert(s@[i + 0] == sub[0] && s@[i + 1] == sub[1] && s@[i + 2] == sub[2] && s@[i + 3]
                == sub[3] && s@[i + 4] == sub[4] && s@[i + 5] == sub[5] && s@[i + 6] == sub[6] && s@[i
                + 7] == sub[7] && s@[i + 8] == sub[8]);
        }
    }
    ok
}

/// Whether [`tok_pw`] stands at position `i`.
fn has_tok_pw(s: &Vec<char>, i: usize) -> (r: bool)
    requires
        i <= s@.len(),
    ensures
        r == (i + 13 <= s@.len() && s@.subrange(i as int, i as int + 13) == tok_pw()),
{
    if s.len() - i < 13 {
        return false;
    }
    let ok = s[i] == ',' && s[i + 1] == '"' && s[i + 2] == 'p' && s[i + 3] == 'a' && s[i + 4]
        == 's' && s[i + 5] == 's' && s[i + 6] == 'w' && s[i + 7] == 'o' && s[i + 8] == 'r' && s[i
        + 9] == 'd' && s[i + 10] == '"' && s[i + 11] == ':' && s[i + 12] == '"';
    proof {
        let sub = s@.subrange(i as int, i as int + 13);
        if ok {
            assert(sub =~= tok_pw());
        } else if sub == tok_pw() {
            assert(s@[i + 0] == sub[0] && s@[i + 1] == sub[1] && s@[i + 2] == sub[2] && s@[i + 3]
                == sub[3] && s@[i + 4] == sub[4] && s@[i + 5] == sub[5] && s@[i + 6] == sub[6] && s@[i
                + 7] == sub[7] && s@[i + 8] == sub[8] && s@[i + 9] == sub[9] && s@[i + 10] == sub[10]
                && s@[i + 11] == sub[11] && s@[i + 12] == sub[12]);
        }
    }
    ok
}

/// Whether [`tok_header`] opens the text.
fn has_tok_header(s: &Vec<char>) -> (r: bool)
    ensures
        r == (12 <= s@.len() && s@.subrange(0, 12) == tok_header()),
{
    if s.len() < 12 {
        return false;
    }
    let ok = s[0] == '{' && s[1] == '"' && s[2] == 'r' && s[3] == 'e' && s[4] == 'c' && s[5] == 'o'
        && s[6] == 'r' && s[7] == 'd' && s[8] == 's' && s[9] == '"' && s[10] == ':' && s[11] == '[';
    proof {
        let sub = s@.subrange(0, 12);
        if ok {
            assert(sub =~= tok_header());
        } else if sub == tok_header() {
            assert(s@[0] == sub[0] && s@[1] == sub[1] && s@[2] == sub[2] && s@[3] == sub[3] && s@[4]
                == sub[4] && s@[5] == sub[5] && s@[6] == sub[6] && s@[7] == sub[7] && s@[8] == sub[8]
                && s@[9] == sub[9] && s@[10] == sub[10] && s@[11] == sub[11]);
        }
    }
    ok
}

/// Runs [`parse_rec`] on the characters.
fn parse_rec_exec(s: &Vec<char>, i: usize) -> (r: Option<(Record, usize)>)
    requires
        i <= s@.len(),
    ensures
        r is Some <==> parse_rec(s@, i as int) is Some,
        r matches Some((rec, j)) ==> (parse_rec(s@, i as int) == Some((rec@, j as int)) && i < j
            && j <= s@.len()),
    decreases s@.len() - i,
{
    let n = s.len();
    if !has_tok_name(s, i) {
        return None;
    }
    match parse_str_exec(s, i + 9) {
        None => None,
        Some((nm, j1)) => {
            if !has_tok_pw(s, j1) {
                return None;
            }
            proof {
                assert(j1 + 13 <= n);
            }
            match parse_str_exec(s, j1 + 13) {
                None => None,
                Some((pw, j2)) => {
                    if j2 < s.len() && s[j2] == '}' {
                        let rec = Record {
                            name: chars_to_string(&nm),
                            password: chars_to_string(&pw),
                        };
                        Some((rec, j2 + 1))
                    } else {
                        None
                    }
                },
            }
        },
    }
}

/// Runs [`parse_items`] on the characters, consuming one record per
/// iteration.
fn parse_items_exec(s: &Vec<char>, i: usize, first: bool) -> (r: Option<Vec<Record>>)
    requires
        i <= s@.len(),
    ensures
        r is Some <==> parse_items(s@, i as int, first) is Some,
        r matches Some(v) ==> parse_items(s@, i as int, first) == Some(
            v@.map_values(|rec: Record| rec@),
        ),
{
    let n = s.len();
    let mut cur = i;
    let mut cur_first = first;
    let mut out: Vec<Record> = Vec::new();
    proof {
        if parse_items(s@, i as int, first) is Some {
            let v = parse_items(s@, i as int, first)->Some_0;
            assert(out@.map_values(|rec: Record| rec@) + v =~= v);
        }
    }
    loop
        invariant
            i <= cur <= n,
            n == s@.len(),
            parse_items(s@, i as int, first) == (match parse_items(s@, cur as int, cur_first) {
                None => None::<Seq<(Seq<char>, Seq<char>)>>,
                Some(v) => Some(out@.map_values(|rec: Record| rec@) + v),
            }),
        decreases n - cur,
    {
        if cur >= n {
            return None;
        }
        if s[cur] == ']' {
            if n - cur == 2 && s[cur + 1] == '}' {
                proof {
                    assert(out@.map_values(|rec: Record| rec@) + Seq::<(Seq<char>, Seq<char>)>::empty()
                        =~= out@.map_values(|rec: Record| rec@));
                }
                return Some(out);
            } else {
                return None;
            }
        }
        if !cur_first && s[cur] != ',' {
            return None;
        }
        let i2 = if cur_first {
            cur
        } else {
            cur + 1
        };
        match parse_rec_exec(s, i2) {
            None => {
                return None;
            },
            Some((rec, j)) => {
                if cur < j && j <= n {
                    let ghost outv = out@.map_values(|rec2: Record| rec2@);
                    let ghost recv = rec@;
                    out.push(rec);
                    proof {
                        assert(out@.map_values(|rec2: Record| rec2@) =~= outv.push(recv));
                        if parse_items(s@, j as int, false) is Some {
                            let v = parse_items(s@, j as int, false)->Some_0;
                            assert(outv + (seq![recv] + v) =~= outv.push(recv) + v);
                        }
                    }
                    cur = j;
                    cur_first = false;
                } else {
                    return None;
                }
            },
        }
    }
}

/// Serialization is injective: record sets with the same serialized text
/// are the same set, so a store file determines its contents.
pub proof fn lemma_ser_injective(v1: Seq<(Seq<char>, Seq<char>)>, v2: Seq<(Seq<char>, Seq<char>)>)
    requires
        ser(v1) == ser(v2),
    ensures
        v1 == v2,
{
    lemma_parse_top_complete(ser(v1), v1);
    lemma_parse_top_complete(ser(v2), v2);
}

/// Deserializes structured text back into a record set: exactly what the
/// spec-level parser [`parse_top`] accepts, which is the image of
/// [`serialize`] plus the five short control escapes. Every serialization
/// parses back to its own record set — the round trip — and every string
/// the parser rejects gives `MalformedStoreError`.
pub fn deserialize(s: &str) -> (r: Result<Records, StoreError>)
    ensures
        r matches Ok(out) ==> parse_top(s@) == Some(out@),
        forall|v: Seq<(Seq<char>, Seq<char>)>| s@ == ser(v) ==> (r matches Ok(out) && out@ == v),
        r matches Err(e) ==> (e == StoreError::MalformedStoreError && parse_top(s@) is None),
{
    let mut cs: Vec<char> = Vec::new();
    let n = s.unicode_len();
    let mut i: usize = 0;
    proof {
        assert(cs@ =~= s@.take(0));
    }
    while i < n
        invariant
            n == s@.len(),
            i <= n,
            cs@ == s@.take(i as int),
        decreases n - i,
    {
        cs.push(s.get_char(i));
        proof {
            assert(cs@ =~= s@.take(i + 1));
        }
        i += 1;
    }
    proof {
        assert(s@.take(n as int) =~= s@);
    }
    let res = if has_tok_header(&cs) {
        parse_items_exec(&cs, 12, true)
    } else {
        None
    };
    match res {
        Some(records) => {
            let out = Records { records };
            proof {
                assert(parse_top(s@) == Some(out@));
                assert forall|v: Seq<(Seq<char>, Seq<char>)>| s@ == ser(v) implies out@ == v by {
                    lemma_parse_top_complete(s@, v);
                }
            }
            Ok(out)
        },
        None => {
            proof {
                assert(parse_top(s@) is None);
                assert forall|v: Seq<(Seq<char>, Seq<char>)>| s@ != ser(v) by {
                    if s@ == ser(v) {
                        lemma_parse_top_complete(s@, v);
                    }
                }
            }
            Err(StoreError::MalformedStoreError)
        },
    }
}

} // verus!
