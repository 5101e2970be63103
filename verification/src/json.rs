//! An in-memory model of a JSON document, its mathematical view, and the
//! exact single-line (whitespace-free) text form the encoders produce.

use vstd::prelude::*;

verus! {

broadcast use vstd::std_specs::vec::group_vec_axioms;

/// A JSON document.
///
/// A number without a fractional part or an exponent that fits in `i64` is
/// held as `Int`; every other number literal is held textually as `Num`, so
/// that fractional values round-trip without loss and without floating-point
/// arithmetic. Object member order is preserved.
pub enum Json {
    Null,
    Bool(bool),
    Int(i64),
    Num(String),
    Str(String),
    Arr(Vec<Json>),
    Obj(Vec<(String, Json)>),
}

/// The mathematical shape of a [`Json`] document: the same tree over
/// sequences of characters.
pub enum JsonV {
    Null,
    Bool(bool),
    Int(int),
    Num(Seq<char>),
    Str(Seq<char>),
    Arr(Seq<JsonV>),
    Obj(Seq<(Seq<char>, JsonV)>),
}

pub open spec fn view_json_seq(s: Seq<Json>) -> Seq<JsonV>
    decreases s,
{
    if s.len() == 0 {
        Seq::empty()
    } else {
        seq![s[0]@] + view_json_seq(s.subrange(1, s.len() as int))
    }
}

pub open spec fn view_json_fields(s: Seq<(String, Json)>) -> Seq<(Seq<char>, JsonV)>
    decreases s,
{
    if s.len() == 0 {
        Seq::empty()
    } else {
        seq![(s[0].0@, s[0].1@)] + view_json_fields(s.subrange(1, s.len() as int))
    }
}

impl View for Json {
    type V = JsonV;

    open spec fn view(&self) -> JsonV
        decreases self,
    {
        match self {
            Json::Null => JsonV::Null,
            Json::Bool(b) => JsonV::Bool(*b),
            Json::Int(i) => JsonV::Int(*i as int),
            Json::Num(s) => JsonV::Num(s@),
            Json::Str(s) => JsonV::Str(s@),
            Json::Arr(items) => JsonV::Arr(view_json_seq(items@)),
            Json::Obj(fields) => JsonV::Obj(view_json_fields(fields@)),
        }
    }
}

pub broadcast proof fn lemma_view_json_seq_index(s: Seq<Json>, i: int)
    requires
        0 <= i < s.len(),
    ensures
        #[trigger] view_json_seq(s)[i] == s[i]@,
        view_json_seq(s).len() == s.len(),
    decreases i,
{
    lemma_view_json_seq_len(s);
    assert(view_json_seq(s) == seq![s[0]@] + view_json_seq(s.subrange(1, s.len() as int)));
    if i > 0 {
        lemma_view_json_seq_index(s.subrange(1, s.len() as int), i - 1);
    }
}

pub broadcast proof fn lemma_view_json_seq_len(s: Seq<Json>)
    ensures
        #[trigger] view_json_seq(s).len() == s.len(),
    decreases s,
{
    if s.len() > 0 {
        lemma_view_json_seq_len(s.subrange(1, s.len() as int));
        assert(view_json_seq(s) == seq![s[0]@] + view_json_seq(s.subrange(1, s.len() as int)));
    } else {
        assert(view_json_seq(s) == Seq::<JsonV>::empty());
    }
}

pub broadcast proof fn lemma_view_json_fields_index(s: Seq<(String, Json)>, i: int)
    requires
        0 <= i < s.len(),
    ensures
        #[trigger] view_json_fields(s)[i] == (s[i].0@, s[i].1@),
        view_json_fields(s).len() == s.len(),
    decreases i,
{
    lemma_view_json_fields_len(s);
    assert(view_json_fields(s) == seq![(s[0].0@, s[0].1@)] + view_json_fields(
        s.subrange(1, s.len() as int),
    ));
    if i > 0 {
        lemma_view_json_fields_index(s.subrange(1, s.len() as int), i - 1);
    }
}

pub broadcast proof fn lemma_view_json_fields_len(s: Seq<(String, Json)>)
    ensures
        #[trigger] view_json_fields(s).len() == s.len(),
    decreases s,
{
    if s.len() > 0 {
        lemma_view_json_fields_len(s.subrange(1, s.len() as int));
        assert(view_json_fields(s) == seq![(s[0].0@, s[0].1@)] + view_json_fields(
            s.subrange(1, s.len() as int),
        ));
    } else {
        assert(view_json_fields(s) == Seq::<(Seq<char>, JsonV)>::empty());
    }
}

/// A decimal digit.
pub open spec fn is_digit(c: char) -> bool {
    '0' <= c && c <= '9'
}

/// The character for a single decimal digit value.
pub open spec fn digit_char(d: int) -> char {
    (('0' as int) + d) as char
}

/// The character for a single hexadecimal digit value, lower case.
pub open spec fn hex_char(d: int) -> char {
    if d < 10 {
        (('0' as int) + d) as char
    } else {
        (('a' as int) + (d - 10)) as char
    }
}

/// The decimal digits of a non-negative integer, most significant first.
pub open spec fn dec_str(n: int) -> Seq<char>
    decreases n,
{
    if n < 10 {
        seq![digit_char(n)]
    } else {
        dec_str(n / 10) + seq![digit_char(n % 10)]
    }
}

/// The decimal text of an integer: a minus sign for negative values, then
/// the digits with no leading zero.
pub open spec fn print_int(i: int) -> Seq<char> {
    if i < 0 {
        seq!['-'] + dec_str(-i)
    } else {
        dec_str(i)
    }
}

/// How one character appears inside a JSON string literal: quote, backslash
/// and the named control characters take a two-character escape, the other
/// control characters take a `\u00XX` escape, everything else stands as is.
pub open spec fn esc_char(c: char) -> Seq<char> {
    if c == '"' {
        seq!['\\', '"']
    } else if c == '\\' {
        seq!['\\', '\\']
    } else if c == '\n' {
        seq!['\\', 'n']
    } else if c == '\r' {
        seq!['\\', 'r']
    } else if c == '\t' {
        seq!['\\', 't']
    } else if c == '\u{0008}' {
        seq!['\\', 'b']
    } else if c == '\u{000C}' {
        seq!['\\', 'f']
    } else if (c as int) < 0x20 {
        seq!['\\', 'u', '0', '0', hex_char((c as int) / 16), hex_char((c as int) % 16)]
    } else {
        seq![c]
    }
}

/// The escaped body of a JSON string literal, from position `i` on.
pub open spec fn esc_str_from(s: Seq<char>, i: int) -> Seq<char>
    decreases s.len() - i,
{
    if 0 <= i && i < s.len() {
        esc_char(s[i]) + esc_str_from(s, i + 1)
    } else {
        Seq::empty()
    }
}

/// The exact text of a JSON value: no whitespace, object member order kept,
/// unset optional members simply not there.
pub open spec fn print_jv(v: JsonV) -> Seq<char>
    decreases v, 0int,
{
    match v {
        JsonV::Null => seq!['n', 'u', 'l', 'l'],
        JsonV::Bool(b) => if b {
            seq!['t', 'r', 'u', 'e']
        } else {
            seq!['f', 'a', 'l', 's', 'e']
        },
        JsonV::Int(i) => print_int(i),
        JsonV::Num(s) => s,
        JsonV::Str(s) => seq!['"'] + esc_str_from(s, 0) + seq!['"'],
        JsonV::Arr(items) => seq!['['] + print_items_from(items, 0) + seq![']'],
        JsonV::Obj(fields) => seq!['{'] + print_fields_from(fields, 0) + seq!['}'],
    }
}

/// The comma-separated texts of the array elements from index `i` on.
pub open spec fn print_items_from(items: Seq<JsonV>, i: int) -> Seq<char>
    decreases items, items.len() - i,
{
    if 0 <= i && i < items.len() {
        if i + 1 == items.len() {
            print_jv(items[i])
        } else {
            print_jv(items[i]) + seq![','] + print_items_from(items, i + 1)
        }
    } else {
        Seq::empty()
    }
}

/// Relies on `String: FromIterator<char>`: the collected string holds
/// exactly the characters of the vector, in order.
#[verifier::external_body]
fn chars_to_string(v: &Vec<char>) -> (r: String)
    ensures
        r@ == v@,
{
    v.iter().collect()
}

/// The comma-separated `"key":value` texts of the object members from
/// index `i` on.
pub open spec fn print_fields_from(fields: Seq<(Seq<char>, JsonV)>, i: int) -> Seq<char>
    decreases fields, fields.len() - i,
{
    if 0 <= i && i < fields.len() {
        let one = seq!['"'] + esc_str_from(fields[i].0, 0) + seq!['"', ':'] + print_jv(fields[i].1);
        if i + 1 == fields.len() {
            one
        } else {
            one + seq![','] + print_fields_from(fields, i + 1)
        }
    } else {
        Seq::empty()
    }
}

fn push_digit(d: u8, out: &mut Vec<char>)
    requires
        d < 10,
    ensures
        final(out)@ == old(out)@ + seq![digit_char(d as int)],
{
    let c: char = (48u8 + d) as char;
    assert(c == digit_char(d as int));
    out.push(c);
    assert(out@ =~= old(out)@ + seq![digit_char(d as int)]);
}

fn push_hex_digit(d: u8, out: &mut Vec<char>)
    requires
        d < 16,
    ensures
        final(out)@ == old(out)@ + seq![hex_char(d as int)],
{
    let c: char = if d < 10 {
        (48u8 + d) as char
    } else {
        (97u8 + (d - 10)) as char
    };
    assert(c == hex_char(d as int));
    out.push(c);
    assert(out@ =~= old(out)@ + seq![hex_char(d as int)]);
}

fn write_dec(n: u64, out: &mut Vec<char>)
    ensures
        final(out)@ == old(out)@ + dec_str(n as int),
    decreases n,
{
    if n < 10 {
        push_digit(n as u8, out);
    } else {
        write_dec(n / 10, out);
        push_digit((n % 10) as u8, out);
        assert(out@ =~= old(out)@ + dec_str(n as int));
    }
}

fn write_int(i: i64, out: &mut Vec<char>)
    ensures
        final(out)@ == old(out)@ + print_int(i as int),
{
    if i >= 0 {
        write_dec(i as u64, out);
    } else {
        out.push('-');
        let m: u64 = (-(i as i128)) as u64;
        assert(m as int == -(i as int));
        write_dec(m, out);
        assert(out@ =~= old(out)@ + print_int(i as int));
    }
}

fn write_esc_char(c: char, out: &mut Vec<char>)
    ensures
        final(out)@ == old(out)@ + esc_char(c),
{
    if c == '"' {
        out.push('\\');
        out.push('"');
    } else if c == '\\' {
        out.push('\\');
        out.push('\\');
    } else if c == '\n' {
        out.push('\\');
        out.push('n');
    } else if c == '\r' {
        out.push('\\');
        out.push('r');
    } else if c == '\t' {
        out.push('\\');
        out.push('t');
    } else if c == '\u{0008}' {
        out.push('\\');
        out.push('b');
    } else if c == '\u{000C}' {
        out.push('\\');
        out.push('f');
    } else if (c as u32) < 0x20 {
        out.push('\\');
        out.push('u');
        out.push('0');
        out.push('0');
        let n: u32 = c as u32;
        push_hex_digit((n / 16) as u8, out);
        push_hex_digit((n % 16) as u8, out);
    } else {
        out.push(c);
    }
    assert(out@ =~= old(out)@ + esc_char(c));
}

fn write_quoted(s: &str, out: &mut Vec<char>)
    ensures
        final(out)@ == old(out)@ + seq!['"'] + esc_str_from(s@, 0) + seq!['"'],
{
    out.push('"');
    let n: usize = s.unicode_len();
    let mut i: usize = 0;
    while i < n
        invariant
            n == s@.len(),
            i <= n,
            out@ + esc_str_from(s@, i as int) == old(out)@ + seq!['"'] + esc_str_from(s@, 0),
        decreases n - i,
    {
        let c = s.get_char(i);
        write_esc_char(c, out);
        assert(out@ + esc_str_from(s@, i + 1) =~= old(out)@ + seq!['"'] + esc_str_from(s@, 0));
        i = i + 1;
    }
    assert(out@ =~= old(out)@ + seq!['"'] + esc_str_from(s@, 0));
    out.push('"');
    assert(out@ =~= old(out)@ + seq!['"'] + esc_str_from(s@, 0) + seq!['"']);
}

fn write_raw(s: &str, out: &mut Vec<char>)
    ensures
        final(out)@ == old(out)@ + s@,
{
    let n: usize = s.unicode_len();
    let mut i: usize = 0;
    assert(out@ =~= old(out)@ + s@.take(0));
    while i < n
        invariant
            n == s@.len(),
            i <= n,
            out@ == old(out)@ + s@.take(i as int),
        decreases n - i,
    {
        let c = s.get_char(i);
        out.push(c);
        assert(out@ =~= old(out)@ + s@.take(i + 1));
        i = i + 1;
    }
    assert(out@ =~= old(out)@ + s@);
}

fn write_json(j: &Json, out: &mut Vec<char>)
    ensures
        final(out)@ == old(out)@ + print_jv(j@),
    decreases j, 0int,
{
    broadcast use lemma_view_json_seq_len, lemma_view_json_fields_len;

    match j {
        Json::Null => {
            out.push('n');
            out.push('u');
            out.push('l');
            out.push('l');
            assert(out@ =~= old(out)@ + print_jv(j@));
        },
        Json::Bool(b) => {
            if *b {
                out.push('t');
                out.push('r');
                out.push('u');
                out.push('e');
            } else {
                out.push('f');
                out.push('a');
                out.push('l');
                out.push('s');
                out.push('e');
            }
            assert(out@ =~= old(out)@ + print_jv(j@));
        },
        Json::Int(i) => {
            write_int(*i, out);
        },
        Json::Num(s) => {
            write_raw(s.as_str(), out);
        },
        Json::Str(s) => {
            write_quoted(s.as_str(), out);
            assert(out@ =~= old(out)@ + print_jv(j@));
        },
        Json::Arr(items) => {
            out.push('[');
            write_items(items, 0, out);
            out.push(']');
            assert(out@ =~= old(out)@ + print_jv(j@));
        },
        Json::Obj(fields) => {
            out.push('{');
            write_fields(fields, 0, out);
            out.push('}');
            assert(out@ =~= old(out)@ + print_jv(j@));
        },
    }
}

fn write_items(items: &Vec<Json>, i: usize, out: &mut Vec<char>)
    ensures
        final(out)@ == old(out)@ + print_items_from(view_json_seq(items@), i as int),
    decreases items, items.len() - i,
{
    broadcast use lemma_view_json_seq_len;

    if i < items.len() {
        proof {
            lemma_view_json_seq_index(items@, i as int);
        }
        write_json(&items[i], out);
        if i + 1 < items.len() {
            out.push(',');
            write_items(items, i + 1, out);
            assert(out@ =~= old(out)@ + print_items_from(view_json_seq(items@), i as int));
        } else {
            assert(out@ =~= old(out)@ + print_items_from(view_json_seq(items@), i as int));
        }
    } else {
        assert(out@ =~= old(out)@ + print_items_from(view_json_seq(items@), i as int));
    }
}

fn write_fields(fields: &Vec<(String, Json)>, i: usize, out: &mut Vec<char>)
    ensures
        final(out)@ == old(out)@ + print_fields_from(view_json_fields(fields@), i as int),
    decreases fields, fields.len() - i,
{
    broadcast use lemma_view_json_fields_len;

    if i < fields.len() {
        proof {
            lemma_view_json_fields_index(fields@, i as int);
        }
        let pair = &fields[i];
        write_quoted(pair.0.as_str(), out);
        out.push(':');
        write_json(&pair.1, out);
        if i + 1 < fields.len() {
            out.push(',');
            write_fields(fields, i + 1, out);
            assert(out@ =~= old(out)@ + print_fields_from(view_json_fields(fields@), i as int));
        } else {
            assert(out@ =~= old(out)@ + print_fields_from(view_json_fields(fields@), i as int));
        }
    } else {
        assert(out@ =~= old(out)@ + print_fields_from(view_json_fields(fields@), i as int));
    }
}

/// The single-line text of a JSON document, exactly [`print_jv`] of its view.
pub fn encode_json(j: &Json) -> (r: String)
    ensures
        r@ == print_jv(j@),
{
    let mut out: Vec<char> = Vec::new();
    write_json(j, &mut out);
    chars_to_string(&out)
}

/// JSON whitespace.
pub open spec fn is_ws(c: char) -> bool {
    c == ' ' || c == '\t' || c == '\n' || c == '\r'
}

/// A hexadecimal digit.
pub open spec fn is_hex(c: char) -> bool {
    is_digit(c) || ('a' <= c && c <= 'f') || ('A' <= c && c <= 'F')
}

/// The value of a hexadecimal digit.
pub open spec fn hex_val(c: char) -> int {
    if is_digit(c) {
        c as int - '0' as int
    } else if 'a' <= c && c <= 'f' {
        c as int - 'a' as int + 10
    } else {
        c as int - 'A' as int + 10
    }
}

/// The value of four hexadecimal digits at `i`, if they are there.
pub open spec fn sp_hex4(s: Seq<char>, i: int) -> Option<int> {
    if 0 <= i && i + 4 <= s.len() && is_hex(s[i]) && is_hex(s[i + 1]) && is_hex(s[i + 2]) && is_hex(
        s[i + 3],
    ) {
        Some(hex_val(s[i]) * 0x1000 + hex_val(s[i + 1]) * 0x100 + hex_val(s[i + 2]) * 0x10
            + hex_val(s[i + 3]))
    } else {
        None
    }
}

/// One escape sequence, `i` standing on the character after the backslash:
/// the character it denotes and the index after the sequence. A `\uXXXX`
/// escape naming a high surrogate must be followed by a low-surrogate escape;
/// the pair denotes one character. A lone surrogate is refused.
pub open spec fn sp_esc(s: Seq<char>, i: int) -> Option<(char, int)> {
    if !(0 <= i && i < s.len()) {
        None
    } else if s[i] == '"' {
        Some(('"', i + 1))
    } else if s[i] == '\\' {
        Some(('\\', i + 1))
    } else if s[i] == '/' {
        Some(('/', i + 1))
    } else if s[i] == 'b' {
        Some(('\u{0008}', i + 1))
    } else if s[i] == 'f' {
        Some(('\u{000C}', i + 1))
    } else if s[i] == 'n' {
        Some(('\n', i + 1))
    } else if s[i] == 'r' {
        Some(('\r', i + 1))
    } else if s[i] == 't' {
        Some(('\t', i + 1))
    } else if s[i] == 'u' {
        match sp_hex4(s, i + 1) {
            None => None,
            Some(h) => if 0xD800 <= h && h < 0xDC00 {
                if s.len() >= 11 && i <= s.len() - 11 && s[i + 5] == '\\' && s[i + 6] == 'u' {
                    match sp_hex4(s, i + 7) {
                        None => None,
                        Some(lo) => if 0xDC00 <= lo && lo < 0xE000 {
                            Some(
                                (
                                    (0x10000 + (h - 0xD800) * 0x400 + (lo - 0xDC00)) as char,
                                    i + 11,
                                ),
                            )
                        } else {
                            None
                        },
                    }
                } else {
                    None
                }
            } else if 0xDC00 <= h && h < 0xE000 {
                None
            } else {
                Some((h as char, i + 5))
            },
        }
    } else {
        None
    }
}

/// The body of a string literal, `i` standing after the opening quote:
/// the decoded characters and the index after the closing quote. Raw control
/// characters are refused.
pub open spec fn sp_str_body(s: Seq<char>, i: int) -> Option<(Seq<char>, int)>
    decreases s.len() - i, 0int,
{
    if !(0 <= i && i < s.len()) {
        None
    } else if s[i] == '"' {
        Some((Seq::empty(), i + 1))
    } else if s[i] == '\\' {
        match sp_esc(s, i + 1) {
            None => None,
            Some((c, j)) => if j <= i {
                None
            } else {
                match sp_str_body(s, j) {
                    None => None,
                    Some((rest, e)) => Some((seq![c] + rest, e)),
                }
            },
        }
    } else if (s[i] as int) < 0x20 {
        None
    } else {
        match sp_str_body(s, i + 1) {
            None => None,
            Some((rest, e)) => Some((seq![s[i]] + rest, e)),
        }
    }
}

/// The index after the run of decimal digits starting at `i`.
pub open spec fn scan_digits(s: Seq<char>, i: int) -> int
    decreases s.len() - i,
{
    if 0 <= i && i < s.len() && is_digit(s[i]) {
        scan_digits(s, i + 1)
    } else {
        i
    }
}

/// The index after the integer part of a number starting at `i` (after any
/// minus sign): a single `0`, or a nonzero digit followed by more digits.
pub open spec fn scan_int_part(s: Seq<char>, i: int) -> Option<int> {
    if !(0 <= i && i < s.len()) || !is_digit(s[i]) {
        None
    } else if s[i] == '0' {
        Some(i + 1)
    } else {
        Some(scan_digits(s, i))
    }
}

/// The index after an optional fractional part at `i`.
pub open spec fn scan_frac(s: Seq<char>, i: int) -> Option<int> {
    if 0 <= i && i < s.len() && s[i] == '.' {
        let d = scan_digits(s, i + 1);
        if d == i + 1 {
            None
        } else {
            Some(d)
        }
    } else {
        Some(i)
    }
}

/// The index after an optional exponent part at `i`.
pub open spec fn scan_exp(s: Seq<char>, i: int) -> Option<int> {
    if 0 <= i && i < s.len() && (s[i] == 'e' || s[i] == 'E') {
        let j = if i + 1 < s.len() && (s[i + 1] == '+' || s[i + 1] == '-') {
            i + 2
        } else {
            i + 1
        };
        let d = scan_digits(s, j);
        if d == j {
            None
        } else {
            Some(d)
        }
    } else {
        Some(i)
    }
}

/// The value of the decimal digit run `s[i..e)`.
pub open spec fn digits_val(s: Seq<char>, i: int, e: int) -> int
    decreases e - i,
{
    if i < e {
        digits_val(s, i, e - 1) * 10 + (s[e - 1] as int - '0' as int)
    } else {
        0
    }
}

/// A number starting at `i`: a literal without fractional part or exponent
/// whose value fits in `i64` becomes `Int`, every other literal is kept as
/// its own text in `Num`.
pub open spec fn sp_num(s: Seq<char>, i: int) -> Option<(JsonV, int)> {
    let ds = if 0 <= i && i < s.len() && s[i] == '-' {
        i + 1
    } else {
        i
    };
    match scan_int_part(s, ds) {
        None => None,
        Some(k) => match scan_frac(s, k) {
            None => None,
            Some(m) => match scan_exp(s, m) {
                None => None,
                Some(e) => if k == e {
                    let mag = digits_val(s, ds, k);
                    let v = if ds > i {
                        -mag
                    } else {
                        mag
                    };
                    if -0x8000_0000_0000_0000 <= v && v <= 0x7fff_ffff_ffff_ffff {
                        Some((JsonV::Int(v), e))
                    } else {
                        Some((JsonV::Num(s.subrange(i, e)), e))
                    }
                } else {
                    Some((JsonV::Num(s.subrange(i, e)), e))
                },
            },
        },
    }
}

/// A JSON value starting at `i`, leading whitespace allowed: the value and
/// the index after its last character.
pub open spec fn sp_value(s: Seq<char>, i: int) -> Option<(JsonV, int)>
    decreases s.len() - i, 0int,
{
    if !(0 <= i && i < s.len()) {
        None
    } else if is_ws(s[i]) {
        sp_value(s, i + 1)
    } else if s[i] == 'n' {
        if i + 4 <= s.len() && s[i + 1] == 'u' && s[i + 2] == 'l' && s[i + 3] == 'l' {
            Some((JsonV::Null, i + 4))
        } else {
            None
        }
    } else if s[i] == 't' {
        if i + 4 <= s.len() && s[i + 1] == 'r' && s[i + 2] == 'u' && s[i + 3] == 'e' {
            Some((JsonV::Bool(true), i + 4))
        } else {
            None
        }
    } else if s[i] == 'f' {
        if i + 5 <= s.len() && s[i + 1] == 'a' && s[i + 2] == 'l' && s[i + 3] == 's' && s[i + 4]
            == 'e' {
            Some((JsonV::Bool(false), i + 5))
        } else {
            None
        }
    } else if s[i] == '"' {
        match sp_str_body(s, i + 1) {
            None => None,
            Some((cs, j)) => Some((JsonV::Str(cs), j)),
        }
    } else if s[i] == '-' || is_digit(s[i]) {
        sp_num(s, i)
    } else if s[i] == '[' {
        sp_arr_body(s, i + 1)
    } else if s[i] == '{' {
        sp_obj_body(s, i + 1)
    } else {
        None
    }
}

/// The rest of an array, `i` standing after the `[`.
pub open spec fn sp_arr_body(s: Seq<char>, i: int) -> Option<(JsonV, int)>
    decreases s.len() - i, 2int,
{
    if !(0 <= i && i < s.len()) {
        None
    } else if is_ws(s[i]) {
        sp_arr_body(s, i + 1)
    } else if s[i] == ']' {
        Some((JsonV::Arr(Seq::empty()), i + 1))
    } else {
        match sp_elems(s, i) {
            None => None,
            Some((items, j)) => Some((JsonV::Arr(items), j)),
        }
    }
}

/// One or more comma-separated array elements and the closing `]`.
pub open spec fn sp_elems(s: Seq<char>, i: int) -> Option<(Seq<JsonV>, int)>
    decreases s.len() - i, 1int,
{
    match sp_value(s, i) {
        None => None,
        Some((v, j)) => if !(i < j && j <= s.len()) {
            None
        } else {
            match sp_elems_rest(s, j) {
                None => None,
                Some((rest, e)) => Some((seq![v] + rest, e)),
            }
        },
    }
}

/// After one array element: whitespace, then `,` and more elements, or `]`.
pub open spec fn sp_elems_rest(s: Seq<char>, i: int) -> Option<(Seq<JsonV>, int)>
    decreases s.len() - i, 1int,
{
    if !(0 <= i && i < s.len()) {
        None
    } else if is_ws(s[i]) {
        sp_elems_rest(s, i + 1)
    } else if s[i] == ']' {
        Some((Seq::empty(), i + 1))
    } else if s[i] == ',' {
        sp_elems(s, i + 1)
    } else {
        None
    }
}

/// The rest of an object, `i` standing after the `{`.
pub open spec fn sp_obj_body(s: Seq<char>, i: int) -> Option<(JsonV, int)>
    decreases s.len() - i, 2int,
{
    if !(0 <= i && i < s.len()) {
        None
    } else if is_ws(s[i]) {
        sp_obj_body(s, i + 1)
    } else if s[i] == '}' {
        Some((JsonV::Obj(Seq::empty()), i + 1))
    } else {
        match sp_members(s, i) {
            None => None,
            Some((fields, j)) => Some((JsonV::Obj(fields), j)),
        }
    }
}

/// One or more `"key":value` object members and the closing `}`.
pub open spec fn sp_members(s: Seq<char>, i: int) -> Option<(Seq<(Seq<char>, JsonV)>, int)>
    decreases s.len() - i, 1int,
{
    if !(0 <= i && i < s.len()) {
        None
    } else if is_ws(s[i]) {
        sp_members(s, i + 1)
    } else if s[i] == '"' {
        match sp_str_body(s, i + 1) {
            None => None,
            Some((key, j)) => if !(i < j && j <= s.len()) {
                None
            } else {
                match sp_member_value(s, j) {
                    None => None,
                    Some((v, j2)) => if !(j < j2 && j2 <= s.len()) {
                        None
                    } else {
                        match sp_members_rest(s, j2) {
                            None => None,
                            Some((rest, e)) => Some((seq![(key, v)] + rest, e)),
                        }
                    },
                }
            },
        }
    } else {
        None
    }
}

/// After a member key: whitespace, `:`, then the member's value.
pub open spec fn sp_member_value(s: Seq<char>, i: int) -> Option<(JsonV, int)>
    decreases s.len() - i, 1int,
{
    if !(0 <= i && i < s.len()) {
        None
    } else if is_ws(s[i]) {
        sp_member_value(s, i + 1)
    } else if s[i] == ':' {
        sp_value(s, i + 1)
    } else {
        None
    }
}

/// After one object member: whitespace, then `,` and more members, or `}`.
pub open spec fn sp_members_rest(s: Seq<char>, i: int) -> Option<(Seq<(Seq<char>, JsonV)>, int)>
    decreases s.len() - i, 1int,
{
    if !(0 <= i && i < s.len()) {
        None
    } else if is_ws(s[i]) {
        sp_members_rest(s, i + 1)
    } else if s[i] == ',' {
        sp_members(s, i + 1)
    } else if s[i] == '}' {
        Some((Seq::empty(), i + 1))
    } else {
        None
    }
}

/// Only whitespace from `i` to the end.
pub open spec fn only_ws_from(s: Seq<char>, i: int) -> bool {
    forall|k: int| i <= k < s.len() ==> is_ws(#[trigger] s[k])
}

/// A whole JSON document: one value, possibly surrounded by whitespace,
/// and nothing else.
pub open spec fn sp_json(s: Seq<char>) -> Option<JsonV> {
    match sp_value(s, 0) {
        None => None,
        Some((v, j)) => if only_ws_from(s, j) {
            Some(v)
        } else {
            None
        },
    }
}

/// A character that cannot continue a number literal: after a printed value
/// the input may only end or go on with such a character for the parse to
/// stop where the print stopped.
pub open spec fn num_stop(c: char) -> bool {
    !(is_digit(c) || c == '.' || c == 'e' || c == 'E' || c == '+' || c == '-')
}

/// A number literal as the encoder may hold it in `Num`: parsed alone it
/// yields exactly `Num` of itself, consuming every character. This rules out
/// literals of integer form within `i64` range (those belong in `Int`) and
/// every malformed text.
pub open spec fn wf_num_lit(t: Seq<char>) -> bool {
    sp_num(t, 0) == Some((JsonV::Num(t), t.len() as int))
}

/// Well-formedness of every array element from `k` on.
pub open spec fn wf_items_from(items: Seq<JsonV>, k: int) -> bool
    decreases items, items.len() - k,
{
    if 0 <= k && k < items.len() {
        wf_jv(items[k]) && wf_items_from(items, k + 1)
    } else {
        true
    }
}

/// Well-formedness of every object member value from `k` on.
pub open spec fn wf_fields_from(fields: Seq<(Seq<char>, JsonV)>, k: int) -> bool
    decreases fields, fields.len() - k,
{
    if 0 <= k && k < fields.len() {
        wf_jv(fields[k].1) && wf_fields_from(fields, k + 1)
    } else {
        true
    }
}

/// A JSON value the encoder can be handed: `Int` within `i64`, `Num` a
/// sound non-integer literal, elements and members well formed in turn.
pub open spec fn wf_jv(v: JsonV) -> bool
    decreases v, 0int,
{
    match v {
        JsonV::Null => true,
        JsonV::Bool(_) => true,
        JsonV::Int(i) => -0x8000_0000_0000_0000 <= i && i <= 0x7fff_ffff_ffff_ffff,
        JsonV::Num(t) => wf_num_lit(t),
        JsonV::Str(_) => true,
        JsonV::Arr(items) => wf_items_from(items, 0),
        JsonV::Obj(fields) => wf_fields_from(fields, 0),
    }
}

proof fn lemma_scan_digits_shape(s: Seq<char>, i: int)
    requires
        0 <= i <= s.len(),
    ensures
        i <= scan_digits(s, i) <= s.len(),
        forall|k: int| i <= k < scan_digits(s, i) ==> is_digit(#[trigger] s[k]),
        scan_digits(s, i) == s.len() || !is_digit(s[scan_digits(s, i)]),
    decreases s.len() - i,
{
    if i < s.len() && is_digit(s[i]) {
        lemma_scan_digits_shape(s, i + 1);
    }
}

proof fn lemma_scan_digits_char(s: Seq<char>, i: int, j: int)
    requires
        0 <= i <= j <= s.len(),
        forall|k: int| i <= k < j ==> is_digit(#[trigger] s[k]),
        j == s.len() || !is_digit(s[j]),
    ensures
        scan_digits(s, i) == j,
    decreases j - i,
{
    if i < j {
        lemma_scan_digits_char(s, i + 1, j);
    }
}

proof fn lemma_digits_val_frame(s: Seq<char>, i: int, t: Seq<char>, a: int, n: int)
    requires
        n >= 0,
        forall|k: int| 0 <= k < n ==> #[trigger] s[i + k] == t[a + k],
    ensures
        digits_val(s, i, i + n) == digits_val(t, a, a + n),
    decreases n,
{
    if n > 0 {
        lemma_digits_val_frame(s, i, t, a, n - 1);
        assert(s[i + (n - 1)] == t[a + (n - 1)]);
    }
}

pub proof fn lemma_digits_val_nonneg(s: Seq<char>, i: int, e: int)
    requires
        forall|k: int| i <= k < e ==> is_digit(#[trigger] s[k]),
    ensures
        digits_val(s, i, e) >= 0,
    decreases e - i,
{
    if i < e {
        lemma_digits_val_nonneg(s, i, e - 1);
    }
}

pub proof fn lemma_digits_val_mono(s: Seq<char>, i: int, e1: int, e2: int)
    requires
        i <= e1 <= e2,
        forall|k: int| i <= k < e2 ==> is_digit(#[trigger] s[k]),
    ensures
        digits_val(s, i, e1) <= digits_val(s, i, e2),
    decreases e2 - e1,
{
    if e1 < e2 {
        lemma_digits_val_mono(s, i, e1, e2 - 1);
        lemma_digits_val_nonneg(s, i, e2 - 1);
    }
}

/// The decimal text of `n >= 0`: nonempty, all digits, no leading zero
/// unless it is `0` itself, and reading it back gives `n`.
proof fn lemma_dec_str_shape(n: int)
    requires
        n >= 0,
    ensures
        dec_str(n).len() >= 1,
        forall|k: int| 0 <= k < dec_str(n).len() ==> is_digit(#[trigger] dec_str(n)[k]),
        n < 10 ==> dec_str(n).len() == 1,
        n >= 10 ==> dec_str(n).len() >= 2,
        dec_str(n)[0] == '0' <==> n == 0,
        digits_val(dec_str(n), 0, dec_str(n).len() as int) == n,
    decreases n,
{
    if n < 10 {
        assert(dec_str(n) == seq![digit_char(n)]);
        assert(digits_val(dec_str(n), 0, 1) == digits_val(dec_str(n), 0, 0) * 10 + (dec_str(
            n,
        )[0] as int - '0' as int));
    } else {
        lemma_dec_str_shape(n / 10);
        let a = dec_str(n / 10);
        let w = a.len() as int;
        assert(dec_str(n) == a + seq![digit_char(n % 10)]);
        let d = dec_str(n);
        assert(forall|k: int| 0 <= k < w ==> d[k] == a[k]);
        assert(d[w] == digit_char(n % 10));
        assert(is_digit(d[w]));
        lemma_digits_val_frame(d, 0, a, 0, w);
        assert(digits_val(d, 0, w + 1) == digits_val(d, 0, w) * 10 + (d[w] as int - '0' as int));
        assert(digits_val(d, 0, w) == n / 10);
        assert(d[w] as int - '0' as int == n % 10);
    }
}

/// A character that can open a JSON value.
pub open spec fn starts_value(c: char) -> bool {
    c == 'n' || c == 't' || c == 'f' || c == '"' || c == '-' || is_digit(c) || c == '[' || c == '{'
}

/// Characters of an embedded, known subrange, stated both ways round so that
/// either side's indexing brings the fact in.
proof fn lemma_subrange_chars(s: Seq<char>, i: int, t: Seq<char>)
    requires
        0 <= i,
        i + t.len() <= s.len(),
        s.subrange(i, i + t.len() as int) == t,
    ensures
        forall|k: int| 0 <= k < t.len() ==> s[i + k] == #[trigger] t[k],
        forall|x: int| i <= x < i + t.len() ==> #[trigger] s[x] == t[x - i],
{
    assert forall|x: int| i <= x < i + t.len() implies #[trigger] s[x] == t[x - i] by {
        assert(t[x - i] == s.subrange(i, i + t.len() as int)[x - i]);
    }
    assert forall|k: int| 0 <= k < t.len() implies s[i + k] == #[trigger] t[k] by {
        assert(s[i + k] == t[i + k - i]);
    }
}

proof fn lemma_print_first(v: JsonV)
    requires
        wf_jv(v),
    ensures
        print_jv(v).len() > 0,
        starts_value(print_jv(v)[0]),
    decreases v,
{
    match v {
        JsonV::Int(i) => {
            if i < 0 {
                lemma_dec_str_shape(-i);
            } else {
                lemma_dec_str_shape(i);
            }
        },
        JsonV::Num(t) => {
            if t.len() > 0 && t[0] == '-' {
            } else {
                match scan_int_part(t, 0) {
                    Some(_) => {
                        assert(is_digit(t[0]));
                    },
                    None => {
                        assert(false);
                    },
                }
            }
        },
        _ => {},
    }
}

/// `hex_char` writes a digit that `hex_val` reads back.
proof fn lemma_hex_char_val(d: int)
    requires
        0 <= d < 16,
    ensures
        is_hex(hex_char(d)),
        hex_val(hex_char(d)) == d,
        !is_digit(hex_char(d)) ==> 'a' <= hex_char(d) <= 'f',
{
    if d < 10 {
        assert(hex_char(d) as int == '0' as int + d);
    } else {
        assert(hex_char(d) as int == 'a' as int + (d - 10));
    }
}

/// Parsing the printed text of an integer yields that integer back.
proof fn lemma_sp_num_int(s: Seq<char>, i: int, v: int)
    requires
        -0x8000_0000_0000_0000 <= v && v <= 0x7fff_ffff_ffff_ffff,
        0 <= i,
        i + print_int(v).len() <= s.len(),
        s.subrange(i, i + print_int(v).len() as int) == print_int(v),
        i + print_int(v).len() == s.len() || num_stop(s[i + print_int(v).len()]),
    ensures
        sp_num(s, i) == Some((JsonV::Int(v), i + print_int(v).len() as int)),
{
    let pr = print_int(v);
    let l = pr.len() as int;
    let mag = if v < 0 { -v } else { v };
    let d = dec_str(mag);
    lemma_dec_str_shape(mag);
    lemma_subrange_chars(s, i, pr);
    let ds = if v < 0 { i + 1 } else { i };
    if v < 0 {
        assert(s[i] == '-');
    } else {
        assert(s[i] == d[0]);
        assert(is_digit(s[i]));
        assert(s[i] != '-');
    }
    let k = ds + d.len() as int;
    assert(k == i + l);
    assert(forall|x: int| ds <= x < k ==> is_digit(#[trigger] s[x]) && s[x] == d[x - ds]);
    assert(k == s.len() || !is_digit(s[k]));
    lemma_scan_digits_char(s, ds, k);
    assert(is_digit(s[ds]));
    if mag == 0 {
        assert(s[ds] == '0');
        assert(scan_int_part(s, ds) == Some(ds + 1));
        assert(ds + 1 == k);
    } else {
        assert(s[ds] != '0');
        assert(scan_int_part(s, ds) == Some(k));
    }
    assert(scan_frac(s, k) == Some(k)) by {
        if k < s.len() {
            assert(num_stop(s[k]));
            assert(s[k] != '.');
        }
    }
    assert(scan_exp(s, k) == Some(k)) by {
        if k < s.len() {
            assert(s[k] != 'e' && s[k] != 'E');
        }
    }
    lemma_digits_val_frame(s, ds, d, 0, d.len() as int);
    assert(digits_val(s, ds, k) == mag);
    if v < 0 {
        assert(ds > i);
        assert(sp_num(s, i) == Some((JsonV::Int(v), k)));
    } else {
        assert(ds == i);
        assert(sp_num(s, i) == Some((JsonV::Int(v), k)));
    }
}

/// Parsing a sound non-integer literal out of a longer text yields `Num`
/// of exactly that literal.
/// A digit run inside an embedded text scans to the corresponding index.
proof fn lemma_scan_digits_frame(s: Seq<char>, i: int, t: Seq<char>, a: int)
    requires
        0 <= i,
        i + t.len() <= s.len(),
        s.subrange(i, i + t.len() as int) == t,
        i + t.len() == s.len() || !is_digit(s[i + t.len()]),
        0 <= a <= t.len(),
    ensures
        scan_digits(s, i + a) == i + scan_digits(t, a),
{
    lemma_subrange_chars(s, i, t);
    lemma_scan_digits_shape(t, a);
    let e = scan_digits(t, a);
    assert(forall|x: int| i + a <= x < i + e ==> is_digit(#[trigger] s[x]));
    assert(i + e == s.len() || !is_digit(s[i + e])) by {
        if e < t.len() {
            assert(s[i + e] == t[e]);
        }
    }
    lemma_scan_digits_char(s, i + a, i + e);
}

#[verifier::rlimit(100)]
#[verifier::spinoff_prover]
proof fn lemma_sp_num_frame(s: Seq<char>, i: int, t: Seq<char>)
    requires
        wf_num_lit(t),
        0 <= i,
        i + t.len() <= s.len(),
        s.subrange(i, i + t.len() as int) == t,
        i + t.len() == s.len() || num_stop(s[i + t.len()]),
    ensures
        sp_num(s, i) == Some((JsonV::Num(t), i + t.len() as int)),
{
    let n = t.len() as int;
    lemma_subrange_chars(s, i, t);
    if t.len() == 0 {
        assert(scan_int_part(t, 0) is None);
        assert(false);
    }
    let ds0: int = if t[0] == '-' {
        1int
    } else {
        0int
    };
    assert(s[i] == t[0]);
    let dss = i + ds0;
    match scan_int_part(t, ds0) {
        None => {
            assert(false);
        },
        Some(k0) => {
            assert(is_digit(t[ds0]));
            assert(ds0 < n);
            if t[ds0] == '0' {
                assert(scan_int_part(s, dss) == Some(dss + 1));
                assert(k0 == ds0 + 1);
            } else {
                lemma_scan_digits_frame(s, i, t, ds0);
                assert(scan_int_part(s, dss) == Some(i + k0));
            }
            match scan_frac(t, k0) {
                None => {
                    assert(false);
                },
                Some(m0) => {
                    assert(scan_frac(s, i + k0) == Some(i + m0)) by {
                        if 0 <= k0 && k0 < n && t[k0] == '.' {
                            lemma_scan_digits_frame(s, i, t, k0 + 1);
                            assert(s[i + k0] == '.');
                        } else {
                            assert(m0 == k0);
                            if i + k0 < s.len() {
                                if k0 < n {
                                    assert(s[i + k0] == t[k0]);
                                } else {
                                    assert(num_stop(s[i + k0]));
                                }
                            }
                        }
                    }
                    match scan_exp(t, m0) {
                        None => {
                            assert(false);
                        },
                        Some(e0) => {
                            assert(e0 == n);
                            assert(scan_exp(s, i + m0) == Some(i + e0)) by {
                                if 0 <= m0 && m0 < n && (t[m0] == 'e' || t[m0] == 'E') {
                                    let j0 = if m0 + 1 < n && (t[m0 + 1] == '+' || t[m0 + 1]
                                        == '-') {
                                        m0 + 2
                                    } else {
                                        m0 + 1
                                    };
                                    assert(s[i + m0] == t[m0]);
                                    assert(i + m0 + 1 < s.len() && (s[i + m0 + 1] == '+' || s[i
                                        + m0 + 1] == '-') <==> m0 + 1 < n && (t[m0 + 1] == '+' || t[
                                        m0 + 1] == '-')) by {
                                        if m0 + 1 < n {
                                            assert(s[i + m0 + 1] == t[m0 + 1]);
                                        } else {
                                            if i + m0 + 1 < s.len() {
                                                assert(num_stop(s[i + m0 + 1]));
                                            }
                                        }
                                    }
                                    lemma_scan_digits_frame(s, i, t, j0);
                                } else {
                                    assert(e0 == m0);
                                    if i + m0 < s.len() {
                                        if m0 < n {
                                            assert(s[i + m0] == t[m0]);
                                        } else {
                                            assert(num_stop(s[i + m0]));
                                        }
                                    }
                                }
                            }
                            if k0 == e0 {
                                lemma_digits_val_frame(s, dss, t, ds0, k0 - ds0);
                                assert(digits_val(s, dss, i + k0) == digits_val(t, ds0, k0));
                                assert(s.subrange(i, i + n) == t);
                                assert(sp_num(s, i) == Some((JsonV::Num(t), i + n)));
                            } else {
                                assert(s.subrange(i, i + n) == t);
                                assert(sp_num(s, i) == Some((JsonV::Num(t), i + n)));
                            }
                        },
                    }
                },
            }
        },
    }
}

/// Parsing the escaped, quote-terminated text of a string body yields the
/// original characters back.
#[verifier::rlimit(100)]
proof fn lemma_parse_print_strbody(s: Seq<char>, i: int, t: Seq<char>, k: int)
    requires
        0 <= k <= t.len(),
        0 <= i,
        i + esc_str_from(t, k).len() + 1 <= s.len(),
        s.subrange(i, i + esc_str_from(t, k).len() + 1) == esc_str_from(t, k) + seq!['"'],
    ensures
        sp_str_body(s, i) == Some(
            (t.subrange(k, t.len() as int), i + esc_str_from(t, k).len() + 1),
        ),
    decreases t.len() - k,
{
    let body = esc_str_from(t, k);
    let l = body.len() as int;
    lemma_subrange_chars(s, i, body + seq!['"']);
    if k == t.len() {
        assert(body =~= Seq::empty());
        assert(s[i] == '"');
        assert(t.subrange(k, t.len() as int) =~= Seq::<char>::empty());
    } else {
        let c = t[k];
        let e0 = esc_char(c);
        let rest = esc_str_from(t, k + 1);
        assert(body == e0 + rest);
        let i2 = i + e0.len() as int;
        assert(s.subrange(i2, i2 + rest.len() + 1) =~= rest + seq!['"']);
        lemma_parse_print_strbody(s, i2, t, k + 1);
        assert(seq![c] + t.subrange(k + 1, t.len() as int) =~= t.subrange(k, t.len() as int));
        if c == '"' || c == '\\' || c == '\n' || c == '\r' || c == '\t' || c == '\u{0008}' || c
            == '\u{000C}' {
            assert(s[i] == body[0] && s[i + 1] == body[1]);
            assert(sp_esc(s, i + 1) == Some((c, i + 2)));
        } else if (c as int) < 0x20 {
            assert(s[i] == body[0] && s[i + 1] == body[1] && s[i + 2] == body[2] && s[i + 3]
                == body[3] && s[i + 4] == body[4] && s[i + 5] == body[5]);
            lemma_esc_control(s, i, c);
        } else {
            assert(s[i] == body[0]);
            assert(s[i] == c);
            assert(s[i] != '"' && s[i] != '\\' && !((s[i] as int) < 0x20));
        }
    }
}

/// A `\u00XX` escape in the text reads back as the control character that
/// produced it.
proof fn lemma_esc_control(s: Seq<char>, i: int, c: char)
    requires
        (c as int) < 0x20,
        c != '\n' && c != '\r' && c != '\t' && c != '\u{0008}' && c != '\u{000C}',
        0 <= i,
        i + 6 <= s.len(),
        s[i] == '\\',
        s[i + 1] == 'u',
        s[i + 2] == '0',
        s[i + 3] == '0',
        s[i + 4] == hex_char((c as int) / 16),
        s[i + 5] == hex_char((c as int) % 16),
    ensures
        sp_esc(s, i + 1) == Some((c, i + 6)),
{
    assert(0 <= (c as int) / 16 < 16);
    assert(0 <= (c as int) % 16 < 16);
    lemma_hex_char_val((c as int) / 16);
    lemma_hex_char_val((c as int) % 16);
    assert(is_hex('0') && hex_val('0') == 0);
    assert(sp_hex4(s, i + 2) == Some(
        hex_val(s[i + 2]) * 0x1000 + hex_val(s[i + 3]) * 0x100 + hex_val(s[i + 4]) * 0x10
            + hex_val(s[i + 5]),
    ));
    assert(((c as int) / 16) * 0x10 + (c as int) % 16 == c as int);
    assert(sp_hex4(s, i + 2) == Some(c as int));
    assert(((c as int) as char) == c);
    assert(s[i + 1] != '"' && s[i + 1] != '\\' && s[i + 1] != '/' && s[i + 1] != 'b' && s[i + 1]
        != 'f' && s[i + 1] != 'n' && s[i + 1] != 'r' && s[i + 1] != 't');
}

/// Parsing the printed text of a well-formed value, embedded in a longer
/// text whose next character cannot continue a number, yields that value
/// back and stops exactly after it.
#[verifier::rlimit(100)]
proof fn lemma_parse_print_value(s: Seq<char>, i: int, v: JsonV)
    requires
        wf_jv(v),
        0 <= i,
        i + print_jv(v).len() <= s.len(),
        s.subrange(i, i + print_jv(v).len() as int) == print_jv(v),
        i + print_jv(v).len() == s.len() || num_stop(s[i + print_jv(v).len()]),
    ensures
        sp_value(s, i) == Some((v, i + print_jv(v).len() as int)),
    decreases v, 1int,
{
    let pr = print_jv(v);
    let l = pr.len() as int;
    lemma_print_first(v);
    lemma_subrange_chars(s, i, pr);
    assert(s[i] == pr[0]);
    match v {
        JsonV::Null => {
            assert(s[i + 1] == pr[1] && s[i + 2] == pr[2] && s[i + 3] == pr[3]);
            assert(!is_ws(s[i]));
            assert(s[i] == 'n');
            assert(l == 4);
            assert(i + 4 <= s.len());
            assert(s[i + 1] == 'u' && s[i + 2] == 'l' && s[i + 3] == 'l');
            assert(sp_value(s, i) == Some((JsonV::Null, i + 4)));
            assert(sp_value(s, i) == Some((v, i + l)));
        },
        JsonV::Bool(b) => {
            if b {
                assert(s[i + 1] == pr[1] && s[i + 2] == pr[2] && s[i + 3] == pr[3]);
            } else {
                assert(s[i + 1] == pr[1] && s[i + 2] == pr[2] && s[i + 3] == pr[3] && s[i + 4]
                    == pr[4]);
            }
            assert(sp_value(s, i) == Some((v, i + l)));
        },
        JsonV::Int(x) => {
            lemma_sp_num_int(s, i, x);
            assert(sp_value(s, i) == Some((v, i + l)));
        },
        JsonV::Num(t) => {
            if t[0] == '-' {
            } else {
                match scan_int_part(t, 0) {
                    Some(_) => {
                        assert(is_digit(t[0]));
                    },
                    None => {
                        assert(false);
                    },
                }
            }
            lemma_sp_num_frame(s, i, t);
            assert(sp_value(s, i) == Some((v, i + l)));
        },
        JsonV::Str(t) => {
            let le = esc_str_from(t, 0).len() as int;
            assert(s.subrange(i + 1, i + 1 + le + 1) =~= esc_str_from(t, 0) + seq!['"']);
            lemma_parse_print_strbody(s, i + 1, t, 0);
            assert(t.subrange(0, t.len() as int) =~= t);
            assert(sp_value(s, i) == Some((v, i + l)));
        },
        JsonV::Arr(items) => {
            lemma_ppv_arr(s, i, items);
        },
        JsonV::Obj(fields) => {
            lemma_ppv_obj(s, i, fields);
        },
    }
}

proof fn lemma_ppv_arr(s: Seq<char>, i: int, items: Seq<JsonV>)
    requires
        wf_jv(JsonV::Arr(items)),
        0 <= i,
        i + print_jv(JsonV::Arr(items)).len() <= s.len(),
        s.subrange(i, i + print_jv(JsonV::Arr(items)).len() as int) == print_jv(
            JsonV::Arr(items),
        ),
        i + print_jv(JsonV::Arr(items)).len() == s.len() || num_stop(
            s[i + print_jv(JsonV::Arr(items)).len()],
        ),
    ensures
        sp_value(s, i) == Some(
            (JsonV::Arr(items), i + print_jv(JsonV::Arr(items)).len() as int),
        ),
    decreases JsonV::Arr(items), 0int,
{
    let pr = print_jv(JsonV::Arr(items));
    let l = pr.len() as int;
    lemma_subrange_chars(s, i, pr);
    assert(s[i] == pr[0]);
    assert(s[i] == '[');
    let w = print_items_from(items, 0);
    let lw = w.len() as int;
    if items.len() == 0 {
        assert(w =~= Seq::<char>::empty());
        assert(s[i + 1] == pr[1]);
        assert(s[i + 1] == ']');
        assert(items =~= Seq::<JsonV>::empty());
    } else {
        assert(s.subrange(i + 1, i + 1 + lw) =~= w);
        assert(s[i + 1 + lw] == pr[1 + lw]);
        assert(s[i + 1 + lw] == ']');
        lemma_parse_print_elems(s, i + 1, items, 0);
        lemma_print_first(items[0]);
        assert(w[0] == print_jv(items[0])[0]);
        assert(s[i + 1] == w[0]);
        assert(items.subrange(0, items.len() as int) =~= items);
        assert(starts_value(s[i + 1]));
        assert(!is_ws(s[i + 1]));
        assert(s[i + 1] != ']');
        assert(sp_elems(s, i + 1) == Some((items, i + l)));
        assert(sp_arr_body(s, i + 1) == Some((JsonV::Arr(items), i + l)));
    }
}

proof fn lemma_ppv_obj(s: Seq<char>, i: int, fields: Seq<(Seq<char>, JsonV)>)
    requires
        wf_jv(JsonV::Obj(fields)),
        0 <= i,
        i + print_jv(JsonV::Obj(fields)).len() <= s.len(),
        s.subrange(i, i + print_jv(JsonV::Obj(fields)).len() as int) == print_jv(
            JsonV::Obj(fields),
        ),
        i + print_jv(JsonV::Obj(fields)).len() == s.len() || num_stop(
            s[i + print_jv(JsonV::Obj(fields)).len()],
        ),
    ensures
        sp_value(s, i) == Some(
            (JsonV::Obj(fields), i + print_jv(JsonV::Obj(fields)).len() as int),
        ),
    decreases JsonV::Obj(fields), 0int,
{
    let pr = print_jv(JsonV::Obj(fields));
    let l = pr.len() as int;
    lemma_subrange_chars(s, i, pr);
    assert(s[i] == pr[0]);
    assert(s[i] == '{');
    let w = print_fields_from(fields, 0);
    let lw = w.len() as int;
    if fields.len() == 0 {
        assert(w =~= Seq::<char>::empty());
        assert(s[i + 1] == pr[1]);
        assert(s[i + 1] == '}');
        assert(fields =~= Seq::<(Seq<char>, JsonV)>::empty());
    } else {
        assert(s.subrange(i + 1, i + 1 + lw) =~= w);
        assert(s[i + 1 + lw] == pr[1 + lw]);
        assert(s[i + 1 + lw] == '}');
        lemma_parse_print_members(s, i + 1, fields, 0);
        assert(w[0] == '"');
        assert(s[i + 1] == w[0]);
        assert(fields.subrange(0, fields.len() as int) =~= fields);
        assert(sp_members(s, i + 1) == Some((fields, i + l)));
        assert(sp_obj_body(s, i + 1) == Some((JsonV::Obj(fields), i + l)));
    }
}

/// Parsing the printed, comma-separated element texts from element `k` on,
/// with the closing bracket right after them, yields those elements.
#[verifier::rlimit(100)]
#[verifier::spinoff_prover]
proof fn lemma_parse_print_elems(s: Seq<char>, i: int, items: Seq<JsonV>, k: int)
    requires
        0 <= k < items.len(),
        wf_items_from(items, k),
        0 <= i,
        i + print_items_from(items, k).len() < s.len(),
        s.subrange(i, i + print_items_from(items, k).len() as int) == print_items_from(items, k),
        s[i + print_items_from(items, k).len()] == ']',
    ensures
        sp_elems(s, i) == Some(
            (items.subrange(k, items.len() as int), i + print_items_from(items, k).len() + 1),
        ),
    decreases items, items.len() - k,
{
    let w = print_items_from(items, k);
    let lw = w.len() as int;
    lemma_subrange_chars(s, i, w);
    let v = items[k];
    let pv = print_jv(v);
    let lv = pv.len() as int;
    lemma_print_first(v);
    if k + 1 == items.len() {
        assert(w == pv);
        lemma_parse_print_value(s, i, v);
        assert(seq![v] + Seq::<JsonV>::empty() =~= items.subrange(k, items.len() as int));
    } else {
        assert(w == pv + seq![','] + print_items_from(items, k + 1));
        assert(s.subrange(i, i + lv) =~= pv);
        assert(s[i + lv] == w[lv]);
        assert(s[i + lv] == ',');
        lemma_parse_print_value(s, i, v);
        let i2 = i + lv + 1;
        let w2 = print_items_from(items, k + 1);
        assert(s.subrange(i2, i2 + w2.len() as int) =~= w2);
        lemma_parse_print_elems(s, i2, items, k + 1);
        assert(seq![v] + items.subrange(k + 1, items.len() as int) =~= items.subrange(
            k,
            items.len() as int,
        ));
    }
}

/// The printed text of one object member: quoted escaped key, colon, value.
pub open spec fn print_member(key: Seq<char>, val: JsonV) -> Seq<char> {
    seq!['"'] + esc_str_from(key, 0) + seq!['"', ':'] + print_jv(val)
}

/// Parsing the printed text of one member: the key string, the colon, and
/// the value, ending right before the given stop character.
proof fn lemma_parse_print_member_head(s: Seq<char>, i: int, key: Seq<char>, val: JsonV)
    requires
        wf_jv(val),
        0 <= i,
        i + print_member(key, val).len() < s.len(),
        s.subrange(i, i + print_member(key, val).len() as int) == print_member(key, val),
        num_stop(s[i + print_member(key, val).len()]),
        !is_ws(s[i + print_member(key, val).len()]),
    ensures
        s[i] == '"',
        sp_str_body(s, i + 1) == Some((key, i + esc_str_from(key, 0).len() + 2)),
        sp_member_value(s, i + esc_str_from(key, 0).len() + 2) == Some(
            (val, i + print_member(key, val).len() as int),
        ),
    decreases val, 2int,
{
    let one = print_member(key, val);
    let le = esc_str_from(key, 0).len() as int;
    let lv = print_jv(val).len() as int;
    assert(one.len() == le + lv + 3);
    lemma_subrange_chars(s, i, one);
    lemma_print_first(val);
    assert(s[i] == one[0]);
    assert(s.subrange(i + 1, i + 1 + le + 1) =~= esc_str_from(key, 0) + seq!['"']);
    lemma_parse_print_strbody(s, i + 1, key, 0);
    assert(key.subrange(0, key.len() as int) =~= key);
    let j = i + le + 2;
    assert(s[j] == one[le + 2]);
    assert(s[j] == ':');
    assert(s.subrange(j + 1, j + 1 + lv) =~= print_jv(val));
    lemma_parse_print_value(s, j + 1, val);
}

/// Parsing the printed member texts from member `k` on, with the closing
/// brace right after them, yields those members.
#[verifier::rlimit(100)]
#[verifier::spinoff_prover]
proof fn lemma_parse_print_members(s: Seq<char>, i: int, fields: Seq<(Seq<char>, JsonV)>, k: int)
    requires
        0 <= k < fields.len(),
        wf_fields_from(fields, k),
        0 <= i,
        i + print_fields_from(fields, k).len() < s.len(),
        s.subrange(i, i + print_fields_from(fields, k).len() as int) == print_fields_from(
            fields,
            k,
        ),
        s[i + print_fields_from(fields, k).len()] == '}',
    ensures
        sp_members(s, i) == Some(
            (fields.subrange(k, fields.len() as int), i + print_fields_from(fields, k).len() + 1),
        ),
    decreases fields, fields.len() - k,
{
    let w = print_fields_from(fields, k);
    let lw = w.len() as int;
    lemma_subrange_chars(s, i, w);
    let key = fields[k].0;
    let val = fields[k].1;
    let one = print_member(key, val);
    let le = esc_str_from(key, 0).len() as int;
    let lv = print_jv(val).len() as int;
    let lo = one.len() as int;
    let j = i + le + 2;
    let j2 = i + lo;
    assert((key, val) == fields[k]);
    if k + 1 == fields.len() {
        assert(w == one);
        assert(s.subrange(i, i + lo) =~= one);
        lemma_parse_print_member_head(s, i, key, val);
        assert(s[j2] == '}');
        assert(sp_members_rest(s, j2) == Some((Seq::<(Seq<char>, JsonV)>::empty(), j2 + 1)));
        assert(seq![(key, val)] + Seq::<(Seq<char>, JsonV)>::empty() =~= fields.subrange(
            k,
            fields.len() as int,
        ));
        assert(sp_members(s, i) == Some((fields.subrange(k, fields.len() as int), i + lw + 1)));
    } else {
        assert(w == one + seq![','] + print_fields_from(fields, k + 1));
        assert(s.subrange(i, i + lo) =~= one);
        assert(s[j2] == w[lo]);
        assert(s[j2] == ',');
        lemma_parse_print_member_head(s, i, key, val);
        let w2 = print_fields_from(fields, k + 1);
        assert(s.subrange(j2 + 1, j2 + 1 + w2.len() as int) =~= w2);
        assert(j2 + 1 + w2.len() == i + lw);
        lemma_parse_print_members(s, j2 + 1, fields, k + 1);
        assert(sp_members_rest(s, j2) == Some(
            (fields.subrange(k + 1, fields.len() as int), i + lw + 1),
        ));
        assert(seq![(key, val)] + fields.subrange(k + 1, fields.len() as int) =~= fields.subrange(
            k,
            fields.len() as int,
        ));
        assert(sp_members(s, i) == Some((fields.subrange(k, fields.len() as int), i + lw + 1)));
    }
}

/// Round trip at the text level: the printed text of any well-formed JSON
/// value parses back to exactly that value.
pub proof fn lemma_sp_json_print(v: JsonV)
    requires
        wf_jv(v),
    ensures
        sp_json(print_jv(v)) == Some(v),
{
    let s = print_jv(v);
    lemma_print_first(v);
    assert(s.subrange(0, s.len() as int) =~= s);
    lemma_parse_print_value(s, 0, v);
}

/// Relies on `char::from_u32`: `Some` of the same code point exactly on
/// unicode scalar values, `None` on surrogates and values past the maximum.
#[verifier::external_body]
fn char_from_code(n: u32) -> (r: Option<char>)
    ensures
        (n < 0xD800 || (0xE000 <= n && n <= 0x10FFFF)) ==> r == Some(n as char),
        !(n < 0xD800 || (0xE000 <= n && n <= 0x10FFFF)) ==> r is None,
{
    char::from_u32(n)
}

/// The characters of a slice of the input, as a string.
fn copy_range(s: &Vec<char>, a: usize, b: usize) -> (r: String)
    requires
        a <= b <= s@.len(),
    ensures
        r@ == s@.subrange(a as int, b as int),
{
    let mut out: Vec<char> = Vec::new();
    let mut x = a;
    while x < b
        invariant
            a <= x <= b <= s@.len(),
            out@ == s@.subrange(a as int, x as int),
        decreases b - x,
    {
        out.push(s[x]);
        assert(out@ =~= s@.subrange(a as int, x + 1));
        x = x + 1;
    }
    chars_to_string(&out)
}

fn hex_digit_val(c: char) -> (r: Option<u32>)
    ensures
        r is Some <==> is_hex(c),
        r is Some ==> r->0 == hex_val(c) && r->0 < 16,
{
    if c >= '0' && c <= '9' {
        Some(c as u32 - '0' as u32)
    } else if c >= 'a' && c <= 'f' {
        Some(c as u32 - 'a' as u32 + 10)
    } else if c >= 'A' && c <= 'F' {
        Some(c as u32 - 'A' as u32 + 10)
    } else {
        None
    }
}

fn p_hex4(s: &Vec<char>, i: usize) -> (r: Option<u32>)
    ensures
        match r {
            Some(h) => sp_hex4(s@, i as int) == Some(h as int) && h < 0x10000,
            None => sp_hex4(s@, i as int) is None,
        },
{
    if s.len() >= 4 && i <= s.len() - 4 {
        match (hex_digit_val(s[i]), hex_digit_val(s[i + 1]), hex_digit_val(s[i + 2]),
        hex_digit_val(s[i + 3])) {
            (Some(h0), Some(h1), Some(h2), Some(h3)) => Some(
                h0 * 0x1000 + h1 * 0x100 + h2 * 0x10 + h3,
            ),
            _ => None,
        }
    } else {
        None
    }
}

fn p_esc(s: &Vec<char>, i: usize) -> (r: Option<(char, usize)>)
    ensures
        match r {
            Some((c, j)) => sp_esc(s@, i as int) == Some((c, j as int)) && j <= s@.len(),
            None => sp_esc(s@, i as int) is None,
        },
{
    if i >= s.len() {
        return None;
    }
    let c = s[i];
    if c == '"' || c == '\\' || c == '/' {
        Some((c, i + 1))
    } else if c == 'b' {
        Some(('\u{0008}', i + 1))
    } else if c == 'f' {
        Some(('\u{000C}', i + 1))
    } else if c == 'n' {
        Some(('\n', i + 1))
    } else if c == 'r' {
        Some(('\r', i + 1))
    } else if c == 't' {
        Some(('\t', i + 1))
    } else if c == 'u' {
        match p_hex4(s, i + 1) {
            None => None,
            Some(h) => {
                if 0xD800 <= h && h < 0xDC00 {
                    if s.len() >= 11 && i <= s.len() - 11 && s[i + 5] == '\\' && s[i + 6] == 'u' {
                        match p_hex4(s, i + 7) {
                            None => None,
                            Some(lo) => {
                                if 0xDC00 <= lo && lo < 0xE000 {
                                    let code: u32 = 0x10000 + (h - 0xD800) * 0x400 + (lo - 0xDC00);
                                    match char_from_code(code) {
                                        Some(c2) => Some((c2, i + 11)),
                                        None => {
                                            proof {
                                                assert(false);
                                            }
                                            None
                                        },
                                    }
                                } else {
                                    None
                                }
                            },
                        }
                    } else {
                        None
                    }
                } else if 0xDC00 <= h && h < 0xE000 {
                    None
                } else {
                    match char_from_code(h) {
                        Some(c2) => Some((c2, i + 5)),
                        None => {
                            proof {
                                assert(false);
                            }
                            None
                        },
                    }
                }
            },
        }
    } else {
        None
    }
}

fn p_str_chars(s: &Vec<char>, i: usize) -> (r: Option<(Vec<char>, usize)>)
    ensures
        match r {
            Some((t, j)) => sp_str_body(s@, i as int) == Some((t@, j as int)) && i <= j <= s@.len(),
            None => sp_str_body(s@, i as int) is None,
        },
    decreases s@.len() - i,
{
    if i >= s.len() {
        return None;
    }
    let c = s[i];
    if c == '"' {
        let out: Vec<char> = Vec::new();
        assert(out@ =~= Seq::<char>::empty());
        assert(sp_str_body(s@, i as int) == Some((out@, i + 1 as int)));
        Some((out, i + 1))
    } else if c == '\\' {
        match p_esc(s, i + 1) {
            None => None,
            Some((e, j)) => {
                if j <= i {
                    None
                } else {
                    match p_str_chars(s, j) {
                        None => None,
                        Some((rest, e2)) => {
                            let ghost rv = rest@;
                            let mut out: Vec<char> = Vec::new();
                            out.push(e);
                            let mut rest2 = rest;
                            out.append(&mut rest2);
                            assert(out@ =~= seq![e] + rv);
                            assert(sp_str_body(s@, i as int) == Some((out@, e2 as int)));
                            Some((out, e2))
                        },
                    }
                }
            },
        }
    } else if '\u{0020}' > c {
        None
    } else {
        match p_str_chars(s, i + 1) {
            None => None,
            Some((rest, e2)) => {
                let ghost rv = rest@;
                let mut out: Vec<char> = Vec::new();
                out.push(c);
                let mut rest2 = rest;
                out.append(&mut rest2);
                assert(out@ =~= seq![c] + rv);
                assert(sp_str_body(s@, i as int) == Some((out@, e2 as int)));
                Some((out, e2))
            },
        }
    }
}

fn p_scan_digits(s: &Vec<char>, i: usize) -> (r: usize)
    requires
        i <= s@.len(),
    ensures
        r as int == scan_digits(s@, i as int),
        i <= r <= s@.len(),
        forall|k: int| i <= k < r ==> is_digit(#[trigger] s@[k]),
    decreases s@.len() - i,
{
    if i < s.len() {
        let c = s[i];
        if c >= '0' && c <= '9' {
            return p_scan_digits(s, i + 1);
        }
    }
    i
}

fn p_int_part(s: &Vec<char>, i: usize) -> (r: Option<usize>)
    ensures
        match r {
            Some(j) => scan_int_part(s@, i as int) == Some(j as int) && i < j <= s@.len() && forall|
                k: int,
            | i <= k < j ==> is_digit(#[trigger] s@[k]),
            None => scan_int_part(s@, i as int) is None,
        },
{
    if i >= s.len() {
        return None;
    }
    let c = s[i];
    if !(c >= '0' && c <= '9') {
        return None;
    }
    if c == '0' {
        Some(i + 1)
    } else {
        let j = p_scan_digits(s, i);
        proof {
            assert(is_digit(s@[i as int]));
            lemma_scan_digits_shape(s@, i + 1);
            assert(scan_digits(s@, i as int) == scan_digits(s@, i + 1));
        }
        Some(j)
    }
}

fn p_frac(s: &Vec<char>, i: usize) -> (r: Option<usize>)
    requires
        i <= s@.len(),
    ensures
        match r {
            Some(j) => scan_frac(s@, i as int) == Some(j as int) && i <= j <= s@.len(),
            None => scan_frac(s@, i as int) is None,
        },
{
    if i < s.len() && s[i] == '.' {
        let d = p_scan_digits(s, i + 1);
        if d == i + 1 {
            None
        } else {
            Some(d)
        }
    } else {
        Some(i)
    }
}

fn p_exp(s: &Vec<char>, i: usize) -> (r: Option<usize>)
    requires
        i <= s@.len(),
    ensures
        match r {
            Some(j) => scan_exp(s@, i as int) == Some(j as int) && i <= j <= s@.len(),
            None => scan_exp(s@, i as int) is None,
        },
{
    if i < s.len() && (s[i] == 'e' || s[i] == 'E') {
        let j = if i + 1 < s.len() && (s[i + 1] == '+' || s[i + 1] == '-') {
            i + 2
        } else {
            i + 1
        };
        let d = p_scan_digits(s, j);
        if d == j {
            None
        } else {
            Some(d)
        }
    } else {
        Some(i)
    }
}

fn p_num(s: &Vec<char>, i: usize) -> (r: Option<(Json, usize)>)
    ensures
        match r {
            Some((v, j)) => sp_num(s@, i as int) == Some((v@, j as int)) && i <= j <= s@.len(),
            None => sp_num(s@, i as int) is None,
        },
{
    let ds = if i < s.len() && s[i] == '-' {
        i + 1
    } else {
        i
    };
    match p_int_part(s, ds) {
        None => None,
        Some(k) => {
            match p_frac(s, k) {
                None => None,
                Some(m) => {
                    match p_exp(s, m) {
                        None => None,
                        Some(e) => {
                            if k == e {
                                // integer form: accumulate the magnitude, watching
                                // for values past the i64 range
                                let mut acc: u128 = 0;
                                let mut big = false;
                                let mut x = ds;
                                while x < k
                                    invariant
                                        ds <= x <= k <= s@.len(),
                                        forall|q: int| ds <= q < k ==> is_digit(#[trigger] s@[q]),
                                        !big ==> acc == digits_val(s@, ds as int, x as int)
                                            && acc <= 0x8000_0000_0000_0000,
                                        big ==> digits_val(s@, ds as int, x as int)
                                            > 0x8000_0000_0000_0000,
                                    decreases k - x,
                                {
                                    let c = s[x];
                                    let d: u128 = (c as u32 - '0' as u32) as u128;
                                    proof {
                                        lemma_digits_val_nonneg(s@, ds as int, x as int);
                                    }
                                    if big {
                                        proof {
                                            lemma_digits_val_mono(
                                                s@,
                                                ds as int,
                                                x as int,
                                                x + 1,
                                            );
                                        }
                                    } else {
                                        acc = acc * 10 + d;
                                        if acc > 0x8000_0000_0000_0000 {
                                            big = true;
                                        }
                                    }
                                    x = x + 1;
                                }
                                proof {
                                    if big {
                                        lemma_digits_val_mono(s@, ds as int, x as int, k as int);
                                    }
                                }
                                let neg = ds > i;
                                if !big && (acc < 0x8000_0000_0000_0000 || neg) {
                                    let v: i64 = if acc == 0x8000_0000_0000_0000 {
                                        -0x8000_0000_0000_0000i64
                                    } else if neg {
                                        -(acc as i64)
                                    } else {
                                        acc as i64
                                    };
                                    Some((Json::Int(v), e))
                                } else {
                                    let lit = copy_range(s, i, e);
                                    Some((Json::Num(lit), e))
                                }
                            } else {
                                let lit = copy_range(s, i, e);
                                Some((Json::Num(lit), e))
                            }
                        },
                    }
                },
            }
        },
    }
}

proof fn lemma_view_json_seq_cons(x: Json, r: Seq<Json>)
    ensures
        view_json_seq(seq![x] + r) == seq![x@] + view_json_seq(r),
{
    let w = seq![x] + r;
    assert(w[0] == x);
    assert(w.subrange(1, w.len() as int) =~= r);
    assert(view_json_seq(w) == seq![w[0]@] + view_json_seq(w.subrange(1, w.len() as int)));
}

proof fn lemma_view_json_fields_cons(x: (String, Json), r: Seq<(String, Json)>)
    ensures
        view_json_fields(seq![x] + r) == seq![(x.0@, x.1@)] + view_json_fields(r),
{
    let w = seq![x] + r;
    assert(w[0] == x);
    assert(w.subrange(1, w.len() as int) =~= r);
    assert(view_json_fields(w) == seq![(w[0].0@, w[0].1@)] + view_json_fields(
        w.subrange(1, w.len() as int),
    ));
}

fn p_value(s: &Vec<char>, i: usize) -> (r: Option<(Json, usize)>)
    ensures
        match r {
            Some((v, j)) => sp_value(s@, i as int) == Some((v@, j as int)) && i <= j <= s@.len(),
            None => sp_value(s@, i as int) is None,
        },
    decreases s@.len() - i, 0int,
{
    if i >= s.len() {
        return None;
    }
    let c = s[i];
    if c == ' ' || c == '\t' || c == '\n' || c == '\r' {
        p_value(s, i + 1)
    } else if c == 'n' {
        if s.len() >= 4 && i <= s.len() - 4 && s[i + 1] == 'u' && s[i + 2] == 'l' && s[i + 3]
            == 'l' {
            Some((Json::Null, i + 4))
        } else {
            None
        }
    } else if c == 't' {
        if s.len() >= 4 && i <= s.len() - 4 && s[i + 1] == 'r' && s[i + 2] == 'u' && s[i + 3]
            == 'e' {
            Some((Json::Bool(true), i + 4))
        } else {
            None
        }
    } else if c == 'f' {
        if s.len() >= 5 && i <= s.len() - 5 && s[i + 1] == 'a' && s[i + 2] == 'l' && s[i + 3]
            == 's' && s[i + 4] == 'e' {
            Some((Json::Bool(false), i + 5))
        } else {
            None
        }
    } else if c == '"' {
        match p_str_chars(s, i + 1) {
            None => None,
            Some((cs, j)) => Some((Json::Str(chars_to_string(&cs)), j)),
        }
    } else if c == '-' || (c >= '0' && c <= '9') {
        p_num(s, i)
    } else if c == '[' {
        p_arr_body(s, i + 1)
    } else if c == '{' {
        p_obj_body(s, i + 1)
    } else {
        None
    }
}

fn p_arr_body(s: &Vec<char>, i: usize) -> (r: Option<(Json, usize)>)
    ensures
        match r {
            Some((v, j)) => sp_arr_body(s@, i as int) == Some((v@, j as int)) && i <= j
                <= s@.len(),
            None => sp_arr_body(s@, i as int) is None,
        },
    decreases s@.len() - i, 2int,
{
    if i >= s.len() {
        return None;
    }
    let c = s[i];
    if c == ' ' || c == '\t' || c == '\n' || c == '\r' {
        p_arr_body(s, i + 1)
    } else if c == ']' {
        let items: Vec<Json> = Vec::new();
        proof {
            lemma_view_json_seq_len(items@);
            assert(view_json_seq(items@) =~= Seq::<JsonV>::empty());
        }
        Some((Json::Arr(items), i + 1))
    } else {
        match p_elems(s, i) {
            None => None,
            Some((items, j)) => Some((Json::Arr(items), j)),
        }
    }
}

fn p_elems(s: &Vec<char>, i: usize) -> (r: Option<(Vec<Json>, usize)>)
    ensures
        match r {
            Some((items, j)) => sp_elems(s@, i as int) == Some(
                (view_json_seq(items@), j as int),
            ) && i <= j <= s@.len(),
            None => sp_elems(s@, i as int) is None,
        },
    decreases s@.len() - i, 1int,
{
    match p_value(s, i) {
        None => None,
        Some((v, j)) => {
            if !(i < j && j <= s.len()) {
                None
            } else {
                match p_elems_rest(s, j) {
                    None => None,
                    Some((rest, e)) => {
                        let ghost rv = rest@;
                        let mut out: Vec<Json> = Vec::new();
                        out.push(v);
                        let mut rest2 = rest;
                        out.append(&mut rest2);
                        proof {
                            assert(out@ =~= seq![v] + rv);
                            lemma_view_json_seq_cons(v, rv);
                        }
                        Some((out, e))
                    },
                }
            }
        },
    }
}

fn p_elems_rest(s: &Vec<char>, i: usize) -> (r: Option<(Vec<Json>, usize)>)
    ensures
        match r {
            Some((items, j)) => sp_elems_rest(s@, i as int) == Some(
                (view_json_seq(items@), j as int),
            ) && i <= j <= s@.len(),
            None => sp_elems_rest(s@, i as int) is None,
        },
    decreases s@.len() - i, 1int,
{
    if i >= s.len() {
        return None;
    }
    let c = s[i];
    if c == ' ' || c == '\t' || c == '\n' || c == '\r' {
        p_elems_rest(s, i + 1)
    } else if c == ']' {
        let items: Vec<Json> = Vec::new();
        proof {
            assert(view_json_seq(items@) =~= Seq::<JsonV>::empty());
        }
        Some((items, i + 1))
    } else if c == ',' {
        p_elems(s, i + 1)
    } else {
        None
    }
}

fn p_obj_body(s: &Vec<char>, i: usize) -> (r: Option<(Json, usize)>)
    ensures
        match r {
            Some((v, j)) => sp_obj_body(s@, i as int) == Some((v@, j as int)) && i <= j
                <= s@.len(),
            None => sp_obj_body(s@, i as int) is None,
        },
    decreases s@.len() - i, 2int,
{
    if i >= s.len() {
        return None;
    }
    let c = s[i];
    if c == ' ' || c == '\t' || c == '\n' || c == '\r' {
        p_obj_body(s, i + 1)
    } else if c == '}' {
        let fields: Vec<(String, Json)> = Vec::new();
        proof {
            assert(view_json_fields(fields@) =~= Seq::<(Seq<char>, JsonV)>::empty());
        }
        Some((Json::Obj(fields), i + 1))
    } else {
        match p_members(s, i) {
            None => None,
            Some((fields, j)) => Some((Json::Obj(fields), j)),
        }
    }
}

fn p_members(s: &Vec<char>, i: usize) -> (r: Option<(Vec<(String, Json)>, usize)>)
    ensures
        match r {
            Some((fields, j)) => sp_members(s@, i as int) == Some(
                (view_json_fields(fields@), j as int),
            ) && i <= j <= s@.len(),
            None => sp_members(s@, i as int) is None,
        },
    decreases s@.len() - i, 1int,
{
    if i >= s.len() {
        return None;
    }
    let c = s[i];
    if c == ' ' || c == '\t' || c == '\n' || c == '\r' {
        p_members(s, i + 1)
    } else if c == '"' {
        match p_str_chars(s, i + 1) {
            None => None,
            Some((key, j)) => {
                if !(i < j && j <= s.len()) {
                    None
                } else {
                    match p_member_value(s, j) {
                        None => None,
                        Some((v, j2)) => {
                            if !(j < j2 && j2 <= s.len()) {
                                None
                            } else {
                                match p_members_rest(s, j2) {
                                    None => None,
                                    Some((rest, e)) => {
                                        let ks = chars_to_string(&key);
                                        let ghost rv = rest@;
                                        let mut out: Vec<(String, Json)> = Vec::new();
                                        out.push((ks, v));
                                        let mut rest2 = rest;
                                        out.append(&mut rest2);
                                        proof {
                                            assert(out@ =~= seq![(ks, v)] + rv);
                                            lemma_view_json_fields_cons((ks, v), rv);
                                        }
                                        Some((out, e))
                                    },
                                }
                            }
                        },
                    }
                }
            },
        }
    } else {
        None
    }
}

fn p_member_value(s: &Vec<char>, i: usize) -> (r: Option<(Json, usize)>)
    ensures
        match r {
            Some((v, j)) => sp_member_value(s@, i as int) == Some((v@, j as int)) && i <= j
                <= s@.len(),
            None => sp_member_value(s@, i as int) is None,
        },
    decreases s@.len() - i, 1int,
{
    if i >= s.len() {
        return None;
    }
    let c = s[i];
    if c == ' ' || c == '\t' || c == '\n' || c == '\r' {
        p_member_value(s, i + 1)
    } else if c == ':' {
        p_value(s, i + 1)
    } else {
        None
    }
}

fn p_members_rest(s: &Vec<char>, i: usize) -> (r: Option<(Vec<(String, Json)>, usize)>)
    ensures
        match r {
            Some((fields, j)) => sp_members_rest(s@, i as int) == Some(
                (view_json_fields(fields@), j as int),
            ) && i <= j <= s@.len(),
            None => sp_members_rest(s@, i as int) is None,
        },
    decreases s@.len() - i, 1int,
{
    if i >= s.len() {
        return None;
    }
    let c = s[i];
    if c == ' ' || c == '\t' || c == '\n' || c == '\r' {
        p_members_rest(s, i + 1)
    } else if c == ',' {
        p_members(s, i + 1)
    } else if c == '}' {
        let fields: Vec<(String, Json)> = Vec::new();
        proof {
            assert(view_json_fields(fields@) =~= Seq::<(Seq<char>, JsonV)>::empty());
        }
        Some((fields, i + 1))
    } else {
        None
    }
}

/// The characters of a string, in order.
pub fn str_chars(s: &str) -> (r: Vec<char>)
    ensures
        r@ == s@,
{
    let n: usize = s.unicode_len();
    let mut out: Vec<char> = Vec::new();
    let mut i: usize = 0;
    while i < n
        invariant
            n == s@.len(),
            i <= n,
            out@ == s@.take(i as int),
        decreases n - i,
    {
        out.push(s.get_char(i));
        assert(out@ =~= s@.take(i + 1));
        i = i + 1;
    }
    assert(out@ =~= s@);
    out
}

/// One JSON document read from text, exactly [`sp_json`] of the text's
/// characters: `None` on anything that is not a single JSON value with
/// nothing but whitespace around it.
pub fn parse_json(s: &str) -> (r: Option<Json>)
    ensures
        match r {
            Some(v) => sp_json(s@) == Some(v@),
            None => sp_json(s@) is None,
        },
{
    let cs = str_chars(s);
    match p_value(&cs, 0) {
        None => None,
        Some((v, j)) => {
            let mut x = j;
            while x < cs.len()
                invariant
                    j <= x <= cs@.len(),
                    cs@ == s@,
                    sp_value(s@, 0) == Some((v@, j as int)),
                    forall|k: int| j <= k < x ==> is_ws(#[trigger] cs@[k]),
                decreases cs@.len() - x,
            {
                let c = cs[x];
                if !(c == ' ' || c == '\t' || c == '\n' || c == '\r') {
                    assert(!is_ws(cs@[x as int]));
                    assert(!is_ws(s@[x as int]));
                    assert(!only_ws_from(s@, j as int));
                    assert(sp_value(s@, 0) == Some((v@, j as int)));
                    assert(sp_json(s@) is None);
                    return None;
                }
                x = x + 1;
            }
            assert(only_ws_from(s@, j as int));
            Some(v)
        },
    }
}

/// The value of the first member named `key` from index `i` on, if any:
/// with duplicate keys the earliest one counts.
pub open spec fn obj_get_from(fields: Seq<(Seq<char>, JsonV)>, key: Seq<char>, i: int) -> Option<
    JsonV,
>
    decreases fields.len() - i,
{
    if 0 <= i && i < fields.len() {
        if fields[i].0 == key {
            Some(fields[i].1)
        } else {
            obj_get_from(fields, key, i + 1)
        }
    } else {
        None
    }
}

/// The index of the first member named `key`, with the facts the decoders
/// need about [`obj_get_from`].
pub fn obj_find(fields: &Vec<(String, Json)>, key: &String) -> (r: Option<usize>)
    ensures
        match r {
            Some(idx) => idx < fields@.len() && fields@[idx as int].0@ == key@ && obj_get_from(
                view_json_fields(fields@),
                key@,
                0,
            ) == Some(fields@[idx as int].1@),
            None => obj_get_from(view_json_fields(fields@), key@, 0) is None,
        },
{
    broadcast use lemma_view_json_fields_index, lemma_view_json_fields_len;

    let ghost fv = view_json_fields(fields@);
    let n = fields.len();
    let mut i: usize = 0;
    while i < n
        invariant
            i <= n == fields@.len(),
            fv == view_json_fields(fields@),
            obj_get_from(fv, key@, i as int) == obj_get_from(fv, key@, 0),
        decreases n - i,
    {
        proof {
            lemma_view_json_fields_index(fields@, i as int);
        }
        if fields[i].0 == *key {
            assert(fv[i as int].0 == key@);
            return Some(i);
        }
        assert(fv[i as int].0 != key@);
        i = i + 1;
    }
    None
}

/// A deep copy whose view is the same document.
pub fn clone_json(j: &Json) -> (r: Json)
    ensures
        r@ == j@,
    decreases j, 1int,
{
    match j {
        Json::Null => Json::Null,
        Json::Bool(b) => Json::Bool(*b),
        Json::Int(i) => Json::Int(*i),
        Json::Num(t) => Json::Num(t.clone()),
        Json::Str(t) => Json::Str(t.clone()),
        Json::Arr(items) => Json::Arr(clone_items(items)),
        Json::Obj(fields) => Json::Obj(clone_fields(fields)),
    }
}

fn clone_items(items: &Vec<Json>) -> (r: Vec<Json>)
    ensures
        view_json_seq(r@) == view_json_seq(items@),
    decreases items, 0int,
{
    let mut out: Vec<Json> = Vec::new();
    let mut k: usize = 0;
    while k < items.len()
        invariant
            k <= items@.len(),
            out@.len() == k,
            forall|x: int| 0 <= x < k ==> #[trigger] out@[x]@ == items@[x]@,
        decreases items@.len() - k,
    {
        let c = clone_json(&items[k]);
        out.push(c);
        k = k + 1;
    }
    proof {
        assert(view_json_seq(out@) =~= view_json_seq(items@)) by {
            lemma_view_json_seq_len(out@);
            lemma_view_json_seq_len(items@);
            assert forall|x: int| 0 <= x < items@.len() implies view_json_seq(out@)[x]
                == view_json_seq(items@)[x] by {
                lemma_view_json_seq_index(out@, x);
                lemma_view_json_seq_index(items@, x);
            }
        }
    }
    out
}

fn clone_fields(fields: &Vec<(String, Json)>) -> (r: Vec<(String, Json)>)
    ensures
        view_json_fields(r@) == view_json_fields(fields@),
    decreases fields, 0int,
{
    let mut out: Vec<(String, Json)> = Vec::new();
    let mut k: usize = 0;
    while k < fields.len()
        invariant
            k <= fields@.len(),
            out@.len() == k,
            forall|x: int| 0 <= x < k ==> #[trigger] out@[x].0@ == fields@[x].0@ && out@[x].1@
                == fields@[x].1@,
        decreases fields@.len() - k,
    {
        let pair = &fields[k];
        let c = clone_json(&pair.1);
        out.push((pair.0.clone(), c));
        k = k + 1;
    }
    proof {
        assert(view_json_fields(out@) =~= view_json_fields(fields@)) by {
            lemma_view_json_fields_len(out@);
            lemma_view_json_fields_len(fields@);
            assert forall|x: int| 0 <= x < fields@.len() implies view_json_fields(out@)[x]
                == view_json_fields(fields@)[x] by {
                lemma_view_json_fields_index(out@, x);
                lemma_view_json_fields_index(fields@, x);
            }
        }
    }
    out
}

/// Elementwise well-formedness gives the recursive array predicate.
pub proof fn lemma_wf_items_from(items: Seq<JsonV>, k: int)
    requires
        forall|x: int| 0 <= x < items.len() ==> wf_jv(#[trigger] items[x]),
        0 <= k,
    ensures
        wf_items_from(items, k),
    decreases items.len() - k,
{
    if k < items.len() {
        lemma_wf_items_from(items, k + 1);
    }
}

/// Elementwise well-formedness gives the recursive object predicate.
pub proof fn lemma_wf_fields_from(fields: Seq<(Seq<char>, JsonV)>, k: int)
    requires
        forall|x: int| 0 <= x < fields.len() ==> wf_jv(#[trigger] fields[x].1),
        0 <= k,
    ensures
        wf_fields_from(fields, k),
    decreases fields.len() - k,
{
    if k < fields.len() {
        lemma_wf_fields_from(fields, k + 1);
    }
}

/// The first member named `key` stands at `idx`: the lookup returns it.
pub proof fn lemma_obj_get_at(fields: Seq<(Seq<char>, JsonV)>, key: Seq<char>, idx: int, i: int)
    requires
        0 <= i <= idx < fields.len(),
        fields[idx].0 == key,
        forall|x: int| 0 <= x < idx ==> (#[trigger] fields[x]).0 != key,
    ensures
        obj_get_from(fields, key, i) == Some(fields[idx].1),
    decreases idx - i,
{
    if i < idx {
        lemma_obj_get_at(fields, key, idx, i + 1);
    }
}

/// No member is named `key`: the lookup comes back empty.
pub proof fn lemma_obj_get_none(fields: Seq<(Seq<char>, JsonV)>, key: Seq<char>, i: int)
    requires
        0 <= i,
        forall|x: int| 0 <= x < fields.len() ==> (#[trigger] fields[x]).0 != key,
    ensures
        obj_get_from(fields, key, i) is None,
    decreases fields.len() - i,
{
    if i < fields.len() {
        lemma_obj_get_none(fields, key, i + 1);
    }
}

} // verus!
