//! A JSON codec: the wire format of the chat-completion exchange.
//!
//! `JVal` is the mathematical model of a JSON document; `Json` is its
//! executable counterpart.  Numbers keep their literal text, so nothing is
//! rounded.  `jtext` specifies serialization and `parse_json` specifies
//! parsing; the executable functions are proved to match them exactly.

use vstd::prelude::*;
use crate::chars::{char_of, char_from_u32};

verus! {

/// Mathematical model of a JSON document.
pub enum JVal {
    Null,
    Bool(bool),
    Num(Seq<char>),
    Str(Seq<char>),
    Arr(Seq<JVal>),
    Obj(Seq<(Seq<char>, JVal)>),
}

/// A JSON document as executable data.  Object members keep their order
/// and duplicates, as they stood in the input.
pub enum Json {
    Null,
    Bool(bool),
    Num(String),
    Str(String),
    Arr(Vec<Json>),
    Obj(Vec<(String, Json)>),
}

/// The model of an executable JSON value.
pub open spec fn jval_of(j: Json) -> JVal
    decreases j, 1int,
{
    match j {
        Json::Null => JVal::Null,
        Json::Bool(b) => JVal::Bool(b),
        Json::Num(s) => JVal::Num(s@),
        Json::Str(s) => JVal::Str(s@),
        Json::Arr(v) => JVal::Arr(jvals_of(v@)),
        Json::Obj(v) => JVal::Obj(jmembers_of(v@)),
    }
}

/// The models of a sequence of executable JSON values, in order.
pub open spec fn jvals_of(s: Seq<Json>) -> Seq<JVal>
    decreases s, 0int,
{
    if s.len() == 0 {
        Seq::empty()
    } else {
        seq![jval_of(s.first())] + jvals_of(s.drop_first())
    }
}

/// The models of a sequence of executable object members, in order.
pub open spec fn jmembers_of(s: Seq<(String, Json)>) -> Seq<(Seq<char>, JVal)>
    decreases s, 0int,
{
    if s.len() == 0 {
        Seq::empty()
    } else {
        seq![(s.first().0@, jval_of(s.first().1))] + jmembers_of(s.drop_first())
    }
}

/// `jvals_of` maps the sequence pointwise.
pub proof fn jvals_of_props(s: Seq<Json>)
    ensures
        jvals_of(s).len() == s.len(),
        forall|k: int| 0 <= k < s.len() ==> jvals_of(s)[k] == jval_of(#[trigger] s[k]),
    decreases s.len(),
{
    if s.len() > 0 {
        jvals_of_props(s.drop_first());
        assert forall|k: int| 0 <= k < s.len() implies jvals_of(s)[k] == jval_of(#[trigger] s[k]) by {
            if k == 0 {
                assert(jvals_of(s)[0] == jval_of(s.first()));
            } else {
                assert(s.drop_first()[k - 1] == s[k]);
                assert(jvals_of(s.drop_first())[k - 1] == jval_of(s.drop_first()[k - 1]));
            }
        }
    }
}

/// `jmembers_of` maps the sequence pointwise.
pub proof fn jmembers_of_props(s: Seq<(String, Json)>)
    ensures
        jmembers_of(s).len() == s.len(),
        forall|k: int| 0 <= k < s.len() ==> jmembers_of(s)[k] == (#[trigger] s[k].0@, jval_of(s[k].1)),
    decreases s.len(),
{
    if s.len() > 0 {
        jmembers_of_props(s.drop_first());
        assert forall|k: int| 0 <= k < s.len() implies jmembers_of(s)[k] == (#[trigger] s[k].0@, jval_of(s[k].1)) by {
            if k == 0 {
                assert(jmembers_of(s)[0] == (s.first().0@, jval_of(s.first().1)));
            } else {
                assert(s.drop_first()[k - 1] == s[k]);
                assert(jmembers_of(s.drop_first())[k - 1] == (s.drop_first()[k - 1].0@, jval_of(s.drop_first()[k - 1].1)));
            }
        }
    }
}

impl View for Json {
    type V = JVal;

    open spec fn view(&self) -> JVal {
        jval_of(*self)
    }
}

// ---------------------------------------------------------------- writing

/// Lower-case hexadecimal digit for `n` in `0..16`.
pub open spec fn hex_char(n: int) -> char {
    if n == 0 { '0' } else if n == 1 { '1' } else if n == 2 { '2' }
    else if n == 3 { '3' } else if n == 4 { '4' } else if n == 5 { '5' }
    else if n == 6 { '6' } else if n == 7 { '7' } else if n == 8 { '8' }
    else if n == 9 { '9' } else if n == 10 { 'a' } else if n == 11 { 'b' }
    else if n == 12 { 'c' } else if n == 13 { 'd' } else if n == 14 { 'e' }
    else { 'f' }
}

/// How one character appears inside a serialized JSON string: the quote,
/// the backslash and control characters are escaped, all else stands as is.
pub open spec fn escape_char(c: char) -> Seq<char> {
    if c == '"' { seq!['\\', '"'] }
    else if c == '\\' { seq!['\\', '\\'] }
    else if c == '\u{8}' { seq!['\\', 'b'] }
    else if c == '\u{c}' { seq!['\\', 'f'] }
    else if c == '\n' { seq!['\\', 'n'] }
    else if c == '\r' { seq!['\\', 'r'] }
    else if c == '\t' { seq!['\\', 't'] }
    else if (c as u32) < 32 {
        seq!['\\', 'u', '0', '0', hex_char((c as u32) as int / 16), hex_char((c as u32) as int % 16)]
    }
    else { seq![c] }
}

/// The body of a serialized JSON string (without the enclosing quotes).
pub open spec fn escape_str(s: Seq<char>) -> Seq<char>
    decreases s.len(),
{
    if s.len() == 0 {
        Seq::empty()
    } else {
        escape_str(s.drop_last()) + escape_char(s.last())
    }
}

/// The serialized text of a JSON value: no added whitespace, object
/// members and array elements in order, separated by commas.
pub open spec fn jtext(v: JVal) -> Seq<char>
    decreases v, 0int,
{
    match v {
        JVal::Null => seq!['n', 'u', 'l', 'l'],
        JVal::Bool(b) => if b { seq!['t', 'r', 'u', 'e'] } else { seq!['f', 'a', 'l', 's', 'e'] },
        JVal::Num(s) => s,
        JVal::Str(s) => seq!['"'] + escape_str(s) + seq!['"'],
        JVal::Arr(vs) => seq!['['] + jtext_items(vs) + seq![']'],
        JVal::Obj(ms) => seq!['{'] + jtext_members(ms) + seq!['}'],
    }
}

/// Comma-separated serialized elements.
pub open spec fn jtext_items(vs: Seq<JVal>) -> Seq<char>
    decreases vs, 1int,
{
    if vs.len() == 0 {
        Seq::empty()
    } else if vs.len() == 1 {
        jtext(vs[0])
    } else {
        jtext_items(vs.drop_last()) + seq![','] + jtext(vs.last())
    }
}

/// Comma-separated serialized members, each `"key":value`.
pub open spec fn jtext_member(m: (Seq<char>, JVal)) -> Seq<char>
    decreases m, 0int,
{
    seq!['"'] + escape_str(m.0) + seq!['"', ':'] + jtext(m.1)
}

/// Comma-separated serialized members of an object.
pub open spec fn jtext_members(ms: Seq<(Seq<char>, JVal)>) -> Seq<char>
    decreases ms, 1int,
{
    if ms.len() == 0 {
        Seq::empty()
    } else if ms.len() == 1 {
        jtext_member(ms[0])
    } else {
        jtext_members(ms.drop_last()) + seq![','] + jtext_member(ms.last())
    }
}

/// Appends the hexadecimal digit for `n` in `0..16`.
fn push_hex(out: &mut Vec<char>, n: u32)
    requires
        n < 16,
    ensures
        final(out)@ == old(out)@ + seq![hex_char(n as int)],
{
    let c = if n == 0 { '0' } else if n == 1 { '1' } else if n == 2 { '2' }
        else if n == 3 { '3' } else if n == 4 { '4' } else if n == 5 { '5' }
        else if n == 6 { '6' } else if n == 7 { '7' } else if n == 8 { '8' }
        else if n == 9 { '9' } else if n == 10 { 'a' } else if n == 11 { 'b' }
        else if n == 12 { 'c' } else if n == 13 { 'd' } else if n == 14 { 'e' }
        else { 'f' };
    out.push(c);
}

/// Appends the escaped form of the one character `c`.
fn push_escaped_char(out: &mut Vec<char>, c: char)
    ensures
        final(out)@ == old(out)@ + escape_char(c),
{
    if c == '"' {
        out.push('\\');
        out.push('"');
    } else if c == '\\' {
        out.push('\\');
        out.push('\\');
    } else if c == '\u{8}' {
        out.push('\\');
        out.push('b');
    } else if c == '\u{c}' {
        out.push('\\');
        out.push('f');
    } else if c == '\n' {
        out.push('\\');
        out.push('n');
    } else if c == '\r' {
        out.push('\\');
        out.push('r');
    } else if c == '\t' {
        out.push('\\');
        out.push('t');
    } else if (c as u32) < 32 {
        out.push('\\');
        out.push('u');
        out.push('0');
        out.push('0');
        push_hex(out, (c as u32) / 16);
        push_hex(out, (c as u32) % 16);
    } else {
        out.push(c);
    }
}

/// Appends the escaped form of the string `s`.
fn push_escaped(out: &mut Vec<char>, s: &str)
    ensures
        final(out)@ == old(out)@ + escape_str(s@),
{
    let cs = crate::chars::chars_of_str(s);
    let n = cs.len();
    let mut i: usize = 0;
    while i < n
        invariant
            n == cs@.len(),
            cs@ == s@,
            i <= n,
            out@ == old(out)@ + escape_str(s@.subrange(0, i as int)),
        decreases n - i,
    {
        push_escaped_char(out, cs[i]);
        i = i + 1;
        proof {
            let pre = s@.subrange(0, i - 1);
            let cur = s@.subrange(0, i as int);
            assert(cur.drop_last() =~= pre);
            assert(cur.last() == s@[i - 1]);
        }
    }
    proof {
        assert(s@.subrange(0, s@.len() as int) =~= s@);
    }
}

/// Appends the serialized text of `v`.
pub fn write_json(v: &Json, out: &mut Vec<char>)
    ensures
        final(out)@ == old(out)@ + jtext(v@),
    decreases v@,
{
    match v {
        Json::Null => {
            out.push('n');
            out.push('u');
            out.push('l');
            out.push('l');
            proof {
                assert(out@ =~= old(out)@ + jtext(v@));
            }
        }
        Json::Bool(b) => {
            if *b {
                out.push('t');
                out.push('r');
                out.push('u');
                out.push('e');
            } else {
                out.push('f');
                out.push('a');
                out.push('l');
                out.push('s');
                out.push('e');
            }
            proof {
                assert(out@ =~= old(out)@ + jtext(v@));
            }
        }
        Json::Num(s) => {
            let cs = crate::chars::chars_of_str(s.as_str());
            let n = cs.len();
            let mut i: usize = 0;
            while i < n
                invariant
                    n == cs@.len(),
                    cs@ == s@,
                    i <= n,
                    out@ == old(out)@ + s@.subrange(0, i as int),
                decreases n - i,
            {
                out.push(cs[i]);
                i = i + 1;
                proof {
                    assert(out@ =~= old(out)@ + s@.subrange(0, i as int));
                }
            }
            proof {
                assert(out@ =~= old(out)@ + jtext(v@));
            }
        }
        Json::Str(s) => {
            out.push('"');
            push_escaped(out, s.as_str());
            out.push('"');
            proof {
                assert(out@ =~= old(out)@ + jtext(v@));
            }
        }
        Json::Arr(items) => {
            let ghost vs = jvals_of(items@);
            proof {
                jvals_of_props(items@);
                assert(v@ == JVal::Arr(vs));
            }
            out.push('[');
            let n = items.len();
            let mut i: usize = 0;
            while i < n
                invariant
                    n == items@.len(),
                    vs == jvals_of(items@),
                    v@ == JVal::Arr(vs),
                    vs.len() == items@.len(),
                    forall|k: int| 0 <= k < items@.len() ==> vs[k] == jval_of(#[trigger] items@[k]),
                    i <= n,
                    out@ == old(out)@ + seq!['['] + jtext_items(vs.subrange(0, i as int)),
                decreases n - i,
            {
                if i > 0 {
                    out.push(',');
                }
                proof {
                    assert(decreases_to!(v@ => v@->Arr_0));
                    assert(v@->Arr_0 == vs);
                    assert(decreases_to!(vs => vs[i as int]));
                    assert(vs[i as int] == items@[i as int]@);
                }
                write_json(&items[i], out);
                i = i + 1;
                proof {
                    let cur = vs.subrange(0, i as int);
                    assert(cur.drop_last() =~= vs.subrange(0, i - 1));
                    assert(cur.last() == vs[i - 1]);
                    if i == 1 {
                        assert(jtext_items(cur) == jtext(vs[0]));
                    }
                    assert(out@ =~= old(out)@ + seq!['['] + jtext_items(cur));
                }
            }
            out.push(']');
            proof {
                assert(vs.subrange(0, vs.len() as int) =~= vs);
                assert(out@ =~= old(out)@ + jtext(v@));
            }
        }
        Json::Obj(members) => {
            let ghost ms = jmembers_of(members@);
            proof {
                jmembers_of_props(members@);
                assert(v@ == JVal::Obj(ms));
            }
            out.push('{');
            let n = members.len();
            let mut i: usize = 0;
            while i < n
                invariant
                    n == members@.len(),
                    ms == jmembers_of(members@),
                    v@ == JVal::Obj(ms),
                    ms.len() == members@.len(),
                    forall|k: int| 0 <= k < members@.len() ==> ms[k] == (#[trigger] members@[k].0@, jval_of(members@[k].1)),
                    i <= n,
                    out@ == old(out)@ + seq!['{'] + jtext_members(ms.subrange(0, i as int)),
                decreases n - i,
            {
                if i > 0 {
                    out.push(',');
                }
                out.push('"');
                push_escaped(out, members[i].0.as_str());
                out.push('"');
                out.push(':');
                proof {
                    assert(decreases_to!(v@ => v@->Obj_0));
                    assert(v@->Obj_0 == ms);
                    assert(decreases_to!(ms => ms[i as int]));
                    assert(decreases_to!(ms[i as int] => ms[i as int].1));
                    assert(ms[i as int].1 == members@[i as int].1@);
                }
                write_json(&members[i].1, out);
                i = i + 1;
                proof {
                    let cur = ms.subrange(0, i as int);
                    assert(cur.drop_last() =~= ms.subrange(0, i - 1));
                    assert(cur.last() == ms[i - 1]);
                    assert(ms[i - 1] == (members@[i - 1].0@, jval_of(members@[i - 1].1)));
                    let key = members@[i - 1].0@;
                    let val = jval_of(members@[i - 1].1);
                    assert(seq!['"', ':'] =~= seq!['"'] + seq![':']);
                    assert(jtext_member(ms[i - 1]) == seq!['"'] + escape_str(key) + seq!['"', ':'] + jtext(val));
                    if i == 1 {
                        assert(jtext_members(cur) == jtext_member(ms[0]));
                    } else {
                        assert(jtext_members(cur) == jtext_members(ms.subrange(0, i - 1)) + seq![','] + jtext_member(ms[i - 1]));
                    }
                    assert(out@ =~= old(out)@ + seq!['{'] + jtext_members(cur));
                }
            }
            out.push('}');
            proof {
                assert(ms.subrange(0, ms.len() as int) =~= ms);
                assert(out@ =~= old(out)@ + jtext(v@));
            }
        }
    }
}

/// The serialized text of `v` as a string.
pub fn to_text(v: &Json) -> (r: String)
    ensures
        r@ == jtext(v@),
{
    let mut out: Vec<char> = Vec::new();
    write_json(v, &mut out);
    crate::chars::string_from_chars(&out)
}

// ---------------------------------------------------------------- parsing

/// JSON whitespace.
pub open spec fn is_ws(c: char) -> bool {
    c == ' ' || c == '\t' || c == '\n' || c == '\r'
}

/// Number of whitespace characters running from position `i`.
pub open spec fn ws_len(s: Seq<char>, i: int) -> nat
    decreases s.len() - i,
{
    if 0 <= i < s.len() && is_ws(s[i]) {
        (1 + ws_len(s, i + 1)) as nat
    } else {
        0
    }
}

/// A decimal digit.
pub open spec fn is_digit(c: char) -> bool {
    '0' as u32 <= c as u32 && c as u32 <= '9' as u32
}

/// Number of decimal digits running from position `i`.
pub open spec fn digits_len(s: Seq<char>, i: int) -> nat
    decreases s.len() - i,
{
    if 0 <= i < s.len() && is_digit(s[i]) {
        (1 + digits_len(s, i + 1)) as nat
    } else {
        0
    }
}

/// Value of a hexadecimal digit, or -1.
pub open spec fn hex_val(c: char) -> int {
    if is_digit(c) { c as u32 - '0' as u32 }
    else if 'a' as u32 <= c as u32 && c as u32 <= 'f' as u32 { c as u32 - 'a' as u32 + 10 }
    else if 'A' as u32 <= c as u32 && c as u32 <= 'F' as u32 { c as u32 - 'A' as u32 + 10 }
    else { -1 }
}

/// `c` is a hexadecimal digit.
pub open spec fn is_hex(c: char) -> bool {
    hex_val(c) >= 0
}

/// Four hexadecimal digits stand at `i`.
pub open spec fn hex4_at(s: Seq<char>, i: int) -> bool {
    0 <= i && i + 4 <= s.len() && is_hex(s[i]) && is_hex(s[i + 1]) && is_hex(s[i + 2]) && is_hex(s[i + 3])
}

/// Value of the four hexadecimal digits at `i`.
pub open spec fn hex4_val(s: Seq<char>, i: int) -> int {
    hex_val(s[i]) * 4096 + hex_val(s[i + 1]) * 256 + hex_val(s[i + 2]) * 16 + hex_val(s[i + 3])
}

/// The word `w` stands at position `i` of `s`.
pub open spec fn lit_at(s: Seq<char>, i: int, w: Seq<char>) -> bool {
    0 <= i && i + w.len() <= s.len() && s.subrange(i, i + w.len() as int) == w
}

/// `j` clamped into `[lo, hi]`; a guard that keeps parser positions in
/// range so that the recursion visibly terminates.  Every parsing function
/// in fact returns a position in range, so the guard never alters one.
pub open spec fn idx_in(j: int, lo: int, hi: int) -> int {
    if j < lo { lo } else if j > hi { hi } else { j }
}

/// The character that a short escape `\\e` stands for.
pub open spec fn unescaped(e: char) -> char {
    if e == 'b' { '\u{8}' }
    else if e == 'f' { '\u{c}' }
    else if e == 'n' { '\n' }
    else if e == 'r' { '\r' }
    else if e == 't' { '\t' }
    else { e }
}

/// Parses a JSON string body from `i` (just after the opening quote) to
/// its closing quote: the decoded characters and the position after the
/// quote.  Escapes are decoded; a surrogate pair becomes one character;
/// a lone surrogate, a bad escape or a bare control character fails.
pub open spec fn parse_str_body(s: Seq<char>, i: int) -> Option<(Seq<char>, int)>
    decreases s.len() - i,
{
    if !(0 <= i < s.len()) {
        None
    } else if s[i] == '"' {
        Some((Seq::empty(), i + 1))
    } else if s[i] == '\\' {
        if i + 2 <= s.len() {
            let e = s[i + 1];
            if e == 'u' {
                if i + 6 <= s.len() && hex4_at(s, i + 2) {
                    let n = hex4_val(s, i + 2);
                    if 0xD800 <= n < 0xDC00 {
                        if i + 12 <= s.len() && s[i + 6] == '\\' && s[i + 7] == 'u' && hex4_at(s, i + 8) {
                            let m = hex4_val(s, i + 8);
                            if 0xDC00 <= m < 0xE000 {
                                let code = 0x10000 + (n - 0xD800) * 0x400 + (m - 0xDC00);
                                match parse_str_body(s, i + 12) {
                                    Some((rest, j)) => Some((seq![char_of(code as u32)] + rest, j)),
                                    None => None,
                                }
                            } else {
                                None
                            }
                        } else {
                            None
                        }
                    } else if 0xDC00 <= n < 0xE000 {
                        None
                    } else {
                        match parse_str_body(s, i + 6) {
                            Some((rest, j)) => Some((seq![char_of(n as u32)] + rest, j)),
                            None => None,
                        }
                    }
                } else {
                    None
                }
            } else if e == '"' || e == '\\' || e == '/' || e == 'b' || e == 'f' || e == 'n' || e == 'r'
                || e == 't' {
                match parse_str_body(s, i + 2) {
                    Some((rest, j)) => Some((seq![unescaped(e)] + rest, j)),
                    None => None,
                }
            } else {
                None
            }
        } else {
            None
        }
    } else if (s[i] as u32) < 32 {
        None
    } else {
        match parse_str_body(s, i + 1) {
            Some((rest, j)) => Some((seq![s[i]] + rest, j)),
            None => None,
        }
    }
}

/// Parses the fraction and exponent parts of a number whose integer part
/// ends at `j`; the number began at `start`.
pub open spec fn num_after_int(s: Seq<char>, start: int, j: int) -> Option<(Seq<char>, int)> {
    let j2 = if j < s.len() && s[j] == '.' {
        if digits_len(s, j + 1) > 0 { j + 1 + digits_len(s, j + 1) } else { -1 }
    } else {
        j
    };
    if j2 < 0 {
        None
    } else {
        let j3 = if j2 < s.len() && (s[j2] == 'e' || s[j2] == 'E') {
            let k = if j2 + 1 < s.len() && (s[j2 + 1] == '+' || s[j2 + 1] == '-') { j2 + 2 } else { j2 + 1 };
            if digits_len(s, k) > 0 { k + digits_len(s, k) } else { -1 }
        } else {
            j2
        };
        if j3 < 0 {
            None
        } else {
            Some((s.subrange(start, j3), j3))
        }
    }
}

/// Parses a JSON number at `i`: its literal text and the position after it.
pub open spec fn parse_number(s: Seq<char>, i: int) -> Option<(Seq<char>, int)> {
    if !(0 <= i < s.len()) {
        None
    } else {
        let j0 = if s[i] == '-' { i + 1 } else { i };
        if j0 < s.len() && s[j0] == '0' {
            num_after_int(s, i, j0 + 1)
        } else if j0 < s.len() && is_digit(s[j0]) {
            num_after_int(s, i, j0 + 1 + digits_len(s, j0 + 1))
        } else {
            None
        }
    }
}

/// A digit run never passes the end of the text.
pub proof fn digits_len_le(s: Seq<char>, i: int)
    ensures
        0 <= i <= s.len() ==> i + digits_len(s, i) <= s.len(),
    decreases s.len() - i,
{
    if 0 <= i < s.len() && is_digit(s[i]) {
        digits_len_le(s, i + 1);
    }
}

/// Parses one JSON value at `i` (no surrounding whitespace): its model and
/// the position after it.
pub open spec fn parse_value(s: Seq<char>, i: int) -> Option<(JVal, int)>
    decreases s.len() - i, 0int,
{
    if !(0 <= i < s.len()) {
        None
    } else {
        let c = s[i];
        if c == 'n' {
            if lit_at(s, i, seq!['n', 'u', 'l', 'l']) { Some((JVal::Null, i + 4)) } else { None }
        } else if c == 't' {
            if lit_at(s, i, seq!['t', 'r', 'u', 'e']) { Some((JVal::Bool(true), i + 4)) } else { None }
        } else if c == 'f' {
            if lit_at(s, i, seq!['f', 'a', 'l', 's', 'e']) { Some((JVal::Bool(false), i + 5)) } else { None }
        } else if c == '"' {
            match parse_str_body(s, i + 1) {
                Some((cs, j)) => Some((JVal::Str(cs), j)),
                None => None,
            }
        } else if c == '[' {
            let j = i + 1 + ws_len(s, i + 1);
            if j < s.len() && s[j] == ']' {
                Some((JVal::Arr(Seq::empty()), j + 1))
            } else {
                match parse_elems(s, idx_in(j, i + 1, s.len() as int)) {
                    Some((vs, k)) => Some((JVal::Arr(vs), k)),
                    None => None,
                }
            }
        } else if c == '{' {
            let j = i + 1 + ws_len(s, i + 1);
            if j < s.len() && s[j] == '}' {
                Some((JVal::Obj(Seq::empty()), j + 1))
            } else {
                match parse_members(s, idx_in(j, i + 1, s.len() as int)) {
                    Some((ms, k)) => Some((JVal::Obj(ms), k)),
                    None => None,
                }
            }
        } else if c == '-' || is_digit(c) {
            match parse_number(s, i) {
                Some((t, j)) => Some((JVal::Num(t), j)),
                None => None,
            }
        } else {
            None
        }
    }
}

/// Parses the elements of a non-empty array, the first starting at `i`:
/// the models and the position after the closing bracket.
pub open spec fn parse_elems(s: Seq<char>, i: int) -> Option<(Seq<JVal>, int)>
    decreases s.len() - i, 1int,
{
    if !(0 <= i <= s.len()) {
        None
    } else {
        match parse_value(s, i) {
            None => None,
            Some((v, j0)) => {
                let j = idx_in(j0, i + 1, s.len() as int);
                let w = idx_in(j + ws_len(s, j), j, s.len() as int);
                if w < s.len() && s[w] == ',' {
                    let n = idx_in(w + 1 + ws_len(s, w + 1), w + 1, s.len() as int);
                    match parse_elems(s, n) {
                        Some((vs, k)) => Some((seq![v] + vs, k)),
                        None => None,
                    }
                } else if w < s.len() && s[w] == ']' {
                    Some((seq![v], w + 1))
                } else {
                    None
                }
            }
        }
    }
}

/// Parses the members of a non-empty object, the first key starting at
/// `i`: the key/value models and the position after the closing brace.
pub open spec fn parse_members(s: Seq<char>, i: int) -> Option<(Seq<(Seq<char>, JVal)>, int)>
    decreases s.len() - i, 1int,
{
    if !(0 <= i < s.len() && s[i] == '"') {
        None
    } else {
        match parse_str_body(s, i + 1) {
            None => None,
            Some((key, j0)) => {
                let j = idx_in(j0, i + 1, s.len() as int);
                let c = idx_in(j + ws_len(s, j), j, s.len() as int);
                if c < s.len() && s[c] == ':' {
                    let m = idx_in(c + 1 + ws_len(s, c + 1), c + 1, s.len() as int);
                    match parse_value(s, m) {
                        None => None,
                        Some((v, e0)) => {
                            let e = idx_in(e0, m + 1, s.len() as int);
                            let w = idx_in(e + ws_len(s, e), e, s.len() as int);
                            if w < s.len() && s[w] == ',' {
                                let n = idx_in(w + 1 + ws_len(s, w + 1), w + 1, s.len() as int);
                                match parse_members(s, n) {
                                    Some((ms, k)) => Some((seq![(key, v)] + ms, k)),
                                    None => None,
                                }
                            } else if w < s.len() && s[w] == '}' {
                                Some((seq![(key, v)], w + 1))
                            } else {
                                None
                            }
                        }
                    }
                } else {
                    None
                }
            }
        }
    }
}

/// Parses a whole JSON document: one value, surrounded by whitespace only.
pub open spec fn parse_json(s: Seq<char>) -> Option<JVal> {
    let i = ws_len(s, 0) as int;
    match parse_value(s, i) {
        None => None,
        Some((v, j0)) => {
            let j = idx_in(j0, i, s.len() as int);
            if j + ws_len(s, j) == s.len() {
                Some(v)
            } else {
                None
            }
        }
    }
}

/// Number of whitespace characters running from `i`.
fn run_ws(s: &Vec<char>, i: usize) -> (r: usize)
    requires
        i <= s@.len(),
    ensures
        r == ws_len(s@, i as int),
        i + r <= s@.len(),
    decreases s@.len() - i,
{
    if i < s.len() && (s[i] == ' ' || s[i] == '\t' || s[i] == '\n' || s[i] == '\r') {
        1 + run_ws(s, i + 1)
    } else {
        0
    }
}

/// Number of decimal digits running from `i`.
fn run_digits(s: &Vec<char>, i: usize) -> (r: usize)
    requires
        i <= s@.len(),
    ensures
        r == digits_len(s@, i as int),
        i + r <= s@.len(),
    decreases s@.len() - i,
{
    if i < s.len() && (s[i] as u32) >= '0' as u32 && (s[i] as u32) <= '9' as u32 {
        1 + run_digits(s, i + 1)
    } else {
        0
    }
}

/// The value of a hexadecimal digit, if `c` is one.
fn hexv(c: char) -> (r: Option<u32>)
    ensures
        r is Some <==> is_hex(c),
        r matches Some(h) ==> h == hex_val(c),
{
    let n = c as u32;
    if n >= '0' as u32 && n <= '9' as u32 {
        Some(n - '0' as u32)
    } else if n >= 'a' as u32 && n <= 'f' as u32 {
        Some(n - 'a' as u32 + 10)
    } else if n >= 'A' as u32 && n <= 'F' as u32 {
        Some(n - 'A' as u32 + 10)
    } else {
        None
    }
}

/// Whether the four characters `c0..c3` stand at `i`.
fn lit4(s: &Vec<char>, i: usize, c0: char, c1: char, c2: char, c3: char) -> (r: bool)
    requires
        i <= s@.len(),
    ensures
        r == lit_at(s@, i as int, seq![c0, c1, c2, c3]),
{
    if s.len() - i >= 4 && s[i] == c0 && s[i + 1] == c1 && s[i + 2] == c2 && s[i + 3] == c3 {
        proof {
            assert(s@.subrange(i as int, i + 4) =~= seq![c0, c1, c2, c3]);
        }
        true
    } else {
        proof {
            if i + 4 <= s@.len() {
                let w = seq![c0, c1, c2, c3];
                if s@.subrange(i as int, i + 4) == w {
                    assert(s@[i as int] == s@.subrange(i as int, i + 4)[0]);
                    assert(s@[i + 1] == s@.subrange(i as int, i + 4)[1]);
                    assert(s@[i + 2] == s@.subrange(i as int, i + 4)[2]);
                    assert(s@[i + 3] == s@.subrange(i as int, i + 4)[3]);
                }
            }
        }
        false
    }
}

/// Whether the five characters `c0..c4` stand at `i`.
fn lit5(s: &Vec<char>, i: usize, c0: char, c1: char, c2: char, c3: char, c4: char) -> (r: bool)
    requires
        i <= s@.len(),
    ensures
        r == lit_at(s@, i as int, seq![c0, c1, c2, c3, c4]),
{
    if s.len() - i >= 5 && s[i] == c0 && s[i + 1] == c1 && s[i + 2] == c2 && s[i + 3] == c3
        && s[i + 4] == c4 {
        proof {
            assert(s@.subrange(i as int, i + 5) =~= seq![c0, c1, c2, c3, c4]);
        }
        true
    } else {
        proof {
            if i + 5 <= s@.len() {
                let w = seq![c0, c1, c2, c3, c4];
                if s@.subrange(i as int, i + 5) == w {
                    assert(s@[i as int] == s@.subrange(i as int, i + 5)[0]);
                    assert(s@[i + 1] == s@.subrange(i as int, i + 5)[1]);
                    assert(s@[i + 2] == s@.subrange(i as int, i + 5)[2]);
                    assert(s@[i + 3] == s@.subrange(i as int, i + 5)[3]);
                    assert(s@[i + 4] == s@.subrange(i as int, i + 5)[4]);
                }
            }
        }
        false
    }
}

/// The characters of `s` from `a` to `b`.
fn copy_range(s: &Vec<char>, a: usize, b: usize) -> (r: Vec<char>)
    requires
        a <= b <= s@.len(),
    ensures
        r@ == s@.subrange(a as int, b as int),
{
    let mut r: Vec<char> = Vec::new();
    let mut i: usize = a;
    while i < b
        invariant
            a <= i <= b <= s@.len(),
            r@ == s@.subrange(a as int, i as int),
        decreases b - i,
    {
        r.push(s[i]);
        i = i + 1;
        proof {
            assert(r@ =~= s@.subrange(a as int, i as int));
        }
    }
    r
}

/// Reads the four hexadecimal digits at `i`.
fn read_hex4(s: &Vec<char>, i: usize) -> (r: Option<u32>)
    requires
        i <= s@.len(),
    ensures
        r is Some <==> hex4_at(s@, i as int),
        r matches Some(n) ==> n == hex4_val(s@, i as int) && n < 0x10000,
{
    if s.len() - i >= 4 {
        let h0 = hexv(s[i]);
        let h1 = hexv(s[i + 1]);
        let h2 = hexv(s[i + 2]);
        let h3 = hexv(s[i + 3]);
        match (h0, h1, h2, h3) {
            (Some(a), Some(b), Some(c), Some(d)) => Some(a * 4096 + b * 256 + c * 16 + d),
            _ => None,
        }
    } else {
        None
    }
}

/// Parses a string body from `i` to its closing quote: the decoded
/// characters and the position after the quote.
fn p_str_body(s: &Vec<char>, i: usize) -> (r: Option<(Vec<char>, usize)>)
    requires
        i <= s@.len(),
    ensures
        match r {
            Some((cs, j)) => parse_str_body(s@, i as int) == Some((cs@, j as int)) && i < j <= s@.len(),
            None => parse_str_body(s@, i as int) is None,
        },
    decreases s@.len() - i,
{
    if !(i < s.len()) {
        return None;
    }
    let c = s[i];
    if c == '"' {
        let r: Vec<char> = Vec::new();
        proof {
            assert(r@ =~= Seq::<char>::empty());
        }
        return Some((r, i + 1));
    }
    if c == '\\' {
        if s.len() - i < 2 {
            return None;
        }
        let e = s[i + 1];
        if e == 'u' {
            if s.len() - i < 6 {
                return None;
            }
            match read_hex4(s, i + 2) {
                None => None,
                Some(n) => {
                    if 0xD800 <= n && n < 0xDC00 {
                        if s.len() - i >= 12 && s[i + 6] == '\\' && s[i + 7] == 'u' {
                            match read_hex4(s, i + 8) {
                                None => None,
                                Some(m) => {
                                    if 0xDC00 <= m && m < 0xE000 {
                                        let code: u32 = 0x10000 + (n - 0xD800) * 0x400 + (m - 0xDC00);
                                        let c2 = match crate::chars::char_from_u32(code) {
                                            Some(c2) => c2,
                                            None => {
                                                return None;
                                            }
                                        };
                                        match p_str_body(s, i + 12) {
                                            None => None,
                                            Some((mut rest, j)) => {
                                                rest.insert(0, c2);
                                                proof {
                                                    assert(rest@ =~= seq![char_of(code)]
                                                        + rest@.subrange(1, rest@.len() as int));
                                                }
                                                Some((rest, j))
                                            }
                                        }
                                    } else {
                                        None
                                    }
                                }
                            }
                        } else {
                            None
                        }
                    } else if 0xDC00 <= n && n < 0xE000 {
                        None
                    } else {
                        let c2 = match crate::chars::char_from_u32(n) {
                            Some(c2) => c2,
                            None => {
                                return None;
                            }
                        };
                        match p_str_body(s, i + 6) {
                            None => None,
                            Some((mut rest, j)) => {
                                rest.insert(0, c2);
                                proof {
                                    assert(rest@ =~= seq![char_of(n)]
                                        + rest@.subrange(1, rest@.len() as int));
                                }
                                Some((rest, j))
                            }
                        }
                    }
                }
            }
        } else if e == '"' || e == '\\' || e == '/' || e == 'b' || e == 'f' || e == 'n' || e == 'r'
            || e == 't' {
            let c2 = if e == 'b' { '\u{8}' } else if e == 'f' { '\u{c}' } else if e == 'n' { '\n' }
                else if e == 'r' { '\r' } else if e == 't' { '\t' } else { e };
            match p_str_body(s, i + 2) {
                None => None,
                Some((mut rest, j)) => {
                    rest.insert(0, c2);
                    proof {
                        assert(rest@ =~= seq![unescaped(e)] + rest@.subrange(1, rest@.len() as int));
                    }
                    Some((rest, j))
                }
            }
        } else {
            None
        }
    } else if (c as u32) < 32 {
        None
    } else {
        match p_str_body(s, i + 1) {
            None => None,
            Some((mut rest, j)) => {
                rest.insert(0, c);
                proof {
                    assert(rest@ =~= seq![s@[i as int]] + rest@.subrange(1, rest@.len() as int));
                }
                Some((rest, j))
            }
        }
    }
}

/// Parses a number at `i`: its literal text and the position after it.
fn p_number(s: &Vec<char>, i: usize) -> (r: Option<(Vec<char>, usize)>)
    requires
        i <= s@.len(),
    ensures
        match r {
            Some((t, j)) => parse_number(s@, i as int) == Some((t@, j as int)) && i < j <= s@.len(),
            None => parse_number(s@, i as int) is None,
        },
{
    if !(i < s.len()) {
        return None;
    }
    let j0 = if s[i] == '-' { i + 1 } else { i };
    let j1: usize;
    if j0 < s.len() && s[j0] == '0' {
        j1 = j0 + 1;
    } else if j0 < s.len() && (s[j0] as u32) >= '0' as u32 && (s[j0] as u32) <= '9' as u32 {
        j1 = j0 + 1 + run_digits(s, j0 + 1);
    } else {
        return None;
    }
    // fraction
    let j2: usize;
    if j1 < s.len() && s[j1] == '.' {
        let d = run_digits(s, j1 + 1);
        if d == 0 {
            return None;
        }
        j2 = j1 + 1 + d;
    } else {
        j2 = j1;
    }
    // exponent
    let j3: usize;
    if j2 < s.len() && (s[j2] == 'e' || s[j2] == 'E') {
        let k = if j2 + 1 < s.len() && (s[j2 + 1] == '+' || s[j2 + 1] == '-') { j2 + 2 } else { j2 + 1 };
        let d = run_digits(s, k);
        if d == 0 {
            return None;
        }
        j3 = k + d;
    } else {
        j3 = j2;
    }
    let t = copy_range(s, i, j3);
    Some((t, j3))
}

/// Parses one JSON value at `i`.
#[verifier::rlimit(100)]
#[verifier::spinoff_prover]
fn p_value(s: &Vec<char>, i: usize) -> (r: Option<(Json, usize)>)
    requires
        i <= s@.len(),
    ensures
        match r {
            Some((v, j)) => parse_value(s@, i as int) == Some((v@, j as int)) && i < j <= s@.len(),
            None => parse_value(s@, i as int) is None,
        },
    decreases s@.len() - i, 1int,
{
    if !(i < s.len()) {
        return None;
    }
    let c = s[i];
    if c == 'n' {
        if lit4(s, i, 'n', 'u', 'l', 'l') { Some((Json::Null, i + 4)) } else { None }
    } else if c == 't' {
        if lit4(s, i, 't', 'r', 'u', 'e') { Some((Json::Bool(true), i + 4)) } else { None }
    } else if c == 'f' {
        if lit5(s, i, 'f', 'a', 'l', 's', 'e') { Some((Json::Bool(false), i + 5)) } else { None }
    } else if c == '"' {
        p_value_str(s, i)
    } else if c == '[' {
        p_value_arr(s, i)
    } else if c == '{' {
        p_value_obj(s, i)
    } else if c == '-' || ((c as u32) >= '0' as u32 && (c as u32) <= '9' as u32) {
        p_value_num(s, i)
    } else {
        None
    }
}

/// Parses a string value whose opening quote stands at `i`.
#[verifier::rlimit(100)]
#[verifier::spinoff_prover]
fn p_value_str(s: &Vec<char>, i: usize) -> (r: Option<(Json, usize)>)
    requires
        i < s@.len(),
        s@[i as int] == '"',
    ensures
        match r {
            Some((v, j)) => parse_value(s@, i as int) == Some((v@, j as int)) && i < j <= s@.len(),
            None => parse_value(s@, i as int) is None,
        },
{
    // binding the length keeps the index arithmetic below in range
    let whole = s.len();
    if i >= whole {
        return None;
    }
    match p_str_body(s, i + 1) {
        None => None,
        Some((cs, j)) => Some((Json::Str(crate::chars::string_from_chars(&cs)), j)),
    }
}

/// Parses a number value starting at `i`.
#[verifier::rlimit(100)]
#[verifier::spinoff_prover]
fn p_value_num(s: &Vec<char>, i: usize) -> (r: Option<(Json, usize)>)
    requires
        i < s@.len(),
        s@[i as int] == '-' || is_digit(s@[i as int]),
    ensures
        match r {
            Some((v, j)) => parse_value(s@, i as int) == Some((v@, j as int)) && i < j <= s@.len(),
            None => parse_value(s@, i as int) is None,
        },
{
    match p_number(s, i) {
        None => None,
        Some((t, j)) => Some((Json::Num(crate::chars::string_from_chars(&t)), j)),
    }
}

/// Parses an array value whose bracket stands at `i`.
#[verifier::rlimit(100)]
#[verifier::spinoff_prover]
fn p_value_arr(s: &Vec<char>, i: usize) -> (r: Option<(Json, usize)>)
    requires
        i < s@.len(),
        s@[i as int] == '[',
    ensures
        match r {
            Some((v, j)) => parse_value(s@, i as int) == Some((v@, j as int)) && i < j <= s@.len(),
            None => parse_value(s@, i as int) is None,
        },
    decreases s@.len() - i, 0int,
{
    let whole = s.len();
    let wsl = run_ws(s, i + 1);
    proof {
        assert(i + 1 + wsl <= whole);
    }
    let j = i + 1 + wsl;
    if j < whole && s[j] == ']' {
        let v = Json::Arr(Vec::new());
        proof {
            assert(v@ == JVal::Arr(jvals_of(Seq::<Json>::empty())));
        }
        Some((v, j + 1))
    } else {
        proof {
            assert(idx_in(j as int, i as int + 1, s@.len() as int) == j as int);
        }
        match p_elems(s, j) {
            None => None,
            Some((vs, k)) => Some((Json::Arr(vs), k)),
        }
    }
}

/// Parses an object value whose brace stands at `i`.
#[verifier::rlimit(100)]
#[verifier::spinoff_prover]
fn p_value_obj(s: &Vec<char>, i: usize) -> (r: Option<(Json, usize)>)
    requires
        i < s@.len(),
        s@[i as int] == '{',
    ensures
        match r {
            Some((v, j)) => parse_value(s@, i as int) == Some((v@, j as int)) && i < j <= s@.len(),
            None => parse_value(s@, i as int) is None,
        },
    decreases s@.len() - i, 0int,
{
    let whole = s.len();
    let wsl = run_ws(s, i + 1);
    proof {
        assert(i + 1 + wsl <= whole);
    }
    let j = i + 1 + wsl;
    if j < whole && s[j] == '}' {
        let v = Json::Obj(Vec::new());
        proof {
            assert(v@ == JVal::Obj(jmembers_of(Seq::<(String, Json)>::empty())));
        }
        Some((v, j + 1))
    } else {
        proof {
            assert(idx_in(j as int, i as int + 1, s@.len() as int) == j as int);
        }
        match p_members(s, j) {
            None => None,
            Some((ms, k)) => Some((Json::Obj(ms), k)),
        }
    }
}

/// Parses the elements of a non-empty array, the first starting at `i`.
#[verifier::rlimit(100)]
fn p_elems(s: &Vec<char>, i: usize) -> (r: Option<(Vec<Json>, usize)>)
    requires
        i <= s@.len(),
    ensures
        match r {
            Some((vs, j)) => parse_elems(s@, i as int) == Some((jvals_of(vs@), j as int)) && i < j
                <= s@.len(),
            None => parse_elems(s@, i as int) is None,
        },
    decreases s@.len() - i, 2int,
{
    match p_value(s, i) {
        None => None,
        Some((v, j)) => {
            proof {
                assert(idx_in(j as int, i as int + 1, s@.len() as int) == j as int);
            }
            let wsl = run_ws(s, j);
            let total = s.len();
            proof {
                assert(j + wsl <= total);
            }
            let w = j + wsl;
            proof {
                assert(idx_in(w as int, j as int, s@.len() as int) == w as int);
            }
            if w < total && s[w] == ',' {
                let n = w + 1 + run_ws(s, w + 1);
                proof {
                    assert(idx_in(n as int, w as int + 1, s@.len() as int) == n as int);
                }
                match p_elems(s, n) {
                    None => None,
                    Some((mut vs, k)) => {
                        let ghost old_vs = vs@;
                        vs.insert(0, v);
                        proof {
                            assert(vs@ =~= seq![v] + old_vs);
                            assert(vs@.first() == v);
                            assert(vs@.drop_first() =~= old_vs);
                            assert(jvals_of(vs@) == seq![jval_of(v)] + jvals_of(old_vs));
                        }
                        Some((vs, k))
                    }
                }
            } else if w < s.len() && s[w] == ']' {
                let mut vs: Vec<Json> = Vec::new();
                vs.push(v);
                proof {
                    assert(vs@ =~= seq![v]);
                    assert(vs@.first() == v);
                    assert(vs@.drop_first() =~= Seq::<Json>::empty());
                    assert(jvals_of(Seq::<Json>::empty()) == Seq::<JVal>::empty());
                    assert(jvals_of(vs@) =~= seq![jval_of(v)]);
                }
                Some((vs, w + 1))
            } else {
                None
            }
        }
    }
}

/// Parses the members of a non-empty object, the first key starting at `i`.
#[verifier::rlimit(100)]
fn p_members(s: &Vec<char>, i: usize) -> (r: Option<(Vec<(String, Json)>, usize)>)
    requires
        i <= s@.len(),
    ensures
        match r {
            Some((ms, j)) => parse_members(s@, i as int) == Some((jmembers_of(ms@), j as int)) && i
                < j <= s@.len(),
            None => parse_members(s@, i as int) is None,
        },
    decreases s@.len() - i, 2int,
{
    if !(i < s.len()) {
        return None;
    }
    if !(s[i] == '"') {
        return None;
    }
    match p_str_body(s, i + 1) {
        None => None,
        Some((key, j)) => {
            proof {
                assert(idx_in(j as int, i as int + 1, s@.len() as int) == j as int);
            }
            let c = j + run_ws(s, j);
            proof {
                assert(idx_in(c as int, j as int, s@.len() as int) == c as int);
            }
            if c < s.len() && s[c] == ':' {
                let m = c + 1 + run_ws(s, c + 1);
                proof {
                    assert(idx_in(m as int, c as int + 1, s@.len() as int) == m as int);
                }
                match p_value(s, m) {
                    None => None,
                    Some((v, e)) => {
                        proof {
                            assert(idx_in(e as int, m as int + 1, s@.len() as int) == e as int);
                        }
                        let w = e + run_ws(s, e);
                        proof {
                            assert(idx_in(w as int, e as int, s@.len() as int) == w as int);
                        }
                        let keystr = crate::chars::string_from_chars(&key);
                        if w < s.len() && s[w] == ',' {
                            let n = w + 1 + run_ws(s, w + 1);
                            proof {
                                assert(idx_in(n as int, w as int + 1, s@.len() as int) == n as int);
                            }
                            match p_members(s, n) {
                                None => None,
                                Some((mut ms, k)) => {
                                    let ghost old_ms = ms@;
                                    ms.insert(0, (keystr, v));
                                    proof {
                                        assert(ms@ =~= seq![(keystr, v)] + old_ms);
                                        assert(ms@.first() == (keystr, v));
                                        assert(ms@.drop_first() =~= old_ms);
                                        assert(jmembers_of(ms@) == seq![(keystr@, jval_of(v))]
                                            + jmembers_of(old_ms));
                                    }
                                    Some((ms, k))
                                }
                            }
                        } else if w < s.len() && s[w] == '}' {
                            let mut ms: Vec<(String, Json)> = Vec::new();
                            ms.push((keystr, v));
                            proof {
                                assert(ms@ =~= seq![(keystr, v)]);
                                assert(ms@.first() == (keystr, v));
                                assert(ms@.drop_first() =~= Seq::<(String, Json)>::empty());
                                assert(jmembers_of(Seq::<(String, Json)>::empty())
                                    == Seq::<(Seq<char>, JVal)>::empty());
                                assert(jmembers_of(ms@) =~= seq![(keystr@, jval_of(v))]);
                            }
                            Some((ms, w + 1))
                        } else {
                            None
                        }
                    }
                }
            } else {
                None
            }
        }
    }
}

/// Parses a whole JSON document: one value surrounded by whitespace only.
pub fn parse_text(s: &str) -> (r: Option<Json>)
    ensures
        match r {
            Some(v) => parse_json(s@) == Some(v@),
            None => parse_json(s@) is None,
        },
{
    let cs = crate::chars::chars_of_str(s);
    let i = run_ws(&cs, 0);
    match p_value(&cs, i) {
        None => None,
        Some((v, j)) => {
            proof {
                assert(idx_in(j as int, i as int, cs@.len() as int) == j as int);
            }
            let w = run_ws(&cs, j);
            if j + w == cs.len() {
                Some(v)
            } else {
                None
            }
        }
    }
}

/// `s` is in its entirety one well-formed JSON number.
pub open spec fn is_json_number(s: Seq<char>) -> bool {
    parse_number(s, 0) == Some((s, s.len() as int))
}

/// Whether `s` is in its entirety one well-formed JSON number.
pub fn check_json_number(s: &str) -> (r: bool)
    ensures
        r == is_json_number(s@),
{
    let cs = crate::chars::chars_of_str(s);
    match p_number(&cs, 0) {
        None => false,
        Some((t, j)) => {
            if j == cs.len() {
                proof {
                    assert(s@.subrange(0, s@.len() as int) =~= s@);
                }
                true
            } else {
                false
            }
        }
    }
}

} // verus!
