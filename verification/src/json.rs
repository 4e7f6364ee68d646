//! A JSON value model with a verified writer and a parser.
//!
//! Metadata documents are JSON. Values are modelled as a tree; integer
//! number tokens are held as integers, any other number token is kept as its
//! exact text, so writing a parsed document reproduces its numbers verbatim.
//! The writer is specified exactly by [`json_text`]; the parser rejects
//! malformed documents with a positioned error message and is exercised by
//! tests.

use vstd::prelude::*;
use vstd::string::StrSliceExecFns;
use vstd::string::StringExecFns;

use crate::text::{dec_of, digit_char, u64_to_dec_string};

verus! {

/// A JSON value.
#[derive(Debug)]
pub enum JsonValue {
    /// `null`.
    Null,
    /// `true` or `false`.
    Bool(bool),
    /// A non-negative integer number token.
    UInt(u64),
    /// A negative integer number token.
    Int(i64),
    /// Any other number token, kept as its exact text.
    NumLex(String),
    /// A string.
    Str(String),
    /// An array.
    Array(Vec<JsonValue>),
    /// An object: fields in document order.
    Object(Vec<(String, JsonValue)>),
}

/// A value is well formed: negative integers use the `Int` form and kept
/// number texts are non-empty.
pub open spec fn value_wf(v: JsonValue) -> bool
    decreases v,
{
    match v {
        JsonValue::Int(i) => i < 0,
        JsonValue::NumLex(s) => s@.len() > 0,
        JsonValue::Array(elems) => forall|i: int|
            0 <= i < elems@.len() ==> value_wf(#[trigger] elems@[i]),
        JsonValue::Object(entries) => forall|i: int|
            0 <= i < entries@.len() ==> value_wf((#[trigger] entries@[i]).1),
        _ => true,
    }
}

/// The hexadecimal digit of a value below sixteen.
pub open spec fn hex_char(d: nat) -> char {
    if d < 10 {
        digit_char(d)
    } else if d == 10 {
        'a'
    } else if d == 11 {
        'b'
    } else if d == 12 {
        'c'
    } else if d == 13 {
        'd'
    } else if d == 14 {
        'e'
    } else {
        'f'
    }
}

/// The escape of one string character.
pub open spec fn escape_char(c: char) -> Seq<char> {
    if c == '"' {
        seq!['\\', '"']
    } else if c == '\\' {
        seq!['\\', '\\']
    } else if c == '\n' {
        seq!['\\', 'n']
    } else if c == '\t' {
        seq!['\\', 't']
    } else if c == '\r' {
        seq!['\\', 'r']
    } else if (c as u32) < 32 {
        seq!['\\', 'u', '0', '0', hex_char((c as u32 / 16) as nat), hex_char((c as u32 % 16) as nat)]
    } else {
        seq![c]
    }
}

/// The escaped text of a string body.
pub open spec fn escape_text(s: Seq<char>) -> Seq<char>
    decreases s.len(),
{
    if s.len() == 0 {
        Seq::empty()
    } else {
        escape_char(s[0]) + escape_text(s.skip(1))
    }
}

/// The text of a quoted string.
pub open spec fn quoted_text(s: Seq<char>) -> Seq<char> {
    seq!['"'] + escape_text(s) + seq!['"']
}

/// The text of a JSON value.
pub open spec fn json_text(v: JsonValue) -> Seq<char>
    decreases v,
{
    match v {
        JsonValue::Null => "null"@,
        JsonValue::Bool(b) => if b {
            "true"@
        } else {
            "false"@
        },
        JsonValue::UInt(n) => dec_of(n as nat),
        JsonValue::Int(i) => seq!['-'] + dec_of((-(i as int)) as nat),
        JsonValue::NumLex(s) => s@,
        JsonValue::Str(s) => quoted_text(s@),
        JsonValue::Array(elems) => seq!['['] + array_text(elems@) + seq![']'],
        JsonValue::Object(entries) => seq!['{'] + object_text(entries@) + seq!['}'],
    }
}

/// The comma-joined text of array elements.
pub open spec fn array_text(vs: Seq<JsonValue>) -> Seq<char>
    decreases vs,
{
    if vs.len() == 0 {
        Seq::empty()
    } else if vs.len() == 1 {
        json_text(vs[0])
    } else {
        json_text(vs[0]) + seq![','] + array_text(vs.skip(1))
    }
}

/// The comma-joined text of object entries.
pub open spec fn object_text(es: Seq<(String, JsonValue)>) -> Seq<char>
    decreases es,
{
    if es.len() == 0 {
        Seq::empty()
    } else if es.len() == 1 {
        quoted_text(es[0].0@) + seq![':'] + json_text(es[0].1)
    } else {
        quoted_text(es[0].0@) + seq![':'] + json_text(es[0].1) + seq![','] + object_text(
            es.skip(1),
        )
    }
}

/// The value of the first object entry named `k`, in document order.
pub open spec fn object_get(es: Seq<(String, JsonValue)>, k: Seq<char>) -> Option<JsonValue>
    decreases es.len(),
{
    if es.len() == 0 {
        None
    } else if es[0].0@ == k {
        Some(es[0].1)
    } else {
        object_get(es.skip(1), k)
    }
}

/// Append one character to a string.
///
/// Relies on `String::push`: appends exactly the given character.
#[verifier::external_body]
fn string_push_char(s: &mut String, c: char)
    ensures
        final(s)@ == old(s)@.push(c),
{
    s.push(c);
}

/// Decode UTF-8 bytes into a string.
///
/// Relies on `String::from_utf8`: succeeds exactly on valid UTF-8, returning
/// the characters those bytes encode.
#[verifier::external_body]
pub fn string_from_utf8(bytes: Vec<u8>) -> (r: Option<String>)
    ensures
        r matches Some(s) ==> vstd::utf8::encode_utf8(s@) == bytes@,
        r is Some <==> vstd::utf8::valid_utf8(bytes@),
{
    String::from_utf8(bytes).ok()
}

/// The characters of a string slice, one by one.
pub fn str_to_chars(s: &str) -> (r: Vec<char>)
    ensures
        r@ == s@,
{
    let n = s.unicode_len();
    let mut out: Vec<char> = Vec::new();
    let mut i: usize = 0;
    while i < n
        invariant
            0 <= i <= n,
            n == s@.len(),
            out@ =~= s@.take(i as int),
        decreases n - i,
    {
        out.push(s.get_char(i));
        proof {
            assert(out@ =~= s@.take(i + 1));
        }
        i = i + 1;
    }
    proof {
        assert(s@.take(n as int) =~= s@);
    }
    out
}

/// Append the escaped text of one character.
fn write_escaped_char(out: &mut String, c: char)
    ensures
        final(out)@ == old(out)@ + escape_char(c),
{
    proof {
        reveal_strlit("\\\"");
        reveal_strlit("\\\\");
        reveal_strlit("\\n");
        reveal_strlit("\\t");
        reveal_strlit("\\r");
        reveal_strlit("\\u00");
    }
    if c == '"' {
        out.append("\\\"");
        proof {
            assert(old(out)@ + "\\\""@ =~= old(out)@ + escape_char(c));
        }
    } else if c == '\\' {
        out.append("\\\\");
        proof {
            assert(old(out)@ + "\\\\"@ =~= old(out)@ + escape_char(c));
        }
    } else if c == '\n' {
        out.append("\\n");
        proof {
            assert(old(out)@ + "\\n"@ =~= old(out)@ + escape_char(c));
        }
    } else if c == '\t' {
        out.append("\\t");
        proof {
            assert(old(out)@ + "\\t"@ =~= old(out)@ + escape_char(c));
        }
    } else if c == '\r' {
        out.append("\\r");
        proof {
            assert(old(out)@ + "\\r"@ =~= old(out)@ + escape_char(c));
        }
    } else if (c as u32) < 32 {
        let hi = (c as u32) / 16;
        let lo = (c as u32) % 16;
        out.append("\\u00");
        write_hex_digit(out, hi);
        write_hex_digit(out, lo);
        proof {
            assert(final(out)@ =~= old(out)@ + escape_char(c));
        }
    } else {
        string_push_char(out, c);
        proof {
            assert(old(out)@.push(c) =~= old(out)@ + escape_char(c));
        }
    }
}

/// Append one hexadecimal digit.
fn write_hex_digit(out: &mut String, d: u32)
    requires
        d < 16,
    ensures
        final(out)@ == old(out)@.push(hex_char(d as nat)),
{
    let lit: &str = if d == 0 {
        "0"
    } else if d == 1 {
        "1"
    } else if d == 2 {
        "2"
    } else if d == 3 {
        "3"
    } else if d == 4 {
        "4"
    } else if d == 5 {
        "5"
    } else if d == 6 {
        "6"
    } else if d == 7 {
        "7"
    } else if d == 8 {
        "8"
    } else if d == 9 {
        "9"
    } else if d == 10 {
        "a"
    } else if d == 11 {
        "b"
    } else if d == 12 {
        "c"
    } else if d == 13 {
        "d"
    } else if d == 14 {
        "e"
    } else {
        "f"
    };
    proof {
        reveal_strlit("0");
        reveal_strlit("1");
        reveal_strlit("2");
        reveal_strlit("3");
        reveal_strlit("4");
        reveal_strlit("5");
        reveal_strlit("6");
        reveal_strlit("7");
        reveal_strlit("8");
        reveal_strlit("9");
        reveal_strlit("a");
        reveal_strlit("b");
        reveal_strlit("c");
        reveal_strlit("d");
        reveal_strlit("e");
        reveal_strlit("f");
        assert(lit@ =~= seq![hex_char(d as nat)]);
    }
    out.append(lit);
    proof {
        assert(old(out)@ + seq![hex_char(d as nat)] =~= old(out)@.push(hex_char(d as nat)));
    }
}

/// Append the quoted, escaped text of a string.
pub fn write_quoted(out: &mut String, s: &str)
    ensures
        final(out)@ == old(out)@ + quoted_text(s@),
{
    let cs = str_to_chars(s);
    proof {
        reveal_strlit("\"");
    }
    out.append("\"");
    let mut i: usize = 0;
    while i < cs.len()
        invariant
            0 <= i <= cs@.len(),
            cs@ == s@,
            out@ == old(out)@ + seq!['"'] + escape_text(s@.take(i as int)),
        decreases cs@.len() - i,
    {
        write_escaped_char(out, cs[i]);
        i = i + 1;
        proof {
            lemma_escape_text_snoc(s@, i as int);
            assert((old(out)@ + seq!['"'] + escape_text(s@.take(i - 1))) + escape_char(
                s@[i - 1],
            ) =~= old(out)@ + seq!['"'] + (escape_text(s@.take(i - 1)) + escape_char(s@[i - 1])));
        }
    }
    out.append("\"");
    proof {
        assert(s@.take(s@.len() as int) =~= s@);
        assert(((old(out)@ + seq!['"'] + escape_text(s@)) + "\""@) =~= old(out)@ + quoted_text(
            s@,
        ));
    }
}

/// Escaping one more character extends the escaped text at the end.
proof fn lemma_escape_text_snoc(s: Seq<char>, i: int)
    requires
        0 < i <= s.len(),
    ensures
        escape_text(s.take(i)) == escape_text(s.take(i - 1)) + escape_char(s[i - 1]),
    decreases i,
{
    if i == 1 {
        assert(s.take(1)[0] == s[0]);
        assert(s.take(1).skip(1) =~= Seq::<char>::empty());
        assert(escape_text(s.take(0)) =~= Seq::<char>::empty());
        assert(s.take(0) =~= Seq::<char>::empty());
        assert(escape_text(s.take(1)) == escape_char(s[0]) + escape_text(s.take(1).skip(1)));
        assert(escape_char(s[0]) + escape_text(Seq::<char>::empty()) =~= escape_text(s.take(0))
            + escape_char(s[0]));
    } else {
        lemma_escape_text_snoc(s.skip(1), i - 1);
        assert(s.take(i).skip(1) =~= s.skip(1).take(i - 1));
        assert(s.take(i - 1).skip(1) =~= s.skip(1).take(i - 2));
        assert(s.take(i)[0] == s[0]);
        assert(s.take(i - 1)[0] == s[0]);
        assert(escape_text(s.take(i)) == escape_char(s[0]) + escape_text(s.skip(1).take(i - 1)));
        assert(escape_text(s.take(i - 1)) == escape_char(s[0]) + escape_text(
            s.skip(1).take(i - 2),
        ));
        assert(s.skip(1)[i - 2] == s[i - 1]);
        assert((escape_char(s[0]) + escape_text(s.skip(1).take(i - 2))) + escape_char(s[i - 1])
            =~= escape_char(s[0]) + (escape_text(s.skip(1).take(i - 2)) + escape_char(s[i - 1])));
    }
}

/// Append the text of a JSON value.
pub fn write_value(out: &mut String, v: &JsonValue)
    requires
        value_wf(*v),
    ensures
        final(out)@ == old(out)@ + json_text(*v),
    decreases *v,
{
    proof {
        reveal_strlit("null");
        reveal_strlit("true");
        reveal_strlit("false");
        reveal_strlit("-");
        reveal_strlit("[");
        reveal_strlit("]");
        reveal_strlit("{");
        reveal_strlit("}");
        reveal_strlit(",");
        reveal_strlit(":");
    }
    match v {
        JsonValue::Null => {
            out.append("null");
        },
        JsonValue::Bool(b) => {
            if *b {
                out.append("true");
            } else {
                out.append("false");
            }
        },
        JsonValue::UInt(n) => {
            let t = u64_to_dec_string(*n);
            out.append(t.as_str());
        },
        JsonValue::Int(i) => {
            out.append("-");
            let mag: u64 = if *i == i64::MIN {
                9223372036854775808u64
            } else {
                (-(*i)) as u64
            };
            let t = u64_to_dec_string(mag);
            out.append(t.as_str());
            proof {
                assert((old(out)@ + "-"@) + dec_of(mag as nat) =~= old(out)@ + ("-"@ + dec_of(
                    mag as nat,
                )));
                assert("-"@ =~= seq!['-']);
            }
        },
        JsonValue::NumLex(s) => {
            out.append(s.as_str());
        },
        JsonValue::Str(s) => {
            write_quoted(out, s.as_str());
        },
        JsonValue::Array(elems) => {
            out.append("[");
            let mut i: usize = 0;
            proof {
                assert(decreases_to!(*v => v->Array_0));
                assert(v->Array_0 == *elems);
                assert(forall|j: int| 0 <= j < elems@.len() ==> value_wf(#[trigger] elems@[j]));
            }
            while i < elems.len()
                invariant
                    0 <= i <= elems@.len(),
                    decreases_to!(*v => *elems),
                    forall|j: int| 0 <= j < elems@.len() ==> value_wf(#[trigger] elems@[j]),
                    out@ == old(out)@ + seq!['['] + array_prefix_text(elems@, i as int),
                decreases elems@.len() - i,
            {
                proof {
                    reveal_strlit(",");
                    assert(decreases_to!(*elems => elems@[i as int]));
                    assert(value_wf(elems@[i as int]));
                }
                if i > 0 {
                    out.append(",");
                    proof {
                        assert(","@ =~= seq![',']);
                    }
                }
                write_value(out, &elems[i]);
                i = i + 1;
                proof {
                    lemma_array_prefix_snoc(elems@, i as int);
                    assert(out@ =~= old(out)@ + seq!['['] + array_prefix_text(elems@, i as int));
                }
            }
            out.append("]");
            proof {
                assert(array_prefix_text(elems@, elems@.len() as int) == array_text(elems@)) by {
                    lemma_array_prefix_full(elems@);
                }
                assert("]"@ =~= seq![']']);
                assert((old(out)@ + seq!['['] + array_text(elems@)) + seq![']'] =~= old(out)@ + (
                seq!['['] + array_text(elems@) + seq![']']));
            }
        },
        JsonValue::Object(entries) => {
            out.append("{");
            let mut i: usize = 0;
            proof {
                assert(decreases_to!(*v => v->Object_0));
                assert(v->Object_0 == *entries);
                assert(forall|j: int|
                    0 <= j < entries@.len() ==> value_wf((#[trigger] entries@[j]).1));
            }
            while i < entries.len()
                invariant
                    0 <= i <= entries@.len(),
                    decreases_to!(*v => *entries),
                    forall|j: int|
                        0 <= j < entries@.len() ==> value_wf((#[trigger] entries@[j]).1),
                    out@ == old(out)@ + seq!['{'] + object_prefix_text(entries@, i as int),
                decreases entries@.len() - i,
            {
                proof {
                    reveal_strlit(",");
                    reveal_strlit(":");
                    assert(decreases_to!(*entries => entries@[i as int]));
                    assert(decreases_to!(entries@[i as int] => entries@[i as int].1));
                    assert(value_wf(entries@[i as int].1));
                }
                if i > 0 {
                    out.append(",");
                    proof {
                        assert(","@ =~= seq![',']);
                    }
                }
                write_quoted(out, entries[i].0.as_str());
                out.append(":");
                proof {
                    assert(":"@ =~= seq![':']);
                }
                write_value(out, &entries[i].1);
                i = i + 1;
                proof {
                    lemma_object_prefix_snoc(entries@, i as int);
                    assert(out@ =~= old(out)@ + seq!['{'] + object_prefix_text(
                        entries@,
                        i as int,
                    ));
                }
            }
            out.append("}");
            proof {
                assert(object_prefix_text(entries@, entries@.len() as int) == object_text(
                    entries@,
                )) by {
                    lemma_object_prefix_full(entries@);
                }
                assert("}"@ =~= seq!['}']);
                assert((old(out)@ + seq!['{'] + object_text(entries@)) + seq!['}'] =~= old(out)@
                    + (seq!['{'] + object_text(entries@) + seq!['}']));
            }
        },
    }
}

/// The text of the first `i` elements of an array, with separating commas.
pub open spec fn array_prefix_text(vs: Seq<JsonValue>, i: int) -> Seq<char>
    recommends
        0 <= i <= vs.len(),
    decreases i,
{
    if i <= 0 {
        Seq::empty()
    } else if i == 1 {
        json_text(vs[0])
    } else {
        array_prefix_text(vs, i - 1) + seq![','] + json_text(vs[i - 1])
    }
}

/// The text of the first `i` entries of an object, with separating commas.
pub open spec fn object_prefix_text(es: Seq<(String, JsonValue)>, i: int) -> Seq<char>
    recommends
        0 <= i <= es.len(),
    decreases i,
{
    if i <= 0 {
        Seq::empty()
    } else if i == 1 {
        quoted_text(es[0].0@) + seq![':'] + json_text(es[0].1)
    } else {
        object_prefix_text(es, i - 1) + seq![','] + quoted_text(es[i - 1].0@) + seq![':']
            + json_text(es[i - 1].1)
    }
}

/// One more element extends the prefix text.
proof fn lemma_array_prefix_snoc(vs: Seq<JsonValue>, i: int)
    requires
        0 < i <= vs.len(),
    ensures
        array_prefix_text(vs, i) == if i == 1 {
            array_prefix_text(vs, 0) + json_text(vs[0])
        } else {
            (array_prefix_text(vs, i - 1) + seq![',']) + json_text(vs[i - 1])
        },
{
    if i == 1 {
        assert(array_prefix_text(vs, 0) + json_text(vs[0]) =~= json_text(vs[0]));
    } else {
        assert((array_prefix_text(vs, i - 1) + seq![',']) + json_text(vs[i - 1])
            =~= array_prefix_text(vs, i - 1) + seq![','] + json_text(vs[i - 1]));
    }
}

/// One more entry extends the prefix text.
pub proof fn lemma_object_prefix_snoc(es: Seq<(String, JsonValue)>, i: int)
    requires
        0 < i <= es.len(),
    ensures
        object_prefix_text(es, i) == if i == 1 {
            object_prefix_text(es, 0) + (quoted_text(es[0].0@) + seq![':'] + json_text(es[0].1))
        } else {
            ((object_prefix_text(es, i - 1) + seq![',']) + quoted_text(es[i - 1].0@) + seq![':'])
                + json_text(es[i - 1].1)
        },
{
    if i == 1 {
        assert(object_prefix_text(es, 0) + (quoted_text(es[0].0@) + seq![':'] + json_text(
            es[0].1,
        )) =~= quoted_text(es[0].0@) + seq![':'] + json_text(es[0].1));
    } else {
        assert(((object_prefix_text(es, i - 1) + seq![',']) + quoted_text(es[i - 1].0@) + seq![
            ':',
        ]) + json_text(es[i - 1].1) =~= object_prefix_text(es, i - 1) + seq![','] + quoted_text(
            es[i - 1].0@,
        ) + seq![':'] + json_text(es[i - 1].1));
    }
}

/// The full prefix text is the array text.
proof fn lemma_array_prefix_full(vs: Seq<JsonValue>)
    ensures
        array_prefix_text(vs, vs.len() as int) == array_text(vs),
    decreases vs.len(),
{
    if vs.len() == 0 {
        assert(array_text(vs) =~= Seq::<char>::empty());
    } else if vs.len() == 1 {
    } else {
        lemma_array_prefix_shift(vs, vs.len() as int);
        lemma_array_prefix_full(vs.skip(1));
        assert(array_text(vs) == json_text(vs[0]) + seq![','] + array_text(vs.skip(1)));
        assert(json_text(vs[0]) + seq![','] + array_prefix_text(vs.skip(1), vs.len() - 1)
            =~= json_text(vs[0]) + seq![','] + array_text(vs.skip(1)));
    }
}

/// A prefix of a longer array splits off its head.
proof fn lemma_array_prefix_shift(vs: Seq<JsonValue>, i: int)
    requires
        1 <= i <= vs.len(),
        vs.len() >= 2,
    ensures
        array_prefix_text(vs, i) == if i == 1 {
            json_text(vs[0])
        } else {
            json_text(vs[0]) + seq![','] + array_prefix_text(vs.skip(1), i - 1)
        },
    decreases i,
{
    if i == 1 {
    } else if i == 2 {
        assert(vs.skip(1)[0] == vs[1]);
        assert(array_prefix_text(vs, 2) == array_prefix_text(vs, 1) + seq![','] + json_text(
            vs[1],
        ));
        assert(json_text(vs[0]) + seq![','] + json_text(vs.skip(1)[0]) =~= array_prefix_text(
            vs,
            1,
        ) + seq![','] + json_text(vs[1]));
    } else {
        lemma_array_prefix_shift(vs, i - 1);
        assert(vs.skip(1)[i - 2] == vs[i - 1]);
        assert((json_text(vs[0]) + seq![','] + array_prefix_text(vs.skip(1), i - 2)) + seq![',']
            + json_text(vs[i - 1]) =~= json_text(vs[0]) + seq![','] + (array_prefix_text(
            vs.skip(1),
            i - 2,
        ) + seq![','] + json_text(vs.skip(1)[i - 2])));
    }
}

/// The full prefix text is the object text.
pub proof fn lemma_object_prefix_full(es: Seq<(String, JsonValue)>)
    ensures
        object_prefix_text(es, es.len() as int) == object_text(es),
    decreases es.len(),
{
    if es.len() == 0 {
        assert(object_text(es) =~= Seq::<char>::empty());
    } else if es.len() == 1 {
    } else {
        lemma_object_prefix_shift(es, es.len() as int);
        lemma_object_prefix_full(es.skip(1));
        assert(quoted_text(es[0].0@) + seq![':'] + json_text(es[0].1) + seq![',']
            + object_prefix_text(es.skip(1), es.len() - 1) =~= quoted_text(es[0].0@) + seq![':']
            + json_text(es[0].1) + seq![','] + object_text(es.skip(1)));
    }
}

/// A prefix of a longer object splits off its head.
proof fn lemma_object_prefix_shift(es: Seq<(String, JsonValue)>, i: int)
    requires
        1 <= i <= es.len(),
        es.len() >= 2,
    ensures
        object_prefix_text(es, i) == if i == 1 {
            quoted_text(es[0].0@) + seq![':'] + json_text(es[0].1)
        } else {
            quoted_text(es[0].0@) + seq![':'] + json_text(es[0].1) + seq![',']
                + object_prefix_text(es.skip(1), i - 1)
        },
    decreases i,
{
    if i == 1 {
    } else if i == 2 {
        assert(es.skip(1)[0] == es[1]);
        assert(quoted_text(es[0].0@) + seq![':'] + json_text(es[0].1) + seq![','] + (quoted_text(
            es.skip(1)[0].0@,
        ) + seq![':'] + json_text(es.skip(1)[0].1)) =~= (object_prefix_text(es, 1) + seq![','])
            + quoted_text(es[1].0@) + seq![':'] + json_text(es[1].1));
    } else {
        lemma_object_prefix_shift(es, i - 1);
        assert(es.skip(1)[i - 2] == es[i - 1]);
        assert(((quoted_text(es[0].0@) + seq![':'] + json_text(es[0].1) + seq![',']
            + object_prefix_text(es.skip(1), i - 2)) + seq![',']) + quoted_text(es[i - 1].0@)
            + seq![':'] + json_text(es[i - 1].1) =~= quoted_text(es[0].0@) + seq![':'] + json_text(
            es[0].1,
        ) + seq![','] + (object_prefix_text(es.skip(1), i - 2) + seq![','] + quoted_text(
            es.skip(1)[i - 2].0@,
        ) + seq![':'] + json_text(es.skip(1)[i - 2].1)));
    }
}

/// A JSON parse error, with the position at which parsing failed.
#[derive(Clone, Debug)]
pub struct JsonParseError {
    /// What went wrong.
    pub what: &'static str,
    /// The line of the failure, counting from one.
    pub line: u64,
    /// The column of the failure, counting from one.
    pub column: u64,
}

impl JsonParseError {
    /// The error message.
    pub fn to_string(&self) -> (r: String)
        ensures
            r@ == self.what@ + " at line "@ + dec_of(self.line as nat) + " column "@ + dec_of(
                self.column as nat,
            ),
    {
        let mut s = String::new();
        s.append(self.what);
        s.append(" at line ");
        let line = u64_to_dec_string(self.line);
        s.append(line.as_str());
        s.append(" column ");
        let column = u64_to_dec_string(self.column);
        s.append(column.as_str());
        proof {
            assert(Seq::<char>::empty() + self.what@ + " at line "@ + dec_of(self.line as nat)
                + " column "@ + dec_of(self.column as nat) =~= self.what@ + " at line "@ + dec_of(
                self.line as nat,
            ) + " column "@ + dec_of(self.column as nat));
        }
        s
    }
}

/// The error `what` at character position `pos` of `cs`.
fn error_at(cs: &Vec<char>, pos: usize, what: &'static str) -> (r: JsonParseError)
    requires
        pos <= cs@.len(),
    ensures
        r.what == what,
{
    let mut line: u64 = 1;
    let mut line_start: usize = 0;
    let mut i: usize = 0;
    while i < pos
        invariant
            0 <= i <= pos,
            pos <= cs@.len(),
            line_start <= i,
            1 <= line,
        decreases pos - i,
    {
        if cs[i] == '\n' {
            if line < u64::MAX {
                line = line + 1;
            }
            line_start = i + 1;
        }
        i = i + 1;
    }
    let diff: u64 = (pos - line_start) as u64;
    let column: u64 = if diff < u64::MAX {
        diff + 1
    } else {
        diff
    };
    JsonParseError { what, line, column }
}

/// A character of decimal digit value, if any.
fn digit_value(c: char) -> (r: Option<u64>)
    ensures
        r matches Some(d) ==> d < 10,
{
    if c == '0' {
        Some(0)
    } else if c == '1' {
        Some(1)
    } else if c == '2' {
        Some(2)
    } else if c == '3' {
        Some(3)
    } else if c == '4' {
        Some(4)
    } else if c == '5' {
        Some(5)
    } else if c == '6' {
        Some(6)
    } else if c == '7' {
        Some(7)
    } else if c == '8' {
        Some(8)
    } else if c == '9' {
        Some(9)
    } else {
        None
    }
}

/// A character of hexadecimal digit value, if any.
fn hex_value(c: char) -> (r: Option<u32>)
    ensures
        r matches Some(d) ==> d < 16,
{
    if c == 'a' || c == 'A' {
        Some(10)
    } else if c == 'b' || c == 'B' {
        Some(11)
    } else if c == 'c' || c == 'C' {
        Some(12)
    } else if c == 'd' || c == 'D' {
        Some(13)
    } else if c == 'e' || c == 'E' {
        Some(14)
    } else if c == 'f' || c == 'F' {
        Some(15)
    } else {
        match digit_value(c) {
            Some(d) => Some(d as u32),
            None => None,
        }
    }
}

/// A character of hexadecimal digit value, if any.
pub fn hex_digit_value(c: char) -> (r: Option<u32>)
    ensures
        r matches Some(d) ==> d < 16,
{
    hex_value(c)
}

/// Append the two hexadecimal digits of a byte.
pub fn push_hex_byte(s: &mut String, b: u8)
    ensures
        final(s)@.len() == old(s)@.len() + 2,
        final(s)@ == old(s)@.push(hex_char((b / 16) as nat)).push(hex_char((b % 16) as nat)),
{
    let hi = (b / 16) as u32;
    let lo = (b % 16) as u32;
    write_hex_digit(s, hi);
    write_hex_digit(s, lo);
}

/// The character of a Unicode scalar value.
///
/// Relies on `char::from_u32`: `Some` exactly for scalar values, holding the
/// character with that value.
#[verifier::external_body]
fn char_from_u32(x: u32) -> (r: Option<char>)
    ensures
        r matches Some(c) ==> c as u32 == x,
{
    char::from_u32(x)
}

/// A string of the given characters.
fn chars_to_string(cs: &Vec<char>) -> (r: String)
    ensures
        r@ == cs@,
{
    let mut out = String::new();
    let mut i: usize = 0;
    while i < cs.len()
        invariant
            0 <= i <= cs@.len(),
            out@ =~= cs@.take(i as int),
        decreases cs@.len() - i,
    {
        string_push_char(&mut out, cs[i]);
        proof {
            assert(out@ =~= cs@.take(i + 1));
        }
        i = i + 1;
    }
    proof {
        assert(cs@.take(cs@.len() as int) =~= cs@);
    }
    out
}

/// Whether a character is JSON whitespace.
fn is_ws(c: char) -> bool {
    c == ' ' || c == '\t' || c == '\n' || c == '\r'
}

/// The first non-whitespace position at or after `pos`.
fn skip_ws(cs: &Vec<char>, pos: usize) -> (r: usize)
    requires
        pos <= cs@.len(),
    ensures
        pos <= r <= cs@.len(),
{
    let mut p = pos;
    while p < cs.len() && is_ws(cs[p])
        invariant
            pos <= p <= cs@.len(),
        decreases cs@.len() - p,
    {
        p = p + 1;
    }
    p
}

/// Parse the literal `lit` at `pos`.
fn parse_literal(cs: &Vec<char>, pos: usize, lit: &[char], v: JsonValue) -> (r: Result<
    (JsonValue, usize),
    JsonParseError,
>)
    requires
        pos <= cs@.len(),
        lit@.len() >= 1,
        value_wf(v),
    ensures
        r matches Ok(p) ==> pos < p.1 <= cs@.len() && value_wf(p.0),
{
    let ghost gv = v;
    if cs.len() - pos < lit.len() {
        return Err(error_at(cs, pos, "expected value"));
    }
    let n = cs.len();
    let mut i: usize = 0;
    while i < lit.len()
        invariant
            0 <= i <= lit@.len(),
            pos + lit@.len() <= cs@.len(),
            n == cs@.len(),
        decreases lit@.len() - i,
    {
        if cs[pos + i] != lit[i] {
            return Err(error_at(cs, pos, "expected value"));
        }
        i = i + 1;
    }
    proof {
        assert(value_wf(gv));
    }
    Ok((v, pos + lit.len()))
}

/// Parse a JSON string body beginning after the opening quote at `pos - 1`.
fn parse_string_body(cs: &Vec<char>, pos: usize) -> (r: Result<(String, usize), JsonParseError>)
    requires
        pos <= cs@.len(),
    ensures
        r matches Ok(p) ==> pos <= p.1 <= cs@.len(),
{
    let n = cs.len();
    let mut out: Vec<char> = Vec::new();
    let mut p = pos;
    loop
        invariant
            pos <= p <= cs@.len(),
            n == cs@.len(),
        ensures
            pos <= p <= cs@.len(),
        decreases cs@.len() - p,
    {
        if p >= cs.len() {
            return Err(error_at(cs, p, "EOF while parsing a string"));
        }
        let c = cs[p];
        if c == '"' {
            return Ok((chars_to_string(&out), p + 1));
        } else if c == '\\' {
            if p + 1 >= cs.len() {
                return Err(error_at(cs, p, "EOF while parsing a string"));
            }
            let e = cs[p + 1];
            if e == '"' {
                out.push('"');
                p = p + 2;
            } else if e == '\\' {
                out.push('\\');
                p = p + 2;
            } else if e == '/' {
                out.push('/');
                p = p + 2;
            } else if e == 'b' {
                out.push('\u{0008}');
                p = p + 2;
            } else if e == 'f' {
                out.push('\u{000c}');
                p = p + 2;
            } else if e == 'n' {
                out.push('\n');
                p = p + 2;
            } else if e == 'r' {
                out.push('\r');
                p = p + 2;
            } else if e == 't' {
                out.push('\t');
                p = p + 2;
            } else if e == 'u' {
                if cs.len() - p < 6 {
                    return Err(error_at(cs, p, "EOF while parsing a string"));
                }
                let mut code: u32 = 0;
                let mut k: usize = 0;
                let mut bad = false;
                while k < 4
                    invariant
                        0 <= k <= 4,
                        p + 6 <= cs@.len(),
                        n == cs@.len(),
                        code < 0x10000,
                    decreases 4 - k,
                {
                    match hex_value(cs[p + 2 + k]) {
                        Some(d) => {
                            code = (code * 16 + d) % 0x10000;
                        },
                        None => {
                            bad = true;
                            code = 0;
                        },
                    }
                    k = k + 1;
                }
                if bad {
                    return Err(error_at(cs, p, "invalid escape"));
                }
                match char_from_u32(code) {
                    Some(ch) => {
                        out.push(ch);
                        p = p + 6;
                    },
                    None => {
                        return Err(error_at(cs, p, "invalid unicode code point"));
                    },
                }
            } else {
                return Err(error_at(cs, p, "invalid escape"));
            }
        } else if (c as u32) < 32 {
            return Err(error_at(cs, p, "control character (\\u0000-\\u001F) found while parsing a string"));
        } else {
            out.push(c);
            p = p + 1;
        }
    }
}

/// Parse a JSON number token at `pos`.
fn parse_number(cs: &Vec<char>, pos: usize) -> (r: Result<(JsonValue, usize), JsonParseError>)
    requires
        pos < cs@.len(),
    ensures
        r matches Ok(p) ==> pos < p.1 <= cs@.len() && value_wf(p.0),
{
    let n = cs.len();
    let mut p = pos;
    let negative = cs[p] == '-';
    if negative {
        p = p + 1;
        if p >= cs.len() {
            return Err(error_at(cs, p, "EOF while parsing a value"));
        }
    }
    // the integer digits
    let int_start = p;
    while p < cs.len() && digit_value(cs[p]).is_some()
        invariant
            int_start <= p <= cs@.len(),
            pos <= int_start,
            n == cs@.len(),
        decreases cs@.len() - p,
    {
        p = p + 1;
    }
    if p == int_start {
        return Err(error_at(cs, pos, "expected value"));
    }
    if cs[int_start] == '0' && p > int_start + 1 {
        return Err(error_at(cs, int_start + 1, "invalid number"));
    }
    let int_end = p;
    // an optional fraction and exponent make the token non-integral
    let mut integral = true;
    if p < cs.len() && cs[p] == '.' {
        integral = false;
        p = p + 1;
        let frac_start = p;
        while p < cs.len() && digit_value(cs[p]).is_some()
            invariant
                frac_start <= p <= cs@.len(),
                n == cs@.len(),
            decreases cs@.len() - p,
        {
            p = p + 1;
        }
        if p == frac_start {
            return Err(error_at(cs, p, "invalid number"));
        }
    }
    if p < cs.len() && (cs[p] == 'e' || cs[p] == 'E') {
        integral = false;
        p = p + 1;
        if p < cs.len() && (cs[p] == '+' || cs[p] == '-') {
            p = p + 1;
        }
        let exp_start = p;
        while p < cs.len() && digit_value(cs[p]).is_some()
            invariant
                exp_start <= p <= cs@.len(),
                n == cs@.len(),
            decreases cs@.len() - p,
        {
            p = p + 1;
        }
        if p == exp_start {
            return Err(error_at(cs, p, "invalid number"));
        }
    }
    if integral {
        // accumulate the magnitude; fall back to the token text on overflow
        let mut mag: u64 = 0;
        let mut ok = true;
        let mut i = int_start;
        while i < int_end
            invariant
                int_start <= i <= int_end,
                int_end <= cs@.len(),
                n == cs@.len(),
            decreases int_end - i,
        {
            let d = match digit_value(cs[i]) {
                Some(d) => d,
                None => 0,
            };
            match mag.checked_mul(10) {
                Some(m) => {
                    match m.checked_add(d) {
                        Some(m2) => {
                            mag = m2;
                        },
                        None => {
                            ok = false;
                        },
                    }
                },
                None => {
                    ok = false;
                },
            }
            i = i + 1;
        }
        if ok {
            if !negative {
                return Ok((JsonValue::UInt(mag), p));
            }
            if mag == 0 {
                return Ok((JsonValue::UInt(0), p));
            }
            if mag <= 9223372036854775808u64 {
                let v: i64 = if mag == 9223372036854775808u64 {
                    i64::MIN
                } else {
                    -(mag as i64)
                };
                proof {
                    assert(v < 0);
                }
                return Ok((JsonValue::Int(v), p));
            }
        }
    }
    // keep the token text verbatim
    let mut tok: Vec<char> = Vec::new();
    let mut i = pos;
    while i < p
        invariant
            pos <= i <= p,
            p <= cs@.len(),
            n == cs@.len(),
            tok@.len() == i - pos,
        decreases p - i,
    {
        tok.push(cs[i]);
        i = i + 1;
    }
    Ok((JsonValue::NumLex(chars_to_string(&tok)), p))
}

/// Parse one JSON value at `pos`.
fn parse_value_at(cs: &Vec<char>, pos: usize) -> (r: Result<(JsonValue, usize), JsonParseError>)
    requires
        pos <= cs@.len(),
    ensures
        r matches Ok(p) ==> pos < p.1 <= cs@.len() && value_wf(p.0),
    decreases cs@.len() - pos,
{
    if pos >= cs.len() {
        return Err(error_at(cs, pos, "EOF while parsing a value"));
    }
    let c = cs[pos];
    if c == 'n' {
        parse_literal(cs, pos, &['n', 'u', 'l', 'l'], JsonValue::Null)
    } else if c == 't' {
        parse_literal(cs, pos, &['t', 'r', 'u', 'e'], JsonValue::Bool(true))
    } else if c == 'f' {
        parse_literal(cs, pos, &['f', 'a', 'l', 's', 'e'], JsonValue::Bool(false))
    } else if c == '"' {
        match parse_string_body(cs, pos + 1) {
            Ok((s, p)) => Ok((JsonValue::Str(s), p)),
            Err(e) => Err(e),
        }
    } else if c == '-' || digit_value(c).is_some() {
        parse_number(cs, pos)
    } else if c == '[' {
        let mut elems: Vec<JsonValue> = Vec::new();
        let mut p = skip_ws(cs, pos + 1);
        if p < cs.len() && cs[p] == ']' {
            proof {
                assert(value_wf(JsonValue::Array(elems)) == (forall|i: int|
                    0 <= i < elems@.len() ==> value_wf(#[trigger] elems@[i])));
            }
            return Ok((JsonValue::Array(elems), p + 1));
        }
        let n = cs.len();
        loop
            invariant
                pos < p <= cs@.len(),
                n == cs@.len(),
                forall|i: int| 0 <= i < elems@.len() ==> value_wf(#[trigger] elems@[i]),
            decreases cs@.len() - p,
        {
            let (v, p2) = match parse_value_at(cs, p) {
                Ok(x) => x,
                Err(e) => {
                    return Err(e);
                },
            };
            elems.push(v);
            let p3 = skip_ws(cs, p2);
            if p3 >= cs.len() {
                return Err(error_at(cs, p3, "EOF while parsing a list"));
            }
            if cs[p3] == ']' {
                return Ok((JsonValue::Array(elems), p3 + 1));
            }
            if cs[p3] != ',' {
                return Err(error_at(cs, p3, "expected `,` or `]`"));
            }
            let p4 = skip_ws(cs, p3 + 1);
            if p4 <= p {
                return Err(error_at(cs, p4, "expected value"));
            }
            p = p4;
        }
    } else if c == '{' {
        let mut entries: Vec<(String, JsonValue)> = Vec::new();
        let mut p = skip_ws(cs, pos + 1);
        if p < cs.len() && cs[p] == '}' {
            proof {
                assert(value_wf(JsonValue::Object(entries)) == (forall|i: int|
                    0 <= i < entries@.len() ==> value_wf((#[trigger] entries@[i]).1)));
            }
            return Ok((JsonValue::Object(entries), p + 1));
        }
        let n = cs.len();
        loop
            invariant
                pos < p <= cs@.len(),
                n == cs@.len(),
                forall|i: int| 0 <= i < entries@.len() ==> value_wf((#[trigger] entries@[i]).1),
            decreases cs@.len() - p,
        {
            if p >= cs.len() {
                return Err(error_at(cs, p, "EOF while parsing an object"));
            }
            if cs[p] != '"' {
                return Err(error_at(cs, p, "key must be a string"));
            }
            let (key, pk) = match parse_string_body(cs, p + 1) {
                Ok(x) => x,
                Err(e) => {
                    return Err(e);
                },
            };
            let pc = skip_ws(cs, pk);
            if pc >= cs.len() || cs[pc] != ':' {
                return Err(error_at(cs, pc, "expected `:`"));
            }
            let pv = skip_ws(cs, pc + 1);
            let (v, p2) = match parse_value_at(cs, pv) {
                Ok(x) => x,
                Err(e) => {
                    return Err(e);
                },
            };
            entries.push((key, v));
            let p3 = skip_ws(cs, p2);
            if p3 >= cs.len() {
                return Err(error_at(cs, p3, "EOF while parsing an object"));
            }
            if cs[p3] == '}' {
                return Ok((JsonValue::Object(entries), p3 + 1));
            }
            if cs[p3] != ',' {
                return Err(error_at(cs, p3, "expected `,` or `}`"));
            }
            let p4 = skip_ws(cs, p3 + 1);
            if p4 <= p {
                return Err(error_at(cs, p4, "expected value"));
            }
            p = p4;
        }
    } else {
        Err(error_at(cs, pos, "expected value"))
    }
}

/// Parse a JSON document.
///
/// Succeeds on a single well-formed value, optionally surrounded by
/// whitespace; fails with a positioned [`JsonParseError`] otherwise. The
/// parser is exercised against the writer by tests.
pub fn parse_json(text: &str) -> (r: Result<JsonValue, JsonParseError>)
    ensures
        r matches Ok(v) ==> value_wf(v),
{
    let cs = str_to_chars(text);
    let p0 = skip_ws(&cs, 0);
    match parse_value_at(&cs, p0) {
        Ok((v, p)) => {
            let p2 = skip_ws(&cs, p);
            if p2 < cs.len() {
                Err(error_at(&cs, p2, "trailing characters"))
            } else {
                Ok(v)
            }
        },
        Err(e) => Err(e),
    }
}

/// The text of a JSON value, as a string.
pub fn value_to_string(v: &JsonValue) -> (r: String)
    requires
        value_wf(*v),
    ensures
        r@ == json_text(*v),
{
    let mut out = String::new();
    write_value(&mut out, v);
    proof {
        assert(Seq::<char>::empty() + json_text(*v) =~= json_text(*v));
    }
    out
}

impl JsonValue {
    /// The value of the first field named `name`, if the value is an object
    /// holding one.
    pub fn get_field(&self, name: &str) -> (r: Option<&JsonValue>)
        ensures
            match r {
                Some(v) => self matches JsonValue::Object(entries) && object_get(entries@, name@)
                    == Some(*v),
                None => self matches JsonValue::Object(entries) ==> object_get(entries@, name@)
                    is None,
            },
    {
        match self {
            JsonValue::Object(entries) => {
                let mut i: usize = 0;
                proof {
                    assert(entries@.skip(0) =~= entries@);
                }
                while i < entries.len()
                    invariant
                        0 <= i <= entries@.len(),
                        *self == JsonValue::Object(*entries),
                        object_get(entries@, name@) == object_get(
                            entries@.skip(i as int),
                            name@,
                        ),
                    decreases entries@.len() - i,
                {
                    proof {
                        assert(entries@.skip(i as int)[0] == entries@[i as int]);
                        assert(entries@.skip(i as int).skip(1) =~= entries@.skip(i + 1));
                    }
                    if crate::str_equal(entries[i].0.as_str(), name) {
                        return Some(&entries[i].1);
                    }
                    i = i + 1;
                }
                proof {
                    assert(entries@.skip(entries@.len() as int) =~= Seq::<
                        (String, JsonValue),
                    >::empty());
                }
                None
            },
            _ => None,
        }
    }

    /// Whether the value is an object.
    pub fn is_object(&self) -> (r: bool)
        ensures
            r == (self is Object),
    {
        match self {
            JsonValue::Object(_) => true,
            _ => false,
        }
    }

    /// The integer of a `UInt` value.
    pub fn as_u64(&self) -> (r: Option<u64>)
        ensures
            match r {
                Some(n) => *self == JsonValue::UInt(n),
                None => !(self is UInt),
            },
    {
        match self {
            JsonValue::UInt(n) => Some(*n),
            _ => None,
        }
    }

    /// The text of a `Str` value.
    pub fn as_str(&self) -> (r: Option<&String>)
        ensures
            match r {
                Some(s) => *self == JsonValue::Str(*s),
                None => !(self is Str),
            },
    {
        match self {
            JsonValue::Str(s) => Some(s),
            _ => None,
        }
    }

    /// The truth value of a `Bool` value.
    pub fn as_bool(&self) -> (r: Option<bool>)
        ensures
            match r {
                Some(b) => *self == JsonValue::Bool(b),
                None => !(self is Bool),
            },
    {
        match self {
            JsonValue::Bool(b) => Some(*b),
            _ => None,
        }
    }
}

} // verus!
