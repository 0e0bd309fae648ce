//! JSON values as plain data: a number is kept as its text, an object as
//! its entries in order.  With the compact text that `serde_json` writes,
//! entries in the order in which the value holds them.
use vstd::prelude::*;

use crate::config::parser::{find_key, lemma_find_key};
use crate::text::{join_seq, owned, str_eq};

verus! {

/// A JSON value.
pub enum Json {
    Null,
    Bool(bool),
    /// A number, by its JSON text.
    Number(String),
    Str(String),
    Array(Vec<Json>),
    /// An object, by its entries in order.
    Object(Vec<(String, Json)>),
}

/// A JSON value as the contracts see it.
pub enum JsonV {
    Null,
    Bool(bool),
    Number(Seq<char>),
    Str(Seq<char>),
    Array(Seq<JsonV>),
    Object(Seq<(Seq<char>, JsonV)>),
}

impl Json {
    pub open spec fn view_of(self) -> JsonV
        decreases self,
    {
        match self {
            Json::Null => JsonV::Null,
            Json::Bool(b) => JsonV::Bool(b),
            Json::Number(n) => JsonV::Number(n@),
            Json::Str(s) => JsonV::Str(s@),
            Json::Array(v) => JsonV::Array(
                Seq::new(
                    v.len() as nat,
                    |i: int|
                        if 0 <= i < v.len() {
                            v[i].view_of()
                        } else {
                            JsonV::Null
                        },
                ),
            ),
            Json::Object(v) => JsonV::Object(
                Seq::new(
                    v.len() as nat,
                    |i: int|
                        if 0 <= i < v.len() {
                            (v[i].0@, v[i].1.view_of())
                        } else {
                            (Seq::empty(), JsonV::Null)
                        },
                ),
            ),
        }
    }

    /// A deep copy of this value.
    #[verifier::loop_isolation(false)]
    pub fn duplicate(&self) -> (res: Json)
        ensures
            res.view_of() == self.view_of(),
        decreases self,
    {
        match self {
            Json::Null => Json::Null,
            Json::Bool(b) => Json::Bool(*b),
            Json::Number(n) => Json::Number(n.clone()),
            Json::Str(s) => Json::Str(s.clone()),
            Json::Array(v) => {
                let mut out: Vec<Json> = Vec::new();
                let mut i: usize = 0;
                while i < v.len()
                    invariant
                        i <= v.len(),
                        out.len() == i,
                        forall|j: int| 0 <= j < i ==> #[trigger] out[j].view_of() == v[j].view_of(),
                    decreases v.len() - i,
                {
                    let c = v[i].duplicate();
                    out.push(c);
                    i = i + 1;
                }
                let res = Json::Array(out);
                assert(res.view_of() =~= self.view_of()) by {
                    if let JsonV::Array(a) = res.view_of() {
                        if let JsonV::Array(b) = self.view_of() {
                            assert forall|j: int| 0 <= j < a.len() implies a[j] == b[j] by {
                                assert(out[j].view_of() == v[j].view_of());
                            }
                            assert(a =~= b);
                        }
                    }
                }
                res
            },
            Json::Object(v) => {
                let mut out: Vec<(String, Json)> = Vec::new();
                let mut i: usize = 0;
                while i < v.len()
                    invariant
                        i <= v.len(),
                        out.len() == i,
                        forall|j: int|
                            0 <= j < i ==> #[trigger] out[j].0@ == v[j].0@ && out[j].1.view_of()
                                == v[j].1.view_of(),
                    decreases v.len() - i,
                {
                    let c = v[i].1.duplicate();
                    out.push((v[i].0.clone(), c));
                    i = i + 1;
                }
                let res = Json::Object(out);
                assert(res.view_of() =~= self.view_of()) by {
                    if let JsonV::Object(a) = res.view_of() {
                        if let JsonV::Object(b) = self.view_of() {
                            assert(a =~= b);
                        }
                    }
                }
                res
            },
        }
    }
}

// ---------------------------------------------------------------------------
// Reading values
/// The value of the first entry named `k`, where `v` is an object.
pub open spec fn obj_get(v: JsonV, k: Seq<char>) -> Option<JsonV> {
    match v {
        JsonV::Object(e) => match find_key(e, k) {
            Some(i) => Some(e[i].1),
            None => None,
        },
        _ => None,
    }
}

/// The element at `i`, where `v` is an array that long.
pub open spec fn arr_get(v: JsonV, i: int) -> Option<JsonV> {
    match v {
        JsonV::Array(a) => if 0 <= i < a.len() {
            Some(a[i])
        } else {
            None
        },
        _ => None,
    }
}

/// The string, where `v` is one.
pub open spec fn as_str_v(v: Option<JsonV>) -> Option<Seq<char>> {
    match v {
        Some(JsonV::Str(s)) => Some(s),
        _ => None,
    }
}

/// The entry named `k` of `v`, where `v` is an object (`Value::get` with a key).
pub fn get_field<'a>(v: &'a Json, k: &str) -> (res: Option<&'a Json>)
    ensures
        match res {
            Some(r) => obj_get(v.view_of(), k@) == Some(r.view_of()),
            None => obj_get(v.view_of(), k@) is None,
        },
{
    match v {
        Json::Object(e) => {
            let ghost ev = match v.view_of() {
                JsonV::Object(x) => x,
                _ => Seq::empty(),
            };
            assert(ev.len() == e.len());
            proof {
                lemma_find_key(ev, k@);
            }
            let mut i: usize = 0;
            while i < e.len()
                invariant
                    i <= e.len(),
                    v.view_of() == JsonV::Object(ev),
                    ev.len() == e.len(),
                    forall|j: int| 0 <= j < e.len() ==> #[trigger] ev[j] == (e[j].0@, e[j].1.view_of()),
                    forall|j: int| 0 <= j < i ==> ev[j].0 != k@,
                    match find_key(ev, k@) {
                        Some(x) => 0 <= x < ev.len() && ev[x].0 == k@ && forall|j: int|
                            0 <= j < x ==> ev[j].0 != k@,
                        None => forall|j: int| 0 <= j < ev.len() ==> ev[j].0 != k@,
                    },
                decreases e.len() - i,
            {
                if str_eq(e[i].0.as_str(), k) {
                    assert(ev[i as int].0 == k@);
                    return Some(&e[i].1);
                }
                i = i + 1;
            }
            None
        },
        _ => None,
    }
}

/// The first element of `v`, where `v` is a non-empty array (`Value::get(0)`).
pub fn get_first<'a>(v: &'a Json) -> (res: Option<&'a Json>)
    ensures
        match res {
            Some(r) => arr_get(v.view_of(), 0) == Some(r.view_of()),
            None => arr_get(v.view_of(), 0) is None,
        },
{
    match v {
        Json::Array(a) => if a.len() > 0 {
            Some(&a[0])
        } else {
            None
        },
        _ => None,
    }
}

// ---------------------------------------------------------------------------
// Serialization
/// A hexadecimal digit, as `serde_json` writes it.
pub open spec fn hex_digit(n: int) -> char {
    if n < 10 {
        ('0' as int + n) as char
    } else {
        ('a' as int + n - 10) as char
    }
}

/// How `serde_json` writes a character inside a string.
pub open spec fn escape_char(c: char) -> Seq<char> {
    if c == '"' {
        seq!['\\', '"']
    } else if c == '\\' {
        seq!['\\', '\\']
    } else if c == '\u{8}' {
        seq!['\\', 'b']
    } else if c == '\u{c}' {
        seq!['\\', 'f']
    } else if c == '\n' {
        seq!['\\', 'n']
    } else if c == '\r' {
        seq!['\\', 'r']
    } else if c == '\t' {
        seq!['\\', 't']
    } else if (c as int) < 0x20 {
        seq!['\\', 'u', '0', '0', hex_digit((c as int) / 16), hex_digit((c as int) % 16)]
    } else {
        seq![c]
    }
}

/// The escaped contents of a string.
pub open spec fn escape_seq(s: Seq<char>) -> Seq<char>
    decreases s.len(),
{
    if s.len() == 0 {
        Seq::empty()
    } else {
        escape_seq(s.drop_last()) + escape_char(s.last())
    }
}

/// A string as JSON text.
pub open spec fn string_text(s: Seq<char>) -> Seq<char> {
    seq!['"'] + escape_seq(s) + seq!['"']
}

/// The compact JSON text of a value, written as `serde_json` writes it, with
/// an object's entries in the order in which the value holds them.
pub open spec fn json_text(v: JsonV) -> Seq<char>
    decreases v,
{
    match v {
        JsonV::Null => "null"@,
        JsonV::Bool(b) => if b {
            "true"@
        } else {
            "false"@
        },
        JsonV::Number(t) => t,
        JsonV::Str(s) => string_text(s),
        JsonV::Array(a) => seq!['['] + join_seq(element_texts(a), seq![',']) + seq![']'],
        JsonV::Object(e) => seq!['{'] + join_seq(entry_texts(e), seq![',']) + seq!['}'],
    }
}

/// The texts of the elements of an array.
pub open spec fn element_texts(a: Seq<JsonV>) -> Seq<Seq<char>>
    decreases a,
{
    Seq::new(
        a.len(),
        |i: int|
            if 0 <= i < a.len() {
                json_text(a[i])
            } else {
                Seq::empty()
            },
    )
}

/// The texts `"key":value` of the entries of an object.
pub open spec fn entry_texts(e: Seq<(Seq<char>, JsonV)>) -> Seq<Seq<char>>
    decreases e,
{
    Seq::new(
        e.len(),
        |i: int|
            if 0 <= i < e.len() {
                string_text(e[i].0) + seq![':'] + json_text(e[i].1)
            } else {
                Seq::empty()
            },
    )
}

fn hex_str(n: u32) -> (res: &'static str)
    requires
        n < 16,
    ensures
        res@ == seq![hex_digit(n as int)],
{
    proof {
        reveal_strlit("0");
        reveal_strlit("1");
        reveal_strlit("2");
        reveal_strlit("3");
        reveal_strlit("4");
        reveal_strlit("5");
        reveal_strlit("6");
        reveal_strlit("7");
        reveal_strlit("8");
        reveal_strlit("9");
        reveal_strlit("a");
        reveal_strlit("b");
        reveal_strlit("c");
        reveal_strlit("d");
        reveal_strlit("e");
        reveal_strlit("f");
    }
    let r = if n == 0 {
        "0"
    } else if n == 1 {
        "1"
    } else if n == 2 {
        "2"
    } else if n == 3 {
        "3"
    } else if n == 4 {
        "4"
    } else if n == 5 {
        "5"
    } else if n == 6 {
        "6"
    } else if n == 7 {
        "7"
    } else if n == 8 {
        "8"
    } else if n == 9 {
        "9"
    } else if n == 10 {
        "a"
    } else if n == 11 {
        "b"
    } else if n == 12 {
        "c"
    } else if n == 13 {
        "d"
    } else if n == 14 {
        "e"
    } else {
        "f"
    };
    assert(r@ =~= seq![hex_digit(n as int)]);
    r
}

/// Appends the escaped form of `s[i]` to `out`.
fn push_escaped_char(s: &str, i: usize, out: &mut String)
    requires
        i < s@.len(),
    ensures
        final(out)@ == old(out)@ + escape_char(s@[i as int]),
{
    let n = s.unicode_len();
    let c = s.get_char(i);
    proof {
        reveal_strlit("\\\"");
        reveal_strlit("\\\\");
        reveal_strlit("\\b");
        reveal_strlit("\\f");
        reveal_strlit("\\n");
        reveal_strlit("\\r");
        reveal_strlit("\\t");
        reveal_strlit("\\u00");
    }
    let ghost before = out@;
    if c == '"' {
        out.append("\\\"");
    } else if c == '\\' {
        out.append("\\\\");
    } else if c == '\u{8}' {
        out.append("\\b");
    } else if c == '\u{c}' {
        out.append("\\f");
    } else if c == '\n' {
        out.append("\\n");
    } else if c == '\r' {
        out.append("\\r");
    } else if c == '\t' {
        out.append("\\t");
    } else if (c as u32) < 0x20 {
        out.append("\\u00");
        out.append(hex_str((c as u32) / 16));
        out.append(hex_str((c as u32) % 16));
    } else {
        out.append(s.substring_char(i, i + 1));
    }
    assert(out@ =~= before + escape_char(c));
}

/// Appends `s` as JSON string text to `out`.
pub fn push_string_text(s: &str, out: &mut String)
    ensures
        final(out)@ == old(out)@ + string_text(s@),
{
    proof {
        reveal_strlit("\"");
    }
    let ghost before = out@;
    out.append("\"");
    let n = s.unicode_len();
    let mut i: usize = 0;
    while i < n
        invariant
            n == s@.len(),
            i <= n,
            out@ == before + seq!['"'] + escape_seq(s@.subrange(0, i as int)),
        decreases n - i,
    {
        let ghost pre = out@;
        push_escaped_char(s, i, out);
        assert(s@.subrange(0, i + 1).drop_last() =~= s@.subrange(0, i as int));
        assert(out@ =~= before + seq!['"'] + escape_seq(s@.subrange(0, i + 1)));
        i = i + 1;
    }
    assert(s@.subrange(0, n as int) =~= s@);
    out.append("\"");
    assert(out@ =~= before + string_text(s@));
}

/// Appends the compact JSON text of `v` to `out`.
#[verifier::loop_isolation(false)]
pub fn push_json_text(v: &Json, out: &mut String)
    ensures
        final(out)@ == old(out)@ + json_text(v.view_of()),
    decreases v,
{
    proof {
        reveal_strlit("null");
        reveal_strlit("true");
        reveal_strlit("false");
        reveal_strlit("[");
        reveal_strlit("]");
        reveal_strlit("{");
        reveal_strlit("}");
        reveal_strlit(",");
        reveal_strlit(":");
    }
    let ghost before = out@;
    match v {
        Json::Null => {
            out.append("null");
            assert(out@ == before + json_text(v.view_of()));
        },
        Json::Bool(b) => {
            if *b {
                out.append("true");
            } else {
                out.append("false");
            }
            assert(out@ == before + json_text(v.view_of()));
        },
        Json::Number(t) => {
            out.append(t.as_str());
            assert(out@ == before + json_text(v.view_of()));
        },
        Json::Str(s) => {
            push_string_text(s.as_str(), out);
            assert(out@ == before + json_text(v.view_of()));
        },
        Json::Array(a) => {
            let ghost texts = Seq::new(
                a.len() as nat,
                |i: int|
                    if 0 <= i < a.len() {
                        json_text(a[i].view_of())
                    } else {
                        Seq::empty()
                    },
            );
            assert(v.view_of() matches JsonV::Array(av) && av.len() == a.len());
            out.append("[");
            let mut i: usize = 0;
            while i < a.len()
                invariant
                    i <= a.len(),
                    texts.len() == a.len(),
                    forall|j: int| 0 <= j < a.len() ==> #[trigger] texts[j] == json_text(a[j].view_of()),
                    out@ == before + seq!['['] + join_seq(texts.subrange(0, i as int), seq![',']),
                decreases a.len() - i,
            {
                let ghost nxt = texts.subrange(0, i + 1);
                assert(nxt.drop_last() =~= texts.subrange(0, i as int));
                if i > 0 {
                    out.append(",");
                }
                push_json_text(&a[i], out);
                assert(out@ =~= before + seq!['['] + join_seq(nxt, seq![',']));
                i = i + 1;
            }
            assert(texts.subrange(0, i as int) =~= texts);
            out.append("]");
            assert(out@ =~= before + seq!['['] + join_seq(texts, seq![',']) + seq![']']);
            proof {
                if let JsonV::Array(av) = v.view_of() {
                    let t2 = element_texts(av);
                    assert(t2 =~= texts);
                    assert(json_text(v.view_of()) == seq!['['] + join_seq(t2, seq![',']) + seq![']']);
                }
            }
            assert(out@ == before + json_text(v.view_of()));
        },
        Json::Object(e) => {
            let ghost texts = Seq::new(
                e.len() as nat,
                |i: int|
                    if 0 <= i < e.len() {
                        string_text(e[i].0@) + seq![':'] + json_text(e[i].1.view_of())
                    } else {
                        Seq::empty()
                    },
            );
            out.append("{");
            let mut i: usize = 0;
            while i < e.len()
                invariant
                    i <= e.len(),
                    texts.len() == e.len(),
                    forall|j: int|
                        0 <= j < e.len() ==> #[trigger] texts[j] == string_text(e[j].0@) + seq![':']
                            + json_text(e[j].1.view_of()),
                    out@ == before + seq!['{'] + join_seq(texts.subrange(0, i as int), seq![',']),
                decreases e.len() - i,
            {
                let ghost nxt = texts.subrange(0, i + 1);
                assert(nxt.drop_last() =~= texts.subrange(0, i as int));
                if i > 0 {
                    out.append(",");
                }
                push_string_text(e[i].0.as_str(), out);
                out.append(":");
                push_json_text(&e[i].1, out);
                assert(out@ =~= before + seq!['{'] + join_seq(nxt, seq![',']));
                i = i + 1;
            }
            assert(texts.subrange(0, i as int) =~= texts);
            out.append("}");
            assert(out@ =~= before + seq!['{'] + join_seq(texts, seq![',']) + seq!['}']);
            proof {
                if let JsonV::Object(ev) = v.view_of() {
                    let t2 = entry_texts(ev);
                    assert(t2 =~= texts);
                    assert(json_text(v.view_of()) == seq!['{'] + join_seq(t2, seq![',']) + seq!['}']);
                }
            }
            assert(out@ == before + json_text(v.view_of()));
        },
    }
}

/// The compact JSON text of `v` (see [`json_text`]).
pub fn to_json_text(v: &Json) -> (res: String)
    ensures
        res@ == json_text(v.view_of()),
{
    let mut out = String::new();
    push_json_text(v, &mut out);
    assert(out@ =~= json_text(v.view_of()));
    out
}

/// A string value.
pub fn json_str(s: &str) -> (res: Json)
    ensures
        res.view_of() == JsonV::Str(s@),
{
    Json::Str(owned(s))
}

/// A number value with the given JSON text.
pub fn json_number(t: &str) -> (res: Json)
    ensures
        res.view_of() == JsonV::Number(t@),
{
    Json::Number(owned(t))
}

} // verus!
