use vstd::prelude::*;
use vstd::string::StrSliceExecFns;
use vstd::string::StringExecFns;

verus! {

broadcast use vstd::seq::group_seq_axioms, vstd::std_specs::vec::group_vec_axioms;

/// One parsed JSON document, as the formatter works on it.
///
/// Numbers are carried as the exact decimal text the parser rendered them
/// with, so the formatter never computes on them; objects keep their pairs in
/// the order the parser handed them out.
pub enum JsonValue {
    Null,
    Bool(bool),
    Number(String),
    Str(String),
    Array(Vec<JsonValue>),
    Object(Vec<(String, JsonValue)>),
}

/// Mathematical shape of a `JsonValue`: every piece of text a sequence of
/// characters, every collection a `Seq`.
pub enum JsonModel {
    Null,
    Bool(bool),
    Number(Seq<char>),
    Str(Seq<char>),
    Array(Seq<JsonModel>),
    Object(Seq<(Seq<char>, JsonModel)>),
}

pub open spec fn model_of(v: JsonValue) -> JsonModel
    decreases v,
{
    match v {
        JsonValue::Null => JsonModel::Null,
        JsonValue::Bool(b) => JsonModel::Bool(b),
        JsonValue::Number(t) => JsonModel::Number(t@),
        JsonValue::Str(s) => JsonModel::Str(s@),
        JsonValue::Array(items) => JsonModel::Array(model_of_items(items@)),
        JsonValue::Object(pairs) => JsonModel::Object(model_of_pairs(pairs@)),
    }
}

pub open spec fn model_of_items(s: Seq<JsonValue>) -> Seq<JsonModel>
    decreases s,
{
    if s.len() == 0 {
        Seq::empty()
    } else {
        model_of_items(s.drop_last()).push(model_of(s.last()))
    }
}

pub open spec fn model_of_pairs(s: Seq<(String, JsonValue)>) -> Seq<(Seq<char>, JsonModel)>
    decreases s,
{
    if s.len() == 0 {
        Seq::empty()
    } else {
        model_of_pairs(s.drop_last()).push((s.last().0@, model_of(s.last().1)))
    }
}

impl View for JsonValue {
    type V = JsonModel;

    open spec fn view(&self) -> JsonModel {
        model_of(*self)
    }
}

/// The item models line up index by index with the items they model.
pub proof fn lemma_model_of_items(s: Seq<JsonValue>)
    ensures
        model_of_items(s).len() == s.len(),
        forall|i: int| 0 <= i < s.len() ==> model_of_items(s)[i] == model_of(#[trigger] s[i]),
    decreases s.len(),
{
    if s.len() > 0 {
        lemma_model_of_items(s.drop_last());
        assert forall|i: int| 0 <= i < s.len() implies model_of_items(s)[i] == model_of(
            #[trigger] s[i],
        ) by {
            if i < s.len() - 1 {
                assert(s.drop_last()[i] == s[i]);
            }
        }
    }
}

/// The pair models line up index by index with the pairs they model.
pub proof fn lemma_model_of_pairs(s: Seq<(String, JsonValue)>)
    ensures
        model_of_pairs(s).len() == s.len(),
        forall|i: int|
            0 <= i < s.len() ==> model_of_pairs(s)[i] == (
                #[trigger] s[i].0@,
                model_of(s[i].1),
            ),
    decreases s.len(),
{
    if s.len() > 0 {
        lemma_model_of_pairs(s.drop_last());
        assert forall|i: int|
            0 <= i < s.len() implies model_of_pairs(s)[i] == (
            #[trigger] s[i].0@,
            model_of(s[i].1),
        ) by {
            if i < s.len() - 1 {
                assert(s.drop_last()[i] == s[i]);
            }
        }
    }
}

/// One hexadecimal digit, lower case, as the generic JSON renderer writes it.
pub open spec fn hex_digit(n: int) -> char {
    if n == 0 {
        '0'
    } else if n == 1 {
        '1'
    } else if n == 2 {
        '2'
    } else if n == 3 {
        '3'
    } else if n == 4 {
        '4'
    } else if n == 5 {
        '5'
    } else if n == 6 {
        '6'
    } else if n == 7 {
        '7'
    } else if n == 8 {
        '8'
    } else if n == 9 {
        '9'
    } else if n == 10 {
        'a'
    } else if n == 11 {
        'b'
    } else if n == 12 {
        'c'
    } else if n == 13 {
        'd'
    } else if n == 14 {
        'e'
    } else {
        'f'
    }
}

/// How one character appears inside a JSON string literal: quote and backslash
/// get a backslash escape, the named control characters their short escape,
/// every other control character a `\u00..` escape, and everything else stands
/// as itself.
pub open spec fn escape_char(c: char) -> Seq<char> {
    if c == '"' {
        seq!['\\', '"']
    } else if c == '\\' {
        seq!['\\', '\\']
    } else if c == '\u{8}' {
        seq!['\\', 'b']
    } else if c == '\t' {
        seq!['\\', 't']
    } else if c == '\n' {
        seq!['\\', 'n']
    } else if c == '\u{c}' {
        seq!['\\', 'f']
    } else if c == '\r' {
        seq!['\\', 'r']
    } else if (c as int) < 32 {
        seq!['\\', 'u', '0', '0', hex_digit(c as int / 16), hex_digit(c as int % 16)]
    } else {
        seq![c]
    }
}

pub open spec fn escaped(s: Seq<char>) -> Seq<char>
    decreases s.len(),
{
    if s.len() == 0 {
        Seq::empty()
    } else {
        escape_char(s[0]) + escaped(s.drop_first())
    }
}

pub open spec fn quoted(s: Seq<char>) -> Seq<char> {
    seq!['"'] + escaped(s) + seq!['"']
}

/// The compact textual rendering of a JSON value, exactly as the generic
/// serializer writes it: no spaces, keys quoted and escaped, numbers as the
/// text they were carried with.
pub open spec fn json_text(m: JsonModel) -> Seq<char>
    decreases m,
{
    match m {
        JsonModel::Null => "null"@,
        JsonModel::Bool(b) => if b {
            "true"@
        } else {
            "false"@
        },
        JsonModel::Number(t) => t,
        JsonModel::Str(s) => quoted(s),
        JsonModel::Array(items) => seq!['['] + items_text(items) + seq![']'],
        JsonModel::Object(pairs) => seq!['{'] + pairs_text(pairs) + seq!['}'],
    }
}

pub open spec fn items_text(items: Seq<JsonModel>) -> Seq<char>
    decreases items,
{
    if items.len() == 0 {
        Seq::empty()
    } else if items.len() == 1 {
        json_text(items[0])
    } else {
        json_text(items[0]) + seq![','] + items_text(items.drop_first())
    }
}

pub open spec fn pairs_text(pairs: Seq<(Seq<char>, JsonModel)>) -> Seq<char>
    decreases pairs,
{
    if pairs.len() == 0 {
        Seq::empty()
    } else if pairs.len() == 1 {
        quoted(pairs[0].0) + seq![':'] + json_text(pairs[0].1)
    } else {
        quoted(pairs[0].0) + seq![':'] + json_text(pairs[0].1) + seq![','] + pairs_text(
            pairs.drop_first(),
        )
    }
}

fn hex_digit_exec(n: u8) -> (c: char)
    requires
        n < 16,
    ensures
        c == hex_digit(n as int),
{
    if n == 0 {
        '0'
    } else if n == 1 {
        '1'
    } else if n == 2 {
        '2'
    } else if n == 3 {
        '3'
    } else if n == 4 {
        '4'
    } else if n == 5 {
        '5'
    } else if n == 6 {
        '6'
    } else if n == 7 {
        '7'
    } else if n == 8 {
        '8'
    } else if n == 9 {
        '9'
    } else if n == 10 {
        'a'
    } else if n == 11 {
        'b'
    } else if n == 12 {
        'c'
    } else if n == 13 {
        'd'
    } else if n == 14 {
        'e'
    } else {
        'f'
    }
}

fn write_escaped(s: &str, out: &mut String)
    ensures
        final(out)@ == old(out)@ + escaped(s@),
{
    let n = s.unicode_len();
    proof {
        assert(s@.skip(0) =~= s@);
    }
    let mut i: usize = 0;
    while i < n
        invariant
            n == s@.len(),
            0 <= i <= n,
            old(out)@ + escaped(s@) == out@ + escaped(s@.skip(i as int)),
        decreases n - i,
    {
        proof {
            assert(s@.skip(i as int).drop_first() =~= s@.skip(i as int + 1));
            assert(s@.skip(i as int)[0] == s@[i as int]);
        }
        let c = s.get_char(i);
        if c == '"' {
            out.push('\\');
            out.push('"');
        } else if c == '\\' {
            out.push('\\');
            out.push('\\');
        } else if c == '\u{8}' {
            out.push('\\');
            out.push('b');
        } else if c == '\t' {
            out.push('\\');
            out.push('t');
        } else if c == '\n' {
            out.push('\\');
            out.push('n');
        } else if c == '\u{c}' {
            out.push('\\');
            out.push('f');
        } else if c == '\r' {
            out.push('\\');
            out.push('r');
        } else if (c as u32) < 32 {
            out.push('\\');
            out.push('u');
            out.push('0');
            out.push('0');
            out.push(hex_digit_exec((c as u32 / 16) as u8));
            out.push(hex_digit_exec((c as u32 % 16) as u8));
        } else {
            out.push(c);
        }
        proof {
            assert(old(out)@ + escaped(s@) =~= out@ + escaped(s@.skip(i as int + 1)));
        }
        i += 1;
    }
    proof {
        assert(s@.skip(n as int) =~= Seq::<char>::empty());
        assert(final(out)@ =~= old(out)@ + escaped(s@));
    }
}

/// Appends the compact rendering of `v` to `out`.
pub fn write_json(v: &JsonValue, out: &mut String)
    ensures
        final(out)@ == old(out)@ + json_text(v@),
    decreases v,
{
    match v {
        JsonValue::Null => {
            out.append("null");
        },
        JsonValue::Bool(b) => {
            if *b {
                out.append("true");
            } else {
                out.append("false");
            }
        },
        JsonValue::Number(t) => {
            out.append(t.as_str());
        },
        JsonValue::Str(s) => {
            out.push('"');
            write_escaped(s.as_str(), out);
            out.push('"');
            proof {
                assert(final(out)@ =~= old(out)@ + quoted(s@));
            }
        },
        JsonValue::Array(items) => {
            proof {
                assert(decreases_to!(*v => (*v)->Array_0));
                assert((*v)->Array_0 == *items);
            }
            out.push('[');
            write_items(items, out);
            out.push(']');
            proof {
                assert(final(out)@ =~= old(out)@ + (seq!['['] + items_text(model_of_items(
                    items@,
                )) + seq![']']));
            }
        },
        JsonValue::Object(pairs) => {
            proof {
                assert(decreases_to!(*v => (*v)->Object_0));
                assert((*v)->Object_0 == *pairs);
            }
            out.push('{');
            write_pairs(pairs, out);
            out.push('}');
            proof {
                assert(final(out)@ =~= old(out)@ + (seq!['{'] + pairs_text(model_of_pairs(
                    pairs@,
                )) + seq!['}']));
            }
        },
    }
}

fn write_items(items: &Vec<JsonValue>, out: &mut String)
    ensures
        final(out)@ == old(out)@ + items_text(model_of_items(items@)),
    decreases items,
{
    let ghost ms = model_of_items(items@);
    proof {
        lemma_model_of_items(items@);
        assert(ms.skip(0) =~= ms);
    }
    let n = items.len();
    let mut i: usize = 0;
    while i < n
        invariant
            n == items.len(),
            ms == model_of_items(items@),
            ms.len() == n,
            forall|k: int| 0 <= k < n ==> ms[k] == model_of(#[trigger] items@[k]),
            0 <= i <= n,
            old(out)@ + items_text(ms) == out@ + items_text(ms.skip(i as int)),
        decreases n - i,
    {
        proof {
            assert(ms.skip(i as int).drop_first() =~= ms.skip(i as int + 1));
            assert(ms.skip(i as int)[0] == ms[i as int]);
            vstd::std_specs::vec::axiom_vec_index_decreases(*items, i as int);
        }
        write_json(&items[i], out);
        if i + 1 < n {
            out.push(',');
        }
        proof {
            assert(old(out)@ + items_text(ms) =~= out@ + items_text(ms.skip(i as int + 1)));
        }
        i += 1;
    }
    proof {
        assert(ms.skip(n as int) =~= Seq::<JsonModel>::empty());
        assert(final(out)@ =~= old(out)@ + items_text(ms));
    }
}

fn write_pairs(pairs: &Vec<(String, JsonValue)>, out: &mut String)
    ensures
        final(out)@ == old(out)@ + pairs_text(model_of_pairs(pairs@)),
    decreases pairs,
{
    let ghost ps = model_of_pairs(pairs@);
    proof {
        lemma_model_of_pairs(pairs@);
        assert(ps.skip(0) =~= ps);
    }
    let n = pairs.len();
    let mut i: usize = 0;
    while i < n
        invariant
            n == pairs.len(),
            ps == model_of_pairs(pairs@),
            ps.len() == n,
            forall|k: int| 0 <= k < n ==> ps[k] == (#[trigger] pairs@[k].0@, model_of(pairs@[k].1)),
            0 <= i <= n,
            old(out)@ + pairs_text(ps) == out@ + pairs_text(ps.skip(i as int)),
        decreases n - i,
    {
        proof {
            assert(ps.skip(i as int).drop_first() =~= ps.skip(i as int + 1));
            assert(ps.skip(i as int)[0] == ps[i as int]);
            vstd::std_specs::vec::axiom_vec_index_decreases(*pairs, i as int);
        }
        write_pair(&pairs[i], out);
        if i + 1 < n {
            out.push(',');
        }
        proof {
            assert(old(out)@ + pairs_text(ps) =~= out@ + pairs_text(ps.skip(i as int + 1)));
        }
        i += 1;
    }
    proof {
        assert(ps.skip(n as int) =~= Seq::<(Seq<char>, JsonModel)>::empty());
        assert(final(out)@ =~= old(out)@ + pairs_text(ps));
    }
}

fn write_pair(p: &(String, JsonValue), out: &mut String)
    ensures
        final(out)@ == old(out)@ + quoted(p.0@) + seq![':'] + json_text(p.1@),
    decreases p,
{
    proof {
        assert(decreases_to!(*p => p.1));
    }
    out.push('"');
    write_escaped(p.0.as_str(), out);
    out.push('"');
    out.push(':');
    write_json(&p.1, out);
    proof {
        assert(final(out)@ =~= old(out)@ + quoted(p.0@) + seq![':'] + json_text(p.1@));
    }
}

/// The compact textual rendering of `v`, as the span renderer shows attribute
/// values.
pub fn json_value_text(v: &JsonValue) -> (r: String)
    ensures
        r@ == json_text(v@),
{
    let mut out = String::new();
    write_json(v, &mut out);
    out
}

} // verus!
