use vstd::prelude::*;
use vstd::string::StrSliceExecFns;

use crate::json::{model_of_items, model_of_pairs, JsonModel, JsonValue};
use crate::text::str_eq;

verus! {

broadcast use vstd::seq::group_seq_axioms, vstd::std_specs::vec::group_vec_axioms;

/// The reference tokens of a pointer, read off the text after its leading
/// slash: one token between every two slashes, still escaped.
pub open spec fn split_segments(s: Seq<char>) -> Seq<Seq<char>>
    decreases s.len(),
{
    if s.len() == 0 {
        seq![Seq::<char>::empty()]
    } else if s[0] == '/' {
        seq![Seq::<char>::empty()] + split_segments(s.drop_first())
    } else {
        let rest = split_segments(s.drop_first());
        seq![seq![s[0]] + rest[0]] + rest.drop_first()
    }
}

pub proof fn lemma_split_nonempty(s: Seq<char>)
    ensures
        split_segments(s).len() >= 1,
    decreases s.len(),
{
    if s.len() == 0 {
    } else if s[0] == '/' {
    } else {
        lemma_split_nonempty(s.drop_first());
    }
}

/// One left-to-right pass replacing every occurrence of the two characters
/// `'~' p1` by `r`, never looking at text it has already produced.
pub open spec fn unescape_pass_seq(s: Seq<char>, p1: char, r: char) -> Seq<char>
    decreases s.len(),
{
    if s.len() < 2 {
        s
    } else if s[0] == '~' && s[1] == p1 {
        seq![r] + unescape_pass_seq(s.skip(2), p1, r)
    } else {
        seq![s[0]] + unescape_pass_seq(s.drop_first(), p1, r)
    }
}

/// A reference token with its escapes undone: first `~1` becomes `/`, then
/// `~0` becomes `~`, each in its own pass.
pub open spec fn unescape_token(t: Seq<char>) -> Seq<char> {
    unescape_pass_seq(unescape_pass_seq(t, '1', '/'), '0', '~')
}

pub open spec fn is_digit(c: char) -> bool {
    48 <= c as int <= 57
}

pub open spec fn digit_val(c: char) -> int {
    c as int - 48
}

pub open spec fn all_digits(s: Seq<char>) -> bool {
    forall|i: int| 0 <= i < s.len() ==> is_digit(#[trigger] s[i])
}

pub open spec fn digits_val(s: Seq<char>) -> int
    decreases s.len(),
{
    if s.len() == 0 {
        0
    } else {
        digits_val(s.drop_last()) * 10 + digit_val(s.last())
    }
}

/// A token read as an array index: all decimal digits, no redundant leading
/// zero, and small enough for an in-memory index; anything else addresses
/// nothing.
pub open spec fn spec_parse_index(s: Seq<char>) -> Option<int> {
    if s.len() == 0 || !all_digits(s) {
        None
    } else if s.len() > 1 && s[0] == '0' {
        None
    } else if digits_val(s) > usize::MAX {
        None
    } else {
        Some(digits_val(s))
    }
}

pub proof fn lemma_digits_val_nonneg(s: Seq<char>)
    requires
        all_digits(s),
    ensures
        digits_val(s) >= 0,
    decreases s.len(),
{
    if s.len() > 0 {
        assert(forall|i: int|
            0 <= i < s.drop_last().len() ==> is_digit(#[trigger] s.drop_last()[i]));
        lemma_digits_val_nonneg(s.drop_last());
    }
}

pub proof fn lemma_digits_val_prefix(s: Seq<char>, i: int)
    requires
        all_digits(s),
        0 <= i <= s.len(),
    ensures
        digits_val(s.take(i)) <= digits_val(s),
    decreases s.len() - i,
{
    assert(forall|j: int| 0 <= j < s.take(i).len() ==> is_digit(#[trigger] s.take(i)[j]));
    if i < s.len() {
        lemma_digits_val_nonneg(s.take(i));
        assert(s.take(i + 1).drop_last() =~= s.take(i));
        assert(s.take(i + 1).last() == s[i]);
        assert(digits_val(s.take(i + 1)) == digits_val(s.take(i)) * 10 + digit_val(s[i]));
        lemma_digits_val_prefix(s, i + 1);
    } else {
        assert(s.take(i) =~= s);
    }
}

/// The value under the first pair whose key is `key`, if any.
pub open spec fn obj_get(pairs: Seq<(Seq<char>, JsonModel)>, key: Seq<char>) -> Option<JsonModel>
    decreases pairs.len(),
{
    if pairs.len() == 0 {
        None
    } else if pairs[0].0 == key {
        Some(pairs[0].1)
    } else {
        obj_get(pairs.drop_first(), key)
    }
}

/// Follows one unescaped token after another into the document: object steps
/// look a key up, array steps need a well-formed index in range, and any other
/// value ends the walk with nothing.
pub open spec fn walk(m: JsonModel, toks: Seq<Seq<char>>) -> Option<JsonModel>
    decreases toks.len(),
{
    if toks.len() == 0 {
        Some(m)
    } else {
        let t = unescape_token(toks[0]);
        match m {
            JsonModel::Object(pairs) => match obj_get(pairs, t) {
                Option::Some(child) => walk(child, toks.drop_first()),
                Option::None => Option::None,
            },
            JsonModel::Array(items) => match spec_parse_index(t) {
                Option::Some(idx) => if idx < items.len() {
                    walk(items[idx], toks.drop_first())
                } else {
                    Option::None
                },
                Option::None => Option::None,
            },
            _ => Option::None,
        }
    }
}

/// Where a field path leads in a document: an empty or malformed path (one
/// not beginning with a slash) resolves to nothing, and any other pointer is
/// walked token by token; a path that resolves to nothing yields nothing,
/// never an error.
pub open spec fn spec_locate(m: JsonModel, p: Seq<char>) -> Option<JsonModel> {
    if p.len() == 0 {
        Option::None
    } else if p[0] != '/' {
        Option::None
    } else {
        walk(m, split_segments(p.drop_first()))
    }
}

/// A located value accepted only when it is a string: any other type, like an
/// unresolved pointer, yields nothing.
pub open spec fn spec_locate_str(m: JsonModel, p: Seq<char>) -> Option<Seq<char>> {
    match spec_locate(m, p) {
        Option::Some(JsonModel::Str(s)) => Option::Some(s),
        _ => Option::None,
    }
}

/// One replacement pass over `t`, as the token unescaper runs it.
fn unescape_pass(t: &str, p1: char, r: char) -> (res: String)
    ensures
        res@ == unescape_pass_seq(t@, p1, r),
{
    let n = t.unicode_len();
    let mut out = String::new();
    proof {
        assert(t@.skip(0) =~= t@);
    }
    let mut i: usize = 0;
    while i < n
        invariant
            n == t@.len(),
            0 <= i <= n,
            out@ + unescape_pass_seq(t@.skip(i as int), p1, r) == unescape_pass_seq(t@, p1, r),
        decreases n - i,
    {
        proof {
            assert(t@.skip(i as int)[0] == t@[i as int]);
            if n - i >= 2 {
                assert(t@.skip(i as int)[1] == t@[i as int + 1]);
                assert(t@.skip(i as int).skip(2) =~= t@.skip(i as int + 2));
            }
            assert(t@.skip(i as int).drop_first() =~= t@.skip(i as int + 1));
        }
        let c = t.get_char(i);
        if c == '~' && i + 1 < n && t.get_char(i + 1) == p1 {
            out.push(r);
            proof {
                assert(out@ + unescape_pass_seq(t@.skip(i as int + 2), p1, r)
                    =~= unescape_pass_seq(t@, p1, r));
            }
            i += 2;
        } else {
            out.push(c);
            proof {
                assert(out@ + unescape_pass_seq(t@.skip(i as int + 1), p1, r)
                    =~= unescape_pass_seq(t@, p1, r));
            }
            i += 1;
        }
    }
    proof {
        assert(t@.skip(n as int) =~= Seq::<char>::empty());
        assert(out@ =~= unescape_pass_seq(t@, p1, r));
    }
    out
}

/// A reference token with its escapes undone.
pub fn unescape(t: &str) -> (res: String)
    ensures
        res@ == unescape_token(t@),
{
    let first = unescape_pass(t, '1', '/');
    unescape_pass(first.as_str(), '0', '~')
}

/// Splits a pointer that begins with a slash into its raw reference tokens.
pub fn split_tokens(p: &str) -> (toks: Vec<String>)
    requires
        p@.len() >= 1,
        p@[0] == '/',
    ensures
        toks@.len() == split_segments(p@.drop_first()).len(),
        forall|i: int|
            0 <= i < toks@.len() ==> #[trigger] toks@[i]@ == split_segments(p@.drop_first())[i],
{
    let ghost segs = split_segments(p@.drop_first());
    let n = p.unicode_len();
    let mut done: Vec<String> = Vec::new();
    let mut cur = String::new();
    proof {
        lemma_split_nonempty(p@.skip(1));
        assert(p@.drop_first() =~= p@.skip(1));
    }
    let mut i: usize = 1;
    while i < n
        invariant
            n == p@.len(),
            1 <= i <= n,
            segs == split_segments(p@.skip(1)),
            split_segments(p@.skip(i as int)).len() >= 1,
            segs =~= done@.map_values(|s: String| s@) + seq![
                cur@ + split_segments(p@.skip(i as int))[0],
            ] + split_segments(p@.skip(i as int)).drop_first(),
        decreases n - i,
    {
        proof {
            assert(p@.skip(i as int)[0] == p@[i as int]);
            assert(p@.skip(i as int).drop_first() =~= p@.skip(i as int + 1));
            lemma_split_nonempty(p@.skip(i as int + 1));
        }
        let c = p.get_char(i);
        let ghost done0 = done@;
        let ghost cur0 = cur@;
        if c == '/' {
            let finished = cur;
            cur = String::new();
            done.push(finished);
            proof {
                assert(done@.map_values(|s: String| s@) =~= done0.map_values(|s: String| s@).push(
                    cur0,
                ));
                assert(segs =~= done@.map_values(|s: String| s@) + seq![
                    cur@ + split_segments(p@.skip(i as int + 1))[0],
                ] + split_segments(p@.skip(i as int + 1)).drop_first());
            }
        } else {
            cur.push(c);
            proof {
                assert(cur@ + split_segments(p@.skip(i as int + 1))[0] =~= cur0 + split_segments(
                    p@.skip(i as int),
                )[0]);
                assert(segs =~= done@.map_values(|s: String| s@) + seq![
                    cur@ + split_segments(p@.skip(i as int + 1))[0],
                ] + split_segments(p@.skip(i as int + 1)).drop_first());
            }
        }
        i += 1;
    }
    proof {
        assert(p@.skip(n as int) =~= Seq::<char>::empty());
        assert(segs =~= done@.map_values(|s: String| s@) + seq![cur@]);
    }
    let ghost done1 = done@;
    let ghost cur1 = cur@;
    done.push(cur);
    proof {
        assert(done@.map_values(|s: String| s@) =~= done1.map_values(|s: String| s@).push(cur1));
        assert(segs =~= done@.map_values(|s: String| s@));
    }
    done
}

/// Reads a token as an array index, exactly as the walk accepts one.
pub fn parse_index(t: &str) -> (r: Option<usize>)
    ensures
        match r {
            Option::Some(u) => spec_parse_index(t@) == Option::Some(u as int),
            Option::None => spec_parse_index(t@) is None,
        },
{
    let n = t.unicode_len();
    if n == 0 {
        return None;
    }
    if n > 1 && t.get_char(0) == '0' {
        return None;
    }
    let mut acc: usize = 0;
    let mut i: usize = 0;
    proof {
        assert(t@.take(0) =~= Seq::<char>::empty());
    }
    while i < n
        invariant
            n == t@.len(),
            0 <= i <= n,
            all_digits(t@.take(i as int)),
            acc as int == digits_val(t@.take(i as int)),
        decreases n - i,
    {
        proof {
            assert(t@.take(i as int + 1).drop_last() =~= t@.take(i as int));
            assert(t@.take(i as int + 1).last() == t@[i as int]);
        }
        let c = t.get_char(i);
        let cu = c as u32;
        if cu < 48 || cu > 57 {
            proof {
                assert(!is_digit(t@[i as int]));
                assert(!all_digits(t@));
            }
            return None;
        }
        let d: usize = (cu - 48) as usize;
        let stepped = match acc.checked_mul(10) {
            Option::Some(x) => x.checked_add(d),
            Option::None => None,
        };
        match stepped {
            Option::Some(next) => {
                acc = next;
            },
            Option::None => {
                proof {
                    assert(digits_val(t@.take(i as int + 1)) > usize::MAX);
                    if all_digits(t@) {
                        lemma_digits_val_prefix(t@, i as int + 1);
                        assert(digits_val(t@) > usize::MAX);
                    }
                }
                return None;
            },
        }
        proof {
            assert(all_digits(t@.take(i as int + 1)));
        }
        i += 1;
    }
    proof {
        assert(t@.take(n as int) =~= t@);
    }
    Some(acc)
}

/// The value under the first pair carrying `key`, borrowed from the object.
pub fn obj_find<'a>(pairs: &'a Vec<(String, JsonValue)>, key: &str) -> (r: Option<&'a JsonValue>)
    ensures
        match r {
            Option::Some(x) => obj_get(model_of_pairs(pairs@), key@) == Option::Some(x@),
            Option::None => obj_get(model_of_pairs(pairs@), key@) is None,
        },
{
    let ghost ps = model_of_pairs(pairs@);
    proof {
        crate::json::lemma_model_of_pairs(pairs@);
        assert(ps.skip(0) =~= ps);
    }
    let n = pairs.len();
    let mut j: usize = 0;
    while j < n
        invariant
            n == pairs.len(),
            ps == model_of_pairs(pairs@),
            ps.len() == n,
            forall|k: int| 0 <= k < n ==> ps[k] == (#[trigger] pairs@[k].0@, crate::json::model_of(
                pairs@[k].1,
            )),
            0 <= j <= n,
            obj_get(ps, key@) == obj_get(ps.skip(j as int), key@),
        decreases n - j,
    {
        proof {
            assert(ps.skip(j as int)[0] == ps[j as int]);
            assert(ps.skip(j as int).drop_first() =~= ps.skip(j as int + 1));
        }
        if str_eq(pairs[j].0.as_str(), key) {
            return Some(&pairs[j].1);
        }
        j += 1;
    }
    proof {
        assert(ps.skip(n as int) =~= Seq::<(Seq<char>, JsonModel)>::empty());
    }
    None
}

/// Resolves a pointer in a document, borrowing the value it leads to.
pub fn locate<'a>(v: &'a JsonValue, pointer: &str) -> (r: Option<&'a JsonValue>)
    ensures
        match r {
            Option::Some(x) => spec_locate(v@, pointer@) == Option::Some(x@),
            Option::None => spec_locate(v@, pointer@) is None,
        },
{
    if pointer.is_empty() {
        return None;
    }
    if pointer.get_char(0) != '/' {
        return None;
    }
    let toks = split_tokens(pointer);
    let ghost segs = split_segments(pointer@.drop_first());
    let n = toks.len();
    let mut cur: &JsonValue = v;
    let mut k: usize = 0;
    proof {
        assert(segs.skip(0) =~= segs);
    }
    while k < n
        invariant
            pointer@.len() > 0,
            pointer@[0] == '/',
            segs == split_segments(pointer@.drop_first()),
            n == toks.len(),
            segs.len() == n,
            forall|j: int| 0 <= j < n ==> #[trigger] toks@[j]@ == segs[j],
            0 <= k <= n,
            walk(v@, segs) == walk(cur@, segs.skip(k as int)),
        decreases n - k,
    {
        proof {
            assert(segs.skip(k as int)[0] == segs[k as int]);
            assert(segs.skip(k as int).drop_first() =~= segs.skip(k as int + 1));
        }
        let tok = unescape(toks[k].as_str());
        match cur {
            JsonValue::Object(pairs) => {
                proof {
                    assert(cur@ == JsonModel::Object(model_of_pairs(pairs@)));
                    assert(unescape_token(segs.skip(k as int)[0]) == tok@);
                }
                match obj_find(pairs, tok.as_str()) {
                    Option::Some(child) => {
                        cur = child;
                    },
                    Option::None => {
                        proof {
                            assert(walk(v@, segs) is None);
                        }
                        return None;
                    },
                }
            },
            JsonValue::Array(items) => {
                proof {
                    crate::json::lemma_model_of_items(items@);
                    assert(cur@ == JsonModel::Array(model_of_items(items@)));
                    assert(unescape_token(segs.skip(k as int)[0]) == tok@);
                }
                match parse_index(tok.as_str()) {
                    Option::Some(idx) => {
                        if idx < items.len() {
                            cur = &items[idx];
                        } else {
                            proof {
                                assert(walk(v@, segs) is None);
                            }
                            return None;
                        }
                    },
                    Option::None => {
                        proof {
                            assert(walk(v@, segs) is None);
                        }
                        return None;
                    },
                }
            },
            _ => {
                return None;
            },
        }
        k += 1;
    }
    proof {
        assert(segs.skip(n as int) =~= Seq::<Seq<char>>::empty());
    }
    Some(cur)
}

/// Resolves a pointer and keeps the result only when it is a string.
pub fn locate_str<'a>(v: &'a JsonValue, pointer: &str) -> (r: Option<&'a str>)
    ensures
        match r {
            Option::Some(t) => spec_locate_str(v@, pointer@) == Option::Some(t@),
            Option::None => spec_locate_str(v@, pointer@) is None,
        },
{
    match locate(v, pointer) {
        Option::Some(x) => match x {
            JsonValue::Str(s) => Some(s.as_str()),
            _ => None,
        },
        Option::None => None,
    }
}

} // verus!
