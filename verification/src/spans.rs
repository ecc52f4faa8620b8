use vstd::prelude::*;
use vstd::string::StrSliceExecFns;
use vstd::string::StringExecFns;

use crate::ansi::{ansi_reset, ansi_rgb_prefix, paint_rgb};
use crate::json::{
    json_text, model_of, model_of_items, model_of_pairs, write_json, JsonModel, JsonValue,
    lemma_model_of_items, lemma_model_of_pairs,
};
use crate::pointer::{locate, obj_get, spec_locate};
use crate::text::str_eq;

verus! {

broadcast use vstd::seq::group_seq_axioms, vstd::std_specs::vec::group_vec_axioms;

/// Keeps a pair unless it is the one redundant `name` pair whose value is the
/// span's own name; any other pair stays, even one also keyed `name` with a
/// different value.
pub open spec fn keep_pred(name: Seq<char>) -> spec_fn((Seq<char>, JsonModel)) -> bool {
    |p: (Seq<char>, JsonModel)| !(p.0 == "name"@ && p.1 == JsonModel::Str(name))
}

/// The attribute pairs of a span that are rendered, in their original order.
pub open spec fn kept_pairs(pairs: Seq<(Seq<char>, JsonModel)>, name: Seq<char>) -> Seq<
    (Seq<char>, JsonModel),
> {
    pairs.filter(keep_pred(name))
}

/// One rendered attribute: the key as it stands, an equals sign, and the
/// value's compact JSON rendering.
pub open spec fn pair_text(p: (Seq<char>, JsonModel)) -> Seq<char> {
    p.0 + seq!['='] + json_text(p.1)
}

/// The rendered attribute texts of a span, in order.
pub open spec fn attr_texts(pairs: Seq<(Seq<char>, JsonModel)>, name: Seq<char>) -> Seq<
    Seq<char>,
> {
    kept_pairs(pairs, name).map_values(|p: (Seq<char>, JsonModel)| pair_text(p))
}

/// Parts joined with a separator between every two of them.
pub open spec fn join_with(parts: Seq<Seq<char>>, sep: Seq<char>) -> Seq<char>
    decreases parts.len(),
{
    if parts.len() == 0 {
        Seq::empty()
    } else if parts.len() == 1 {
        parts[0]
    } else {
        parts[0] + sep + join_with(parts.drop_first(), sep)
    }
}

/// The styled separator between two spans of the chain.
pub open spec fn span_sep() -> Seq<char> {
    ansi_rgb_prefix(128, 128, 255) + "::"@ + ansi_reset()
}

/// One rendered span: its name in medium violet, then, only when some
/// attribute is kept, the comma-joined attribute list in braces in light
/// violet.
pub open spec fn span_entry_text(pairs: Seq<(Seq<char>, JsonModel)>, name: Seq<char>) -> Seq<
    char,
> {
    let name_col = ansi_rgb_prefix(128, 128, 255) + name + ansi_reset();
    if kept_pairs(pairs, name).len() == 0 {
        name_col
    } else {
        name_col + ansi_rgb_prefix(200, 200, 255) + seq!['{'] + join_with(
            attr_texts(pairs, name),
            seq![','],
        ) + seq!['}'] + ansi_reset()
    }
}

/// The rendered entries of a span list, in order: an element renders only
/// when it is an object whose `name` key holds a string, and is dropped from
/// the chain entirely otherwise.
pub open spec fn span_entries(items: Seq<JsonModel>) -> Seq<Seq<char>>
    decreases items.len(),
{
    if items.len() == 0 {
        Seq::empty()
    } else {
        let rest = span_entries(items.drop_first());
        match items[0] {
            JsonModel::Object(pairs) => match obj_get(pairs, "name"@) {
                Option::Some(child) => match child {
                    JsonModel::Str(name) => seq![span_entry_text(pairs, name)] + rest,
                    _ => rest,
                },
                Option::None => rest,
            },
            _ => rest,
        }
    }
}

/// The whole span chain of a record: the entries under the fixed `/spans`
/// location joined with the styled separator, and empty text when that
/// location holds no array.
pub open spec fn spec_render_spans(m: JsonModel) -> Seq<char> {
    match spec_locate(m, "/spans"@) {
        Option::Some(sv) => match sv {
            JsonModel::Array(items) => join_with(span_entries(items), span_sep()),
            _ => Seq::empty(),
        },
        _ => Seq::empty(),
    }
}

/// Joins already rendered parts with a separator.
fn join_strings(parts: &Vec<String>, sep: &str) -> (r: String)
    ensures
        r@ == join_with(parts@.map_values(|s: String| s@), sep@),
{
    let ghost pv = parts@.map_values(|s: String| s@);
    let mut out = String::new();
    let n = parts.len();
    proof {
        assert(pv.skip(0) =~= pv);
    }
    let mut i: usize = 0;
    while i < n
        invariant
            n == parts.len(),
            pv == parts@.map_values(|s: String| s@),
            pv.len() == n,
            0 <= i <= n,
            out@ + join_with(pv.skip(i as int), sep@) == join_with(pv, sep@),
        decreases n - i,
    {
        proof {
            assert(pv.skip(i as int)[0] == pv[i as int]);
            assert(pv.skip(i as int).drop_first() =~= pv.skip(i as int + 1));
        }
        out.append(parts[i].as_str());
        if i + 1 < n {
            out.append(sep);
        }
        proof {
            assert(out@ + join_with(pv.skip(i as int + 1), sep@) =~= join_with(pv, sep@));
        }
        i += 1;
    }
    proof {
        assert(pv.skip(n as int) =~= Seq::<Seq<char>>::empty());
    }
    out
}

/// One rendered span, from its attribute pairs and its name.
fn span_entry(pairs: &Vec<(String, JsonValue)>, name: &str) -> (r: String)
    ensures
        r@ == span_entry_text(model_of_pairs(pairs@), name@),
{
    let ghost ps = model_of_pairs(pairs@);
    proof {
        lemma_model_of_pairs(pairs@);
        assert(ps.take(0) =~= Seq::<(Seq<char>, JsonModel)>::empty());
        reveal(Seq::filter);
        assert(kept_pairs(ps.take(0), name@) =~= Seq::<(Seq<char>, JsonModel)>::empty());
    }
    let mut parts: Vec<String> = Vec::new();
    let n = pairs.len();
    let mut j: usize = 0;
    while j < n
        invariant
            n == pairs.len(),
            ps == model_of_pairs(pairs@),
            ps.len() == n,
            forall|k: int| 0 <= k < n ==> ps[k] == (#[trigger] pairs@[k].0@, model_of(pairs@[k].1)),
            0 <= j <= n,
            parts@.map_values(|s: String| s@) =~= attr_texts(ps.take(j as int), name@),
        decreases n - j,
    {
        let ghost parts0 = parts@;
        proof {
            assert(ps.take(j as int + 1) =~= ps.take(j as int) + seq![ps[j as int]]);
            Seq::filter_distributes_over_add(
                ps.take(j as int),
                seq![ps[j as int]],
                keep_pred(name@),
            );
            reveal_with_fuel(Seq::filter, 2);
            assert(seq![ps[j as int]].drop_last() =~= Seq::<(Seq<char>, JsonModel)>::empty());
            assert(seq![ps[j as int]].filter(keep_pred(name@)) =~= (if keep_pred(name@)(
                ps[j as int],
            ) {
                seq![ps[j as int]]
            } else {
                Seq::<(Seq<char>, JsonModel)>::empty()
            }));
        }
        let is_name_key = str_eq(pairs[j].0.as_str(), "name");
        let same_value = match &pairs[j].1 {
            JsonValue::Str(s) => str_eq(s.as_str(), name),
            _ => false,
        };
        if !(is_name_key && same_value) {
            proof {
                assert(keep_pred(name@)(ps[j as int]));
            }
            let mut t = String::new();
            t.append(pairs[j].0.as_str());
            t.push('=');
            write_json(&pairs[j].1, &mut t);
            proof {
                assert(t@ =~= pair_text(ps[j as int]));
            }
            parts.push(t);
            proof {
                assert(parts@.map_values(|s: String| s@) =~= parts0.map_values(
                    |s: String| s@,
                ).push(pair_text(ps[j as int])));
                assert(kept_pairs(ps.take(j as int + 1), name@) =~= kept_pairs(
                    ps.take(j as int),
                    name@,
                ).push(ps[j as int]));
                assert(parts@.map_values(|s: String| s@) =~= attr_texts(
                    ps.take(j as int + 1),
                    name@,
                ));
            }
        } else {
            proof {
                assert(!keep_pred(name@)(ps[j as int]));
                assert(kept_pairs(ps.take(j as int + 1), name@) =~= kept_pairs(
                    ps.take(j as int),
                    name@,
                ));
                assert(parts@.map_values(|s: String| s@) =~= attr_texts(
                    ps.take(j as int + 1),
                    name@,
                ));
            }
        }
        j += 1;
    }
    proof {
        assert(ps.take(n as int) =~= ps);
    }
    let name_col = paint_rgb(name, 128, 128, 255);
    if parts.len() == 0 {
        proof {
            assert(kept_pairs(ps, name@).len() == attr_texts(ps, name@).len());
        }
        name_col
    } else {
        proof {
            assert(kept_pairs(ps, name@).len() == attr_texts(ps, name@).len());
        }
        let joined = join_strings(&parts, ",");
        let mut braced = String::new();
        braced.push('{');
        braced.append(joined.as_str());
        braced.push('}');
        let attrs_col = paint_rgb(braced.as_str(), 200, 200, 255);
        let mut out = name_col;
        out.append(attrs_col.as_str());
        proof {
            reveal_strlit(",");
            assert(","@ =~= seq![',']);
            assert(out@ =~= span_entry_text(ps, name@));
        }
        out
    }
}

/// The styled span chain of a record, possibly empty.
pub fn render_spans(v: &JsonValue) -> (r: String)
    ensures
        r@ == spec_render_spans(v@),
{
    let located = locate(v, "/spans");
    match located {
        Option::Some(arr) => match arr {
            JsonValue::Array(items) => {
                let ghost ms = model_of_items(items@);
                proof {
                    lemma_model_of_items(items@);
                    assert(ms.skip(0) =~= ms);
                }
                let mut entries: Vec<String> = Vec::new();
                let n = items.len();
                let mut i: usize = 0;
                while i < n
                    invariant
                        n == items.len(),
                        ms == model_of_items(items@),
                        ms.len() == n,
                        forall|k: int| 0 <= k < n ==> ms[k] == model_of(#[trigger] items@[k]),
                        0 <= i <= n,
                        entries@.map_values(|s: String| s@) + span_entries(ms.skip(i as int))
                            =~= span_entries(ms),
                    decreases n - i,
                {
                    let ghost entries0 = entries@;
                    proof {
                        assert(ms.skip(i as int)[0] == ms[i as int]);
                        assert(ms.skip(i as int).drop_first() =~= ms.skip(i as int + 1));
                    }
                    match &items[i] {
                        JsonValue::Object(pairs) => {
                            proof {
                                assert(ms[i as int] == JsonModel::Object(model_of_pairs(pairs@)));
                            }
                            match crate::pointer::obj_find(pairs, "name") {
                                Option::Some(child) => match child {
                                    JsonValue::Str(s) => {
                                        let entry = span_entry(pairs, s.as_str());
                                        entries.push(entry);
                                        proof {
                                            assert(entries@.map_values(|t: String| t@)
                                                =~= entries0.map_values(|t: String| t@).push(
                                                span_entry_text(model_of_pairs(pairs@), s@),
                                            ));
                                            assert(entries@.map_values(|t: String| t@)
                                                + span_entries(ms.skip(i as int + 1))
                                                =~= span_entries(ms));
                                        }
                                    },
                                    _ => {
                                        proof {
                                            assert(entries@.map_values(|t: String| t@)
                                                + span_entries(ms.skip(i as int + 1))
                                                =~= span_entries(ms));
                                        }
                                    },
                                },
                                Option::None => {
                                    proof {
                                        assert(entries@.map_values(|t: String| t@) + span_entries(
                                            ms.skip(i as int + 1),
                                        ) =~= span_entries(ms));
                                    }
                                },
                            }
                        },
                        _ => {
                            proof {
                                assert(entries@.map_values(|t: String| t@) + span_entries(
                                    ms.skip(i as int + 1),
                                ) =~= span_entries(ms));
                            }
                        },
                    }
                    i += 1;
                }
                proof {
                    assert(ms.skip(n as int) =~= Seq::<JsonModel>::empty());
                    assert(entries@.map_values(|s: String| s@) =~= span_entries(ms));
                }
                let sep = paint_rgb("::", 128, 128, 255);
                let joined = join_strings(&entries, sep.as_str());
                joined
            },
            _ => String::new(),
        },
        Option::None => String::new(),
    }
}

/// No rendered attribute of a span is the suppressed `name` pair; every other
/// pair of the span object is rendered, in order, as its key, an equals sign,
/// and its value's compact rendering.
pub proof fn lemma_span_name_suppressed(pairs: Seq<(Seq<char>, JsonModel)>, name: Seq<char>)
    ensures
        forall|i: int|
            0 <= i < kept_pairs(pairs, name).len() ==> !(#[trigger] kept_pairs(pairs, name)[i].0
                == "name"@ && kept_pairs(pairs, name)[i].1 == JsonModel::Str(name)),
        forall|i: int|
            0 <= i < pairs.len() && !(#[trigger] pairs[i].0 == "name"@ && pairs[i].1
                == JsonModel::Str(name)) ==> kept_pairs(pairs, name).contains(pairs[i]),
        attr_texts(pairs, name) == kept_pairs(pairs, name).map_values(
            |p: (Seq<char>, JsonModel)| pair_text(p),
        ),
{
    broadcast use vstd::seq_lib::group_filter_ensures;
    assert forall|i: int| 0 <= i < kept_pairs(pairs, name).len() implies !(
    #[trigger] kept_pairs(pairs, name)[i].0 == "name"@ && kept_pairs(pairs, name)[i].1
        == JsonModel::Str(name)) by {
        assert(keep_pred(name)(kept_pairs(pairs, name)[i]));
    }
    assert forall|i: int|
        0 <= i < pairs.len() && !(#[trigger] pairs[i].0 == "name"@ && pairs[i].1
            == JsonModel::Str(name)) implies kept_pairs(pairs, name).contains(pairs[i]) by {
        assert(keep_pred(name)(pairs[i]));
    }
}

} // verus!
