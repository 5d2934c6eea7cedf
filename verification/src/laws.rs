//! What holds of every registry: written payloads read back as they were,
//! the current version is read without conversion, and every registered
//! version leads to the current one.

use vstd::prelude::*;
use crate::envelope::{
    decode_field,
    decode_fields,
    encode_field,
    encode_fields,
    envelope_spec,
    lemma_first_index_is,
    lookup,
    Entries,
};
use crate::model::{admits, ErrorView, FieldView, RuleView, StepView};
use crate::plan::{
    convert_fields,
    field_value,
    plan_of,
    unambiguous,
    without_fields,
    FieldMap,
    PlanMap,
};
use crate::registry::{all_unambiguous, plan_types, Registry};
use crate::shape::ShapeMap;
use crate::value::DatumView;

verus! {

/// **Ambiguity.** A rename or a copy that has two sources or more and no
/// converter is ambiguous, so that the steps that hold it are not all
/// unambiguous: registration answers them with an ambiguous conversion.
pub proof fn law_many_sources_need_a_converter(steps: Seq<StepView>, i: int, k: int)
    requires
        0 <= i < steps.len(),
        0 <= k < steps[i].changes.len(),
        match steps[i].changes[k] {
            RuleView::Rename { source, converter, .. } => source.len() >= 2 && converter is None,
            RuleView::Copy { source, converter, .. } => source.len() >= 2 && converter is None,
            _ => false,
        },
    ensures
        steps[i].changes[k].ambiguous(),
        !all_unambiguous(steps),
{
    assert(!unambiguous(steps[i].changes));
}

/// Whether an instance has exactly the fields of a shape, each with a
/// value of its type.
pub open spec fn conforms(shape: ShapeMap, x: FieldMap) -> bool {
    &&& x.dom() =~= shape.dom()
    &&& forall|n: Seq<char>| shape.contains_key(n) ==> admits(shape[n], #[trigger] x[n])
}

/// The fields of an instance that the names pick, in the order of the
/// names.
pub open spec fn pairs_of(names: Seq<Seq<char>>, x: FieldMap) -> Entries {
    Seq::new(names.len(), |i: int| (names[i], x[names[i]]))
}

/// The part of an instance that the names pick.
pub open spec fn pick(names: Seq<Seq<char>>, x: FieldMap) -> FieldMap {
    Map::new(|n: Seq<char>| names.contains(n), |n: Seq<char>| x[n])
}

proof fn lemma_contains_last(names: Seq<Seq<char>>, n: Seq<char>)
    requires
        names.len() > 0,
    ensures
        names.contains(n) <==> (names.drop_last().contains(n) || n == names.last()),
{
    if names.contains(n) {
        let i = choose|i: int| 0 <= i < names.len() && names[i] == n;
        if i < names.len() - 1 {
            assert(names.drop_last()[i] == n);
        }
    }
    if names.drop_last().contains(n) {
        let i = choose|i: int| 0 <= i < names.drop_last().len() && names.drop_last()[i] == n;
        assert(names[i] == n);
    }
    if n == names.last() {
        assert(names[names.len() - 1] == n);
    }
}

proof fn lemma_encode_ok(names: Seq<Seq<char>>, shape: ShapeMap, x: FieldMap)
    requires
        forall|i: int|
            0 <= i < names.len() ==> x.contains_key(#[trigger] names[i]) && admits(
                shape[names[i]],
                x[names[i]],
            ),
    ensures
        encode_fields(names, shape, x) == Ok::<Entries, ErrorView>(pairs_of(names, x)),
    decreases names.len(),
{
    if names.len() > 0 {
        let rest = names.drop_last();
        assert forall|i: int| 0 <= i < rest.len() implies x.contains_key(#[trigger] rest[i])
            && admits(shape[rest[i]], x[rest[i]]) by {
            assert(rest[i] == names[i]);
        }
        lemma_encode_ok(rest, shape, x);
        let last = names.last();
        assert(last == names[names.len() - 1]);
        assert(encode_field(shape[last], last, x) == Ok::<DatumView, ErrorView>(x[last]));
        assert(pairs_of(rest, x).push((last, x[last])) =~= pairs_of(names, x));
    } else {
        assert(pairs_of(names, x) =~= Seq::empty());
    }
}

proof fn lemma_decode_ok(names: Seq<Seq<char>>, shape: ShapeMap, payload: Entries, x: FieldMap)
    requires
        forall|i: int|
            0 <= i < names.len() ==> decode_field(
                shape[#[trigger] names[i]],
                names[i],
                payload,
            ) == Ok::<DatumView, ErrorView>(x[names[i]]),
    ensures
        decode_fields(names, shape, payload) == Ok::<FieldMap, ErrorView>(pick(names, x)),
    decreases names.len(),
{
    if names.len() > 0 {
        let rest = names.drop_last();
        assert forall|i: int| 0 <= i < rest.len() implies decode_field(
            shape[#[trigger] rest[i]],
            rest[i],
            payload,
        ) == Ok::<DatumView, ErrorView>(x[rest[i]]) by {
            assert(rest[i] == names[i]);
        }
        lemma_decode_ok(rest, shape, payload, x);
        let last = names.last();
        assert(last == names[names.len() - 1]);
        assert forall|n: Seq<char>|
            names.contains(n) <==> (rest.contains(n) || n == last) by {
            lemma_contains_last(names, n);
        }
        assert(pick(rest, x).insert(last, x[last]) =~= pick(names, x));
    } else {
        assert(pick(names, x) =~= Map::empty());
    }
}

proof fn lemma_lookup_pairs(names: Seq<Seq<char>>, x: FieldMap, i: int)
    requires
        names.no_duplicates(),
        0 <= i < names.len(),
    ensures
        lookup(pairs_of(names, x), names[i]) == Some(x[names[i]]),
{
    let pairs = pairs_of(names, x);
    assert forall|j: int| 0 <= j < i implies (#[trigger] pairs[j]).0 != names[i] by {
        assert(pairs[j].0 == names[j]);
    }
    lemma_first_index_is(pairs, names[i], i);
}

/// **Round trip.** An instance that has exactly the fields of the current
/// shape, each with a value of its type, can be written, and what was
/// written reads back as the same instance.
pub proof fn law_round_trip(reg: Registry, x: FieldMap)
    requires
        reg.wf(),
        conforms(reg.shapes()[0]@, x),
    ensures
        reg.serialize_spec(x) is Ok,
        reg.deserialize_spec(reg.serialize_spec(x)->Ok_0) == Ok::<FieldMap, ErrorView>(x),
{
    let shape = reg.shapes()[0];
    let names = shape.keys();
    let key = reg.tag_key();
    assert(shape.wf());
    shape.lemma_dom();
    assert forall|i: int| 0 <= i < names.len() implies x.contains_key(#[trigger] names[i])
        && admits(shape@[names[i]], x[names[i]]) by {
        shape.lemma_at(i);
        assert(shape@.dom().contains(names[i]));
    }
    lemma_encode_ok(names, shape@, x);
    let pairs = pairs_of(names, x);
    let head = seq![(key, DatumView::Text(reg.current()))];
    let entries = head + pairs;
    assert(reg.serialize_spec(x) == Ok::<DatumView, ErrorView>(DatumView::Record(entries)));
    assert(entries[0] == (key, DatumView::Text(reg.current())));
    lemma_first_index_is(entries, key, 0);
    assert(entries.remove(0) =~= pairs);
    assert(envelope_spec(key, DatumView::Record(entries)) == Ok::<
        (Option<Seq<char>>, Entries),
        ErrorView,
    >((Some(reg.current()), pairs)));
    reg.lemma_tags_distinct();
    assert(reg.tags()[0] == reg.current());
    assert(reg.tags().contains(reg.current()));
    let k = reg.tags().index_of(reg.current());
    assert(k == 0);
    assert forall|i: int| 0 <= i < names.len() implies decode_field(
        shape@[#[trigger] names[i]],
        names[i],
        pairs,
    ) == Ok::<DatumView, ErrorView>(x[names[i]]) by {
        lemma_lookup_pairs(names, x, i);
        shape.lemma_at(i);
    }
    lemma_decode_ok(names, shape@, pairs, x);
    assert(pick(names, x) =~= x) by {
        assert forall|n: Seq<char>| names.contains(n) <==> x.contains_key(n) by {
            assert(names.to_set().contains(n) <==> names.contains(n));
        }
    }
}

/// **No edge at the current tag.** A payload that carries the tag of the
/// current version is read against the current shape and returned as it
/// was read: no conversion edge is applied to it.
pub proof fn law_current_tag_applies_no_edge(reg: Registry, envelope: DatumView, payload: Entries)
    requires
        reg.wf(),
        envelope_spec(reg.tag_key(), envelope) == Ok::<(Option<Seq<char>>, Entries), ErrorView>(
            (Some(reg.current()), payload),
        ),
    ensures
        reg.decode_spec(Some(reg.current()), payload) matches Ok((k, _)) ==> k == 0,
        reg.deserialize_spec(envelope) == decode_fields(
            reg.shapes()[0].keys(),
            reg.shapes()[0]@,
            payload,
        ),
        forall|x: FieldMap| reg.migrate_spec(0, x) == Ok::<FieldMap, ErrorView>(x),
{
    reg.lemma_tags_distinct();
    assert(reg.tags()[0] == reg.current());
    assert(reg.tags().contains(reg.current()));
    assert(reg.tags().index_of(reg.current()) == 0);
}

proof fn lemma_without_fields(m: PlanMap, fields: Seq<FieldView>, n: Seq<char>)
    ensures
        without_fields(m, fields).contains_key(n) ==> m.contains_key(n) && without_fields(
            m,
            fields,
        )[n] == m[n],
    decreases fields.len(),
{
    if fields.len() > 0 {
        lemma_without_fields(m, fields.drop_last(), n);
    }
}

/// A field that the plan of a step keeps is a field of the older shape,
/// with the type it has there.
pub proof fn lemma_kept_fields(old: ShapeMap, rules: Seq<RuleView>, n: Seq<char>)
    ensures
        plan_of(old, rules).contains_key(n) && plan_of(old, rules)[n].origin is Keep
            ==> old.contains_key(n) && plan_of(old, rules)[n].ty == old[n],
    decreases rules.len(),
{
    if rules.len() > 0 {
        let before = plan_of(old, rules.drop_last());
        lemma_kept_fields(old, rules.drop_last(), n);
        match rules.last() {
            RuleView::Rename { source, .. } => {
                lemma_without_fields(before, source, n);
            },
            _ => {},
        }
    }
}

proof fn lemma_convert_conforms(
    old: ShapeMap,
    rules: Seq<RuleView>,
    names: Seq<Seq<char>>,
    x: FieldMap,
)
    requires
        conforms(old, x),
        forall|i: int| 0 <= i < names.len() ==> plan_of(old, rules).contains_key(#[trigger] names[i]),
    ensures
        match convert_fields(names, plan_of(old, rules), rules, x) {
            Ok(y) => y.dom() =~= names.to_set() && forall|n: Seq<char>|
                names.contains(n) ==> admits(plan_of(old, rules)[n].ty, #[trigger] y[n]),
            Err(e) => e is ConversionFailure,
        },
    decreases names.len(),
{
    let plan = plan_of(old, rules);
    if names.len() > 0 {
        let rest = names.drop_last();
        let last = names.last();
        assert(last == names[names.len() - 1]);
        assert forall|i: int| 0 <= i < rest.len() implies plan.contains_key(#[trigger] rest[i]) by {
            assert(rest[i] == names[i]);
        }
        lemma_convert_conforms(old, rules, rest, x);
        lemma_kept_fields(old, rules, last);
        match convert_fields(rest, plan, rules, x) {
            Ok(m) => {
                match field_value(last, plan[last], rules, x) {
                    Ok(v) => {
                        let y = m.insert(last, v);
                        assert forall|n: Seq<char>|
                            names.contains(n) <==> (rest.contains(n) || n == last) by {
                            lemma_contains_last(names, n);
                        }
                        assert(y.dom() =~= names.to_set());
                        assert(admits(plan[last].ty, v)) by {
                            if plan[last].origin is Keep {
                                assert(old.contains_key(last));
                                assert(admits(old[last], x[last]));
                            }
                        }
                        assert forall|n: Seq<char>| names.contains(n) implies admits(
                            plan[n].ty,
                            #[trigger] y[n],
                        ) by {
                            if n != last {
                                assert(rest.contains(n));
                                assert(admits(plan[n].ty, m[n]));
                            }
                        }
                    },
                    Err(e) => {
                        if plan[last].origin is Keep {
                            assert(old.contains_key(last));
                            assert(x.dom().contains(last));
                        }
                    },
                }
            },
            Err(e) => {},
        }
    } else {
        assert(names.to_set() =~= Set::empty());
    }
}

/// **One edge.** An instance of the older version of an edge is converted
/// to an instance of its newer version, unless a converter fails.
pub proof fn law_edge_preserves_shape(reg: Registry, k: int, x: FieldMap)
    requires
        reg.wf(),
        0 <= k < reg.plans().len(),
        conforms(reg.shapes()[k + 1]@, x),
    ensures
        match convert_fields(reg.plans()[k].keys(), reg.plans()[k]@, reg.rules(k), x) {
            Ok(y) => conforms(reg.shapes()[k]@, y),
            Err(e) => e is ConversionFailure,
        },
{
    let plan = reg.plans()[k];
    let names = plan.keys();
    let old = reg.shapes()[k + 1]@;
    assert(plan.wf());
    assert(plan@ == plan_of(old, reg.rules(k)));
    plan.lemma_dom();
    assert forall|i: int| 0 <= i < names.len() implies plan@.contains_key(#[trigger] names[i]) by {
        plan.lemma_at(i);
    }
    lemma_convert_conforms(old, reg.rules(k), names, x);
    match convert_fields(names, plan@, reg.rules(k), x) {
        Ok(y) => {
            let newer = reg.shapes()[k]@;
            assert(plan_types(plan@) == newer);
            assert(newer.dom() =~= plan@.dom());
            assert forall|n: Seq<char>| newer.contains_key(n) implies admits(
                newer[n],
                #[trigger] y[n],
            ) by {
                assert(names.to_set().contains(n));
                assert(names.contains(n));
                assert(newer[n] == plan@[n].ty);
            }
        },
        Err(e) => {},
    }
}

/// **Chain completeness.** An instance of any registered version is
/// converted, edge by edge, to an instance of the current version: it has
/// exactly the fields of the current shape, each with a value of its
/// type. Nothing but the failure of a converter stands in the way.
pub proof fn law_chain_complete(reg: Registry, k: int, x: FieldMap)
    requires
        reg.wf(),
        0 <= k < reg.tags().len(),
        conforms(reg.shapes()[k]@, x),
    ensures
        match reg.migrate_spec(k, x) {
            Ok(y) => conforms(reg.shapes()[0]@, y),
            Err(e) => e is ConversionFailure,
        },
    decreases k,
{
    if k > 0 {
        law_edge_preserves_shape(reg, k - 1, x);
        match convert_fields(reg.plans()[k - 1].keys(), reg.plans()[k - 1]@, reg.rules(k - 1), x) {
            Ok(next) => {
                law_chain_complete(reg, k - 1, next);
            },
            Err(e) => {},
        }
    }
}

proof fn lemma_decode_conforms(names: Seq<Seq<char>>, shape: ShapeMap, payload: Entries)
    ensures
        match decode_fields(names, shape, payload) {
            Ok(x) => x.dom() =~= names.to_set() && forall|n: Seq<char>|
                names.contains(n) ==> admits(shape[n], #[trigger] x[n]),
            Err(e) => e is MissingField || e is TypeMismatch,
        },
    decreases names.len(),
{
    if names.len() > 0 {
        let rest = names.drop_last();
        let last = names.last();
        lemma_decode_conforms(rest, shape, payload);
        match decode_fields(rest, shape, payload) {
            Ok(m) => {
                match decode_field(shape[last], last, payload) {
                    Ok(v) => {
                        let y = m.insert(last, v);
                        assert forall|n: Seq<char>|
                            names.contains(n) <==> (rest.contains(n) || n == last) by {
                            lemma_contains_last(names, n);
                        }
                        assert(y.dom() =~= names.to_set());
                        assert forall|n: Seq<char>| names.contains(n) implies admits(
                            shape[n],
                            #[trigger] y[n],
                        ) by {
                            if n != last {
                                assert(rest.contains(n));
                                assert(admits(shape[n], m[n]));
                            }
                        }
                    },
                    Err(e) => {},
                }
            },
            Err(e) => {},
        }
    } else {
        assert(names.to_set() =~= Set::empty());
    }
}

/// **Every registered tag is read.** A payload that carries a registered
/// tag is never answered with an unknown version. Where its members match
/// the shape of that version, the answer is an instance of the current
/// version with all its fields, or the failure of a converter; where they
/// do not, the answer names the first field that is missing or of another
/// type.
pub proof fn law_registered_tag_is_read(
    reg: Registry,
    envelope: DatumView,
    tag: Seq<char>,
    payload: Entries,
)
    requires
        reg.wf(),
        reg.tags().contains(tag),
        envelope_spec(reg.tag_key(), envelope) == Ok::<(Option<Seq<char>>, Entries), ErrorView>(
            (Some(tag), payload),
        ),
    ensures
        match reg.deserialize_spec(envelope) {
            Ok(y) => conforms(reg.shapes()[0]@, y),
            Err(e) => e is ConversionFailure || e is MissingField || e is TypeMismatch,
        },
        reg.decode_spec(Some(tag), payload) is Ok ==> match reg.deserialize_spec(envelope) {
            Ok(y) => conforms(reg.shapes()[0]@, y),
            Err(e) => e is ConversionFailure,
        },
{
    let k = reg.tags().index_of(tag);
    assert(0 <= k < reg.tags().len());
    let shape = reg.shapes()[k];
    assert(shape.wf());
    shape.lemma_dom();
    lemma_decode_conforms(shape.keys(), shape@, payload);
    match decode_fields(shape.keys(), shape@, payload) {
        Ok(x) => {
            assert forall|n: Seq<char>| shape@.contains_key(n) implies admits(
                shape@[n],
                #[trigger] x[n],
            ) by {
                assert(shape.keys().to_set().contains(n));
                assert(shape.keys().contains(n));
            }
            assert(conforms(shape@, x));
            law_chain_complete(reg, k, x);
        },
        Err(e) => {},
    }
}

} // verus!
