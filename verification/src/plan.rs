//! Conversion edges: for one step of the chain, where each field of the
//! newer version comes from, and how an instance of the older version is
//! turned into one of the newer.

use vstd::prelude::*;
use crate::expr::{eval_spec, same_outcome, Expr, ExprView};
use crate::instance::Instance;
use crate::model::{
    admits,
    converter_view,
    fields_view,
    rules_view,
    zero_value,
    ErrorView,
    EvalError,
    FieldSpec,
    FieldView,
    MigrationError,
    MigrationField,
    RuleView,
    TypeDescriptor,
};
use crate::shape::{SchemaShape, ShapeMap};
use crate::table::{drop_name, put_name, Table};
use crate::value::{Datum, DatumView};

verus! {

/// Where the value of a field of the newer version comes from.
#[derive(Clone, Copy, Debug, PartialEq, Eq, Structural)]
pub enum Origin {
    /// The field of the same name in the older version, unchanged.
    Keep,
    /// The rule at this position of the step.
    Rule(usize),
}

/// One field of the newer version: its type and its origin.
#[derive(Debug, PartialEq, Eq)]
pub struct FieldPlan {
    pub ty: TypeDescriptor,
    pub origin: Origin,
}

/// The plan of one edge: the fields of the newer version, each with its
/// type and origin.
pub type ConversionPlan = Table<FieldPlan>;

/// The mathematical content of a plan.
pub type PlanMap = Map<Seq<char>, FieldPlan>;

/// The mathematical content of an instance.
pub type FieldMap = Map<Seq<char>, DatumView>;

/// The plan in which every field of the older shape is kept.
pub open spec fn seed_plan(old: ShapeMap) -> PlanMap {
    old.map_values(|ty: TypeDescriptor| FieldPlan { ty, origin: Origin::Keep })
}

/// A plan after the given fields were taken out of it.
pub open spec fn without_fields(m: PlanMap, fields: Seq<FieldView>) -> PlanMap
    decreases fields.len(),
{
    if fields.len() == 0 {
        m
    } else {
        without_fields(m, fields.drop_last()).remove(fields.last().name)
    }
}

/// The plan after one rule. An added or copied field is computed by the
/// rule; a removed field leaves; a rename takes its sources out and
/// computes its target.
pub open spec fn plan_rule(m: PlanMap, rule: RuleView, index: int) -> PlanMap {
    match rule {
        RuleView::Add { value, .. } => m.insert(
            value.name,
            FieldPlan { ty: value.ty, origin: Origin::Rule(index as usize) },
        ),
        RuleView::Remove { value } => m.remove(value.name),
        RuleView::Rename { source, target, .. } => without_fields(m, source).insert(
            target.name,
            FieldPlan { ty: target.ty, origin: Origin::Rule(index as usize) },
        ),
        RuleView::Copy { target, .. } => m.insert(
            target.name,
            FieldPlan { ty: target.ty, origin: Origin::Rule(index as usize) },
        ),
    }
}

/// The plan of a step: every field of the older shape is kept, then the
/// rules are applied in the order in which they are written.
pub open spec fn plan_of(old: ShapeMap, rules: Seq<RuleView>) -> PlanMap
    decreases rules.len(),
{
    if rules.len() == 0 {
        seed_plan(old)
    } else {
        plan_rule(plan_of(old, rules.drop_last()), rules.last(), rules.len() - 1)
    }
}

/// The names of a plan after the given fields were taken out of it.
pub open spec fn without_names(names: Seq<Seq<char>>, fields: Seq<FieldView>) -> Seq<Seq<char>>
    decreases fields.len(),
{
    if fields.len() == 0 {
        names
    } else {
        drop_name(without_names(names, fields.drop_last()), fields.last().name)
    }
}

/// The names of a plan after one rule, in their order.
pub open spec fn plan_rule_names(names: Seq<Seq<char>>, rule: RuleView) -> Seq<Seq<char>> {
    match rule {
        RuleView::Add { value, .. } => put_name(names, value.name),
        RuleView::Remove { value } => drop_name(names, value.name),
        RuleView::Rename { source, target, .. } => put_name(
            without_names(names, source),
            target.name,
        ),
        RuleView::Copy { target, .. } => put_name(names, target.name),
    }
}

/// The names of the plan of a step, in their order: those of the older
/// shape, then the rules applied one after the other.
pub open spec fn plan_names(old: Seq<Seq<char>>, rules: Seq<RuleView>) -> Seq<Seq<char>>
    decreases rules.len(),
{
    if rules.len() == 0 {
        old
    } else {
        plan_rule_names(plan_names(old, rules.drop_last()), rules.last())
    }
}

/// Whether `k` is the position of the first ambiguous rule.
pub open spec fn first_ambiguous(rules: Seq<RuleView>, k: int) -> bool {
    &&& 0 <= k < rules.len()
    &&& rules[k].ambiguous()
    &&& forall|j: int| 0 <= j < k ==> !(#[trigger] rules[j]).ambiguous()
}

/// Whether no rule is ambiguous.
pub open spec fn unambiguous(rules: Seq<RuleView>) -> bool {
    forall|j: int| 0 <= j < rules.len() ==> !(#[trigger] rules[j]).ambiguous()
}

/// The first ambiguous rule of a step, if it has one.
pub fn find_ambiguous(rules: &Vec<MigrationField>) -> (r: Option<usize>)
    ensures
        match r {
            Some(k) => first_ambiguous(rules_view(rules@), k as int),
            None => unambiguous(rules_view(rules@)),
        },
{
    let mut i: usize = 0;
    while i < rules.len()
        invariant
            i <= rules.len(),
            forall|j: int| 0 <= j < i ==> !(#[trigger] rules_view(rules@)[j]).ambiguous(),
        decreases rules.len() - i,
    {
        if rules[i].is_ambiguous() {
            return Some(i);
        }
        i = i + 1;
    }
    None
}

fn seed(old: &SchemaShape) -> (r: ConversionPlan)
    ensures
        r@ == seed_plan(old@),
        r.keys() == old.keys(),
{
    proof {
        use_type_invariant(old);
    }
    let mut out: ConversionPlan = Table::new();
    let mut i: usize = 0;
    while i < old.len()
        invariant
            old.wf(),
            i <= old.keys().len(),
            out.keys() == old.keys().take(i as int),
            out.vals().len() == i,
            forall|j: int|
                0 <= j < i ==> #[trigger] out.vals()[j] == (FieldPlan {
                    ty: old.vals()[j],
                    origin: Origin::Keep,
                }),
        decreases old.keys().len() - i,
    {
        let name = old.key_at(i).clone();
        let ty = old.value_at(i).duplicate();
        let ghost before = out;
        assert(!before.keys().contains(name@)) by {
            if before.keys().contains(name@) {
                let j = before.keys().index_of(name@);
                assert(0 <= j < i && old.keys()[j] == name@);
            }
        }
        out.insert(name, FieldPlan { ty, origin: Origin::Keep });
        i = i + 1;
        assert(out.keys() =~= old.keys().take(i as int));
    }
    proof {
        use_type_invariant(&out);
        assert(old.keys().take(i as int) =~= old.keys());
        assert forall|k: Seq<char>| out@.contains_key(k) implies #[trigger] out@[k] == seed_plan(
            old@,
        )[k] by {
            let j = out.keys().index_of(k);
            assert(0 <= j < out.keys().len() && out.keys()[j] == k);
            out.lemma_at(j);
            old.lemma_at(j);
        }
        assert(out@ =~= seed_plan(old@));
    }
    out
}

fn take_out(plan: &mut ConversionPlan, fields: &Vec<FieldSpec>)
    ensures
        final(plan)@ == without_fields(old(plan)@, fields_view(fields@)),
        final(plan).keys() == without_names(old(plan).keys(), fields_view(fields@)),
{
    let ghost fv = fields_view(fields@);
    let mut i: usize = 0;
    while i < fields.len()
        invariant
            i <= fields.len(),
            fv == fields_view(fields@),
            plan@ == without_fields(old(plan)@, fv.take(i as int)),
            plan.keys() == without_names(old(plan).keys(), fv.take(i as int)),
        decreases fields.len() - i,
    {
        assert(fv.take(i + 1).drop_last() =~= fv.take(i as int));
        plan.remove(fields[i].name.as_str());
        i = i + 1;
    }
    assert(fv.take(i as int) =~= fv);
}

fn apply_rule(plan: &mut ConversionPlan, rule: &MigrationField, index: usize)
    ensures
        final(plan)@ == plan_rule(old(plan)@, rule@, index as int),
        final(plan).keys() == plan_rule_names(old(plan).keys(), rule@),
{
    match rule {
        MigrationField::Add { value, .. } => {
            plan.insert(
                value.name.clone(),
                FieldPlan { ty: value.ty.duplicate(), origin: Origin::Rule(index) },
            );
        },
        MigrationField::Remove { value } => {
            plan.remove(value.name.as_str());
        },
        MigrationField::Rename { source, target, .. } => {
            take_out(plan, source);
            plan.insert(
                target.name.clone(),
                FieldPlan { ty: target.ty.duplicate(), origin: Origin::Rule(index) },
            );
        },
        MigrationField::Copy { target, .. } => {
            plan.insert(
                target.name.clone(),
                FieldPlan { ty: target.ty.duplicate(), origin: Origin::Rule(index) },
            );
        },
    }
}

/// Builds the plan of one step from the shape of its older version and its
/// rules. Fails on the first rename or copy that has no converter and not
/// exactly one source.
pub fn generate_older_version_impl(
    old_struct_fields: &SchemaShape,
    convert_rules: &Vec<MigrationField>,
) -> (r: Result<ConversionPlan, MigrationError>)
    ensures
        match r {
            Ok(plan) => unambiguous(rules_view(convert_rules@)) && plan@ == plan_of(
                old_struct_fields@,
                rules_view(convert_rules@),
            ) && plan.keys() == plan_names(old_struct_fields.keys(), rules_view(convert_rules@)),
            Err(e) => exists|k: int|
                first_ambiguous(rules_view(convert_rules@), k) && e@
                    == ErrorView::AmbiguousConversion(
                    (#[trigger] rules_view(convert_rules@)[k]).subject().name,
                ),
        },
{
    match find_ambiguous(convert_rules) {
        Some(k) => {
            return Err(MigrationError::AmbiguousConversion(convert_rules[k].subject_name().clone()));
        },
        None => {},
    }
    let ghost rv = rules_view(convert_rules@);
    let mut plan = seed(old_struct_fields);
    let mut i: usize = 0;
    while i < convert_rules.len()
        invariant
            i <= convert_rules.len(),
            rv == rules_view(convert_rules@),
            plan@ == plan_of(old_struct_fields@, rv.take(i as int)),
            plan.keys() == plan_names(old_struct_fields.keys(), rv.take(i as int)),
        decreases convert_rules.len() - i,
    {
        assert(rv.take(i + 1).drop_last() =~= rv.take(i as int));
        apply_rule(&mut plan, &convert_rules[i], i);
        i = i + 1;
    }
    assert(rv.take(i as int) =~= rv);
    Ok(plan)
}

/// The source fields of a rule bound to the values they have in the older
/// instance. A source that the instance lacks stays unbound.
pub open spec fn bound_sources(old: FieldMap, source: Seq<FieldView>) -> FieldMap
    decreases source.len(),
{
    if source.len() == 0 {
        Map::empty()
    } else {
        let rest = bound_sources(old, source.drop_last());
        let name = source.last().name;
        if old.contains_key(name) {
            rest.insert(name, old[name])
        } else {
            rest
        }
    }
}

/// The value that a rename or copy gives its target: what the converter
/// evaluates to with the sources bound, or, without a converter, the value
/// of the only source.
pub open spec fn carried_value(
    source: Seq<FieldView>,
    converter: Option<ExprView>,
    old: FieldMap,
) -> Result<DatumView, EvalError> {
    match converter {
        Some(e) => eval_spec(e, bound_sources(old, source)),
        None => if source.len() == 1 && old.contains_key(source[0].name) {
            Ok(old[source[0].name])
        } else {
            Err(EvalError::Unbound)
        },
    }
}

/// The value that a rule computes from an instance of the older version,
/// before it is held against the type of its field. An initializer sees no
/// field; a missing initializer gives the zero value of the type.
pub open spec fn rule_value(rule: RuleView, old: FieldMap) -> Result<DatumView, EvalError> {
    match rule {
        RuleView::Add { value, converter } => match converter {
            Some(e) => eval_spec(e, Map::empty()),
            None => Ok(zero_value(value.ty)),
        },
        RuleView::Remove { .. } => Err(EvalError::Unbound),
        RuleView::Rename { source, converter, .. } => carried_value(source, converter, old),
        RuleView::Copy { source, converter, .. } => carried_value(source, converter, old),
    }
}

/// A computed value held against the type of its field.
pub open spec fn typed(name: Seq<char>, ty: TypeDescriptor, r: Result<DatumView, EvalError>) -> Result<
    DatumView,
    ErrorView,
> {
    match r {
        Err(e) => Err(ErrorView::ConversionFailure(name, e)),
        Ok(v) => if admits(ty, v) {
            Ok(v)
        } else {
            Err(ErrorView::ConversionFailure(name, EvalError::WrongType))
        },
    }
}

/// The value of one field of the newer version. A kept field is taken over
/// as it is; a computed one must be of the field's type.
pub open spec fn field_value(
    name: Seq<char>,
    plan: FieldPlan,
    rules: Seq<RuleView>,
    old: FieldMap,
) -> Result<DatumView, ErrorView> {
    match plan.origin {
        Origin::Keep => if old.contains_key(name) {
            Ok(old[name])
        } else {
            Err(ErrorView::MissingField(name))
        },
        Origin::Rule(i) => if i < rules.len() {
            typed(name, plan.ty, rule_value(rules[i as int], old))
        } else {
            Err(ErrorView::ConversionFailure(name, EvalError::Unbound))
        },
    }
}

/// The instance of the newer version: the fields of the plan, in the order
/// given, each with its value; or the error of the first field that has
/// none.
pub open spec fn convert_fields(
    names: Seq<Seq<char>>,
    plan: PlanMap,
    rules: Seq<RuleView>,
    old: FieldMap,
) -> Result<FieldMap, ErrorView>
    decreases names.len(),
{
    if names.len() == 0 {
        Ok(Map::empty())
    } else {
        match convert_fields(names.drop_last(), plan, rules, old) {
            Err(e) => Err(e),
            Ok(m) => match field_value(names.last(), plan[names.last()], rules, old) {
                Err(e) => Err(e),
                Ok(v) => Ok(m.insert(names.last(), v)),
            },
        }
    }
}

/// An error among the first fields is the error of the whole conversion.
pub proof fn lemma_convert_error(
    names: Seq<Seq<char>>,
    j: int,
    plan: PlanMap,
    rules: Seq<RuleView>,
    old: FieldMap,
)
    requires
        0 <= j <= names.len(),
        convert_fields(names.take(j), plan, rules, old) is Err,
    ensures
        convert_fields(names, plan, rules, old) == convert_fields(names.take(j), plan, rules, old),
    decreases names.len(),
{
    if j == names.len() {
        assert(names.take(j) =~= names);
    } else {
        assert(names.drop_last().take(j) =~= names.take(j));
        lemma_convert_error(names.drop_last(), j, plan, rules, old);
    }
}

/// Whether a result is what its description says.
pub open spec fn same_value(r: Result<Datum, MigrationError>, s: Result<DatumView, ErrorView>) -> bool {
    match r {
        Ok(v) => s == Ok::<DatumView, ErrorView>(v@),
        Err(e) => s == Err::<DatumView, ErrorView>(e@),
    }
}

/// Whether a result is what its description says.
pub open spec fn same_instance(
    r: Result<Instance, MigrationError>,
    s: Result<FieldMap, ErrorView>,
) -> bool {
    match r {
        Ok(v) => s == Ok::<FieldMap, ErrorView>(v@),
        Err(e) => s == Err::<FieldMap, ErrorView>(e@),
    }
}

fn bind(source: &Vec<FieldSpec>, old: &Instance) -> (env: Instance)
    ensures
        env@ == bound_sources(old@, fields_view(source@)),
{
    let ghost sv = fields_view(source@);
    let mut env = Instance::new();
    let mut i: usize = 0;
    while i < source.len()
        invariant
            i <= source.len(),
            sv == fields_view(source@),
            env@ == bound_sources(old@, sv.take(i as int)),
        decreases source.len() - i,
    {
        assert(sv.take(i + 1).drop_last() =~= sv.take(i as int));
        match old.get(source[i].name.as_str()) {
            Some(v) => {
                env.set(source[i].name.clone(), v.duplicate());
            },
            None => {},
        }
        i = i + 1;
    }
    assert(sv.take(i as int) =~= sv);
    env
}

fn carry(source: &Vec<FieldSpec>, converter: &Option<Expr>, old: &Instance) -> (r: Result<
    Datum,
    EvalError,
>)
    ensures
        same_outcome(r, carried_value(fields_view(source@), converter_view(*converter), old@)),
{
    match converter {
        Some(e) => {
            let env = bind(source, old);
            e.eval(&env)
        },
        None => {
            if source.len() == 1 {
                match old.get(source[0].name.as_str()) {
                    Some(v) => Ok(v.duplicate()),
                    None => Err(EvalError::Unbound),
                }
            } else {
                Err(EvalError::Unbound)
            }
        },
    }
}

fn compute(rule: &MigrationField, old: &Instance) -> (r: Result<Datum, EvalError>)
    ensures
        same_outcome(r, rule_value(rule@, old@)),
{
    match rule {
        MigrationField::Add { value, converter } => match converter {
            Some(e) => {
                let env = Instance::new();
                e.eval(&env)
            },
            None => Ok(value.ty.zero()),
        },
        MigrationField::Remove { .. } => Err(EvalError::Unbound),
        MigrationField::Rename { source, converter, .. } => carry(source, converter, old),
        MigrationField::Copy { source, converter, .. } => carry(source, converter, old),
    }
}

fn field_of(name: &String, plan: &FieldPlan, rules: &Vec<MigrationField>, old: &Instance) -> (r:
    Result<Datum, MigrationError>)
    ensures
        same_value(r, field_value(name@, *plan, rules_view(rules@), old@)),
{
    match plan.origin {
        Origin::Keep => match old.get(name.as_str()) {
            Some(v) => Ok(v.duplicate()),
            None => Err(MigrationError::MissingField(name.clone())),
        },
        Origin::Rule(i) => {
            if i < rules.len() {
                match compute(&rules[i], old) {
                    Ok(v) => {
                        if plan.ty.accepts(&v) {
                            Ok(v)
                        } else {
                            Err(MigrationError::ConversionFailure(name.clone(), EvalError::WrongType))
                        }
                    },
                    Err(e) => Err(MigrationError::ConversionFailure(name.clone(), e)),
                }
            } else {
                Err(MigrationError::ConversionFailure(name.clone(), EvalError::Unbound))
            }
        },
    }
}

/// Turns an instance of the older version into one of the newer, as the
/// plan and the rules of the step say. Every value is computed from the
/// older instance, whatever the rules before it did.
pub fn convert(plan: &ConversionPlan, rules: &Vec<MigrationField>, old: &Instance) -> (r: Result<
    Instance,
    MigrationError,
>)
    ensures
        same_instance(r, convert_fields(plan.keys(), plan@, rules_view(rules@), old@)),
        r matches Ok(x) ==> x.names() == plan.keys(),
{
    proof {
        use_type_invariant(plan);
    }
    let mut out = Instance::new();
    let mut i: usize = 0;
    while i < plan.len()
        invariant
            plan.wf(),
            out.names() == plan.keys().take(i as int),
            i <= plan.keys().len(),
            convert_fields(plan.keys().take(i as int), plan@, rules_view(rules@), old@) == Ok::<
                FieldMap,
                ErrorView,
            >(out@),
        decreases plan.keys().len() - i,
    {
        let name = plan.key_at(i);
        let entry = plan.value_at(i);
        assert(plan.keys().take(i + 1).drop_last() =~= plan.keys().take(i as int));
        match field_of(name, entry, rules, old) {
            Ok(v) => {
                proof {
                    out.lemma_names();
                    if out@.contains_key(name@) {
                        assert(plan.keys().take(i as int).to_set().contains(name@));
                        let j = choose|j: int|
                            0 <= j < i && plan.keys().take(i as int)[j] == name@;
                        assert(plan.keys()[j] == name@);
                    }
                }
                out.set(name.clone(), v);
                assert(out.names() =~= plan.keys().take(i + 1));
            },
            Err(e) => {
                proof {
                    lemma_convert_error(plan.keys(), i + 1, plan@, rules_view(rules@), old@);
                }
                return Err(e);
            },
        }
        i = i + 1;
    }
    assert(plan.keys().take(i as int) =~= plan.keys());
    Ok(out)
}

} // verus!
