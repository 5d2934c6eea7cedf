//! The registry: every version of a type with its shape and with the edge
//! that leads to the next newer version, built once from what is declared
//! and never changed after.

use vstd::prelude::*;
use vstd::string::StringExecFns;
use crate::chain::{is_chain, fault_holds, order_chain, version_at};
use crate::model::{
    fields_view,
    refs_view,
    rules_view,
    steps_view,
    ChainFault,
    DeriveVersion,
    ErrorView,
    Migration,
    MigrationComment,
    MigrationError,
    MigrationField,
    RuleView,
    StepView,
};
use crate::plan::{
    find_ambiguous,
    first_ambiguous,
    generate_older_version_impl,
    plan_names,
    plan_of,
    unambiguous,
    ConversionPlan,
    FieldPlan,
    PlanMap,
};
use crate::shape::{
    generate_old_versions,
    older_names,
    older_shape,
    with_fields,
    with_names,
    SchemaShape,
    ShapeMap,
};

verus! {

/// How payloads are framed: the key that carries the version tag, and the
/// tag to assume for a payload that carries none (the current version when
/// nothing is set).
#[derive(Debug)]
pub struct Settings {
    pub tag_key: String,
    pub absent_tag: Option<String>,
}

impl Settings {
    /// The tag travels under `$version`, and a payload without a tag is
    /// taken to be of the current version.
    pub fn standard() -> (r: Settings)
        ensures
            r.tag_key@ == "$version"@,
            r.absent_tag is None,
    {
        Settings { tag_key: String::from_str("$version"), absent_tag: None }
    }
}

/// The types of the fields of a plan.
pub open spec fn plan_types(m: PlanMap) -> ShapeMap {
    m.map_values(|p: FieldPlan| p.ty)
}

/// Whether the rules of a step lead from the shape inferred for its older
/// version to the shape of its newer version: the fields that the plan of
/// the step produces, with their types, are those of the newer shape.
pub open spec fn edge_consistent(newer: ShapeMap, rules: Seq<RuleView>) -> bool {
    plan_types(plan_of(older_shape(newer, rules), rules)) == newer
}

/// The shape of the version that is `k` steps back along the chain.
pub open spec fn shape_after(
    current: ShapeMap,
    steps: Seq<StepView>,
    order: Seq<usize>,
    k: int,
) -> ShapeMap
    decreases k,
{
    if k <= 0 {
        current
    } else {
        older_shape(shape_after(current, steps, order, k - 1), steps[order[k - 1] as int].changes)
    }
}

/// Whether step `k` of the chain is inconsistent with the shapes around it.
pub open spec fn mismatch_at(
    current: ShapeMap,
    steps: Seq<StepView>,
    order: Seq<usize>,
    k: int,
) -> bool {
    0 <= k < order.len() && !edge_consistent(
        shape_after(current, steps, order, k),
        steps[order[k] as int].changes,
    )
}

/// Whether rule `k` of step `i` is the first ambiguous rule of the first
/// step that has one, in the order in which the steps are declared.
pub open spec fn first_ambiguity(steps: Seq<StepView>, i: int, k: int) -> bool {
    &&& 0 <= i < steps.len()
    &&& first_ambiguous(steps[i].changes, k)
    &&& forall|j: int| 0 <= j < i ==> unambiguous((#[trigger] steps[j]).changes)
}

/// Whether no rule of any step is ambiguous.
pub open spec fn all_unambiguous(steps: Seq<StepView>) -> bool {
    forall|j: int| 0 <= j < steps.len() ==> unambiguous((#[trigger] steps[j]).changes)
}

/// When registration fails, and how.
pub open spec fn refusal(
    current: Seq<char>,
    fields: ShapeMap,
    steps: Seq<StepView>,
    e: ErrorView,
) -> bool {
    match e {
        ErrorView::AmbiguousConversion(name) => exists|i: int, k: int|
            first_ambiguity(steps, i, k) && name == (#[trigger] steps[i].changes[k]).subject().name,
        ErrorView::ChainError(ChainFault::ShapeMismatch) => all_unambiguous(steps) && exists|
            order: Seq<usize>,
            k: int,
        |
            is_chain(current, steps, order) && #[trigger] mismatch_at(fields, steps, order, k),
        ErrorView::ChainError(fault) => all_unambiguous(steps) && fault_holds(current, steps, fault),
        _ => false,
    }
}

/// Every version of one type, newest first, each with its shape and, but
/// for the newest, the plan of the edge to the version before it in the
/// list.
#[derive(Debug)]
pub struct Registry {
    name: String,
    settings: Settings,
    steps: Vec<MigrationComment>,
    order: Vec<usize>,
    versions: Vec<(String, SchemaShape)>,
    plans: Vec<ConversionPlan>,
}

impl Registry {
    /// The key under which the version tag travels.
    pub closed spec fn tag_key(&self) -> Seq<char> {
        self.settings.tag_key@
    }

    /// The tag assumed for a payload that carries none.
    pub closed spec fn absent_tag(&self) -> Seq<char> {
        match self.settings.absent_tag {
            Some(t) => t@,
            None => self.versions@[0].0@,
        }
    }

    /// The name of the type.
    pub closed spec fn struct_name(&self) -> Seq<char> {
        self.name@
    }

    /// The steps as they were declared.
    pub closed spec fn steps(&self) -> Seq<StepView> {
        steps_view(self.steps@)
    }

    /// The positions of the steps in the order of the chain, newest first.
    pub closed spec fn order(&self) -> Seq<usize> {
        self.order@
    }

    /// The version tags, newest first.
    pub closed spec fn tags(&self) -> Seq<Seq<char>> {
        Seq::new(self.versions@.len(), |k: int| self.versions@[k].0@)
    }

    /// The shapes of the versions, newest first.
    pub closed spec fn shapes(&self) -> Seq<SchemaShape> {
        Seq::new(self.versions@.len(), |k: int| self.versions@[k].1)
    }

    /// The plans of the edges: the plan at position `k` leads from version
    /// `k + 1` to version `k`.
    pub closed spec fn plans(&self) -> Seq<ConversionPlan> {
        self.plans@
    }

    /// The rules of the edge at position `k`.
    pub open spec fn rules(&self, k: int) -> Seq<RuleView> {
        self.steps()[self.order()[k] as int].changes
    }

    /// The current version.
    pub open spec fn current(&self) -> Seq<char> {
        self.tags()[0]
    }

    /// The steps form one chain from the current version; each older
    /// version has the tag its step names and the shape inferred from the
    /// version after it; no rule is ambiguous; and each plan is the plan of
    /// its step and produces the fields of the newer shape.
    #[verifier::type_invariant]
    pub open spec fn wf(&self) -> bool {
        &&& self.tags().len() == self.order().len() + 1
        &&& self.shapes().len() == self.tags().len()
        &&& self.plans().len() == self.order().len()
        &&& is_chain(self.current(), self.steps(), self.order())
        &&& forall|k: int|
            0 <= k < self.tags().len() ==> #[trigger] self.tags()[k] == version_at(
                self.current(),
                self.steps(),
                self.order(),
                k,
            )
        &&& forall|k: int| 0 <= k < self.shapes().len() ==> (#[trigger] self.shapes()[k]).wf()
        &&& forall|k: int|
            0 <= k < self.plans().len() ==> {
                &&& (#[trigger] self.plans()[k]).wf()
                &&& unambiguous(self.rules(k))
                &&& self.shapes()[k + 1]@ == older_shape(self.shapes()[k]@, self.rules(k))
                &&& self.shapes()[k + 1].keys() == older_names(
                    self.shapes()[k].keys(),
                    self.rules(k),
                )
                &&& self.plans()[k]@ == plan_of(self.shapes()[k + 1]@, self.rules(k))
                &&& self.plans()[k].keys() == plan_names(self.shapes()[k + 1].keys(), self.rules(k))
                &&& plan_types(self.plans()[k]@) == self.shapes()[k]@
            }
    }

    /// The number of registered versions.
    pub fn version_count(&self) -> (n: usize)
        ensures
            n == self.tags().len(),
            n >= 1,
    {
        proof {
            use_type_invariant(self);
        }
        self.versions.len()
    }

    /// The tag of the current version.
    pub fn current_version(&self) -> (r: &String)
        ensures
            r@ == self.current(),
    {
        proof {
            use_type_invariant(self);
        }
        &self.versions[0].0
    }

    /// The name of the type.
    pub fn name(&self) -> (r: &String)
        ensures
            r@ == self.struct_name(),
    {
        &self.name
    }

    /// The key under which the version tag travels.
    pub fn key(&self) -> (r: &String)
        ensures
            r@ == self.tag_key(),
    {
        &self.settings.tag_key
    }

    /// The tag assumed for a payload that carries none.
    pub fn default_tag(&self) -> (r: &String)
        ensures
            r@ == self.absent_tag(),
    {
        proof {
            use_type_invariant(self);
        }
        match &self.settings.absent_tag {
            Some(t) => t,
            None => &self.versions[0].0,
        }
    }

    pub(crate) fn tag_at(&self, k: usize) -> (r: &String)
        requires
            k < self.tags().len(),
        ensures
            r@ == self.tags()[k as int],
    {
        &self.versions[k].0
    }

    pub(crate) fn shape_at(&self, k: usize) -> (r: &SchemaShape)
        requires
            k < self.tags().len(),
        ensures
            *r == self.shapes()[k as int],
    {
        &self.versions[k].1
    }

    pub(crate) fn plan_at(&self, k: usize) -> (r: &ConversionPlan)
        requires
            k < self.plans().len(),
        ensures
            *r == self.plans()[k as int],
    {
        &self.plans[k]
    }

    pub(crate) fn rules_at(&self, k: usize) -> (r: &Vec<MigrationField>)
        requires
            k < self.plans().len(),
        ensures
            rules_view(r@) == self.rules(k as int),
    {
        proof {
            use_type_invariant(self);
        }
        &self.steps[self.order[k]].changes
    }

    /// The position of a version tag among the registered versions.
    pub fn find_version(&self, tag: &str) -> (r: Option<usize>)
        ensures
            match r {
                Some(k) => k < self.tags().len() && self.tags()[k as int] == tag@,
                None => !self.tags().contains(tag@),
            },
    {
        let wanted = tag.to_owned();
        let mut k: usize = 0;
        while k < self.versions.len()
            invariant
                k <= self.versions.len(),
                wanted@ == tag@,
                forall|j: int| 0 <= j < k ==> self.tags()[j] != tag@,
            decreases self.versions.len() - k,
        {
            if self.versions[k].0 == wanted {
                return Some(k);
            }
            k = k + 1;
        }
        None
    }

    /// The shape registered for a version tag.
    pub fn shape_of(&self, tag: &str) -> (r: Option<&SchemaShape>)
        ensures
            match r {
                Some(shape) => exists|k: int|
                    0 <= k < self.tags().len() && self.tags()[k] == tag@ && *shape
                        == #[trigger] self.shapes()[k],
                None => !self.tags().contains(tag@),
            },
    {
        match self.find_version(tag) {
            Some(k) => {
                assert(self.versions@[k as int].1 == self.shapes()[k as int]);
                Some(&self.versions[k].1)
            },
            None => None,
        }
    }
}

/// Whether the plan produces the fields of the shape, with their types.
pub fn plan_fits(plan: &ConversionPlan, shape: &SchemaShape) -> (r: bool)
    ensures
        r == (plan_types(plan@) == shape@),
{
    proof {
        use_type_invariant(plan);
        use_type_invariant(shape);
        plan.lemma_dom();
        shape.lemma_dom();
        plan.keys().unique_seq_to_set();
        shape.keys().unique_seq_to_set();
    }
    if plan.len() != shape.len() {
        assert(plan_types(plan@).dom() =~= plan@.dom());
        return false;
    }
    let mut i: usize = 0;
    while i < plan.len()
        invariant
            plan.wf(),
            i <= plan.keys().len(),
            forall|j: int|
                0 <= j < i ==> shape@.contains_key(#[trigger] plan.keys()[j]) && shape@[plan.keys()[j]]
                    == plan@[plan.keys()[j]].ty,
        decreases plan.keys().len() - i,
    {
        let name = plan.key_at(i);
        let entry = plan.value_at(i);
        match shape.get(name.as_str()) {
            Some(ty) => {
                if !ty.same(&entry.ty) {
                    assert(plan_types(plan@)[name@] != shape@[name@]);
                    return false;
                }
            },
            None => {
                assert(plan_types(plan@).contains_key(name@));
                return false;
            },
        }
        i = i + 1;
    }
    proof {
        assert forall|k: Seq<char>| plan@.dom().contains(k) implies shape@.dom().contains(k) by {
            let j = plan.keys().index_of(k);
            assert(0 <= j < plan.keys().len() && plan.keys()[j] == k);
        }
        vstd::set_lib::lemma_subset_equality(plan@.dom(), shape@.dom());
        assert forall|k: Seq<char>| plan@.contains_key(k) implies plan_types(plan@)[k] == shape@[k] by {
            let j = plan.keys().index_of(k);
            assert(0 <= j < plan.keys().len() && plan.keys()[j] == k);
        }
        assert(plan_types(plan@) =~= shape@);
    }
    true
}

fn check_ambiguity(steps: &Vec<MigrationComment>) -> (r: Result<(), MigrationError>)
    ensures
        match r {
            Ok(_) => all_unambiguous(steps_view(steps@)),
            Err(e) => exists|i: int, k: int|
                first_ambiguity(steps_view(steps@), i, k) && e@ == ErrorView::AmbiguousConversion(
                    (#[trigger] steps_view(steps@)[i].changes[k]).subject().name,
                ),
        },
{
    let ghost sv = steps_view(steps@);
    let mut i: usize = 0;
    while i < steps.len()
        invariant
            i <= steps.len(),
            sv == steps_view(steps@),
            forall|j: int| 0 <= j < i ==> unambiguous((#[trigger] sv[j]).changes),
        decreases steps.len() - i,
    {
        match find_ambiguous(&steps[i].changes) {
            Some(k) => {
                let e = MigrationError::AmbiguousConversion(
                    steps[i].changes[k].subject_name().clone(),
                );
                assert(sv[i as int].changes == rules_view(steps@[i as int].changes@));
                assert(first_ambiguity(sv, i as int, k as int));
                assert(sv[i as int].changes[k as int] == steps@[i as int].changes@[k as int]@);
                return Err(e);
            },
            None => {
                assert(sv[i as int].changes == rules_view(steps@[i as int].changes@));
            },
        }
        i = i + 1;
    }
    Ok(())
}

fn in_order<'a>(steps: &'a Vec<MigrationComment>, order: &Vec<usize>) -> (r: Vec<&'a MigrationComment>)
    requires
        forall|k: int| 0 <= k < order.len() ==> (#[trigger] order@[k]) < steps.len(),
    ensures
        r@.len() == order@.len(),
        forall|k: int| 0 <= k < order.len() ==> *(#[trigger] r@[k]) == steps@[order@[k] as int],
{
    let mut out: Vec<&'a MigrationComment> = Vec::new();
    let mut k: usize = 0;
    while k < order.len()
        invariant
            k <= order.len(),
            out@.len() == k,
            forall|k: int| 0 <= k < order.len() ==> (#[trigger] order@[k]) < steps.len(),
            forall|j: int| 0 <= j < k ==> *(#[trigger] out@[j]) == steps@[order@[j] as int],
        decreases order.len() - k,
    {
        out.push(&steps[order[k]]);
        k = k + 1;
    }
    out
}

impl Registry {
    /// Builds the registry of a type from its current version, its current
    /// fields and its declared steps, or says what is wrong with them.
    /// Ambiguous rules are looked for first, in every step; then the steps
    /// must form one chain from the current version; then each step must
    /// lead from the shape inferred for its older version to the shape of
    /// its newer one.
    pub fn build(settings: Settings, current: String, input: Migration) -> (r: Result<
        Registry,
        MigrationError,
    >)
        ensures
            r matches Err(MigrationError::AmbiguousConversion(_)) <==> !all_unambiguous(
                steps_view(input.versions@),
            ),
            match r {
                Ok(reg) => {
                    &&& reg.wf()
                    &&& reg.tag_key() == settings.tag_key@
                    &&& reg.absent_tag() == match settings.absent_tag {
                        Some(t) => t@,
                        None => current@,
                    }
                    &&& reg.current() == current@
                    &&& reg.steps() == steps_view(input.versions@)
                    &&& reg.struct_name() == input.struct_name@
                    &&& reg.shapes()[0]@ == with_fields(Map::empty(), fields_view(input.fields@))
                    &&& reg.shapes()[0].keys() == with_names(
                        Seq::empty(),
                        fields_view(input.fields@),
                    )
                },
                Err(e) => refusal(
                    current@,
                    with_fields(Map::empty(), fields_view(input.fields@)),
                    steps_view(input.versions@),
                    e@,
                ),
            },
    {
        let Migration { versions: steps, struct_name, fields } = input;
        match check_ambiguity(&steps) {
            Err(e) => {
                return Err(e);
            },
            Ok(_) => {},
        }
        let order = match order_chain(current.as_str(), &steps) {
            Ok(order) => order,
            Err(fault) => {
                return Err(MigrationError::ChainError(fault));
            },
        };
        let ghost tag = current@;
        let ghost top = with_fields(Map::empty(), fields_view(fields@));
        let ghost sv = steps_view(steps@);
        let ordered = in_order(&steps, &order);
        let shape = SchemaShape::from_fields(&fields);
        let ghost newest_shape = shape;
        let versions = generate_old_versions(current, shape, &ordered);
        let mut plans: Vec<ConversionPlan> = Vec::new();
        let mut k: usize = 0;
        let newest = &versions[0].1;
        proof {
            use_type_invariant(newest);
            assert(shape_after(top, sv, order@, 0) == versions@[0].1@);
        }
        while k < order.len()
            invariant
                k <= order.len(),
                plans@.len() == k,
                ordered@.len() == order@.len(),
                versions@.len() == order@.len() + 1,
                sv == steps_view(steps@),
                is_chain(tag, sv, order@),
                all_unambiguous(sv),
                tag == current@,
                steps@ == input.versions@,
                top == with_fields(Map::empty(), fields_view(input.fields@)),
                forall|j: int|
                    0 <= j < order.len() ==> *(#[trigger] ordered@[j]) == steps@[order@[j] as int],
                newest_shape@ == top,
                crate::shape::resolves(versions@, tag, newest_shape, refs_view(ordered@)),
                forall|j: int|
                    0 <= j <= k ==> #[trigger] shape_after(top, sv, order@, j) == versions@[j].1@,
                forall|j: int| 0 <= j <= k ==> (#[trigger] versions@[j]).1.wf(),
                forall|j: int|
                    0 <= j < k ==> {
                        &&& (#[trigger] plans@[j]).wf()
                        &&& plans@[j]@ == plan_of(versions@[j + 1].1@, sv[order@[j] as int].changes)
                        &&& plans@[j].keys() == plan_names(
                            versions@[j + 1].1.keys(),
                            sv[order@[j] as int].changes,
                        )
                        &&& plan_types(plans@[j]@) == versions@[j].1@
                    },
            decreases order.len() - k,
        {
            let rules = &ordered[k].changes;
            proof {
                assert(*ordered@[k as int] == steps@[order@[k as int] as int]);
                assert(order@[k as int] < steps@.len());
                assert(refs_view(ordered@)[k as int] == sv[order@[k as int] as int]);
                assert(sv[order@[k as int] as int].changes == rules_view(rules@));
                let next = versions@[k + 1];
                assert(next.1@ == older_shape(versions@[k as int].1@, rules_view(rules@)));
                assert(shape_after(top, sv, order@, k as int) == versions@[k as int].1@);
            }
            let older = &versions[k + 1].1;
            proof {
                use_type_invariant(older);
            }
            let plan = match generate_older_version_impl(older, rules) {
                Ok(plan) => plan,
                Err(e) => {
                    return Err(e);
                },
            };
            if !plan_fits(&plan, &versions[k].1) {
                assert(mismatch_at(top, sv, order@, k as int));
                return Err(MigrationError::ChainError(ChainFault::ShapeMismatch));
            }
            proof {
                use_type_invariant(&plan);
            }
            plans.push(plan);
            k = k + 1;
        }
        proof {
            assert forall|j: int| 0 <= j < versions@.len() implies (#[trigger] versions@[j]).0@
                == version_at(tag, sv, order@, j) by {
                if j > 0 {
                    assert(*ordered@[j - 1] == steps@[order@[j - 1] as int]);
                    assert(refs_view(ordered@)[j - 1] == sv[order@[j - 1] as int]);
                }
            }
            assert forall|j: int| 0 <= j < plans@.len() implies versions@[j + 1].1@ == older_shape(
                versions@[j].1@,
                sv[order@[j] as int].changes,
            ) && versions@[j + 1].1.keys() == older_names(
                versions@[j].1.keys(),
                sv[order@[j] as int].changes,
            ) && unambiguous(sv[order@[j] as int].changes) by {
                let next = versions@[j + 1];
                assert(*ordered@[j] == steps@[order@[j] as int]);
                assert(refs_view(ordered@)[j] == sv[order@[j] as int]);
                assert(order@[j] < steps@.len());
            }
        }
        let reg = Registry { name: struct_name, settings, steps, order, versions, plans };
        Ok(reg)
    }
}

/// Registers a versioned type: the declared version, or else the version
/// of the package, or else `0.0.0`, is its current version, and payloads
/// are framed in the standard way.
pub fn version(attr: &DeriveVersion, input: Migration, package_version: Option<&str>) -> (r: Result<
    Registry,
    MigrationError,
>)
    ensures
        r matches Err(MigrationError::AmbiguousConversion(_)) <==> !all_unambiguous(
            steps_view(input.versions@),
        ),
        match r {
            Ok(reg) => {
                &&& reg.wf()
                &&& reg.tag_key() == "$version"@
                &&& reg.current() == attr.resolved(
                    match package_version {
                        Some(p) => Some(p@),
                        None => None,
                    },
                )
                &&& reg.absent_tag() == reg.current()
                &&& reg.steps() == steps_view(input.versions@)
                &&& reg.struct_name() == input.struct_name@
                &&& reg.shapes()[0]@ == with_fields(Map::empty(), fields_view(input.fields@))
                &&& reg.shapes()[0].keys() == with_names(Seq::empty(), fields_view(input.fields@))
            },
            Err(e) => refusal(
                attr.resolved(
                    match package_version {
                        Some(p) => Some(p@),
                        None => None,
                    },
                ),
                with_fields(Map::empty(), fields_view(input.fields@)),
                steps_view(input.versions@),
                e@,
            ),
        },
{
    let current = attr.get_version(package_version);
    Registry::build(Settings::standard(), current, input)
}

} // verus!
