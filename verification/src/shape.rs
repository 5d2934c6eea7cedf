//! Shapes, and how the shape of an older version follows from a newer one.

use vstd::prelude::*;
use crate::model::{
    fields_view,
    refs_view,
    rules_view,
    FieldSpec,
    FieldView,
    MigrationComment,
    MigrationField,
    RuleView,
    StepView,
    TypeDescriptor,
};
use crate::table::{drop_name, put_name, Table};

verus! {

/// The fields that exist at one version, each with its type. No name occurs
/// twice.
pub type SchemaShape = Table<TypeDescriptor>;

/// The mathematical content of a shape.
pub type ShapeMap = Map<Seq<char>, TypeDescriptor>;

/// A shape after the given fields were put into it, one after the other.
pub open spec fn with_fields(m: ShapeMap, fields: Seq<FieldView>) -> ShapeMap
    decreases fields.len(),
{
    if fields.len() == 0 {
        m
    } else {
        with_fields(m, fields.drop_last()).insert(fields.last().name, fields.last().ty)
    }
}

/// The names of a shape after the given fields were put into it, one
/// after the other.
pub open spec fn with_names(names: Seq<Seq<char>>, fields: Seq<FieldView>) -> Seq<Seq<char>>
    decreases fields.len(),
{
    if fields.len() == 0 {
        names
    } else {
        put_name(with_names(names, fields.drop_last()), fields.last().name)
    }
}

/// The names of the shape before one rule, in their order, given those of
/// the shape after it.
pub open spec fn undo_rule_names(names: Seq<Seq<char>>, rule: RuleView) -> Seq<Seq<char>> {
    match rule {
        RuleView::Add { value, .. } => drop_name(names, value.name),
        RuleView::Remove { value } => put_name(names, value.name),
        RuleView::Rename { source, target, .. } => with_names(drop_name(names, target.name), source),
        RuleView::Copy { source, target, .. } => with_names(drop_name(names, target.name), source),
    }
}

/// The names of the shape before a list of rules, in their order.
pub open spec fn older_names(names: Seq<Seq<char>>, rules: Seq<RuleView>) -> Seq<Seq<char>>
    decreases rules.len(),
{
    if rules.len() == 0 {
        names
    } else {
        undo_rule_names(older_names(names, rules.drop_last()), rules.last())
    }
}

/// The shape before one rule, given the shape after it: an added field is
/// deleted, a removed field is put back with the type the rule records, and
/// for a rename or a copy the target is deleted and every source put back.
pub open spec fn undo_rule(m: ShapeMap, rule: RuleView) -> ShapeMap {
    match rule {
        RuleView::Add { value, .. } => m.remove(value.name),
        RuleView::Remove { value } => m.insert(value.name, value.ty),
        RuleView::Rename { source, target, .. } => with_fields(m.remove(target.name), source),
        RuleView::Copy { source, target, .. } => with_fields(m.remove(target.name), source),
    }
}

/// The shape before a list of rules, given the shape after them. The rules
/// are undone in the order in which they are written.
pub open spec fn older_shape(m: ShapeMap, rules: Seq<RuleView>) -> ShapeMap
    decreases rules.len(),
{
    if rules.len() == 0 {
        m
    } else {
        undo_rule(older_shape(m, rules.drop_last()), rules.last())
    }
}

impl Table<TypeDescriptor> {
    /// A copy of the shape, with the fields in the same order.
    pub fn duplicate(&self) -> (r: SchemaShape)
        ensures
            r@ == self@,
            r.keys() == self.keys(),
            r.vals() == self.vals(),
    {
        proof {
            use_type_invariant(self);
        }
        let mut out: SchemaShape = Table::new();
        let mut i: usize = 0;
        while i < self.len()
            invariant
                self.wf(),
                i <= self.keys().len(),
                out.keys() == self.keys().take(i as int),
                out.vals() == self.vals().take(i as int),
            decreases self.keys().len() - i,
        {
            let name = self.key_at(i).clone();
            let ty = self.value_at(i).duplicate();
            let ghost before = out;
            assert(!before.keys().contains(name@)) by {
                if before.keys().contains(name@) {
                    let j = before.keys().index_of(name@);
                    assert(0 <= j < i && self.keys()[j] == name@);
                }
            }
            out.insert(name, ty);
            i = i + 1;
            assert(out.keys() =~= self.keys().take(i as int));
            assert(out.vals() =~= self.vals().take(i as int));
        }
        assert(self.keys().take(i as int) =~= self.keys());
        assert(self.vals().take(i as int) =~= self.vals());
        assert(out@ =~= self@);
        out
    }

    /// Puts the given fields into the shape, one after the other.
    pub fn extend(&mut self, fields: &Vec<FieldSpec>)
        ensures
            final(self)@ == with_fields(old(self)@, fields_view(fields@)),
            final(self).keys() == with_names(old(self).keys(), fields_view(fields@)),
    {
        let ghost fv = fields_view(fields@);
        let mut i: usize = 0;
        while i < fields.len()
            invariant
                i <= fields.len(),
                fv == fields_view(fields@),
                self@ == with_fields(old(self)@, fv.take(i as int)),
                self.keys() == with_names(old(self).keys(), fv.take(i as int)),
            decreases fields.len() - i,
        {
            assert(fv.take(i + 1).drop_last() =~= fv.take(i as int));
            self.insert(fields[i].name.clone(), fields[i].ty.duplicate());
            i = i + 1;
        }
        assert(fv.take(i as int) =~= fv);
    }

    /// The shape with the given fields. Where a name occurs twice, the
    /// later type stands.
    pub fn from_fields(fields: &Vec<FieldSpec>) -> (r: SchemaShape)
        ensures
            r@ == with_fields(Map::empty(), fields_view(fields@)),
            r.keys() == with_names(Seq::empty(), fields_view(fields@)),
    {
        let mut out: SchemaShape = Table::new();
        out.extend(fields);
        out
    }
}

fn undo(shape: &mut SchemaShape, rule: &MigrationField)
    ensures
        final(shape)@ == undo_rule(old(shape)@, rule@),
        final(shape).keys() == undo_rule_names(old(shape).keys(), rule@),
{
    match rule {
        MigrationField::Add { value, .. } => {
            shape.remove(value.name.as_str());
        },
        MigrationField::Remove { value } => {
            shape.insert(value.name.clone(), value.ty.duplicate());
        },
        MigrationField::Rename { source, target, .. } => {
            shape.remove(target.name.as_str());
            shape.extend(source);
        },
        MigrationField::Copy { source, target, .. } => {
            shape.remove(target.name.as_str());
            shape.extend(source);
        },
    }
}

/// The shape of the older version, from the shape of the newer one and the
/// rules that lead from the older to the newer.
pub fn infer_older_version_struct(
    newer_struct_fields: &SchemaShape,
    convert_rules: &Vec<MigrationField>,
) -> (r: SchemaShape)
    ensures
        r@ == older_shape(newer_struct_fields@, rules_view(convert_rules@)),
        r.keys() == older_names(newer_struct_fields.keys(), rules_view(convert_rules@)),
{
    let ghost rv = rules_view(convert_rules@);
    let mut shape = newer_struct_fields.duplicate();
    let mut i: usize = 0;
    while i < convert_rules.len()
        invariant
            i <= convert_rules.len(),
            rv == rules_view(convert_rules@),
            shape@ == older_shape(newer_struct_fields@, rv.take(i as int)),
            shape.keys() == older_names(newer_struct_fields.keys(), rv.take(i as int)),
        decreases convert_rules.len() - i,
    {
        assert(rv.take(i + 1).drop_last() =~= rv.take(i as int));
        undo(&mut shape, &convert_rules[i]);
        i = i + 1;
    }
    assert(rv.take(i as int) =~= rv);
    shape
}

/// Whether `shapes` lists the current version with its shape and then,
/// step by step, each older version with the shape inferred for it.
pub open spec fn resolves(
    shapes: Seq<(String, SchemaShape)>,
    final_version: Seq<char>,
    final_fields: SchemaShape,
    versions: Seq<StepView>,
) -> bool {
    &&& shapes.len() == versions.len() + 1
    &&& shapes[0].0@ == final_version
    &&& shapes[0].1 == final_fields
    &&& forall|k: int|
        1 <= k < shapes.len() ==> {
            &&& (#[trigger] shapes[k]).0@ == versions[k - 1].from
            &&& shapes[k].1@ == older_shape(shapes[k - 1].1@, versions[k - 1].changes)
            &&& shapes[k].1.keys() == older_names(shapes[k - 1].1.keys(), versions[k - 1].changes)
        }
}

/// Every historical shape, newest first: the current version with its own
/// shape, then for each step, in the order given, the version it comes from
/// with the shape inferred from the one before.
pub fn generate_old_versions(
    final_version: String,
    final_struct_fields: SchemaShape,
    versions: &Vec<&MigrationComment>,
) -> (r: Vec<(String, SchemaShape)>)
    ensures
        resolves(r@, final_version@, final_struct_fields, refs_view(versions@)),
{
    let mut shapes: Vec<(String, SchemaShape)> = Vec::new();
    let ghost tag = final_version@;
    let ghost fields = final_struct_fields;
    shapes.push((final_version, final_struct_fields));
    let mut i: usize = 0;
    while i < versions.len()
        invariant
            i <= versions.len(),
            shapes@.len() == i + 1,
            shapes@[0].0@ == tag,
            shapes@[0].1 == fields,
            forall|k: int|
                1 <= k <= i ==> {
                    &&& (#[trigger] shapes@[k]).0@ == refs_view(versions@)[k - 1].from
                    &&& shapes@[k].1@ == older_shape(
                        shapes@[k - 1].1@,
                        refs_view(versions@)[k - 1].changes,
                    )
                    &&& shapes@[k].1.keys() == older_names(
                        shapes@[k - 1].1.keys(),
                        refs_view(versions@)[k - 1].changes,
                    )
                },
        decreases versions.len() - i,
    {
        let step = versions[i];
        let older = infer_older_version_struct(&shapes[i].1, &step.changes);
        shapes.push((step.from.clone(), older));
        i = i + 1;
    }
    shapes
}

} // verus!
