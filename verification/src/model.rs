//! The vocabulary of one version-to-version change: field descriptions,
//! the four kinds of rule, a step of the chain, and the errors of the
//! library.

use vstd::prelude::*;
use vstd::string::StringExecFns;
use crate::expr::{Expr, ExprView};
use crate::text::whole;
use crate::text::whole_within;
use crate::value::{lemma_list_view, lemma_record_view, Datum, DatumView, Entry};

verus! {

/// What sort of value a field holds.
#[derive(Clone, Copy, Debug, PartialEq, Eq, Structural)]
pub enum Kind {
    /// True or false.
    Bool,
    /// A whole number.
    Int,
    /// A number.
    Real,
    /// A text.
    Text,
    /// A text of one character.
    Char,
    /// A list of items.
    List,
    /// A record of named members.
    Record,
    /// Any value: nothing is known of the type.
    Any,
}

/// The integer type of a field, which bounds its values. The types of the
/// size of the machine stand with the types of 64 bits.
#[derive(Clone, Copy, Debug, PartialEq, Eq, Structural)]
pub enum Width {
    I8,
    I16,
    I32,
    I64,
    I128,
    U8,
    U16,
    U32,
    U64,
    U128,
}

/// The type of a field: its kind; whether the field may be null; for an
/// integer, its type; and for a list or a record, the type of its items,
/// where that is known. Of a type that is not known by its name the
/// description says nothing, and every value is taken for it.
#[derive(Debug, PartialEq, Eq)]
pub struct TypeDescriptor {
    pub kind: Kind,
    pub nullable: bool,
    pub width: Width,
    pub item: Option<Box<TypeDescriptor>>,
}

/// The smallest value of an integer type.
pub open spec fn lowest(w: Width) -> int {
    match w {
        Width::I8 => -0x80,
        Width::I16 => -0x8000,
        Width::I32 => -0x8000_0000,
        Width::I64 => -0x8000_0000_0000_0000,
        Width::I128 => -0x8000_0000_0000_0000_0000_0000_0000_0000,
        _ => 0,
    }
}

/// The largest value of an integer type.
pub open spec fn highest(w: Width) -> int {
    match w {
        Width::I8 => 0x7f,
        Width::I16 => 0x7fff,
        Width::I32 => 0x7fff_ffff,
        Width::I64 => 0x7fff_ffff_ffff_ffff,
        Width::I128 => 0x7fff_ffff_ffff_ffff_ffff_ffff_ffff_ffff,
        Width::U8 => 0xff,
        Width::U16 => 0xffff,
        Width::U32 => 0xffff_ffff,
        Width::U64 => 0xffff_ffff_ffff_ffff,
        Width::U128 => 0xffff_ffff_ffff_ffff_ffff_ffff_ffff_ffff,
    }
}

/// Whether a value is an integer of the given type. A number that does
/// not fit in 64 bits with a sign is held as the text of its digits.
pub open spec fn int_admits(w: Width, v: DatumView) -> bool {
    match v {
        DatumView::Int(n) => lowest(w) <= n <= highest(w),
        DatumView::Real(t) => whole(t) matches Some(n) && lowest(w) <= n <= highest(w),
        _ => false,
    }
}

/// Whether a value has the given kind and, where it is an integer, lies
/// within the given type. An integer is also a real number.
pub open spec fn kind_admits(kind: Kind, width: Width, v: DatumView) -> bool {
    match kind {
        Kind::Bool => v is Bool,
        Kind::Int => int_admits(width, v),
        Kind::Real => v is Real || v is Int,
        Kind::Text => v is Text,
        Kind::Char => v matches DatumView::Text(t) && t.len() == 1,
        Kind::List => v is List,
        Kind::Record => v is Record,
        Kind::Any => true,
    }
}

/// Whether a value may stand in a field of the given type: it is null
/// where the type allows that, or it has the kind of the type, and each
/// item of a list, and the value of each member of a record, may stand
/// where the type of the items is known.
pub open spec fn admits(ty: TypeDescriptor, v: DatumView) -> bool
    decreases ty,
{
    (ty.nullable && v is Null) || (kind_admits(ty.kind, ty.width, v) && match ty.item {
        Some(item) => {
            &&& ty.kind == Kind::List ==> forall|i: int|
                0 <= i < v->List_0.len() ==> admits(*item, #[trigger] v->List_0[i])
            &&& ty.kind == Kind::Record ==> forall|i: int|
                0 <= i < v->Record_0.len() ==> admits(*item, (#[trigger] v->Record_0[i]).1)
        },
        None => true,
    })
}

/// The value that a field of the given type gets when nothing says
/// otherwise.
pub open spec fn zero_value(ty: TypeDescriptor) -> DatumView {
    if ty.nullable {
        DatumView::Null
    } else {
        match ty.kind {
            Kind::Bool => DatumView::Bool(false),
            Kind::Int => DatumView::Int(0),
            Kind::Real => DatumView::Real("0.0"@),
            Kind::Text => DatumView::Text(Seq::empty()),
            Kind::Char => DatumView::Text("\0"@),
            Kind::List => DatumView::List(Seq::empty()),
            Kind::Record => DatumView::Record(Seq::empty()),
            Kind::Any => DatumView::Null,
        }
    }
}

/// The value that a field gets when nothing says otherwise may stand in
/// it.
pub proof fn lemma_zero_is_admitted(ty: TypeDescriptor)
    ensures
        admits(ty, zero_value(ty)),
{
    reveal_strlit("\0");
}

/// Whether an integer lies within an integer type.
pub fn int_within(w: Width, n: i64) -> (r: bool)
    ensures
        r == (lowest(w) <= n <= highest(w)),
{
    match w {
        Width::I8 => -0x80 <= n && n <= 0x7f,
        Width::I16 => -0x8000 <= n && n <= 0x7fff,
        Width::I32 => -0x8000_0000 <= n && n <= 0x7fff_ffff,
        Width::I64 => true,
        Width::I128 => true,
        Width::U8 => 0 <= n && n <= 0xff,
        Width::U16 => 0 <= n && n <= 0xffff,
        Width::U32 => 0 <= n && n <= 0xffff_ffff,
        Width::U64 => 0 <= n,
        Width::U128 => 0 <= n,
    }
}

/// Whether the text of a number spells an integer of an integer type.
pub fn text_within(w: Width, text: &str) -> (r: bool)
    ensures
        r == (whole(text@) matches Some(n) && lowest(w) <= n <= highest(w)),
{
    match w {
        Width::I8 => whole_within(text, 0x80, 0x7f),
        Width::I16 => whole_within(text, 0x8000, 0x7fff),
        Width::I32 => whole_within(text, 0x8000_0000, 0x7fff_ffff),
        Width::I64 => whole_within(text, 0x8000_0000_0000_0000, 0x7fff_ffff_ffff_ffff),
        Width::I128 => whole_within(
            text,
            0x8000_0000_0000_0000_0000_0000_0000_0000,
            0x7fff_ffff_ffff_ffff_ffff_ffff_ffff_ffff,
        ),
        Width::U8 => whole_within(text, 0, 0xff),
        Width::U16 => whole_within(text, 0, 0xffff),
        Width::U32 => whole_within(text, 0, 0xffff_ffff),
        Width::U64 => whole_within(text, 0, 0xffff_ffff_ffff_ffff),
        Width::U128 => whole_within(text, 0, 0xffff_ffff_ffff_ffff_ffff_ffff_ffff_ffff),
    }
}

/// Whether a value has the given kind and, where it is an integer, lies
/// within the given type.
pub fn kind_accepts(kind: Kind, width: Width, v: &Datum) -> (r: bool)
    ensures
        r == kind_admits(kind, width, v@),
{
    match kind {
        Kind::Bool => match v {
            Datum::Bool(_) => true,
            _ => false,
        },
        Kind::Int => match v {
            Datum::Int(n) => int_within(width, *n),
            Datum::Real(t) => text_within(width, t.as_str()),
            _ => false,
        },
        Kind::Real => match v {
            Datum::Real(_) => true,
            Datum::Int(_) => true,
            _ => false,
        },
        Kind::Text => match v {
            Datum::Text(_) => true,
            _ => false,
        },
        Kind::Char => match v {
            Datum::Text(t) => t.as_str().unicode_len() == 1,
            _ => false,
        },
        Kind::List => match v {
            Datum::List(_) => true,
            _ => false,
        },
        Kind::Record => match v {
            Datum::Record(_) => true,
            _ => false,
        },
        Kind::Any => true,
    }
}

impl TypeDescriptor {
    /// The descriptor of a field of the given kind that must be present.
    /// An integer is one of 64 bits with a sign; of the items of a list or
    /// a record nothing is known.
    pub open spec fn of_spec(kind: Kind) -> TypeDescriptor {
        TypeDescriptor { kind, nullable: false, width: Width::I64, item: None }
    }

    /// The descriptor of an integer field of the given type.
    pub open spec fn integer_spec(width: Width) -> TypeDescriptor {
        TypeDescriptor { kind: Kind::Int, nullable: false, width, item: None }
    }

    /// The descriptor of a list whose items have the given type.
    pub open spec fn list_spec(of: TypeDescriptor) -> TypeDescriptor {
        TypeDescriptor {
            kind: Kind::List,
            nullable: false,
            width: Width::I64,
            item: Some(Box::new(of)),
        }
    }

    /// The descriptor of a record whose members hold values of the given
    /// type.
    pub open spec fn record_spec(of: TypeDescriptor) -> TypeDescriptor {
        TypeDescriptor {
            kind: Kind::Record,
            nullable: false,
            width: Width::I64,
            item: Some(Box::new(of)),
        }
    }

    /// The same descriptor for a field that may be null or absent.
    pub open spec fn or_null_spec(self) -> TypeDescriptor {
        TypeDescriptor { kind: self.kind, nullable: true, width: self.width, item: self.item }
    }

    /// A field of the given kind that must be present. An integer is one
    /// of 64 bits with a sign; of the items of a list or a record nothing
    /// is known.
    pub fn of(kind: Kind) -> (r: TypeDescriptor)
        ensures
            r == TypeDescriptor::of_spec(kind),
    {
        TypeDescriptor { kind, nullable: false, width: Width::I64, item: None }
    }

    /// A field of the given kind that may be null or absent.
    pub fn optional(kind: Kind) -> (r: TypeDescriptor)
        ensures
            r == TypeDescriptor::of_spec(kind).or_null_spec(),
    {
        TypeDescriptor { kind, nullable: true, width: Width::I64, item: None }
    }

    /// An integer field of the given type.
    pub fn integer(width: Width) -> (r: TypeDescriptor)
        ensures
            r == TypeDescriptor::integer_spec(width),
    {
        TypeDescriptor { kind: Kind::Int, nullable: false, width, item: None }
    }

    /// A list whose items have the given type.
    pub fn list(of: TypeDescriptor) -> (r: TypeDescriptor)
        ensures
            r == TypeDescriptor::list_spec(of),
    {
        TypeDescriptor {
            kind: Kind::List,
            nullable: false,
            width: Width::I64,
            item: Some(Box::new(of)),
        }
    }

    /// A record whose members hold values of the given type.
    pub fn record(of: TypeDescriptor) -> (r: TypeDescriptor)
        ensures
            r == TypeDescriptor::record_spec(of),
    {
        TypeDescriptor {
            kind: Kind::Record,
            nullable: false,
            width: Width::I64,
            item: Some(Box::new(of)),
        }
    }

    /// The same type for a field that may be null or absent.
    pub fn or_null(self) -> (r: TypeDescriptor)
        ensures
            r == self.or_null_spec(),
    {
        TypeDescriptor { kind: self.kind, nullable: true, width: self.width, item: self.item }
    }

    /// A copy of the descriptor.
    pub fn duplicate(&self) -> (r: TypeDescriptor)
        ensures
            r == *self,
        decreases self,
    {
        let item = match &self.item {
            Some(of) => Some(Box::new(of.duplicate())),
            None => None,
        };
        TypeDescriptor { kind: self.kind, nullable: self.nullable, width: self.width, item }
    }

    /// Whether two descriptors are the same.
    pub fn same(&self, other: &TypeDescriptor) -> (r: bool)
        ensures
            r == (*self == *other),
        decreases self,
    {
        if !(self.kind == other.kind && self.nullable == other.nullable && self.width
            == other.width) {
            return false;
        }
        match (&self.item, &other.item) {
            (Some(a), Some(b)) => a.same(b),
            (None, None) => true,
            _ => false,
        }
    }

    /// Whether each of the values may stand where this type stands.
    fn accepts_all(&self, items: &Vec<Datum>) -> (r: bool)
        ensures
            r == forall|i: int| 0 <= i < items@.len() ==> admits(*self, (#[trigger] items@[i])@),
        decreases self, 1nat,
    {
        let mut i: usize = 0;
        while i < items.len()
            invariant
                i <= items.len(),
                forall|j: int| 0 <= j < i ==> admits(*self, (#[trigger] items@[j])@),
            decreases items.len() - i,
        {
            if !self.accepts(&items[i]) {
                return false;
            }
            i = i + 1;
        }
        true
    }

    /// Whether the value of each of the members may stand where this type
    /// stands.
    fn accepts_members(&self, members: &Vec<Entry>) -> (r: bool)
        ensures
            r == forall|i: int|
                0 <= i < members@.len() ==> admits(*self, (#[trigger] members@[i]).value@),
        decreases self, 1nat,
    {
        let mut i: usize = 0;
        while i < members.len()
            invariant
                i <= members.len(),
                forall|j: int| 0 <= j < i ==> admits(*self, (#[trigger] members@[j]).value@),
            decreases members.len() - i,
        {
            if !self.accepts(&members[i].value) {
                return false;
            }
            i = i + 1;
        }
        true
    }

    /// Whether a value may stand in a field of this type.
    pub fn accepts(&self, v: &Datum) -> (r: bool)
        ensures
            r == admits(*self, v@),
        decreases self, 0nat,
    {
        if self.nullable {
            if let Datum::Null = v {
                return true;
            }
        }
        if !kind_accepts(self.kind, self.width, v) {
            return false;
        }
        match &self.item {
            Some(item) => match v {
                Datum::List(items) => {
                    proof {
                        lemma_list_view(*v);
                    }
                    match self.kind {
                        Kind::List => {
                            let r = item.accepts_all(items);
                            proof {
                                assert forall|i: int| 0 <= i < items@.len() implies v@->List_0[i]
                                    == (#[trigger] items@[i])@ by {}
                                if r {
                                    assert forall|i: int| 0 <= i < v@->List_0.len() implies admits(
                                        **item,
                                        #[trigger] v@->List_0[i],
                                    ) by {
                                        assert(v@->List_0[i] == items@[i]@);
                                    }
                                } else {
                                    let i = choose|i: int|
                                        0 <= i < items@.len() && !admits(
                                            **item,
                                            (#[trigger] items@[i])@,
                                        );
                                    assert(v@->List_0[i] == items@[i]@);
                                }
                            }
                            r
                        },
                        _ => true,
                    }
                },
                Datum::Record(members) => {
                    proof {
                        lemma_record_view(*v);
                    }
                    match self.kind {
                        Kind::Record => {
                            let r = item.accepts_members(members);
                            proof {
                                if r {
                                    assert forall|i: int|
                                        0 <= i < v@->Record_0.len() implies admits(
                                        **item,
                                        (#[trigger] v@->Record_0[i]).1,
                                    ) by {
                                        assert(v@->Record_0[i].1 == members@[i].value@);
                                    }
                                } else {
                                    let i = choose|i: int|
                                        0 <= i < members@.len() && !admits(
                                            **item,
                                            (#[trigger] members@[i]).value@,
                                        );
                                    assert(v@->Record_0[i].1 == members@[i].value@);
                                }
                            }
                            r
                        },
                        _ => true,
                    }
                },
                _ => true,
            },
            None => true,
        }
    }

    /// The value that a field of this type gets when nothing says
    /// otherwise.
    pub fn zero(&self) -> (r: Datum)
        ensures
            r@ == zero_value(*self),
    {
        if self.nullable {
            return Datum::Null;
        }
        match self.kind {
            Kind::Bool => Datum::Bool(false),
            Kind::Int => Datum::Int(0),
            Kind::Real => Datum::Real(String::from_str("0.0")),
            Kind::Text => Datum::Text(String::new()),
            Kind::Char => Datum::Text(String::from_str("\0")),
            Kind::List => {
                let r = Datum::List(Vec::new());
                assert(r@->List_0 =~= Seq::empty());
                r
            },
            Kind::Record => {
                let r = Datum::Record(Vec::new());
                assert(r@->Record_0 =~= Seq::empty());
                r
            },
            Kind::Any => Datum::Null,
        }
    }
}

/// A field of a shape: its name and its type.
#[derive(Debug, PartialEq, Eq)]
pub struct FieldSpec {
    pub name: String,
    pub ty: TypeDescriptor,
}

/// The mathematical content of a [`FieldSpec`].
pub ghost struct FieldView {
    pub name: Seq<char>,
    pub ty: TypeDescriptor,
}

impl View for FieldSpec {
    type V = FieldView;

    open spec fn view(&self) -> FieldView {
        FieldView { name: self.name@, ty: self.ty }
    }
}

/// The content of a list of fields.
pub open spec fn fields_view(fields: Seq<FieldSpec>) -> Seq<FieldView> {
    Seq::new(fields.len(), |i: int| fields[i]@)
}

/// The content of an optional converter.
pub open spec fn converter_view(c: Option<Expr>) -> Option<ExprView> {
    match c {
        Some(e) => Some(e@),
        None => None,
    }
}

impl FieldSpec {
    /// A field of the given name and type.
    pub fn new(name: &str, ty: TypeDescriptor) -> (r: FieldSpec)
        ensures
            r.name@ == name@,
            r.ty == ty,
    {
        FieldSpec { name: name.to_owned(), ty }
    }
}

/// One declared change between two adjacent versions.
#[derive(Debug, PartialEq, Eq)]
pub enum MigrationField {
    /// The field did not exist before.
    Add { value: FieldSpec, converter: Option<Expr> },
    /// The field existed before and is dropped.
    Remove { value: FieldSpec },
    /// The source fields go away and the target takes their place.
    Rename { source: Vec<FieldSpec>, target: FieldSpec, converter: Option<Expr> },
    /// The target is new and the source fields stay.
    Copy { source: Vec<FieldSpec>, target: FieldSpec, converter: Option<Expr> },
}

/// The mathematical content of a [`MigrationField`].
pub ghost enum RuleView {
    Add { value: FieldView, converter: Option<ExprView> },
    Remove { value: FieldView },
    Rename { source: Seq<FieldView>, target: FieldView, converter: Option<ExprView> },
    Copy { source: Seq<FieldView>, target: FieldView, converter: Option<ExprView> },
}

impl View for MigrationField {
    type V = RuleView;

    open spec fn view(&self) -> RuleView {
        match self {
            MigrationField::Add { value, converter } => RuleView::Add {
                value: value@,
                converter: converter_view(*converter),
            },
            MigrationField::Remove { value } => RuleView::Remove { value: value@ },
            MigrationField::Rename { source, target, converter } => RuleView::Rename {
                source: fields_view(source@),
                target: target@,
                converter: converter_view(*converter),
            },
            MigrationField::Copy { source, target, converter } => RuleView::Copy {
                source: fields_view(source@),
                target: target@,
                converter: converter_view(*converter),
            },
        }
    }
}

/// The content of a list of rules.
pub open spec fn rules_view(rules: Seq<MigrationField>) -> Seq<RuleView> {
    Seq::new(rules.len(), |i: int| rules[i]@)
}

impl RuleView {
    /// A rename or a copy that names no way to compute its target, and has
    /// not exactly one source to take it from.
    pub open spec fn ambiguous(self) -> bool {
        match self {
            RuleView::Rename { source, converter, .. } => converter is None && source.len() != 1,
            RuleView::Copy { source, converter, .. } => converter is None && source.len() != 1,
            _ => false,
        }
    }

    /// The field that the rule is about: the one it adds, removes or
    /// introduces.
    pub open spec fn subject(self) -> FieldView {
        match self {
            RuleView::Add { value, .. } => value,
            RuleView::Remove { value } => value,
            RuleView::Rename { target, .. } => target,
            RuleView::Copy { target, .. } => target,
        }
    }
}

impl MigrationField {
    /// Whether the rule is ambiguous.
    pub fn is_ambiguous(&self) -> (r: bool)
        ensures
            r == self@.ambiguous(),
    {
        match self {
            MigrationField::Rename { source, converter, .. } => converter.is_none() && source.len()
                != 1,
            MigrationField::Copy { source, converter, .. } => converter.is_none() && source.len()
                != 1,
            _ => false,
        }
    }

    /// The name of the field that the rule is about.
    pub fn subject_name(&self) -> (r: &String)
        ensures
            r@ == self@.subject().name,
    {
        match self {
            MigrationField::Add { value, .. } => &value.name,
            MigrationField::Remove { value } => &value.name,
            MigrationField::Rename { target, .. } => &target.name,
            MigrationField::Copy { target, .. } => &target.name,
        }
    }
}

/// One step of the chain: how the type changed from one version to the
/// next.
#[derive(Debug, PartialEq, Eq)]
pub struct MigrationComment {
    pub from: String,
    pub to: String,
    pub changes: Vec<MigrationField>,
}

/// The mathematical content of a [`MigrationComment`].
pub ghost struct StepView {
    pub from: Seq<char>,
    pub to: Seq<char>,
    pub changes: Seq<RuleView>,
}

impl View for MigrationComment {
    type V = StepView;

    open spec fn view(&self) -> StepView {
        StepView { from: self.from@, to: self.to@, changes: rules_view(self.changes@) }
    }
}

/// The content of a list of steps.
pub open spec fn steps_view(steps: Seq<MigrationComment>) -> Seq<StepView> {
    Seq::new(steps.len(), |i: int| steps[i]@)
}

/// The content of a list of steps that are held by reference.
pub open spec fn refs_view(steps: Seq<&MigrationComment>) -> Seq<StepView> {
    Seq::new(steps.len(), |i: int| steps[i]@)
}

/// Everything that is declared of a versioned type: its name, its current
/// fields, and the steps that led to them, in any order.
#[derive(Debug, PartialEq, Eq)]
pub struct Migration {
    pub versions: Vec<MigrationComment>,
    pub struct_name: String,
    pub fields: Vec<FieldSpec>,
}

/// The mathematical content of a [`Migration`].
pub ghost struct MigrationView {
    pub versions: Seq<StepView>,
    pub struct_name: Seq<char>,
    pub fields: Seq<FieldView>,
}

impl View for Migration {
    type V = MigrationView;

    open spec fn view(&self) -> MigrationView {
        MigrationView {
            versions: steps_view(self.versions@),
            struct_name: self.struct_name@,
            fields: fields_view(self.fields@),
        }
    }
}

/// The version that a type declares for itself, if it declares one.
#[derive(Debug, PartialEq, Eq)]
pub struct DeriveVersion {
    pub version: Option<String>,
}

impl View for DeriveVersion {
    type V = Option<Seq<char>>;

    open spec fn view(&self) -> Option<Seq<char>> {
        match self.version {
            Some(v) => Some(v@),
            None => None,
        }
    }
}

impl DeriveVersion {
    /// The version tag to use: the declared one, else the version of the
    /// package as the caller read it, else `0.0.0`.
    pub open spec fn resolved(self, package_version: Option<Seq<char>>) -> Seq<char> {
        match self.version {
            Some(v) => v@,
            None => match package_version {
                Some(p) => p,
                None => "0.0.0"@,
            },
        }
    }

    /// The version tag to use, given the version of the package where the
    /// caller knows it.
    pub fn get_version(&self, package_version: Option<&str>) -> (r: String)
        ensures
            r@ == self.resolved(
                match package_version {
                    Some(p) => Some(p@),
                    None => None,
                },
            ),
    {
        match &self.version {
            Some(v) => v.clone(),
            None => match package_version {
                Some(p) => p.to_owned(),
                None => String::from_str("0.0.0"),
            },
        }
    }
}

/// What is wrong with a chain of steps.
#[derive(Clone, Copy, Debug, PartialEq, Eq, Structural)]
pub enum ChainFault {
    /// Two steps lead to the same version.
    DuplicateTarget,
    /// Following the steps backwards comes to a version a second time.
    Cycle,
    /// Some step is not reached from the current version.
    Gap,
    /// The changes of a step do not lead from its older shape to its newer
    /// one.
    ShapeMismatch,
}

/// Why a converter gave no value.
#[derive(Clone, Copy, Debug, PartialEq, Eq, Structural)]
pub enum EvalError {
    /// The expression names a field that is not among its sources.
    Unbound,
    /// An operand of a sum is not an integer.
    NotInteger,
    /// A sum does not fit in 64 bits.
    Overflow,
    /// The value has no text form.
    NotPrintable,
    /// The value is not a number.
    NotNumber,
    /// The value is not of the type of the field it is meant for.
    WrongType,
}

/// The errors of the library.
#[derive(Debug, PartialEq, Eq)]
pub enum MigrationError {
    /// The steps do not form one chain that ends at the current version.
    ChainError(ChainFault),
    /// A rename or copy to the named field has no converter and not exactly
    /// one source.
    AmbiguousConversion(String),
    /// The payload carries a version tag that is not registered.
    UnknownVersion(String),
    /// The payload lacks the named field.
    MissingField(String),
    /// The named field of the payload holds a value of another type.
    TypeMismatch(String),
    /// The value of the named field could not be computed.
    ConversionFailure(String, EvalError),
}

/// The mathematical content of a [`MigrationError`].
pub ghost enum ErrorView {
    ChainError(ChainFault),
    AmbiguousConversion(Seq<char>),
    UnknownVersion(Seq<char>),
    MissingField(Seq<char>),
    TypeMismatch(Seq<char>),
    ConversionFailure(Seq<char>, EvalError),
}

impl View for MigrationError {
    type V = ErrorView;

    open spec fn view(&self) -> ErrorView {
        match self {
            MigrationError::ChainError(f) => ErrorView::ChainError(*f),
            MigrationError::AmbiguousConversion(n) => ErrorView::AmbiguousConversion(n@),
            MigrationError::UnknownVersion(n) => ErrorView::UnknownVersion(n@),
            MigrationError::MissingField(n) => ErrorView::MissingField(n@),
            MigrationError::TypeMismatch(n) => ErrorView::TypeMismatch(n@),
            MigrationError::ConversionFailure(n, c) => ErrorView::ConversionFailure(n@, *c),
        }
    }
}

} // verus!
