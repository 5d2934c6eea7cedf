//! The wire protocol: a payload is a record that carries, under a reserved
//! key, the tag of the version it was written in, and beside it the fields
//! of that version. Writing always frames the current version; reading
//! takes any registered version and converts, edge by edge, to the current
//! one.

use vstd::prelude::*;
use crate::instance::Instance;
use crate::model::{admits, ErrorView, MigrationError, TypeDescriptor};
use crate::plan::{convert, convert_fields, same_instance, same_value, FieldMap};
use crate::registry::Registry;
use crate::shape::{SchemaShape, ShapeMap};
use crate::value::{entries_view, lemma_record_view, Entry, Datum, DatumView};

verus! {

/// The members of a record: names with values, in order, where a name may
/// occur more than once.
pub type Entries = Seq<(Seq<char>, DatumView)>;

/// The position of the first member of that name.
pub open spec fn first_index(entries: Entries, name: Seq<char>) -> Option<int>
    decreases entries.len(),
{
    if entries.len() == 0 {
        None
    } else if entries[0].0 == name {
        Some(0)
    } else {
        match first_index(entries.drop_first(), name) {
            Some(t) => Some(t + 1),
            None => None,
        }
    }
}

/// The value of the first member of that name.
pub open spec fn lookup(entries: Entries, name: Seq<char>) -> Option<DatumView> {
    match first_index(entries, name) {
        Some(t) => Some(entries[t].1),
        None => None,
    }
}

/// The members without the first one of that name.
pub open spec fn strip(entries: Entries, name: Seq<char>) -> Entries {
    match first_index(entries, name) {
        Some(t) => entries.remove(t),
        None => entries,
    }
}

/// The first member of a name is where the name stands and no member before
/// has it.
pub proof fn lemma_first_index(entries: Entries, name: Seq<char>)
    ensures
        match first_index(entries, name) {
            Some(t) => 0 <= t < entries.len() && entries[t].0 == name && forall|j: int|
                0 <= j < t ==> (#[trigger] entries[j]).0 != name,
            None => forall|j: int| 0 <= j < entries.len() ==> (#[trigger] entries[j]).0 != name,
        },
    decreases entries.len(),
{
    if entries.len() > 0 && entries[0].0 != name {
        let rest = entries.drop_first();
        lemma_first_index(rest, name);
        match first_index(rest, name) {
            Some(t) => {
                assert forall|j: int| 0 <= j < t + 1 implies (#[trigger] entries[j]).0 != name by {
                    if j > 0 {
                        assert(rest[j - 1] == entries[j]);
                    }
                }
            },
            None => {
                assert forall|j: int| 0 <= j < entries.len() implies (#[trigger] entries[j]).0
                    != name by {
                    if j > 0 {
                        assert(rest[j - 1] == entries[j]);
                    }
                }
            },
        }
    }
}

/// A position where the name stands, with no member of that name before
/// it, is the first index of the name.
pub proof fn lemma_first_index_is(entries: Entries, name: Seq<char>, t: int)
    requires
        0 <= t < entries.len(),
        entries[t].0 == name,
        forall|j: int| 0 <= j < t ==> (#[trigger] entries[j]).0 != name,
    ensures
        first_index(entries, name) == Some(t),
{
    lemma_first_index(entries, name);
    let found = first_index(entries, name);
    assert(found is Some) by {
        if found is None {
            assert(entries[t].0 != name);
        }
    }
    let u = found->0;
    if u < t {
        assert(entries[u].0 != name);
    } else if t < u {
        assert(entries[t].0 != name);
    }
}

/// What a payload is split into: the tag it carries, if it carries one, and
/// its other members.
pub open spec fn envelope_spec(key: Seq<char>, envelope: DatumView) -> Result<
    (Option<Seq<char>>, Entries),
    ErrorView,
> {
    match envelope {
        DatumView::Record(entries) => match lookup(entries, key) {
            None => Ok((None, entries)),
            Some(DatumView::Text(tag)) => Ok((Some(tag), strip(entries, key))),
            Some(_) => Err(ErrorView::TypeMismatch(key)),
        },
        _ => Err(ErrorView::TypeMismatch(key)),
    }
}

/// The value that a field of a shape gets from a payload. A field that may
/// be null and is absent is null.
pub open spec fn decode_field(ty: TypeDescriptor, name: Seq<char>, payload: Entries) -> Result<
    DatumView,
    ErrorView,
> {
    match lookup(payload, name) {
        Some(v) => if admits(ty, v) {
            Ok(v)
        } else {
            Err(ErrorView::TypeMismatch(name))
        },
        None => if ty.nullable {
            Ok(DatumView::Null)
        } else {
            Err(ErrorView::MissingField(name))
        },
    }
}

/// A payload read against a shape: every field of the shape, in the order
/// given, with its value; members that the shape does not name are passed
/// over. The first field that has no value, or one of another type, gives
/// the error.
pub open spec fn decode_fields(names: Seq<Seq<char>>, shape: ShapeMap, payload: Entries) -> Result<
    FieldMap,
    ErrorView,
>
    decreases names.len(),
{
    if names.len() == 0 {
        Ok(Map::empty())
    } else {
        match decode_fields(names.drop_last(), shape, payload) {
            Err(e) => Err(e),
            Ok(m) => match decode_field(shape[names.last()], names.last(), payload) {
                Err(e) => Err(e),
                Ok(v) => Ok(m.insert(names.last(), v)),
            },
        }
    }
}

/// The value that a field of a shape has in an instance, as it is written.
pub open spec fn encode_field(ty: TypeDescriptor, name: Seq<char>, x: FieldMap) -> Result<
    DatumView,
    ErrorView,
> {
    if x.contains_key(name) {
        if admits(ty, x[name]) {
            Ok(x[name])
        } else {
            Err(ErrorView::TypeMismatch(name))
        }
    } else if ty.nullable {
        Ok(DatumView::Null)
    } else {
        Err(ErrorView::MissingField(name))
    }
}

/// An instance written against a shape: the fields of the shape, in order.
pub open spec fn encode_fields(names: Seq<Seq<char>>, shape: ShapeMap, x: FieldMap) -> Result<
    Entries,
    ErrorView,
>
    decreases names.len(),
{
    if names.len() == 0 {
        Ok(Seq::empty())
    } else {
        match encode_fields(names.drop_last(), shape, x) {
            Err(e) => Err(e),
            Ok(s) => match encode_field(shape[names.last()], names.last(), x) {
                Err(e) => Err(e),
                Ok(v) => Ok(s.push((names.last(), v))),
            },
        }
    }
}

/// An error among the first fields is the error of the whole.
pub proof fn lemma_decode_error(names: Seq<Seq<char>>, j: int, shape: ShapeMap, payload: Entries)
    requires
        0 <= j <= names.len(),
        decode_fields(names.take(j), shape, payload) is Err,
    ensures
        decode_fields(names, shape, payload) == decode_fields(names.take(j), shape, payload),
    decreases names.len(),
{
    if j == names.len() {
        assert(names.take(j) =~= names);
    } else {
        assert(names.drop_last().take(j) =~= names.take(j));
        lemma_decode_error(names.drop_last(), j, shape, payload);
    }
}

/// An error among the first fields is the error of the whole.
pub proof fn lemma_encode_error(names: Seq<Seq<char>>, j: int, shape: ShapeMap, x: FieldMap)
    requires
        0 <= j <= names.len(),
        encode_fields(names.take(j), shape, x) is Err,
    ensures
        encode_fields(names, shape, x) == encode_fields(names.take(j), shape, x),
    decreases names.len(),
{
    if j == names.len() {
        assert(names.take(j) =~= names);
    } else {
        assert(names.drop_last().take(j) =~= names.take(j));
        lemma_encode_error(names.drop_last(), j, shape, x);
    }
}

impl Registry {
    /// The tag that a payload is read under: its own, or the one assumed
    /// for payloads without a tag.
    pub open spec fn effective_tag(&self, tag: Option<Seq<char>>) -> Seq<char> {
        match tag {
            Some(t) => t,
            None => self.absent_tag(),
        }
    }

    /// The payload read against the shape of its version.
    pub open spec fn decode_spec(&self, tag: Option<Seq<char>>, payload: Entries) -> Result<
        (int, FieldMap),
        ErrorView,
    > {
        let tag = self.effective_tag(tag);
        if self.tags().contains(tag) {
            let k = self.tags().index_of(tag);
            match decode_fields(self.shapes()[k].keys(), self.shapes()[k]@, payload) {
                Ok(m) => Ok((k, m)),
                Err(e) => Err(e),
            }
        } else {
            Err(ErrorView::UnknownVersion(tag))
        }
    }

    /// An instance of the version at position `k`, converted edge by edge
    /// to the current version. At position 0 no edge is applied.
    pub open spec fn migrate_spec(&self, k: int, x: FieldMap) -> Result<FieldMap, ErrorView>
        decreases k,
    {
        if k <= 0 {
            Ok(x)
        } else {
            match convert_fields(
                self.plans()[k - 1].keys(),
                self.plans()[k - 1]@,
                self.rules(k - 1),
                x,
            ) {
                Err(e) => Err(e),
                Ok(next) => self.migrate_spec(k - 1, next),
            }
        }
    }

    /// The names of an instance that was brought to the current version
    /// from the version at position `k`, in their order: those of the
    /// current shape where no edge was applied, else those of the plan of
    /// the last edge.
    pub open spec fn names_after(&self, k: int) -> Seq<Seq<char>> {
        if k <= 0 {
            self.shapes()[0].keys()
        } else {
            self.plans()[0].keys()
        }
    }

    /// The names of the instance that reading a payload gives, in their
    /// order.
    pub open spec fn names_read(&self, envelope: DatumView) -> Seq<Seq<char>> {
        match envelope_spec(self.tag_key(), envelope) {
            Ok((tag, payload)) => match self.decode_spec(tag, payload) {
                Ok((k, _)) => self.names_after(k),
                Err(_) => Seq::empty(),
            },
            Err(_) => Seq::empty(),
        }
    }

    /// What reading a payload gives: the payload is split into tag and
    /// members, read against the shape registered for the tag, and
    /// converted to the current version.
    pub open spec fn deserialize_spec(&self, envelope: DatumView) -> Result<FieldMap, ErrorView> {
        match envelope_spec(self.tag_key(), envelope) {
            Err(e) => Err(e),
            Ok((tag, payload)) => match self.decode_spec(tag, payload) {
                Err(e) => Err(e),
                Ok((k, x)) => self.migrate_spec(k, x),
            },
        }
    }

    /// What writing an instance gives: a record with the tag of the current
    /// version first, then the fields of the current shape in their order.
    pub open spec fn serialize_spec(&self, x: FieldMap) -> Result<DatumView, ErrorView> {
        match encode_fields(self.shapes()[0].keys(), self.shapes()[0]@, x) {
            Err(e) => Err(e),
            Ok(s) => Ok(
                DatumView::Record(seq![(self.tag_key(), DatumView::Text(self.current()))] + s),
            ),
        }
    }
}

/// A payload split into the tag it carries and its other members.
#[derive(Debug)]
pub struct TaggedPayload {
    pub tag: Option<String>,
    pub fields: Vec<Entry>,
}

impl TaggedPayload {
    /// The tag, if there is one.
    pub open spec fn tag_view(&self) -> Option<Seq<char>> {
        match self.tag {
            Some(t) => Some(t@),
            None => None,
        }
    }
}

/// Anything that knows which version it was written in.
pub trait Versioned {
    fn version(&self) -> Option<&str>;
}

impl Versioned for TaggedPayload {
    fn version(&self) -> (r: Option<&str>)
        ensures
            match r {
                Some(t) => self.tag_view() == Some(t@),
                None => self.tag_view() is None,
            },
    {
        match &self.tag {
            Some(t) => Some(t.as_str()),
            None => None,
        }
    }
}

/// Anything that can be brought to the current form of `T`.
pub trait MigrateInto<T> {
    fn migrate(&self) -> Result<T, MigrationError>;
}

/// An instance read at one registered version, not yet converted.
#[derive(Debug)]
pub struct DecodedAtVersion<'a> {
    registry: &'a Registry,
    index: usize,
    instance: Instance,
}

impl<'a> DecodedAtVersion<'a> {
    /// The registry that the instance was read with.
    pub closed spec fn registry(&self) -> Registry {
        *self.registry
    }

    /// The position of the version among those of the registry.
    pub closed spec fn index(&self) -> int {
        self.index as int
    }

    /// The fields as they were read.
    pub closed spec fn fields(&self) -> FieldMap {
        self.instance@
    }

    #[verifier::type_invariant]
    closed spec fn inv(&self) -> bool {
        &&& self.index < self.registry.tags().len()
        &&& self.instance.names() == self.registry.shapes()[self.index as int].keys()
    }

    /// The tag of the version that the instance was read at.
    pub fn tag(&self) -> (r: &String)
        ensures
            r@ == self.registry().tags()[self.index()],
    {
        proof {
            use_type_invariant(self);
        }
        self.registry.tag_at(self.index)
    }

    /// How many edges lie between this version and the current one.
    pub fn hops(&self) -> (r: usize)
        ensures
            r == self.index(),
    {
        self.index
    }
}

impl MigrateInto<Instance> for DecodedAtVersion<'_> {
    fn migrate(&self) -> (r: Result<Instance, MigrationError>)
        ensures
            same_instance(r, self.registry().migrate_spec(self.index(), self.fields())),
            r matches Ok(x) ==> x.names() == self.registry().names_after(self.index()),
    {
        proof {
            use_type_invariant(self);
        }
        self.registry.migrate_from(self.index, &self.instance)
    }
}

/// The position of the first member of that name.
pub fn find_entry(entries: &Vec<Entry>, name: &String) -> (r: Option<usize>)
    ensures
        match r {
            Some(t) => t < entries.len() && first_index(entries_view(entries@), name@) == Some(
                t as int,
            ),
            None => first_index(entries_view(entries@), name@) is None,
        },
{
    let ghost ev = entries_view(entries@);
    let mut i: usize = 0;
    while i < entries.len()
        invariant
            i <= entries.len(),
            ev == entries_view(entries@),
            forall|j: int| 0 <= j < i ==> (#[trigger] ev[j]).0 != name@,
        decreases entries.len() - i,
    {
        if entries[i].name == *name {
            proof {
                lemma_first_index_is(ev, name@, i as int);
            }
            return Some(i);
        }
        i = i + 1;
    }
    proof {
        lemma_first_index(ev, name@);
    }
    None
}

fn copy_without(entries: &Vec<Entry>, skip: Option<usize>) -> (r: Vec<Entry>)
    requires
        skip matches Some(t) ==> t < entries.len(),
    ensures
        entries_view(r@) == match skip {
            Some(t) => entries_view(entries@).remove(t as int),
            None => entries_view(entries@),
        },
{
    let mut out: Vec<Entry> = Vec::new();
    let mut i: usize = 0;
    let ghost ev = entries_view(entries@);
    while i < entries.len()
        invariant
            i <= entries.len(),
            ev == entries_view(entries@),
            skip matches Some(t) ==> t < entries.len(),
            entries_view(out@) == match skip {
                Some(t) => if i <= t {
                    ev.take(i as int)
                } else {
                    ev.take(i as int).remove(t as int)
                },
                None => ev.take(i as int),
            },
        decreases entries.len() - i,
    {
        let ghost before = entries_view(out@);
        let keep = match skip {
            Some(t) => t != i,
            None => true,
        };
        if keep {
            out.push(Entry { name: entries[i].name.clone(), value: entries[i].value.duplicate() });
            assert(entries_view(out@) =~= before.push(ev[i as int]));
        }
        i = i + 1;
        proof {
            match skip {
                Some(t) => {
                    if i <= t {
                        assert(entries_view(out@) =~= ev.take(i as int));
                    } else {
                        assert(entries_view(out@) =~= ev.take(i as int).remove(t as int));
                    }
                },
                None => {
                    assert(entries_view(out@) =~= ev.take(i as int));
                },
            }
        }
    }
    assert(ev.take(i as int) =~= ev);
    out
}

/// Whether a result is what its description says.
pub open spec fn same_payload(
    r: Result<TaggedPayload, MigrationError>,
    s: Result<(Option<Seq<char>>, Entries), ErrorView>,
) -> bool {
    match r {
        Ok(p) => s == Ok::<(Option<Seq<char>>, Entries), ErrorView>(
            (p.tag_view(), entries_view(p.fields@)),
        ),
        Err(e) => s == Err::<(Option<Seq<char>>, Entries), ErrorView>(e@),
    }
}

/// Splits a payload into its tag and its other members. The payload must
/// be a record, and what stands under the tag key must be text.
pub fn read_envelope(key: &String, envelope: &Datum) -> (r: Result<TaggedPayload, MigrationError>)
    ensures
        same_payload(r, envelope_spec(key@, envelope@)),
{
    match envelope {
        Datum::Record(entries) => {
            proof {
                lemma_record_view(*envelope);
            }
            match find_entry(entries, key) {
                None => Ok(TaggedPayload { tag: None, fields: copy_without(entries, None) }),
                Some(t) => match &entries[t].value {
                    Datum::Text(tag) => Ok(
                        TaggedPayload {
                            tag: Some(tag.clone()),
                            fields: copy_without(entries, Some(t)),
                        },
                    ),
                    _ => Err(MigrationError::TypeMismatch(key.clone())),
                },
            }
        },
        _ => Err(MigrationError::TypeMismatch(key.clone())),
    }
}

fn decode_one(ty: TypeDescriptor, name: &String, payload: &Vec<Entry>) -> (r: Result<
    Datum,
    MigrationError,
>)
    ensures
        same_value(r, decode_field(ty, name@, entries_view(payload@))),
{
    match find_entry(payload, name) {
        Some(t) => {
            if ty.accepts(&payload[t].value) {
                Ok(payload[t].value.duplicate())
            } else {
                Err(MigrationError::TypeMismatch(name.clone()))
            }
        },
        None => {
            if ty.nullable {
                Ok(Datum::Null)
            } else {
                Err(MigrationError::MissingField(name.clone()))
            }
        },
    }
}

/// Reads the members of a payload against a shape.
pub fn decode_shape(shape: &SchemaShape, payload: &Vec<Entry>) -> (r: Result<Instance, MigrationError>)
    ensures
        same_instance(r, decode_fields(shape.keys(), shape@, entries_view(payload@))),
        r matches Ok(x) ==> x.names() == shape.keys(),
{
    proof {
        use_type_invariant(shape);
    }
    let mut out = Instance::new();
    let mut i: usize = 0;
    while i < shape.len()
        invariant
            shape.wf(),
            out.names() == shape.keys().take(i as int),
            i <= shape.keys().len(),
            decode_fields(shape.keys().take(i as int), shape@, entries_view(payload@)) == Ok::<
                FieldMap,
                ErrorView,
            >(out@),
        decreases shape.keys().len() - i,
    {
        let name = shape.key_at(i);
        let ty = shape.value_at(i).duplicate();
        assert(shape.keys().take(i + 1).drop_last() =~= shape.keys().take(i as int));
        match decode_one(ty, name, payload) {
            Ok(v) => {
                proof {
                    out.lemma_names();
                    if out@.contains_key(name@) {
                        assert(shape.keys().take(i as int).to_set().contains(name@));
                        let j = choose|j: int|
                            0 <= j < i && shape.keys().take(i as int)[j] == name@;
                        assert(shape.keys()[j] == name@);
                    }
                }
                out.set(name.clone(), v);
                assert(out.names() =~= shape.keys().take(i + 1));
            },
            Err(e) => {
                proof {
                    lemma_decode_error(shape.keys(), i + 1, shape@, entries_view(payload@));
                }
                return Err(e);
            },
        }
        i = i + 1;
    }
    assert(shape.keys().take(i as int) =~= shape.keys());
    Ok(out)
}

fn encode_one(ty: TypeDescriptor, name: &String, instance: &Instance) -> (r: Result<
    Datum,
    MigrationError,
>)
    ensures
        same_value(r, encode_field(ty, name@, instance@)),
{
    match instance.get(name.as_str()) {
        Some(v) => {
            if ty.accepts(v) {
                Ok(v.duplicate())
            } else {
                Err(MigrationError::TypeMismatch(name.clone()))
            }
        },
        None => {
            if ty.nullable {
                Ok(Datum::Null)
            } else {
                Err(MigrationError::MissingField(name.clone()))
            }
        },
    }
}

impl Registry {
    /// The edges that lead from the version at position `k` to the current
    /// version, in the order in which they are applied: each with the tag
    /// it leads from and the tag it leads to.
    pub open spec fn chain_spec(&self, k: int) -> Seq<(Seq<char>, Seq<char>)> {
        Seq::new(k as nat, |j: int| (self.tags()[k - j], self.tags()[k - j - 1]))
    }

    /// The edges that lead from a version to the current one, oldest
    /// first; none for a tag that is not registered. From the current
    /// version no edge leads anywhere.
    pub fn chain_from(&self, tag: &str) -> (r: Option<Vec<(String, String)>>)
        ensures
            match r {
                Some(edges) => self.tags().contains(tag@) && edges@.len() == self.tags().index_of(
                    tag@,
                ) && forall|j: int|
                    0 <= j < edges@.len() ==> ((#[trigger] edges@[j]).0@, edges@[j].1@)
                        == self.chain_spec(self.tags().index_of(tag@))[j],
                None => !self.tags().contains(tag@),
            },
            tag@ == self.current() ==> (r matches Some(edges) && edges@.len() == 0),
    {
        proof {
            use_type_invariant(self);
            self.lemma_tags_distinct();
        }
        match self.find_version(tag) {
            None => None,
            Some(k) => {
                assert(self.tags().index_of(tag@) == k as int);
                let mut edges: Vec<(String, String)> = Vec::new();
                let mut j: usize = 0;
                while j < k
                    invariant
                        j <= k < self.tags().len(),
                        edges@.len() == j,
                        forall|i: int|
                            0 <= i < j ==> ((#[trigger] edges@[i]).0@, edges@[i].1@)
                                == self.chain_spec(k as int)[i],
                    decreases k - j,
                {
                    edges.push((self.tag_at(k - j).clone(), self.tag_at(k - j - 1).clone()));
                    j = j + 1;
                }
                Some(edges)
            },
        }
    }

    /// Reads the members of a payload against the shape of the version
    /// that its tag names.
    pub fn decode<'a>(&'a self, tagged: &TaggedPayload) -> (r: Result<
        DecodedAtVersion<'a>,
        MigrationError,
    >)
        ensures
            match r {
                Ok(d) => d.registry() == *self && self.decode_spec(
                    tagged.tag_view(),
                    entries_view(tagged.fields@),
                ) == Ok::<(int, FieldMap), ErrorView>((d.index(), d.fields())),
                Err(e) => self.decode_spec(tagged.tag_view(), entries_view(tagged.fields@)) == Err::<
                    (int, FieldMap),
                    ErrorView,
                >(e@),
            },
    {
        proof {
            use_type_invariant(self);
            self.lemma_tags_distinct();
        }
        let tag: &String = match &tagged.tag {
            Some(t) => t,
            None => self.default_tag(),
        };
        assert(tag@ == self.effective_tag(tagged.tag_view()));
        match self.find_version(tag.as_str()) {
            None => Err(MigrationError::UnknownVersion(tag.clone())),
            Some(k) => {
                assert(self.tags().index_of(tag@) == k as int);
                match decode_shape(self.shape_at(k), &tagged.fields) {
                    Ok(instance) => Ok(DecodedAtVersion { registry: self, index: k, instance }),
                    Err(e) => Err(e),
                }
            },
        }
    }

    /// Converts an instance of the version at position `index` to the
    /// current version, edge by edge, each edge taking what the one before
    /// it gave.
    pub(crate) fn migrate_from(&self, index: usize, instance: &Instance) -> (r: Result<
        Instance,
        MigrationError,
    >)
        requires
            index < self.tags().len(),
            instance.names() == self.shapes()[index as int].keys(),
        ensures
            same_instance(r, self.migrate_spec(index as int, instance@)),
            r matches Ok(x) ==> x.names() == self.names_after(index as int),
    {
        proof {
            use_type_invariant(self);
        }
        if index == 0 {
            return Ok(instance.duplicate());
        }
        let mut k: usize = index - 1;
        let mut current = match convert(self.plan_at(k), self.rules_at(k), instance) {
            Ok(next) => next,
            Err(e) => {
                return Err(e);
            },
        };
        while k > 0
            invariant
                self.wf(),
                k < self.plans().len(),
                index > 0,
                current.names() == self.plans()[k as int].keys(),
                self.migrate_spec(index as int, instance@) == self.migrate_spec(k as int, current@),
            decreases k,
        {
            k = k - 1;
            match convert(self.plan_at(k), self.rules_at(k), &current) {
                Ok(next) => {
                    current = next;
                },
                Err(e) => {
                    return Err(e);
                },
            }
        }
        Ok(current)
    }

    /// Reads a payload, whatever registered version wrote it, and gives the
    /// instance of the current version.
    pub fn deserialize(&self, envelope: &Datum) -> (r: Result<Instance, MigrationError>)
        ensures
            same_instance(r, self.deserialize_spec(envelope@)),
            r matches Ok(x) ==> x.names() == self.names_read(envelope@),
    {
        let tagged = match read_envelope(self.key(), envelope) {
            Ok(t) => t,
            Err(e) => {
                return Err(e);
            },
        };
        let decoded = match self.decode(&tagged) {
            Ok(d) => d,
            Err(e) => {
                return Err(e);
            },
        };
        decoded.migrate()
    }

    /// Writes an instance of the current version: the tag first, then the
    /// fields of the current shape. A field that may be null and that the
    /// instance lacks is written as null; fields that the shape does not
    /// name are left out.
    pub fn serialize(&self, instance: &Instance) -> (r: Result<Datum, MigrationError>)
        ensures
            same_value(r, self.serialize_spec(instance@)),
    {
        proof {
            use_type_invariant(self);
        }
        let shape = self.shape_at(0);
        let mut out: Vec<Entry> = Vec::new();
        out.push(Entry { name: self.key().clone(), value: Datum::Text(self.tag_at(0).clone()) });
        let ghost head = seq![(self.tag_key(), DatumView::Text(self.current()))];
        assert(entries_view(out@) =~= head);
        let mut i: usize = 0;
        let ghost mut done: Entries = Seq::empty();
        assert(head + done =~= head);
        while i < shape.len()
            invariant
                i <= shape.keys().len(),
                *shape == self.shapes()[0],
                encode_fields(shape.keys().take(i as int), shape@, instance@) == Ok::<
                    Entries,
                    ErrorView,
                >(done),
                entries_view(out@) == head + done,
            decreases shape.keys().len() - i,
        {
            let name = shape.key_at(i);
            let ty = shape.value_at(i).duplicate();
            let ghost before = entries_view(out@);
            assert(shape.keys().take(i + 1).drop_last() =~= shape.keys().take(i as int));
            match encode_one(ty, name, instance) {
                Ok(v) => {
                    let ghost pair = (name@, v@);
                    out.push(Entry { name: name.clone(), value: v });
                    assert(entries_view(out@) =~= before.push(pair));
                    assert(head + done.push(pair) =~= (head + done).push(pair));
                    proof {
                        done = done.push(pair);
                    }
                },
                Err(e) => {
                    proof {
                        lemma_encode_error(shape.keys(), i + 1, shape@, instance@);
                    }
                    return Err(e);
                },
            }
            i = i + 1;
        }
        assert(shape.keys().take(i as int) =~= shape.keys());
        let r = Datum::Record(out);
        proof {
            lemma_record_view(r);
        }
        Ok(r)
    }

    /// No version tag is registered twice.
    pub proof fn lemma_tags_distinct(&self)
        requires
            self.wf(),
        ensures
            self.tags().no_duplicates(),
    {
        assert forall|a: int, b: int|
            0 <= a < self.tags().len() && 0 <= b < self.tags().len() && a != b implies self.tags()[a]
            != self.tags()[b] by {
            let lo = if a < b { a } else { b };
            let hi = if a < b { b } else { a };
            assert(self.tags()[lo] == crate::chain::version_at(
                self.current(),
                self.steps(),
                self.order(),
                lo,
            ));
            assert(self.tags()[hi] == crate::chain::version_at(
                self.current(),
                self.steps(),
                self.order(),
                hi,
            ));
        }
    }
}

} // verus!
