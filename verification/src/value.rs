//! Untyped values: what a payload holds before it is read against a shape.

use vstd::prelude::*;

verus! {

/// One named member of a record value.
#[derive(Debug, PartialEq, Eq)]
pub struct Entry {
    pub name: String,
    pub value: Datum,
}

/// A value as it travels on the wire.
///
/// Numbers that are not 64-bit signed integers are carried as the text of
/// their literal and never computed with.
#[derive(Debug, PartialEq, Eq)]
pub enum Datum {
    Null,
    Bool(bool),
    Int(i64),
    Real(String),
    Text(String),
    List(Vec<Datum>),
    Record(Vec<Entry>),
}

/// The mathematical content of a [`Datum`].
pub ghost enum DatumView {
    Null,
    Bool(bool),
    Int(int),
    Real(Seq<char>),
    Text(Seq<char>),
    List(Seq<DatumView>),
    Record(Seq<(Seq<char>, DatumView)>),
}

/// The content of a value: the content of a list is that of its items, the
/// content of a record that of its members.
pub open spec fn content(v: Datum) -> DatumView
    decreases v,
{
    match v {
        Datum::Null => DatumView::Null,
        Datum::Bool(b) => DatumView::Bool(b),
        Datum::Int(i) => DatumView::Int(i as int),
        Datum::Real(t) => DatumView::Real(t@),
        Datum::Text(t) => DatumView::Text(t@),
        Datum::List(items) => DatumView::List(
            Seq::new(
                items@.len(),
                |i: int|
                    if 0 <= i < items@.len() {
                        content(items@[i])
                    } else {
                        DatumView::Null
                    },
            ),
        ),
        Datum::Record(entries) => DatumView::Record(
            Seq::new(
                entries@.len(),
                |i: int|
                    if 0 <= i < entries@.len() {
                        (entries@[i].name@, content(entries@[i].value))
                    } else {
                        (Seq::empty(), DatumView::Null)
                    },
            ),
        ),
    }
}

impl View for Datum {
    type V = DatumView;

    open spec fn view(&self) -> DatumView {
        content(*self)
    }
}

/// The content of the members of a record, in their order.
pub open spec fn entries_view(entries: Seq<Entry>) -> Seq<(Seq<char>, DatumView)> {
    Seq::new(entries.len(), |i: int| (entries[i].name@, entries[i].value@))
}

/// The content of the items of a list, in their order.
pub open spec fn items_view(items: Seq<Datum>) -> Seq<DatumView> {
    Seq::new(items.len(), |i: int| items[i]@)
}

/// The content of a record is the content of its members.
pub proof fn lemma_record_view(v: Datum)
    requires
        v is Record,
    ensures
        v@ == DatumView::Record(entries_view(v->Record_0@)),
{
    assert(v@->Record_0 =~= entries_view(v->Record_0@));
}

/// The content of a list is the content of its items.
pub proof fn lemma_list_view(v: Datum)
    requires
        v is List,
    ensures
        v@ == DatumView::List(items_view(v->List_0@)),
{
    assert(v@->List_0 =~= items_view(v->List_0@));
}

impl Datum {
    /// A deep copy.
    pub fn duplicate(&self) -> (r: Datum)
        ensures
            r@ == self@,
        decreases self,
    {
        match self {
            Datum::Null => Datum::Null,
            Datum::Bool(b) => Datum::Bool(*b),
            Datum::Int(i) => Datum::Int(*i),
            Datum::Real(t) => Datum::Real(t.clone()),
            Datum::Text(t) => Datum::Text(t.clone()),
            Datum::List(items) => {
                let mut out: Vec<Datum> = Vec::new();
                let mut i: usize = 0;
                while i < items.len()
                    invariant
                        *self == Datum::List(*items),
                        i <= items.len(),
                        out@.len() == i,
                        forall|j: int| 0 <= j < i ==> out@[j]@ == items@[j]@,
                    decreases items.len() - i,
                {
                    proof {
                        assert(decreases_to!(self => self->List_0));
                        assert(decreases_to!(self->List_0 => self->List_0@));
                        assert(decreases_to!(self->List_0@ => self->List_0@[i as int]));
                    }
                    out.push(items[i].duplicate());
                    i = i + 1;
                }
                let r = Datum::List(out);
                assert(r@->List_0 =~= self@->List_0);
                r
            },
            Datum::Record(entries) => {
                let mut out: Vec<Entry> = Vec::new();
                let mut i: usize = 0;
                while i < entries.len()
                    invariant
                        *self == Datum::Record(*entries),
                        i <= entries.len(),
                        out@.len() == i,
                        forall|j: int| 0 <= j < i ==> out@[j].name@ == entries@[j].name@
                            && out@[j].value@ == entries@[j].value@,
                    decreases entries.len() - i,
                {
                    proof {
                        assert(decreases_to!(self => self->Record_0));
                        assert(decreases_to!(self->Record_0 => self->Record_0@));
                        assert(decreases_to!(self->Record_0@ => self->Record_0@[i as int]));
                        assert(decreases_to!(self->Record_0@[i as int] => self->Record_0@[i as int].value));
                    }
                    out.push(
                        Entry { name: entries[i].name.clone(), value: entries[i].value.duplicate() },
                    );
                    i = i + 1;
                }
                let r = Datum::Record(out);
                assert(r@->Record_0 =~= self@->Record_0);
                r
            },
        }
    }
}

} // verus!
