//! Payloads as JSON text. The text is read and written by `serde_json`;
//! what stands between its values and the values of this library is
//! verified here.

use vstd::prelude::*;
use crate::value::{
    entries_view,
    items_view,
    lemma_list_view,
    lemma_record_view,
    Entry,
    Datum,
    DatumView,
};

verus! {

/// The content of a `serde_json` value: null, booleans, texts, arrays and
/// objects as they are; a number that is a 64-bit signed integer as that
/// integer, any other number as the text that `serde_json` writes for it;
/// the members of an object in the order in which `serde_json` walks them.
pub uninterp spec fn json_model(v: serde_json::Value) -> DatumView;

/// The content of the value that `serde_json` reads from a text, where it
/// reads one.
pub uninterp spec fn json_parsed(text: Seq<char>) -> Option<DatumView>;

/// The compact text that `serde_json` writes for a value of the given
/// content.
pub uninterp spec fn json_printed(content: DatumView) -> Seq<char>;

/// One level of a `serde_json` value: what it is, with its parts still in
/// `serde_json`'s own form.
pub enum Node {
    Null,
    Bool(bool),
    Int(i64),
    Real(String),
    Text(String),
    List(Vec<serde_json::Value>),
    Record(Vec<(String, serde_json::Value)>),
}

/// The content of a node.
pub open spec fn node_view(n: Node) -> DatumView {
    match n {
        Node::Null => DatumView::Null,
        Node::Bool(b) => DatumView::Bool(b),
        Node::Int(i) => DatumView::Int(i as int),
        Node::Real(t) => DatumView::Real(t@),
        Node::Text(t) => DatumView::Text(t@),
        Node::List(items) => DatumView::List(
            Seq::new(items@.len(), |i: int| json_model(items@[i])),
        ),
        Node::Record(members) => DatumView::Record(
            Seq::new(members@.len(), |i: int| (members@[i].0@, json_model(members@[i].1))),
        ),
    }
}

/// One level of a value that is to be handed to `serde_json`, with its
/// parts already in `serde_json`'s own form. Numbers other than integers
/// are not built from parts: they are read from their text.
pub enum Part {
    Null,
    Bool(bool),
    Int(i64),
    Text(String),
    List(Vec<serde_json::Value>),
    Record(Vec<(String, serde_json::Value)>),
}

/// The content of a part.
pub open spec fn part_view(p: Part) -> DatumView {
    match p {
        Part::Null => DatumView::Null,
        Part::Bool(b) => DatumView::Bool(b),
        Part::Int(i) => DatumView::Int(i as int),
        Part::Text(t) => DatumView::Text(t@),
        Part::List(items) => DatumView::List(
            Seq::new(items@.len(), |i: int| json_model(items@[i])),
        ),
        Part::Record(members) => DatumView::Record(
            Seq::new(members@.len(), |i: int| (members@[i].0@, json_model(members@[i].1))),
        ),
    }
}

/// Whether no two members of a part that is a record have the same name.
pub open spec fn distinct_members(p: Part) -> bool {
    p matches Part::Record(members) ==> forall|i: int, j: int|
        0 <= i < j < members@.len() ==> (#[trigger] members@[i]).0@ != (#[trigger] members@[j]).0@
}

/// `serde_json::from_str` at the type `serde_json::Value`: the value read
/// from the text, or the error where the text is not one JSON value.
#[verifier::external_body]
fn json_from_str(text: &str) -> (r: Result<serde_json::Value, serde_json::Error>)
    ensures
        match r {
            Ok(v) => json_parsed(text@) == Some(json_model(v)),
            Err(_) => json_parsed(text@) is None,
        },
{
    serde_json::from_str::<serde_json::Value>(text)
}

/// `serde_json::Value`'s `to_string`: the compact text of the value.
#[verifier::external_body]
fn json_to_string(v: &serde_json::Value) -> (r: String)
    ensures
        r@ == json_printed(json_model(*v)),
{
    v.to_string()
}

/// Takes a `serde_json::Value` apart by its variants. A number is given as
/// an integer where `Number::as_i64` has one, else as the text that
/// `Number`'s `to_string` writes; the members of an object in the order of
/// `Map::iter`.
#[verifier::external_body]
fn json_node(v: &serde_json::Value) -> (n: Node)
    ensures
        node_view(n) == json_model(*v),
{
    match v {
        serde_json::Value::Null => Node::Null,
        serde_json::Value::Bool(b) => Node::Bool(*b),
        serde_json::Value::Number(n) => match n.as_i64() {
            Some(i) => Node::Int(i),
            None => Node::Real(n.to_string()),
        },
        serde_json::Value::String(s) => Node::Text(s.clone()),
        serde_json::Value::Array(a) => Node::List(a.clone()),
        serde_json::Value::Object(m) => Node::Record(
            m.iter().map(|(k, v)| (k.clone(), v.clone())).collect(),
        ),
    }
}

/// Puts a `serde_json::Value` together from a part, by the variant of the
/// part: an integer through `Value::from`, the members of a record through
/// `Map`'s `from_iter`, which keeps their order where their names differ.
#[verifier::external_body]
fn json_build(p: Part) -> (v: serde_json::Value)
    ensures
        distinct_members(p) ==> json_model(v) == part_view(p),
{
    match p {
        Part::Null => serde_json::Value::Null,
        Part::Bool(b) => serde_json::Value::Bool(b),
        Part::Int(i) => serde_json::Value::from(i),
        Part::Text(s) => serde_json::Value::String(s),
        Part::List(items) => serde_json::Value::Array(items),
        Part::Record(members) => serde_json::Value::Object(members.into_iter().collect()),
    }
}

/// Why a text or a value could not be turned into the other.
#[derive(Debug, PartialEq, Eq)]
pub enum JsonError {
    /// The text is not one JSON value.
    Syntax,
    /// A record has two members of this name.
    DuplicateKey(String),
    /// The text of a number is not a JSON number.
    BadNumber(String),
}

/// The mathematical content of a [`JsonError`].
pub ghost enum JsonErrorView {
    Syntax,
    DuplicateKey(Seq<char>),
    BadNumber(Seq<char>),
}

impl View for JsonError {
    type V = JsonErrorView;

    open spec fn view(&self) -> JsonErrorView {
        match self {
            JsonError::Syntax => JsonErrorView::Syntax,
            JsonError::DuplicateKey(n) => JsonErrorView::DuplicateKey(n@),
            JsonError::BadNumber(n) => JsonErrorView::BadNumber(n@),
        }
    }
}

fn lift(v: &serde_json::Value) -> (r: Datum)
    ensures
        r@ == json_model(*v),
    decreases json_model(*v),
{
    let ghost m = json_model(*v);
    match json_node(v) {
        Node::Null => Datum::Null,
        Node::Bool(b) => Datum::Bool(b),
        Node::Int(i) => Datum::Int(i),
        Node::Real(t) => Datum::Real(t),
        Node::Text(t) => Datum::Text(t),
        Node::List(items) => {
            let mut out: Vec<Datum> = Vec::new();
            let mut i: usize = 0;
            while i < items.len()
                invariant
                    i <= items.len(),
                    out@.len() == i,
                    m == json_model(*v),
                    m == DatumView::List(Seq::new(items@.len(), |i: int| json_model(items@[i]))),
                    forall|j: int| 0 <= j < i ==> (#[trigger] out@[j])@ == json_model(items@[j]),
                decreases items.len() - i,
            {
                proof {
                    assert(m->List_0[i as int] == json_model(items@[i as int]));
                    assert(decreases_to!(m => m->List_0));
                    assert(decreases_to!(m->List_0 => m->List_0[i as int]));
                }
                out.push(lift(&items[i]));
                i = i + 1;
            }
            let r = Datum::List(out);
            proof {
                lemma_list_view(r);
                assert(items_view(out@) =~= m->List_0);
            }
            r
        },
        Node::Record(members) => {
            let mut out: Vec<Entry> = Vec::new();
            let mut i: usize = 0;
            while i < members.len()
                invariant
                    i <= members.len(),
                    out@.len() == i,
                    m == json_model(*v),
                    m == DatumView::Record(
                        Seq::new(
                            members@.len(),
                            |i: int| (members@[i].0@, json_model(members@[i].1)),
                        ),
                    ),
                    forall|j: int|
                        0 <= j < i ==> (#[trigger] out@[j]).name@ == members@[j].0@ && out@[j].value@
                            == json_model(members@[j].1),
                decreases members.len() - i,
            {
                proof {
                    assert(m->Record_0[i as int].1 == json_model(members@[i as int].1));
                    assert(decreases_to!(m => m->Record_0));
                    assert(decreases_to!(m->Record_0 => m->Record_0[i as int]));
                    assert(decreases_to!(m->Record_0[i as int] => m->Record_0[i as int].1));
                }
                let name = members[i].0.clone();
                let value = lift(&members[i].1);
                out.push(Entry { name, value });
                i = i + 1;
            }
            let r = Datum::Record(out);
            proof {
                lemma_record_view(r);
                assert(entries_view(out@) =~= m->Record_0);
            }
            r
        },
    }
}

/// Reads one JSON value from a text.
pub fn parse_json(text: &str) -> (r: Result<Datum, JsonError>)
    ensures
        match r {
            Ok(v) => json_parsed(text@) == Some(v@),
            Err(e) => e == JsonError::Syntax && json_parsed(text@) is None,
        },
{
    match json_from_str(text) {
        Ok(v) => Ok(lift(&v)),
        Err(_) => Err(JsonError::Syntax),
    }
}

/// The number that a text stands for, in the form in which `serde_json`
/// holds numbers.
pub open spec fn number_of(text: Seq<char>) -> Result<DatumView, JsonErrorView> {
    match json_parsed(text) {
        Some(m) => if m is Int || m is Real {
            Ok(m)
        } else {
            Err(JsonErrorView::BadNumber(text))
        },
        None => Err(JsonErrorView::BadNumber(text)),
    }
}

/// Whether the member at position `j` has the name of an earlier member.
pub open spec fn repeats(members: Seq<(Seq<char>, DatumView)>, j: int) -> bool {
    exists|i: int| 0 <= i < j && (#[trigger] members[i]).0 == members[j].0
}

/// Whether `j` is the position of the first member that has the name of an
/// earlier one.
pub open spec fn first_repeat(members: Seq<(Seq<char>, DatumView)>, j: int) -> bool {
    &&& 0 <= j < members.len()
    &&& repeats(members, j)
    &&& forall|k: int| 0 <= k < j ==> !repeats(members, k)
}

/// Whether no member has the name of another.
pub open spec fn no_repeat(members: Seq<(Seq<char>, DatumView)>) -> bool {
    forall|k: int| 0 <= k < members.len() ==> !repeats(members, k)
}

/// The content that is written for a value: every number that is carried
/// as text is put in the form in which `serde_json` holds it, and nothing
/// else is changed. A record with two members of one name cannot be
/// written, nor a number whose text is not a JSON number; the first such
/// fault, going through the value from its beginning, is the error.
pub open spec fn lowered(m: DatumView) -> Result<DatumView, JsonErrorView>
    decreases m, 0nat,
{
    match m {
        DatumView::Real(t) => number_of(t),
        DatumView::List(items) => match lowered_items(items, items.len()) {
            Ok(s) => Ok(DatumView::List(s)),
            Err(e) => Err(e),
        },
        DatumView::Record(members) => if no_repeat(members) {
            match lowered_members(members, members.len()) {
                Ok(s) => Ok(DatumView::Record(s)),
                Err(e) => Err(e),
            }
        } else {
            let j = choose|j: int| first_repeat(members, j);
            Err(JsonErrorView::DuplicateKey(members[j].0))
        },
        other => Ok(other),
    }
}

/// The first `k` items of a list, each as it is written.
pub open spec fn lowered_items(items: Seq<DatumView>, k: nat) -> Result<
    Seq<DatumView>,
    JsonErrorView,
>
    decreases items, k,
{
    if k == 0 || k > items.len() {
        Ok(Seq::empty())
    } else {
        match lowered_items(items, (k - 1) as nat) {
            Err(e) => Err(e),
            Ok(s) => match lowered(items[k - 1]) {
                Err(e) => Err(e),
                Ok(x) => Ok(s.push(x)),
            },
        }
    }
}

/// The first `k` members of a record, each as it is written.
pub open spec fn lowered_members(members: Seq<(Seq<char>, DatumView)>, k: nat) -> Result<
    Seq<(Seq<char>, DatumView)>,
    JsonErrorView,
>
    decreases members, k,
{
    if k == 0 || k > members.len() {
        Ok(Seq::empty())
    } else {
        match lowered_members(members, (k - 1) as nat) {
            Err(e) => Err(e),
            Ok(s) => match lowered(members[k - 1].1) {
                Err(e) => Err(e),
                Ok(x) => Ok(s.push((members[k - 1].0, x))),
            },
        }
    }
}

/// The text that is written for a value.
pub open spec fn printed(m: DatumView) -> Result<Seq<char>, JsonErrorView> {
    match lowered(m) {
        Ok(x) => Ok(json_printed(x)),
        Err(e) => Err(e),
    }
}

proof fn lemma_items_error(items: Seq<DatumView>, j: nat, k: nat)
    requires
        j <= k <= items.len(),
        lowered_items(items, j) is Err,
    ensures
        lowered_items(items, k) == lowered_items(items, j),
    decreases k,
{
    if j < k {
        lemma_items_error(items, j, (k - 1) as nat);
    }
}

proof fn lemma_members_error(members: Seq<(Seq<char>, DatumView)>, j: nat, k: nat)
    requires
        j <= k <= members.len(),
        lowered_members(members, j) is Err,
    ensures
        lowered_members(members, k) == lowered_members(members, j),
    decreases k,
{
    if j < k {
        lemma_members_error(members, j, (k - 1) as nat);
    }
}

fn repeated_name(entries: &Vec<Entry>) -> (r: Option<usize>)
    ensures
        match r {
            Some(j) => first_repeat(entries_view(entries@), j as int),
            None => no_repeat(entries_view(entries@)),
        },
{
    let ghost ev = entries_view(entries@);
    let mut j: usize = 0;
    while j < entries.len()
        invariant
            j <= entries.len(),
            ev == entries_view(entries@),
            forall|k: int| 0 <= k < j ==> !repeats(ev, k),
        decreases entries.len() - j,
    {
        let mut i: usize = 0;
        while i < j
            invariant
                i <= j < entries.len(),
                ev == entries_view(entries@),
                forall|k: int| 0 <= k < j ==> !repeats(ev, k),
                forall|k: int| 0 <= k < i ==> (#[trigger] ev[k]).0 != ev[j as int].0,
            decreases j - i,
        {
            if entries[i].name == entries[j].name {
                assert(ev[i as int].0 == ev[j as int].0);
                assert(repeats(ev, j as int));
                return Some(j);
            }
            i = i + 1;
        }
        j = j + 1;
    }
    None
}

/// Whether a result is what its description says.
pub open spec fn same_json(
    r: Result<serde_json::Value, JsonError>,
    s: Result<DatumView, JsonErrorView>,
) -> bool {
    match r {
        Ok(v) => s == Ok::<DatumView, JsonErrorView>(json_model(v)),
        Err(e) => s == Err::<DatumView, JsonErrorView>(e@),
    }
}

fn number_from_text(text: &String) -> (r: Result<serde_json::Value, JsonError>)
    ensures
        same_json(r, number_of(text@)),
{
    match json_from_str(text.as_str()) {
        Ok(v) => match json_node(&v) {
            Node::Int(_) => Ok(v),
            Node::Real(_) => Ok(v),
            _ => Err(JsonError::BadNumber(text.clone())),
        },
        Err(_) => Err(JsonError::BadNumber(text.clone())),
    }
}

fn lower(v: &Datum) -> (r: Result<serde_json::Value, JsonError>)
    ensures
        same_json(r, lowered(v@)),
    decreases v,
{
    match v {
        Datum::Null => Ok(json_build(Part::Null)),
        Datum::Bool(b) => Ok(json_build(Part::Bool(*b))),
        Datum::Int(i) => Ok(json_build(Part::Int(*i))),
        Datum::Real(t) => number_from_text(t),
        Datum::Text(t) => Ok(json_build(Part::Text(t.clone()))),
        Datum::List(items) => {
            proof {
                lemma_list_view(*v);
            }
            let ghost iv = items_view(items@);
            let mut out: Vec<serde_json::Value> = Vec::new();
            let mut i: usize = 0;
            let ghost mut done: Seq<DatumView> = Seq::empty();
            while i < items.len()
                invariant
                    i <= items.len(),
                    *v == Datum::List(*items),
                    iv == items_view(items@),
                    v@ == DatumView::List(iv),
                    out@.len() == i,
                    done.len() == i,
                    lowered_items(iv, i as nat) == Ok::<Seq<DatumView>, JsonErrorView>(done),
                    forall|j: int| 0 <= j < i ==> json_model(#[trigger] out@[j]) == done[j],
                decreases items.len() - i,
            {
                proof {
                    assert(decreases_to!(v => v->List_0));
                    assert(decreases_to!(v->List_0 => v->List_0@));
                    assert(decreases_to!(v->List_0@ => v->List_0@[i as int]));
                    assert(iv[i as int] == items@[i as int]@);
                }
                match lower(&items[i]) {
                    Ok(j) => {
                        proof {
                            done = done.push(json_model(j));
                        }
                        out.push(j);
                    },
                    Err(e) => {
                        proof {
                            lemma_items_error(iv, (i + 1) as nat, iv.len());
                        }
                        return Err(e);
                    },
                }
                i = i + 1;
            }
            let part = Part::List(out);
            assert(part_view(part)->List_0 =~= done);
            Ok(json_build(part))
        },
        Datum::Record(entries) => {
            proof {
                lemma_record_view(*v);
            }
            let ghost ev = entries_view(entries@);
            match repeated_name(entries) {
                Some(j) => {
                    proof {
                        let c = choose|c: int| first_repeat(ev, c);
                        if c < j {
                            assert(!repeats(ev, c));
                        } else if j < c {
                            assert(!repeats(ev, j as int));
                        }
                    }
                    return Err(JsonError::DuplicateKey(entries[j].name.clone()));
                },
                None => {},
            }
            let mut out: Vec<(String, serde_json::Value)> = Vec::new();
            let mut i: usize = 0;
            let ghost mut done: Seq<(Seq<char>, DatumView)> = Seq::empty();
            while i < entries.len()
                invariant
                    i <= entries.len(),
                    *v == Datum::Record(*entries),
                    ev == entries_view(entries@),
                    v@ == DatumView::Record(ev),
                    no_repeat(ev),
                    out@.len() == i,
                    done.len() == i,
                    lowered_members(ev, i as nat) == Ok::<Seq<(Seq<char>, DatumView)>, JsonErrorView>(
                        done,
                    ),
                    forall|j: int|
                        0 <= j < i ==> (#[trigger] out@[j]).0@ == done[j].0 && json_model(out@[j].1)
                            == done[j].1 && done[j].0 == ev[j].0,
                decreases entries.len() - i,
            {
                proof {
                    assert(decreases_to!(v => v->Record_0));
                    assert(decreases_to!(v->Record_0 => v->Record_0@));
                    assert(decreases_to!(v->Record_0@ => v->Record_0@[i as int]));
                    assert(decreases_to!(v->Record_0@[i as int] => v->Record_0@[i as int].value));
                    assert(ev[i as int] == (entries@[i as int].name@, entries@[i as int].value@));
                }
                match lower(&entries[i].value) {
                    Ok(j) => {
                        proof {
                            done = done.push((entries@[i as int].name@, json_model(j)));
                        }
                        out.push((entries[i].name.clone(), j));
                    },
                    Err(e) => {
                        proof {
                            lemma_members_error(ev, (i + 1) as nat, ev.len());
                        }
                        return Err(e);
                    },
                }
                i = i + 1;
            }
            let part = Part::Record(out);
            proof {
                assert(part_view(part)->Record_0 =~= done);
                assert forall|a: int, b: int| 0 <= a < b < out@.len() implies (#[trigger] out@[a]).0@
                    != (#[trigger] out@[b]).0@ by {
                    assert(!repeats(ev, b));
                    assert(ev[a].0 != ev[b].0);
                }
            }
            Ok(json_build(part))
        },
    }
}

/// Writes a value as compact JSON text.
pub fn to_json(v: &Datum) -> (r: Result<String, JsonError>)
    ensures
        match r {
            Ok(text) => printed(v@) == Ok::<Seq<char>, JsonErrorView>(text@),
            Err(e) => printed(v@) == Err::<Seq<char>, JsonErrorView>(e@),
        },
{
    match lower(v) {
        Ok(j) => Ok(json_to_string(&j)),
        Err(e) => Err(e),
    }
}

} // verus!
