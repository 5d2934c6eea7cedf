//! Payloads as JSON text, with and without their version tag: reading the
//! tag of a text, putting a tag on a text that has none, taking it off
//! again; and reading and writing the instances of a registry as text.

use vstd::prelude::*;
use vstd::string::StringExecFns;
use crate::envelope::{find_entry, first_index, lookup, strip, Entries};
use crate::instance::Instance;
use crate::json::{json_parsed, parse_json, printed, to_json, JsonError, JsonErrorView};
use crate::model::{ErrorView, MigrationError};
use crate::plan::FieldMap;
use crate::registry::Registry;
use crate::value::{entries_view, lemma_record_view, Datum, DatumView, Entry};

verus! {

/// The key under which the version tag travels where nothing else is set.
pub open spec fn standard_key() -> Seq<char> {
    "$version"@
}

/// The version tag of a payload: the text that its first member under the
/// standard key holds. A payload that is no record has none, nor one whose
/// member under that key is not a text.
pub open spec fn version_in(m: DatumView) -> Option<Seq<char>> {
    match m {
        DatumView::Record(members) => match lookup(members, standard_key()) {
            Some(DatumView::Text(t)) => Some(t),
            _ => None,
        },
        _ => None,
    }
}

/// The members with the given value under the given name: in the place of
/// the first member of that name, or at the end where there is none.
pub open spec fn upsert(members: Entries, name: Seq<char>, v: DatumView) -> Entries {
    match first_index(members, name) {
        Some(t) => members.update(t, (name, v)),
        None => members.push((name, v)),
    }
}

/// The payload with the given version tag under the standard key. What is
/// no record is left as it is.
pub open spec fn tagged(m: DatumView, version: Seq<char>) -> DatumView {
    match m {
        DatumView::Record(members) => DatumView::Record(
            upsert(members, standard_key(), DatumView::Text(version)),
        ),
        other => other,
    }
}

/// The payload without its first member under the standard key. What is no
/// record is left as it is.
pub open spec fn untagged(m: DatumView) -> DatumView {
    match m {
        DatumView::Record(members) => DatumView::Record(strip(members, standard_key())),
        other => other,
    }
}

/// The content of an optional text.
pub open spec fn text_view(t: Option<String>) -> Option<Seq<char>> {
    match t {
        Some(s) => Some(s@),
        None => None,
    }
}

/// The version tag of a payload.
pub fn version_of(value: &Datum) -> (r: Option<String>)
    ensures
        text_view(r) == version_in(value@),
{
    match value {
        Datum::Record(entries) => {
            proof {
                lemma_record_view(*value);
            }
            let key = String::from_str("$version");
            match find_entry(entries, &key) {
                Some(t) => match &entries[t].value {
                    Datum::Text(tag) => Some(tag.clone()),
                    _ => None,
                },
                None => None,
            }
        },
        _ => None,
    }
}

/// Puts a version tag on a payload.
pub fn with_version(value: Datum, version: &str) -> (r: Datum)
    ensures
        r@ == tagged(value@, version@),
{
    match value {
        Datum::Record(entries) => {
            let ghost before = Datum::Record(entries);
            let ghost ev = entries_view(entries@);
            proof {
                lemma_record_view(before);
            }
            let mut entries = entries;
            let key = String::from_str("$version");
            let tag = Entry { name: key.clone(), value: Datum::Text(version.to_owned()) };
            match find_entry(&entries, &key) {
                Some(t) => {
                    entries.set(t, tag);
                    assert(entries_view(entries@) =~= ev.update(
                        t as int,
                        (standard_key(), DatumView::Text(version@)),
                    ));
                },
                None => {
                    entries.push(tag);
                    assert(entries_view(entries@) =~= ev.push(
                        (standard_key(), DatumView::Text(version@)),
                    ));
                },
            }
            let r = Datum::Record(entries);
            proof {
                lemma_record_view(r);
            }
            r
        },
        other => other,
    }
}

/// Takes the version tag off a payload.
pub fn without_version(value: Datum) -> (r: Datum)
    ensures
        r@ == untagged(value@),
{
    match value {
        Datum::Record(entries) => {
            let ghost before = Datum::Record(entries);
            let ghost ev = entries_view(entries@);
            proof {
                lemma_record_view(before);
            }
            let mut entries = entries;
            let key = String::from_str("$version");
            match find_entry(&entries, &key) {
                Some(t) => {
                    entries.remove(t);
                    assert(entries_view(entries@) =~= ev.remove(t as int));
                },
                None => {},
            }
            let r = Datum::Record(entries);
            proof {
                lemma_record_view(r);
            }
            r
        },
        other => other,
    }
}

/// Whether a result is what its description says.
pub open spec fn same_text(r: Result<String, JsonError>, s: Result<Seq<char>, JsonErrorView>) -> bool {
    match r {
        Ok(t) => s == Ok::<Seq<char>, JsonErrorView>(t@),
        Err(e) => s == Err::<Seq<char>, JsonErrorView>(e@),
    }
}

/// The version tag of a payload that is given as JSON text.
pub fn get_version_from_json(json: &str) -> (r: Result<Option<String>, JsonError>)
    ensures
        match json_parsed(json@) {
            Some(m) => r matches Ok(tag) && text_view(tag) == version_in(m),
            None => r matches Err(e) && e == JsonError::Syntax,
        },
{
    match parse_json(json) {
        Ok(value) => Ok(version_of(&value)),
        Err(e) => Err(e),
    }
}

/// Turns a payload without a tag, given as JSON text, into the text of the
/// payload with the given version tag.
pub fn yuuka_to_hifumi_with_version(json: &str, version: &str) -> (r: Result<String, JsonError>)
    ensures
        match json_parsed(json@) {
            Some(m) => same_text(r, printed(tagged(m, version@))),
            None => r matches Err(e) && e == JsonError::Syntax,
        },
{
    match parse_json(json) {
        Ok(value) => to_json(&with_version(value, version)),
        Err(e) => Err(e),
    }
}

/// Turns a tagged payload, given as JSON text, into the text of the
/// payload without its tag.
pub fn hifumi_to_yuuka(json: &str) -> (r: Result<String, JsonError>)
    ensures
        match json_parsed(json@) {
            Some(m) => same_text(r, printed(untagged(m))),
            None => r matches Err(e) && e == JsonError::Syntax,
        },
{
    match parse_json(json) {
        Ok(value) => to_json(&without_version(value)),
        Err(e) => Err(e),
    }
}

/// What can go wrong between a text and an instance.
#[derive(Debug, PartialEq, Eq)]
pub enum WireError {
    /// The text could not be read or written.
    Json(JsonError),
    /// The payload could not be read or written.
    Migration(MigrationError),
}

impl Registry {
    /// What reading a text gives, given the content that `serde_json` reads
    /// from it.
    pub open spec fn read_spec(&self, parsed: Option<DatumView>, r: Result<Instance, WireError>) -> bool {
        match parsed {
            None => r matches Err(WireError::Json(e)) && e == JsonError::Syntax,
            Some(m) => match r {
                Ok(x) => self.deserialize_spec(m) == Ok::<FieldMap, ErrorView>(x@) && x.names()
                    == self.names_read(m),
                Err(WireError::Migration(e)) => self.deserialize_spec(m) == Err::<
                    FieldMap,
                    ErrorView,
                >(e@),
                Err(WireError::Json(_)) => false,
            },
        }
    }

    /// What writing an instance gives.
    pub open spec fn write_spec(&self, x: FieldMap, r: Result<String, WireError>) -> bool {
        match self.serialize_spec(x) {
            Err(e) => r matches Err(WireError::Migration(f)) && f@ == e,
            Ok(m) => match printed(m) {
                Ok(t) => r matches Ok(s) && s@ == t,
                Err(e) => r matches Err(WireError::Json(f)) && f@ == e,
            },
        }
    }

    /// Reads a payload from JSON text, whatever registered version wrote
    /// it, and gives the instance of the current version.
    pub fn read_json(&self, text: &str) -> (r: Result<Instance, WireError>)
        ensures
            self.read_spec(json_parsed(text@), r),
    {
        match parse_json(text) {
            Ok(value) => match self.deserialize(&value) {
                Ok(x) => Ok(x),
                Err(e) => Err(WireError::Migration(e)),
            },
            Err(e) => Err(WireError::Json(e)),
        }
    }

    /// Writes an instance of the current version as JSON text.
    pub fn write_json(&self, instance: &Instance) -> (r: Result<String, WireError>)
        ensures
            self.write_spec(instance@, r),
    {
        match self.serialize(instance) {
            Ok(value) => match to_json(&value) {
                Ok(text) => Ok(text),
                Err(e) => Err(WireError::Json(e)),
            },
            Err(e) => Err(WireError::Migration(e)),
        }
    }
}

} // verus!
