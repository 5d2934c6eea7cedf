//! Field lists read from Rust source text: the structs that a file
//! declares, the fields of the one that is asked for, and the differences
//! between two states of it. The text is parsed by `syn`.

use vstd::prelude::*;
use quote::ToTokens;
use vstd::string::{StrSliceExecFns, StringExecFns, StringSliceAdditionalSpecFns};
use crate::diff::{changes_view, detect_changes, detected, fields_of, in_name_order, AnalysisResult};
use crate::order::{in_order, sorted_by_name, texts};
use crate::table::{put_name, Table};

verus! {

/// A struct with named fields, as a source file declares it: its name;
/// for each attribute in order, the text of its path and the text of the
/// whole of it; and for each field in order, the name and the text of the
/// type.
#[derive(Debug)]
pub struct StructDecl {
    pub name: String,
    pub attrs: Vec<(String, String)>,
    pub fields: Vec<(String, String)>,
}

/// The mathematical content of a [`StructDecl`].
pub ghost struct DeclView {
    pub name: Seq<char>,
    pub attrs: Seq<(Seq<char>, Seq<char>)>,
    pub fields: Seq<(Seq<char>, Seq<char>)>,
}

impl View for StructDecl {
    type V = DeclView;

    open spec fn view(&self) -> DeclView {
        DeclView {
            name: self.name@,
            attrs: Seq::new(self.attrs@.len(), |i: int| (self.attrs@[i].0@, self.attrs@[i].1@)),
            fields: Seq::new(self.fields@.len(), |i: int| (self.fields@[i].0@, self.fields@[i].1@)),
        }
    }
}

/// The content of an optional declaration.
pub open spec fn decl_view(d: Option<StructDecl>) -> Option<DeclView> {
    match d {
        Some(d) => Some(d@),
        None => None,
    }
}

/// The items of a parsed file, in order: for an item that is a struct with
/// named fields, its name; its attributes, each with the text that `quote`
/// writes for the tokens of its path and for the tokens of the whole of it
/// between the brackets; and its fields, each with its name and the text
/// that `quote` writes for the tokens of its type. Nothing for any other
/// item.
pub uninterp spec fn file_items(file: syn::File) -> Seq<Option<DeclView>>;

/// The items of the file that `syn` parses from a text, where it parses
/// one.
pub uninterp spec fn syn_items(content: Seq<char>) -> Option<Seq<Option<DeclView>>>;

/// `syn::parse_file`: the parsed file, or the error where the text is not
/// a Rust source file.
#[verifier::external_body]
fn syn_parse_file(content: &str) -> (r: Result<syn::File, syn::Error>)
    ensures
        match r {
            Ok(file) => syn_items(content@) == Some(file_items(file)),
            Err(_) => syn_items(content@) is None,
        },
{
    syn::parse_file(content)
}

/// The length of the field `items` of a `syn::File`: how many items the
/// parsed file holds.
#[verifier::external_body]
fn file_len(file: &syn::File) -> (n: usize)
    ensures
        n == file_items(*file).len(),
{
    file.items.len()
}

/// One item of the field `items` of a `syn::File`, where it is a
/// `syn::Item::Struct` with `syn::Fields::Named`: the name from
/// `Ident::to_string`; for each attribute the text of `Attribute::path`
/// and of its field `meta`; and for each field its name and the text of
/// its type. Each text comes from `ToTokens::to_token_stream` and
/// `TokenStream::to_string`. Any other item gives nothing.
#[verifier::external_body]
fn file_struct(file: &syn::File, i: usize) -> (r: Option<StructDecl>)
    requires
        i < file_items(*file).len(),
    ensures
        decl_view(r) == file_items(*file)[i as int],
{
    match &file.items[i] {
        syn::Item::Struct(syn::ItemStruct { attrs, ident, fields: syn::Fields::Named(named), .. }) => Some(
            StructDecl {
                name: ident.to_string(),
                attrs: attrs.iter().map(
                    |a| (a.path().to_token_stream().to_string(), a.meta.to_token_stream().to_string()),
                ).collect(),
                fields: named.named.iter().filter_map(
                    |f| Some((f.ident.as_ref()?.to_string(), f.ty.to_token_stream().to_string())),
                ).collect(),
            },
        ),
        _ => None,
    }
}

/// Why a source text gave no field list.
#[derive(Debug, PartialEq, Eq)]
pub enum AnalyzeError {
    /// The text is not a Rust source file.
    Unparsable,
    /// The file declares no struct of this name with named fields.
    StructNotFound(String),
}

/// The mathematical content of an [`AnalyzeError`].
pub ghost enum AnalyzeErrorView {
    Unparsable,
    StructNotFound(Seq<char>),
}

impl View for AnalyzeError {
    type V = AnalyzeErrorView;

    open spec fn view(&self) -> AnalyzeErrorView {
        match self {
            AnalyzeError::Unparsable => AnalyzeErrorView::Unparsable,
            AnalyzeError::StructNotFound(n) => AnalyzeErrorView::StructNotFound(n@),
        }
    }
}

/// The first `k` characters of a text without the spaces among them.
pub open spec fn without_spaces(s: Seq<char>, k: int) -> Seq<char>
    decreases k,
{
    if k <= 0 {
        Seq::empty()
    } else if s[k - 1] == ' ' {
        without_spaces(s, k - 1)
    } else {
        without_spaces(s, k - 1).push(s[k - 1])
    }
}

/// The text of a type: its tokens with the spaces between them taken out.
pub fn type_to_string(tokens: &str) -> (r: String)
    ensures
        r@ == without_spaces(tokens@, tokens@.len() as int),
{
    let n = tokens.unicode_len();
    let mut out = String::new();
    let mut i: usize = 0;
    while i < n
        invariant
            i <= n,
            n == tokens@.len(),
            out@ == without_spaces(tokens@, i as int),
        decreases n - i,
    {
        if tokens.get_char(i) != ' ' {
            let piece = tokens.substring_char(i, i + 1);
            assert(piece@ =~= seq![tokens@[i as int]]);
            let ghost before = out@;
            out.append(piece);
            assert(out@ =~= before.push(tokens@[i as int]));
        }
        i = i + 1;
    }
    out
}

/// The table of the first `k` fields of a declaration: each name with the
/// text of its type. Where a name occurs twice, the later type stands.
pub open spec fn field_map(fields: Seq<(Seq<char>, Seq<char>)>, k: int) -> Map<Seq<char>, Seq<char>>
    decreases k,
{
    if k <= 0 {
        Map::empty()
    } else {
        field_map(fields, k - 1).insert(
            fields[k - 1].0,
            without_spaces(fields[k - 1].1, fields[k - 1].1.len() as int),
        )
    }
}

/// The names of the first `k` fields of a declaration, in the order of
/// their first occurrence.
pub open spec fn field_names(fields: Seq<(Seq<char>, Seq<char>)>, k: int) -> Seq<Seq<char>>
    decreases k,
{
    if k <= 0 {
        Seq::empty()
    } else {
        put_name(field_names(fields, k - 1), fields[k - 1].0)
    }
}

/// The fields of a declaration as a table, in the order of their first
/// occurrence.
pub fn field_table(decl: &StructDecl) -> (r: Table<String>)
    ensures
        texts(r) == field_map(decl@.fields, decl@.fields.len() as int),
        r.keys() == field_names(decl@.fields, decl@.fields.len() as int),
{
    let mut out: Table<String> = Table::new();
    let mut i: usize = 0;
    assert(texts(out) =~= Map::empty());
    while i < decl.fields.len()
        invariant
            i <= decl.fields.len(),
            texts(out) == field_map(decl@.fields, i as int),
            out.keys() == field_names(decl@.fields, i as int),
        decreases decl.fields.len() - i,
    {
        let name = decl.fields[i].0.clone();
        let ty = type_to_string(decl.fields[i].1.as_str());
        let ghost before = out@;
        let ghost tv = ty@;
        out.insert(name, ty);
        assert(texts(out) =~= before.map_values(|s: String| s@).insert(decl@.fields[i as int].0, tv));
        i = i + 1;
    }
    out
}

/// Whether `i` is the position of the first struct of that name among the
/// items.
pub open spec fn first_named(items: Seq<Option<DeclView>>, name: Seq<char>, i: int) -> bool {
    &&& 0 <= i < items.len()
    &&& items[i] matches Some(d) && d.name == name
    &&& forall|j: int| 0 <= j < i ==> !((#[trigger] items[j]) matches Some(d) && d.name == name)
}

/// Whether the items hold no struct of that name.
pub open spec fn none_named(items: Seq<Option<DeclView>>, name: Seq<char>) -> bool {
    forall|j: int| 0 <= j < items.len() ==> !((#[trigger] items[j]) matches Some(d) && d.name == name)
}

/// The content of a list of optional declarations.
pub open spec fn decls_view(decls: Seq<Option<StructDecl>>) -> Seq<Option<DeclView>> {
    Seq::new(decls.len(), |i: int| decl_view(decls[i]))
}

/// The first struct of the given name among the items of a file.
pub fn find_struct<'a>(decls: &'a Vec<Option<StructDecl>>, struct_name: &str) -> (r: Option<
    &'a StructDecl,
>)
    ensures
        match r {
            Some(d) => exists|i: int|
                first_named(decls_view(decls@), struct_name@, i) && decls@[i] == Some(*d),
            None => none_named(decls_view(decls@), struct_name@),
        },
{
    let wanted = struct_name.to_owned();
    let mut i: usize = 0;
    while i < decls.len()
        invariant
            i <= decls.len(),
            wanted@ == struct_name@,
            forall|j: int|
                0 <= j < i ==> !((#[trigger] decls_view(decls@)[j]) matches Some(d) && d.name
                    == struct_name@),
        decreases decls.len() - i,
    {
        match &decls[i] {
            Some(d) => {
                if d.name == wanted {
                    assert(first_named(decls_view(decls@), struct_name@, i as int));
                    return Some(d);
                }
            },
            None => {},
        }
        i = i + 1;
    }
    None
}

/// What the fields of a struct are, given the items of its file: the table
/// of the first struct of that name, with the names in order, or that
/// there is none.
pub open spec fn fields_found(
    items: Seq<Option<DeclView>>,
    name: Seq<char>,
    r: Result<Table<String>, AnalyzeError>,
) -> bool {
    match r {
        Ok(t) => exists|i: int|
            first_named(items, name, i) && texts(t) == field_map(
                items[i]->0.fields,
                items[i]->0.fields.len() as int,
            ) && in_order(t.keys()),
        Err(e) => none_named(items, name) && e@ == AnalyzeErrorView::StructNotFound(name),
    }
}

/// The fields of a struct among the items of a file.
pub fn fields_among(decls: &Vec<Option<StructDecl>>, struct_name: &str) -> (r: Result<
    Table<String>,
    AnalyzeError,
>)
    ensures
        fields_found(decls_view(decls@), struct_name@, r),
{
    match find_struct(decls, struct_name) {
        Some(d) => Ok(sorted_by_name(&field_table(d))),
        None => Err(AnalyzeError::StructNotFound(struct_name.to_owned())),
    }
}

/// The structs with named fields that a source text declares, one entry
/// for each item of the file.
pub fn parse_structs(content: &str) -> (r: Option<Vec<Option<StructDecl>>>)
    ensures
        match r {
            Some(decls) => syn_items(content@) == Some(decls_view(decls@)),
            None => syn_items(content@) is None,
        },
{
    match syn_parse_file(content) {
        Ok(file) => {
            let n = file_len(&file);
            let mut out: Vec<Option<StructDecl>> = Vec::new();
            let mut i: usize = 0;
            while i < n
                invariant
                    i <= n,
                    n == file_items(file).len(),
                    out@.len() == i,
                    forall|j: int| 0 <= j < i ==> decl_view(#[trigger] out@[j]) == file_items(file)[j],
                decreases n - i,
            {
                out.push(file_struct(&file, i));
                i = i + 1;
            }
            assert(decls_view(out@) =~= file_items(file));
            Some(out)
        },
        Err(_) => None,
    }
}

/// The fields of a struct that a source text declares, each with the text
/// of its type.
pub fn parse_struct_fields(content: &str, struct_name: &str) -> (r: Result<
    Table<String>,
    AnalyzeError,
>)
    ensures
        match syn_items(content@) {
            Some(items) => fields_found(items, struct_name@, r),
            None => r matches Err(e) && e == AnalyzeError::Unparsable,
        },
{
    match parse_structs(content) {
        Some(decls) => fields_among(&decls, struct_name),
        None => Err(AnalyzeError::Unparsable),
    }
}

/// The differences between two states of a struct, each given as the text
/// of the file that declares it. The older text is read first.
pub fn analyze_struct_changes(struct_name: &str, old_content: &str, new_content: &str) -> (r: Result<
    AnalysisResult,
    AnalyzeError,
>)
    ensures
        match r {
            Ok(a) => a.struct_name@ == struct_name@ && exists|
                old_fields: Table<String>,
                new_fields: Table<String>,
            |
                #![trigger detected(
                    in_name_order(fields_of(old_fields)),
                    in_name_order(fields_of(new_fields)),
                )]
                {
                    &&& syn_items(old_content@) matches Some(items) && fields_found(
                        items,
                        struct_name@,
                        Ok(old_fields),
                    )
                    &&& syn_items(new_content@) matches Some(items) && fields_found(
                        items,
                        struct_name@,
                        Ok(new_fields),
                    )
                    &&& changes_view(a.changes@) == detected(
                        in_name_order(fields_of(old_fields)),
                        in_name_order(fields_of(new_fields)),
                    )
                },
            Err(e) => match syn_items(old_content@) {
                None => e == AnalyzeError::Unparsable,
                Some(items) => if none_named(items, struct_name@) {
                    e@ == AnalyzeErrorView::StructNotFound(struct_name@)
                } else {
                    match syn_items(new_content@) {
                        None => e == AnalyzeError::Unparsable,
                        Some(items) => none_named(items, struct_name@) && e@
                            == AnalyzeErrorView::StructNotFound(struct_name@),
                    }
                },
            },
        },
{
    let old_fields = match parse_struct_fields(old_content, struct_name) {
        Ok(t) => t,
        Err(e) => {
            return Err(e);
        },
    };
    let new_fields = match parse_struct_fields(new_content, struct_name) {
        Ok(t) => t,
        Err(e) => {
            return Err(e);
        },
    };
    let changes = detect_changes(&old_fields, &new_fields);
    Ok(AnalysisResult { struct_name: struct_name.to_owned(), changes })
}

} // verus!
