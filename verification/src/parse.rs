//! The grammar of declarations: types, fields, converter expressions,
//! rules and steps; and what a struct, with steps in its attributes,
//! declares of a versioned type.
//!
//! Every part of the grammar is a function from a position in the tokens
//! of a text to what stands there and the position after it, or to nothing
//! where the tokens do not fit.

use vstd::prelude::*;
use vstd::string::StrSliceExecFns;
use crate::expr::{Expr, ExprView};
use crate::model::{
    converter_view,
    fields_view,
    rules_view,
    steps_view,
    DeriveVersion,
    FieldSpec,
    FieldView,
    Kind,
    Migration,
    MigrationComment,
    MigrationField,
    MigrationView,
    RuleView,
    StepView,
    TypeDescriptor,
    Width,
};
use crate::source::{decls_view, parse_structs, syn_items, DeclView, StructDecl};
use crate::syntax::{chars_of, in_text, tokenize, tokens_of, Token, TokenKind};
use crate::text::{digit_value, digits_value, lemma_digits_grow};
use crate::value::{Datum, DatumView};

verus! {

/// Whether the token at a position is of a kind.
pub open spec fn is_at(toks: Seq<Token>, p: int, kind: TokenKind) -> bool {
    0 <= p < toks.len() && toks[p].kind == kind
}

/// The characters of a token.
pub open spec fn word(src: Seq<char>, t: Token) -> Seq<char> {
    src.subrange(t.start as int, t.end as int)
}

/// Whether the token at a position is the given word.
pub open spec fn word_at(src: Seq<char>, toks: Seq<Token>, p: int, w: Seq<char>) -> bool {
    is_at(toks, p, TokenKind::Ident) && word(src, toks[p]) == w
}

/// Whether a name is the name of one of the integer types.
pub open spec fn is_int_name(name: Seq<char>) -> bool {
    name == "i8"@ || name == "i16"@ || name == "i32"@ || name == "i64"@ || name == "i128"@ || name
        == "isize"@ || name == "u8"@ || name == "u16"@ || name == "u32"@ || name == "u64"@ || name
        == "u128"@ || name == "usize"@
}

/// Whether a name is the name of one of the floating-point types.
pub open spec fn is_real_name(name: Seq<char>) -> bool {
    name == "f32"@ || name == "f64"@
}

/// The kind of value that a type of the given name holds. A name that is
/// not known says nothing of its values.
pub open spec fn kind_of_name(name: Seq<char>) -> Kind {
    if name == "bool"@ {
        Kind::Bool
    } else if is_int_name(name) {
        Kind::Int
    } else if is_real_name(name) {
        Kind::Real
    } else if name == "String"@ || name == "str"@ {
        Kind::Text
    } else if name == "char"@ {
        Kind::Char
    } else if name == "Vec"@ || name == "VecDeque"@ || name == "HashSet"@ || name == "BTreeSet"@ {
        Kind::List
    } else if name == "HashMap"@ || name == "BTreeMap"@ {
        Kind::Record
    } else {
        Kind::Any
    }
}

/// The integer type that a name names. The types of the size of the
/// machine stand with the types of 64 bits.
pub open spec fn width_of_name(name: Seq<char>) -> Width {
    if name == "i8"@ {
        Width::I8
    } else if name == "i16"@ {
        Width::I16
    } else if name == "i32"@ {
        Width::I32
    } else if name == "i128"@ {
        Width::I128
    } else if name == "u8"@ {
        Width::U8
    } else if name == "u16"@ {
        Width::U16
    } else if name == "u32"@ {
        Width::U32
    } else if name == "u64"@ || name == "usize"@ {
        Width::U64
    } else if name == "u128"@ {
        Width::U128
    } else {
        Width::I64
    }
}

/// The descriptor of a type of the given name, without regard to its
/// arguments.
pub open spec fn plain(name: Seq<char>) -> TypeDescriptor {
    TypeDescriptor {
        kind: kind_of_name(name),
        nullable: false,
        width: width_of_name(name),
        item: None,
    }
}

/// The descriptor of a type, from the last name of its path and the
/// descriptors of its first and its last argument: an `Option` is what
/// its argument is, or null; a list has the items that its first argument
/// describes; the members of a record hold what its last argument
/// describes.
pub open spec fn describe(name: Seq<char>, args: Option<(TypeDescriptor, TypeDescriptor)>) -> TypeDescriptor {
    match args {
        Some((first, last)) => if name == "Option"@ {
            first.or_null_spec()
        } else if kind_of_name(name) == Kind::List {
            TypeDescriptor::list_spec(first)
        } else if kind_of_name(name) == Kind::Record {
            TypeDescriptor::record_spec(last)
        } else {
            plain(name)
        },
        None => plain(name),
    }
}

/// A path: names with `::` between them. Gives the last name.
pub open spec fn parse_path(toks: Seq<Token>, p: int) -> Option<(Token, int)>
    decreases toks.len() - p,
{
    if is_at(toks, p, TokenKind::Ident) {
        if is_at(toks, p + 1, TokenKind::PathSep) {
            parse_path(toks, p + 2)
        } else {
            Some((toks[p], p + 1))
        }
    } else {
        None
    }
}

/// A type: a path, then, where a `<` follows, arguments up to the `>`
/// that closes them.
pub open spec fn parse_type(src: Seq<char>, toks: Seq<Token>, p: int) -> Option<
    (TypeDescriptor, int),
>
    decreases toks.len() - p, 0nat,
{
    match parse_path(toks, p) {
        None => None,
        Some((t, q)) => if p < q && is_at(toks, q, TokenKind::Lt) {
            match parse_type_args(src, toks, q + 1) {
                Some((first, last, r)) => Some((describe(word(src, t), Some((first, last))), r)),
                None => None,
            }
        } else {
            Some((describe(word(src, t), None), q))
        },
    }
}

/// The arguments of a type: types with commas between them, then `>`.
/// Gives the descriptor of the first and that of the last.
pub open spec fn parse_type_args(src: Seq<char>, toks: Seq<Token>, p: int) -> Option<
    (TypeDescriptor, TypeDescriptor, int),
>
    decreases toks.len() - p, 1nat,
{
    if p < 0 || p >= toks.len() {
        None
    } else {
        match parse_type(src, toks, p) {
            None => None,
            Some((d, q)) => if is_at(toks, q, TokenKind::Gt) {
                Some((d, d, q + 1))
            } else if p < q && is_at(toks, q, TokenKind::Comma) {
                match parse_type_args(src, toks, q + 1) {
                    Some((_, last, r)) => Some((d, last, r)),
                    None => None,
                }
            } else {
                None
            },
        }
    }
}

/// A field: a name, a colon, a type.
pub open spec fn parse_field(src: Seq<char>, toks: Seq<Token>, p: int) -> Option<(FieldView, int)> {
    if is_at(toks, p, TokenKind::Ident) && is_at(toks, p + 1, TokenKind::Colon) {
        match parse_type(src, toks, p + 2) {
            Some((ty, q)) => Some((FieldView { name: word(src, toks[p]), ty }, q)),
            None => None,
        }
    } else {
        None
    }
}

/// The simplest expressions: a number, with a minus sign before it or
/// without; a text between double quotes; `true` and `false`; the name of
/// a field; an expression in parentheses. A number must fit in 64 bits.
pub open spec fn parse_atom(src: Seq<char>, toks: Seq<Token>, p: int) -> Option<(ExprView, int)>
    decreases toks.len() - p, 0nat,
{
    if is_at(toks, p, TokenKind::Int) {
        let v = digits_value(word(src, toks[p]));
        if v <= i64::MAX {
            Some((ExprView::Literal(DatumView::Int(v)), p + 1))
        } else {
            None
        }
    } else if is_at(toks, p, TokenKind::Minus) && is_at(toks, p + 1, TokenKind::Int) {
        let v = digits_value(word(src, toks[p + 1]));
        if v <= i64::MAX + 1 {
            Some((ExprView::Literal(DatumView::Int(-v)), p + 2))
        } else {
            None
        }
    } else if is_at(toks, p, TokenKind::Str) {
        Some((ExprView::Literal(DatumView::Text(word(src, toks[p]))), p + 1))
    } else if word_at(src, toks, p, "true"@) {
        Some((ExprView::Literal(DatumView::Bool(true)), p + 1))
    } else if word_at(src, toks, p, "false"@) {
        Some((ExprView::Literal(DatumView::Bool(false)), p + 1))
    } else if is_at(toks, p, TokenKind::Ident) {
        Some((ExprView::Field(word(src, toks[p])), p + 1))
    } else if is_at(toks, p, TokenKind::LParen) {
        match parse_expr(src, toks, p + 1) {
            Some((e, q)) => if is_at(toks, q, TokenKind::RParen) {
                Some((e, q + 1))
            } else {
                None
            },
            None => None,
        }
    } else {
        None
    }
}

/// What may follow an expression, any number of times: `.to_string()`,
/// which makes a text of it, and `as` with the name of a number type,
/// which makes a real number of it or leaves it an integer.
pub open spec fn postfix_tail(src: Seq<char>, toks: Seq<Token>, e: ExprView, p: int) -> Option<
    (ExprView, int),
>
    decreases toks.len() - p,
{
    if is_at(toks, p, TokenKind::Dot) && word_at(src, toks, p + 1, "to_string"@) && is_at(
        toks,
        p + 2,
        TokenKind::LParen,
    ) && is_at(toks, p + 3, TokenKind::RParen) {
        postfix_tail(src, toks, ExprView::ToText(Box::new(e)), p + 4)
    } else if word_at(src, toks, p, "as"@) && is_at(toks, p + 1, TokenKind::Ident) {
        let ty = word(src, toks[p + 1]);
        if is_real_name(ty) {
            postfix_tail(src, toks, ExprView::ToReal(Box::new(e)), p + 2)
        } else if is_int_name(ty) {
            postfix_tail(src, toks, e, p + 2)
        } else {
            None
        }
    } else {
        Some((e, p))
    }
}

/// A simple expression with what follows it.
pub open spec fn parse_postfix(src: Seq<char>, toks: Seq<Token>, p: int) -> Option<(ExprView, int)>
    decreases toks.len() - p, 1nat,
{
    match parse_atom(src, toks, p) {
        Some((e, q)) => postfix_tail(src, toks, e, q),
        None => None,
    }
}

/// The further terms of a sum, each after a `+`, added from the left.
pub open spec fn sum_tail(src: Seq<char>, toks: Seq<Token>, e: ExprView, p: int) -> Option<
    (ExprView, int),
>
    decreases toks.len() - p, 0nat,
{
    if is_at(toks, p, TokenKind::Plus) {
        match parse_postfix(src, toks, p + 1) {
            Some((right, q)) => if p < q <= toks.len() {
                sum_tail(src, toks, ExprView::Sum(Box::new(e), Box::new(right)), q)
            } else {
                None
            },
            None => None,
        }
    } else {
        Some((e, p))
    }
}

/// An expression: one term, or a sum of terms.
pub open spec fn parse_expr(src: Seq<char>, toks: Seq<Token>, p: int) -> Option<(ExprView, int)>
    decreases toks.len() - p, 2nat,
{
    if p < 0 || p >= toks.len() {
        None
    } else {
        match parse_postfix(src, toks, p) {
            Some((e, q)) => if p < q <= toks.len() {
                sum_tail(src, toks, e, q)
            } else {
                None
            },
            None => None,
        }
    }
}

/// The sources of a rule, after the `(` that opens them: fields, each of
/// which a comma may follow, up to the `)`.
pub open spec fn parse_sources(src: Seq<char>, toks: Seq<Token>, p: int) -> Option<
    (Seq<FieldView>, int),
>
    decreases toks.len() - p,
{
    if is_at(toks, p, TokenKind::RParen) {
        Some((Seq::empty(), p + 1))
    } else {
        match parse_field(src, toks, p) {
            Some((f, q)) => {
                let next = if is_at(toks, q, TokenKind::Comma) {
                    q + 1
                } else {
                    q
                };
                if p < next <= toks.len() {
                    match parse_sources(src, toks, next) {
                        Some((rest, r)) => Some((seq![f] + rest, r)),
                        None => None,
                    }
                } else {
                    None
                }
            },
            None => None,
        }
    }
}

/// A converter: an expression between braces.
pub open spec fn parse_body(src: Seq<char>, toks: Seq<Token>, p: int) -> Option<(ExprView, int)> {
    if is_at(toks, p, TokenKind::LBrace) {
        match parse_expr(src, toks, p + 1) {
            Some((e, q)) => if is_at(toks, q, TokenKind::RBrace) {
                Some((e, q + 1))
            } else {
                None
            },
            None => None,
        }
    } else {
        None
    }
}

/// A converter where a brace opens one, else none.
pub open spec fn parse_optional_body(src: Seq<char>, toks: Seq<Token>, p: int) -> Option<
    (Option<ExprView>, int),
> {
    if is_at(toks, p, TokenKind::LBrace) {
        match parse_body(src, toks, p) {
            Some((e, q)) => Some((Some(e), q)),
            None => None,
        }
    } else {
        Some((None, p))
    }
}

/// What follows the sources of a rule: `=>`, the target field, and the
/// converter, which must be there where `required` says so.
pub open spec fn parse_target(src: Seq<char>, toks: Seq<Token>, p: int, required: bool) -> Option<
    (FieldView, Option<ExprView>, int),
> {
    if is_at(toks, p, TokenKind::FatArrow) {
        match parse_field(src, toks, p + 1) {
            Some((target, q)) => if required {
                match parse_body(src, toks, q) {
                    Some((e, r)) => Some((target, Some(e), r)),
                    None => None,
                }
            } else {
                match parse_optional_body(src, toks, q) {
                    Some((c, r)) => Some((target, c, r)),
                    None => None,
                }
            },
            None => None,
        }
    } else {
        None
    }
}

/// A rule that begins with `+`, after the `+`: a copy from several
/// sources, `(a: T, b: U) => c: V { .. }`; a copy from one,
/// `a: T => b: U` or `a => b: T`, with a converter or without; or an
/// added field, `a: T`, with an initializer or without.
pub open spec fn parse_plus_rule(src: Seq<char>, toks: Seq<Token>, p: int) -> Option<(RuleView, int)> {
    if is_at(toks, p, TokenKind::LParen) {
        match parse_sources(src, toks, p + 1) {
            Some((source, q)) => match parse_target(src, toks, q, true) {
                Some((target, converter, r)) => Some(
                    (RuleView::Copy { source, target, converter }, r),
                ),
                None => None,
            },
            None => None,
        }
    } else if is_at(toks, p, TokenKind::Ident) {
        let key = word(src, toks[p]);
        if is_at(toks, p + 1, TokenKind::Colon) {
            match parse_type(src, toks, p + 2) {
                Some((ty, q)) => if is_at(toks, q, TokenKind::FatArrow) {
                    match parse_target(src, toks, q, false) {
                        Some((target, converter, r)) => Some(
                            (
                                RuleView::Copy {
                                    source: seq![FieldView { name: key, ty }],
                                    target,
                                    converter,
                                },
                                r,
                            ),
                        ),
                        None => None,
                    }
                } else {
                    match parse_optional_body(src, toks, q) {
                        Some((converter, r)) => Some(
                            (RuleView::Add { value: FieldView { name: key, ty }, converter }, r),
                        ),
                        None => None,
                    }
                },
                None => None,
            }
        } else {
            match parse_target(src, toks, p + 1, false) {
                Some((target, converter, r)) => Some(
                    (
                        RuleView::Copy {
                            source: seq![FieldView { name: key, ty: target.ty }],
                            target,
                            converter,
                        },
                        r,
                    ),
                ),
                None => None,
            }
        }
    } else {
        None
    }
}

/// A rename that begins with the name of its source, `a`, after that
/// name and the colon and type that follow it: `=> b: U`, a new name with
/// a new type, or `=> U`, a new type under the old name; with a converter
/// or without.
pub open spec fn parse_retyped(
    src: Seq<char>,
    toks: Seq<Token>,
    key: Seq<char>,
    ty: TypeDescriptor,
    p: int,
) -> Option<(RuleView, int)> {
    if is_at(toks, p, TokenKind::FatArrow) {
        if is_at(toks, p + 2, TokenKind::Colon) {
            match parse_target(src, toks, p, false) {
                Some((target, converter, r)) => Some(
                    (
                        RuleView::Rename {
                            source: seq![FieldView { name: key, ty }],
                            target,
                            converter,
                        },
                        r,
                    ),
                ),
                None => None,
            }
        } else {
            match parse_type(src, toks, p + 1) {
                Some((target_ty, q)) => match parse_optional_body(src, toks, q) {
                    Some((converter, r)) => Some(
                        (
                            RuleView::Rename {
                                source: seq![FieldView { name: key, ty }],
                                target: FieldView { name: key, ty: target_ty },
                                converter,
                            },
                            r,
                        ),
                    ),
                    None => None,
                },
                None => None,
            }
        }
    } else {
        None
    }
}

/// A rule: `+ ..`, an added or copied field; `- a: T`, a removed field;
/// `(a: T, b: U) => c: V { .. }`, a rename from several sources;
/// `a: T => b: U`, `a: T => U` or `a => b: T`, a rename from one, with a
/// converter or without.
#[verifier::opaque]
pub open spec fn parse_rule(src: Seq<char>, toks: Seq<Token>, p: int) -> Option<(RuleView, int)> {
    if is_at(toks, p, TokenKind::Plus) {
        parse_plus_rule(src, toks, p + 1)
    } else if is_at(toks, p, TokenKind::Minus) {
        match parse_field(src, toks, p + 1) {
            Some((value, q)) => Some((RuleView::Remove { value }, q)),
            None => None,
        }
    } else if is_at(toks, p, TokenKind::LParen) {
        match parse_sources(src, toks, p + 1) {
            Some((source, q)) => match parse_target(src, toks, q, true) {
                Some((target, converter, r)) => Some(
                    (RuleView::Rename { source, target, converter }, r),
                ),
                None => None,
            },
            None => None,
        }
    } else if is_at(toks, p, TokenKind::Ident) {
        let key = word(src, toks[p]);
        if is_at(toks, p + 1, TokenKind::Colon) {
            match parse_type(src, toks, p + 2) {
                Some((ty, q)) => parse_retyped(src, toks, key, ty, q),
                None => None,
            }
        } else {
            match parse_target(src, toks, p + 1, false) {
                Some((target, converter, r)) => Some(
                    (
                        RuleView::Rename {
                            source: seq![FieldView { name: key, ty: target.ty }],
                            target,
                            converter,
                        },
                        r,
                    ),
                ),
                None => None,
            }
        }
    } else {
        None
    }
}

/// The rules of a step, after the `{` that opens them: rules, each of
/// which a comma may follow, up to the `}`.
pub open spec fn parse_rules(src: Seq<char>, toks: Seq<Token>, p: int) -> Option<
    (Seq<RuleView>, int),
>
    decreases toks.len() - p,
{
    if is_at(toks, p, TokenKind::RBrace) {
        Some((Seq::empty(), p + 1))
    } else {
        match parse_rule(src, toks, p) {
            Some((rule, q)) => {
                let next = if is_at(toks, q, TokenKind::Comma) {
                    q + 1
                } else {
                    q
                };
                if p < next <= toks.len() {
                    match parse_rules(src, toks, next) {
                        Some((rest, r)) => Some((seq![rule] + rest, r)),
                        None => None,
                    }
                } else {
                    None
                }
            },
            None => None,
        }
    }
}

/// A step: the older version and the newer one, each between double
/// quotes, with `=>` between them; then, between braces, the rules, or
/// nothing where nothing changed.
pub open spec fn parse_step(src: Seq<char>, toks: Seq<Token>, p: int) -> Option<(StepView, int)> {
    if is_at(toks, p, TokenKind::Str) && is_at(toks, p + 1, TokenKind::FatArrow) && is_at(
        toks,
        p + 2,
        TokenKind::Str,
    ) {
        let from = word(src, toks[p]);
        let to = word(src, toks[p + 2]);
        if is_at(toks, p + 3, TokenKind::LBrace) {
            match parse_rules(src, toks, p + 4) {
                Some((changes, q)) => Some((StepView { from, to, changes }, q)),
                None => None,
            }
        } else {
            Some((StepView { from, to, changes: Seq::empty() }, p + 3))
        }
    } else {
        None
    }
}

/// The step that an attribute named `migration` holds: after the name,
/// one step between parentheses, and nothing else.
pub open spec fn attr_step(text: Seq<char>) -> Option<StepView> {
    match tokens_of(text) {
        Some(toks) => if word_at(text, toks, 0, "migration"@) && is_at(toks, 1, TokenKind::LParen) {
            match parse_step(text, toks, 2) {
                Some((step, q)) => if is_at(toks, q, TokenKind::RParen) && q + 1 == toks.len() {
                    Some(step)
                } else {
                    None
                },
                None => None,
            }
        } else {
            None
        },
        None => None,
    }
}

/// The steps among the first `k` attributes of a declaration, in the order
/// of the attributes. Each attribute is given by the text of its path and
/// the text of the whole of it. One whose path is `migration` holds a
/// step; the others are passed over.
pub open spec fn attr_steps(attrs: Seq<(Seq<char>, Seq<char>)>, k: int) -> Option<Seq<StepView>>
    decreases k,
{
    if k <= 0 {
        Some(Seq::empty())
    } else {
        match attr_steps(attrs, k - 1) {
            Some(steps) => if attrs[k - 1].0 == "migration"@ {
                match attr_step(attrs[k - 1].1) {
                    Some(step) => Some(steps.push(step)),
                    None => None,
                }
            } else {
                Some(steps)
            },
            None => None,
        }
    }
}

/// What the text of a type says of a field. A type that the grammar of
/// types does not read admits every value.
pub open spec fn type_of_text(text: Seq<char>) -> TypeDescriptor {
    let unread = TypeDescriptor::of_spec(Kind::Any);
    match tokens_of(text) {
        Some(toks) => match parse_type(text, toks, 0) {
            Some((d, q)) => if q == toks.len() {
                d
            } else {
                unread
            },
            None => unread,
        },
        None => unread,
    }
}

/// The fields of a declaration, each with what its type says of it.
pub open spec fn members_of(fields: Seq<(Seq<char>, Seq<char>)>) -> Seq<FieldView> {
    Seq::new(
        fields.len(),
        |i: int| FieldView { name: fields[i].0, ty: type_of_text(fields[i].1) },
    )
}

/// What a struct declares of a versioned type: the steps in its
/// attributes, its name and its fields.
pub open spec fn migration_from(d: DeclView) -> Option<MigrationView> {
    match attr_steps(d.attrs, d.attrs.len() as int) {
        Some(versions) => Some(
            MigrationView { versions, struct_name: d.name, fields: members_of(d.fields) },
        ),
        None => None,
    }
}

/// What the items of a file declare of a versioned type, where the file
/// holds one item and that item is a struct with named fields.
pub open spec fn migration_among(items: Seq<Option<DeclView>>) -> Option<MigrationView> {
    if items.len() == 1 && items[0] is Some {
        migration_from(items[0]->0)
    } else {
        None
    }
}

/// The declaration that a text spells.
pub open spec fn migration_of(s: Seq<char>) -> Option<MigrationView> {
    match syn_items(s) {
        Some(items) => migration_among(items),
        None => None,
    }
}

/// A text with its characters and its tokens.
struct Source<'a> {
    text: &'a str,
    chars: Vec<char>,
    tokens: Vec<Token>,
}

impl<'a> Source<'a> {
    /// The tokens lie in the text.
    #[verifier::type_invariant]
    spec fn wf(&self) -> bool {
        in_text(self.tokens@, self.text@.len() as int) && self.chars@ == self.text@
    }

    /// The tokens of a text, where it has tokens.
    fn new(text: &'a str) -> (r: Option<Source<'a>>)
        ensures
            match r {
                Some(s) => s.text@ == text@ && tokens_of(text@) == Some(s.tokens@),
                None => tokens_of(text@) is None,
            },
    {
        let chars = chars_of(text);
        match tokenize(&chars) {
            Some(tokens) => Some(Source { text, chars, tokens }),
            None => None,
        }
    }

    /// Whether the token at a position is of a kind.
    fn at(&self, p: usize, kind: TokenKind) -> (r: bool)
        ensures
            r == is_at(self.tokens@, p as int, kind),
            r ==> p < usize::MAX,
    {
        p < self.tokens.len() && self.tokens[p].kind == kind
    }

    /// The characters of a token.
    fn word_of(&self, t: Token) -> (r: String)
        requires
            t.start <= t.end <= self.text@.len(),
        ensures
            r@ == word(self.text@, t),
    {
        self.text.substring_char(t.start, t.end).to_owned()
    }

    /// The characters of the token at a position.
    fn word(&self, p: usize) -> (r: String)
        requires
            p < self.tokens@.len(),
        ensures
            r@ == word(self.text@, self.tokens@[p as int]),
    {
        proof {
            use_type_invariant(self);
        }
        self.word_of(self.tokens[p])
    }

    /// Whether the token at a position is the given word.
    fn word_at(&self, p: usize, w: &str) -> (r: bool)
        ensures
            r == word_at(self.text@, self.tokens@, p as int, w@),
            r ==> p < usize::MAX,
    {
        if self.at(p, TokenKind::Ident) {
            self.word(p) == w.to_owned()
        } else {
            false
        }
    }
}

fn same(a: &String, b: &str) -> (r: bool)
    ensures
        r == (a@ == b@),
{
    *a == b.to_owned()
}

fn int_name(name: &String) -> (r: bool)
    ensures
        r == is_int_name(name@),
{
    same(name, "i8") || same(name, "i16") || same(name, "i32") || same(name, "i64") || same(
        name,
        "i128",
    ) || same(name, "isize") || same(name, "u8") || same(name, "u16") || same(name, "u32")
        || same(name, "u64") || same(name, "u128") || same(name, "usize")
}

fn real_name(name: &String) -> (r: bool)
    ensures
        r == is_real_name(name@),
{
    same(name, "f32") || same(name, "f64")
}

fn name_kind(name: &String) -> (r: Kind)
    ensures
        r == kind_of_name(name@),
{
    if same(name, "bool") {
        Kind::Bool
    } else if int_name(name) {
        Kind::Int
    } else if real_name(name) {
        Kind::Real
    } else if same(name, "String") || same(name, "str") {
        Kind::Text
    } else if same(name, "char") {
        Kind::Char
    } else if same(name, "Vec") || same(name, "VecDeque") || same(name, "HashSet") || same(
        name,
        "BTreeSet",
    ) {
        Kind::List
    } else if same(name, "HashMap") || same(name, "BTreeMap") {
        Kind::Record
    } else {
        Kind::Any
    }
}

fn name_width(name: &String) -> (r: Width)
    ensures
        r == width_of_name(name@),
{
    if same(name, "i8") {
        Width::I8
    } else if same(name, "i16") {
        Width::I16
    } else if same(name, "i32") {
        Width::I32
    } else if same(name, "i128") {
        Width::I128
    } else if same(name, "u8") {
        Width::U8
    } else if same(name, "u16") {
        Width::U16
    } else if same(name, "u32") {
        Width::U32
    } else if same(name, "u64") || same(name, "usize") {
        Width::U64
    } else if same(name, "u128") {
        Width::U128
    } else {
        Width::I64
    }
}

fn plainly(name: &String) -> (r: TypeDescriptor)
    ensures
        r == plain(name@),
{
    TypeDescriptor {
        kind: name_kind(name),
        nullable: false,
        width: name_width(name),
        item: None,
    }
}

fn described(name: &String, args: Option<(TypeDescriptor, TypeDescriptor)>) -> (r: TypeDescriptor)
    ensures
        r == describe(name@, args),
{
    match args {
        Some((first, last)) => {
            if same(name, "Option") {
                first.or_null()
            } else {
                match name_kind(name) {
                    Kind::List => TypeDescriptor::list(first),
                    Kind::Record => TypeDescriptor::record(last),
                    _ => plainly(name),
                }
            }
        },
        None => plainly(name),
    }
}

impl<'a> Source<'a> {
    fn path(&self, p: usize) -> (r: Option<(Token, usize)>)
        ensures
            match r {
                Some((t, q)) => parse_path(self.tokens@, p as int) == Some((t, q as int)) && p < q
                    <= self.tokens@.len() && t.start <= t.end <= self.text@.len(),
                None => parse_path(self.tokens@, p as int) is None,
            },
    {
        proof {
            use_type_invariant(self);
        }
        let mut i = p;
        loop
            invariant
                self.wf(),
                p <= i,
                parse_path(self.tokens@, p as int) == parse_path(self.tokens@, i as int),
            decreases self.tokens@.len() - i,
        {
            if self.at(i, TokenKind::Ident) {
                if self.at(i + 1, TokenKind::PathSep) {
                    i = i + 2;
                } else {
                    return Some((self.tokens[i], i + 1));
                }
            } else {
                return None;
            }
        }
    }

    fn ty(&self, p: usize) -> (r: Option<(TypeDescriptor, usize)>)
        ensures
            match r {
                Some((d, q)) => parse_type(self.text@, self.tokens@, p as int) == Some(
                    (d, q as int),
                ) && p < q <= self.tokens@.len(),
                None => parse_type(self.text@, self.tokens@, p as int) is None,
            },
        decreases self.tokens@.len() - p, 0nat,
    {
        match self.path(p) {
            None => None,
            Some((t, q)) => {
                let name = self.word_of(t);
                if self.at(q, TokenKind::Lt) {
                    match self.ty_args(q + 1) {
                        Some((first, last, r)) => Some(
                            (described(&name, Some((first, last))), r),
                        ),
                        None => None,
                    }
                } else {
                    Some((described(&name, None), q))
                }
            },
        }
    }

    fn ty_args(&self, p: usize) -> (r: Option<(TypeDescriptor, TypeDescriptor, usize)>)
        ensures
            match r {
                Some((d, e, q)) => parse_type_args(self.text@, self.tokens@, p as int) == Some(
                    (d, e, q as int),
                ) && p < q <= self.tokens@.len(),
                None => parse_type_args(self.text@, self.tokens@, p as int) is None,
            },
        decreases self.tokens@.len() - p, 1nat,
    {
        if p >= self.tokens.len() {
            return None;
        }
        match self.ty(p) {
            None => None,
            Some((d, q)) => {
                if self.at(q, TokenKind::Gt) {
                    Some((d.duplicate(), d, q + 1))
                } else if self.at(q, TokenKind::Comma) {
                    match self.ty_args(q + 1) {
                        Some((_, last, r)) => Some((d, last, r)),
                        None => None,
                    }
                } else {
                    None
                }
            },
        }
    }

    fn field(&self, p: usize) -> (r: Option<(FieldSpec, usize)>)
        ensures
            match r {
                Some((f, q)) => parse_field(self.text@, self.tokens@, p as int) == Some(
                    (f@, q as int),
                ) && p < q <= self.tokens@.len(),
                None => parse_field(self.text@, self.tokens@, p as int) is None,
            },
    {
        if self.at(p, TokenKind::Ident) && self.at(p + 1, TokenKind::Colon) {
            match self.ty(p + 2) {
                Some((ty, q)) => Some((FieldSpec { name: self.word(p), ty }, q)),
                None => None,
            }
        } else {
            None
        }
    }
}

impl<'a> Source<'a> {
    fn number(&self, t: Token) -> (r: Option<u64>)
        requires
            t.start <= t.end <= self.text@.len(),
        ensures
            match r {
                Some(v) => v == digits_value(word(self.text@, t)),
                None => digits_value(word(self.text@, t)) > u64::MAX,
            },
    {
        proof {
            use_type_invariant(self);
        }
        let ghost src = self.text@;
        let mut acc: u64 = 0;
        let mut i = t.start;
        assert(src.subrange(t.start as int, i as int) =~= Seq::<char>::empty());
        while i < t.end
            invariant
                self.chars@ == src,
                src == self.text@,
                t.start <= i <= t.end <= src.len(),
                acc == digits_value(src.subrange(t.start as int, i as int)),
            decreases t.end - i,
        {
            let d = digit_value(self.chars[i]);
            proof {
                assert(src.subrange(t.start as int, i + 1).drop_last() =~= src.subrange(
                    t.start as int,
                    i as int,
                ));
                lemma_digits_grow(src, t.start as int, i + 1, t.end as int);
            }
            if acc > (u64::MAX - d) / 10 {
                return None;
            }
            acc = acc * 10 + d;
            i = i + 1;
        }
        Some(acc)
    }

    fn atom(&self, p: usize) -> (r: Option<(Expr, usize)>)
        ensures
            match r {
                Some((e, q)) => parse_atom(self.text@, self.tokens@, p as int) == Some(
                    (e@, q as int),
                ) && p < q <= self.tokens@.len(),
                None => parse_atom(self.text@, self.tokens@, p as int) is None,
            },
        decreases self.tokens@.len() - p, 0nat,
    {
        proof {
            use_type_invariant(self);
        }
        if self.at(p, TokenKind::Int) {
            match self.number(self.tokens[p]) {
                Some(v) => {
                    if v <= 0x7fff_ffff_ffff_ffff {
                        Some((Expr::Literal(Datum::Int(v as i64)), p + 1))
                    } else {
                        None
                    }
                },
                None => None,
            }
        } else if self.at(p, TokenKind::Minus) && self.at(p + 1, TokenKind::Int) {
            match self.number(self.tokens[p + 1]) {
                Some(v) => {
                    if v <= 0x7fff_ffff_ffff_ffff {
                        Some((Expr::Literal(Datum::Int(-(v as i64))), p + 2))
                    } else if v == 0x8000_0000_0000_0000 {
                        Some((Expr::Literal(Datum::Int(i64::MIN)), p + 2))
                    } else {
                        None
                    }
                },
                None => None,
            }
        } else if self.at(p, TokenKind::Str) {
            Some((Expr::Literal(Datum::Text(self.word(p))), p + 1))
        } else if self.word_at(p, "true") {
            Some((Expr::Literal(Datum::Bool(true)), p + 1))
        } else if self.word_at(p, "false") {
            Some((Expr::Literal(Datum::Bool(false)), p + 1))
        } else if self.at(p, TokenKind::Ident) {
            Some((Expr::Field(self.word(p)), p + 1))
        } else if self.at(p, TokenKind::LParen) {
            match self.expr(p + 1) {
                Some((e, q)) => {
                    if self.at(q, TokenKind::RParen) {
                        Some((e, q + 1))
                    } else {
                        None
                    }
                },
                None => None,
            }
        } else {
            None
        }
    }

    fn tail(&self, e: Expr, p: usize) -> (r: Option<(Expr, usize)>)
        requires
            p <= self.tokens@.len(),
        ensures
            match r {
                Some((x, q)) => postfix_tail(self.text@, self.tokens@, e@, p as int) == Some(
                    (x@, q as int),
                ) && p <= q <= self.tokens@.len(),
                None => postfix_tail(self.text@, self.tokens@, e@, p as int) is None,
            },
    {
        let ghost start = e@;
        let mut cur = e;
        let mut i = p;
        loop
            invariant
                start == e@,
                p <= i <= self.tokens@.len(),
                postfix_tail(self.text@, self.tokens@, start, p as int) == postfix_tail(
                    self.text@,
                    self.tokens@,
                    cur@,
                    i as int,
                ),
            decreases self.tokens@.len() - i,
        {
            if self.at(i, TokenKind::Dot) && self.word_at(i + 1, "to_string") && self.at(
                i + 2,
                TokenKind::LParen,
            ) && self.at(i + 3, TokenKind::RParen) {
                cur = Expr::ToText(Box::new(cur));
                i = i + 4;
            } else if self.word_at(i, "as") && self.at(i + 1, TokenKind::Ident) {
                let ty = self.word(i + 1);
                if real_name(&ty) {
                    cur = Expr::ToReal(Box::new(cur));
                    i = i + 2;
                } else if int_name(&ty) {
                    i = i + 2;
                } else {
                    return None;
                }
            } else {
                return Some((cur, i));
            }
        }
    }

    fn postfix(&self, p: usize) -> (r: Option<(Expr, usize)>)
        ensures
            match r {
                Some((e, q)) => parse_postfix(self.text@, self.tokens@, p as int) == Some(
                    (e@, q as int),
                ) && p < q <= self.tokens@.len(),
                None => parse_postfix(self.text@, self.tokens@, p as int) is None,
            },
        decreases self.tokens@.len() - p, 1nat,
    {
        match self.atom(p) {
            Some((e, q)) => self.tail(e, q),
            None => None,
        }
    }

    fn expr(&self, p: usize) -> (r: Option<(Expr, usize)>)
        ensures
            match r {
                Some((e, q)) => parse_expr(self.text@, self.tokens@, p as int) == Some(
                    (e@, q as int),
                ) && p < q <= self.tokens@.len(),
                None => parse_expr(self.text@, self.tokens@, p as int) is None,
            },
        decreases self.tokens@.len() - p, 2nat,
    {
        if p >= self.tokens.len() {
            return None;
        }
        let (first, start) = match self.postfix(p) {
            Some(found) => found,
            None => {
                return None;
            },
        };
        let mut e = first;
        let mut i = start;
        let ghost head = e@;
        loop
            invariant
                p < start <= i <= self.tokens@.len(),
                parse_expr(self.text@, self.tokens@, p as int) == sum_tail(
                    self.text@,
                    self.tokens@,
                    head,
                    start as int,
                ),
                sum_tail(self.text@, self.tokens@, head, start as int) == sum_tail(
                    self.text@,
                    self.tokens@,
                    e@,
                    i as int,
                ),
            decreases self.tokens@.len() - i,
        {
            if self.at(i, TokenKind::Plus) {
                match self.postfix(i + 1) {
                    Some((right, q)) => {
                        e = Expr::Sum(Box::new(e), Box::new(right));
                        i = q;
                    },
                    None => {
                        return None;
                    },
                }
            } else {
                return Some((e, i));
            }
        }
    }
}

/// The declaration does not follow the grammar.
#[derive(Clone, Copy, Debug, PartialEq, Eq, Structural)]
pub struct SyntaxError;

impl<'a> Source<'a> {
    fn sources(&self, p: usize) -> (r: Option<(Vec<FieldSpec>, usize)>)
        ensures
            match r {
                Some((fields, q)) => parse_sources(self.text@, self.tokens@, p as int) == Some(
                    (fields_view(fields@), q as int),
                ) && p < q <= self.tokens@.len(),
                None => parse_sources(self.text@, self.tokens@, p as int) is None,
            },
    {
        let mut out: Vec<FieldSpec> = Vec::new();
        let mut i = p;
        assert(fields_view(out@) =~= Seq::empty());
        loop
            invariant
                p <= i,
                parse_sources(self.text@, self.tokens@, p as int) == match parse_sources(
                    self.text@,
                    self.tokens@,
                    i as int,
                ) {
                    Some((rest, r)) => Some((fields_view(out@) + rest, r)),
                    None => None,
                },
            decreases self.tokens@.len() - i,
        {
            if self.at(i, TokenKind::RParen) {
                assert(fields_view(out@) + Seq::<FieldView>::empty() =~= fields_view(out@));
                return Some((out, i + 1));
            }
            match self.field(i) {
                Some((f, q)) => {
                    let ghost before = fields_view(out@);
                    let ghost fv = f@;
                    out.push(f);
                    let next = if self.at(q, TokenKind::Comma) {
                        q + 1
                    } else {
                        q
                    };
                    proof {
                        assert(fields_view(out@) =~= before.push(fv));
                        match parse_sources(self.text@, self.tokens@, next as int) {
                            Some((rest, r)) => {
                                assert(before + (seq![fv] + rest) =~= fields_view(out@) + rest);
                            },
                            None => {},
                        }
                    }
                    i = next;
                },
                None => {
                    return None;
                },
            }
        }
    }

    fn body(&self, p: usize) -> (r: Option<(Expr, usize)>)
        ensures
            match r {
                Some((e, q)) => parse_body(self.text@, self.tokens@, p as int) == Some(
                    (e@, q as int),
                ) && p < q <= self.tokens@.len(),
                None => parse_body(self.text@, self.tokens@, p as int) is None,
            },
    {
        if self.at(p, TokenKind::LBrace) {
            match self.expr(p + 1) {
                Some((e, q)) => {
                    if self.at(q, TokenKind::RBrace) {
                        Some((e, q + 1))
                    } else {
                        None
                    }
                },
                None => None,
            }
        } else {
            None
        }
    }

    fn optional_body(&self, p: usize) -> (r: Option<(Option<Expr>, usize)>)
        requires
            p <= self.tokens@.len(),
        ensures
            match r {
                Some((c, q)) => parse_optional_body(self.text@, self.tokens@, p as int) == Some(
                    (converter_view(c), q as int),
                ) && p <= q <= self.tokens@.len(),
                None => parse_optional_body(self.text@, self.tokens@, p as int) is None,
            },
    {
        if self.at(p, TokenKind::LBrace) {
            match self.body(p) {
                Some((e, q)) => Some((Some(e), q)),
                None => None,
            }
        } else {
            Some((None, p))
        }
    }

    fn target(&self, p: usize, required: bool) -> (r: Option<(FieldSpec, Option<Expr>, usize)>)
        ensures
            match r {
                Some((f, c, q)) => parse_target(self.text@, self.tokens@, p as int, required)
                    == Some((f@, converter_view(c), q as int)) && p < q <= self.tokens@.len(),
                None => parse_target(self.text@, self.tokens@, p as int, required) is None,
            },
    {
        if self.at(p, TokenKind::FatArrow) {
            match self.field(p + 1) {
                Some((target, q)) => {
                    if required {
                        match self.body(q) {
                            Some((e, r)) => Some((target, Some(e), r)),
                            None => None,
                        }
                    } else {
                        match self.optional_body(q) {
                            Some((c, r)) => Some((target, c, r)),
                            None => None,
                        }
                    }
                },
                None => None,
            }
        } else {
            None
        }
    }

    fn one_source(&self, p: usize, ty: TypeDescriptor) -> (r: Vec<FieldSpec>)
        requires
            p < self.tokens@.len(),
        ensures
            fields_view(r@) == seq![
                FieldView { name: word(self.text@, self.tokens@[p as int]), ty },
            ],
    {
        let mut source: Vec<FieldSpec> = Vec::new();
        source.push(FieldSpec { name: self.word(p), ty });
        assert(fields_view(source@) =~= seq![
            FieldView { name: word(self.text@, self.tokens@[p as int]), ty },
        ]);
        source
    }

    fn plus_rule(&self, p: usize) -> (r: Option<(MigrationField, usize)>)
        ensures
            match r {
                Some((rule, q)) => parse_plus_rule(self.text@, self.tokens@, p as int) == Some(
                    (rule@, q as int),
                ) && p < q <= self.tokens@.len(),
                None => parse_plus_rule(self.text@, self.tokens@, p as int) is None,
            },
    {
        if self.at(p, TokenKind::LParen) {
            match self.sources(p + 1) {
                Some((source, q)) => match self.target(q, true) {
                    Some((target, converter, r)) => Some(
                        (MigrationField::Copy { source, target, converter }, r),
                    ),
                    None => None,
                },
                None => None,
            }
        } else if self.at(p, TokenKind::Ident) {
            if self.at(p + 1, TokenKind::Colon) {
                match self.ty(p + 2) {
                    Some((ty, q)) => {
                        if self.at(q, TokenKind::FatArrow) {
                            match self.target(q, false) {
                                Some((target, converter, r)) => Some(
                                    (
                                        MigrationField::Copy {
                                            source: self.one_source(p, ty),
                                            target,
                                            converter,
                                        },
                                        r,
                                    ),
                                ),
                                None => None,
                            }
                        } else {
                            match self.optional_body(q) {
                                Some((converter, r)) => Some(
                                    (
                                        MigrationField::Add {
                                            value: FieldSpec { name: self.word(p), ty },
                                            converter,
                                        },
                                        r,
                                    ),
                                ),
                                None => None,
                            }
                        }
                    },
                    None => None,
                }
            } else {
                match self.target(p + 1, false) {
                    Some((target, converter, r)) => Some(
                        (
                            MigrationField::Copy {
                                source: self.one_source(p, target.ty.duplicate()),
                                target,
                                converter,
                            },
                            r,
                        ),
                    ),
                    None => None,
                }
            }
        } else {
            None
        }
    }

    fn retyped(&self, key: usize, ty: TypeDescriptor, p: usize) -> (r: Option<
        (MigrationField, usize),
    >)
        requires
            key < p,
            key < self.tokens@.len(),
        ensures
            match r {
                Some((rule, q)) => parse_retyped(
                    self.text@,
                    self.tokens@,
                    word(self.text@, self.tokens@[key as int]),
                    ty,
                    p as int,
                ) == Some((rule@, q as int)) && p < q <= self.tokens@.len(),
                None => parse_retyped(
                    self.text@,
                    self.tokens@,
                    word(self.text@, self.tokens@[key as int]),
                    ty,
                    p as int,
                ) is None,
            },
    {
        if self.at(p, TokenKind::FatArrow) {
            if p + 1 < self.tokens.len() && self.at(p + 2, TokenKind::Colon) {
                match self.target(p, false) {
                    Some((target, converter, r)) => Some(
                        (
                            MigrationField::Rename {
                                source: self.one_source(key, ty),
                                target,
                                converter,
                            },
                            r,
                        ),
                    ),
                    None => None,
                }
            } else {
                match self.ty(p + 1) {
                    Some((target_ty, q)) => match self.optional_body(q) {
                        Some((converter, r)) => Some(
                            (
                                MigrationField::Rename {
                                    source: self.one_source(key, ty),
                                    target: FieldSpec { name: self.word(key), ty: target_ty },
                                    converter,
                                },
                                r,
                            ),
                        ),
                        None => None,
                    },
                    None => None,
                }
            }
        } else {
            None
        }
    }

    fn rule(&self, p: usize) -> (r: Option<(MigrationField, usize)>)
        ensures
            match r {
                Some((rule, q)) => parse_rule(self.text@, self.tokens@, p as int) == Some(
                    (rule@, q as int),
                ) && p < q <= self.tokens@.len(),
                None => parse_rule(self.text@, self.tokens@, p as int) is None,
            },
    {
        proof {
            reveal(parse_rule);
        }
        if self.at(p, TokenKind::Plus) {
            self.plus_rule(p + 1)
        } else if self.at(p, TokenKind::Minus) {
            match self.field(p + 1) {
                Some((value, q)) => Some((MigrationField::Remove { value }, q)),
                None => None,
            }
        } else if self.at(p, TokenKind::LParen) {
            match self.sources(p + 1) {
                Some((source, q)) => match self.target(q, true) {
                    Some((target, converter, r)) => Some(
                        (MigrationField::Rename { source, target, converter }, r),
                    ),
                    None => None,
                },
                None => None,
            }
        } else if self.at(p, TokenKind::Ident) {
            if self.at(p + 1, TokenKind::Colon) {
                match self.ty(p + 2) {
                    Some((ty, q)) => self.retyped(p, ty, q),
                    None => None,
                }
            } else {
                match self.target(p + 1, false) {
                    Some((target, converter, r)) => Some(
                        (
                            MigrationField::Rename {
                                source: self.one_source(p, target.ty.duplicate()),
                                target,
                                converter,
                            },
                            r,
                        ),
                    ),
                    None => None,
                }
            }
        } else {
            None
        }
    }

    fn rules(&self, p: usize) -> (r: Option<(Vec<MigrationField>, usize)>)
        ensures
            match r {
                Some((rules, q)) => parse_rules(self.text@, self.tokens@, p as int) == Some(
                    (rules_view(rules@), q as int),
                ) && p < q <= self.tokens@.len(),
                None => parse_rules(self.text@, self.tokens@, p as int) is None,
            },
    {
        let mut out: Vec<MigrationField> = Vec::new();
        let mut i = p;
        assert(rules_view(out@) =~= Seq::empty());
        loop
            invariant
                p <= i,
                parse_rules(self.text@, self.tokens@, p as int) == match parse_rules(
                    self.text@,
                    self.tokens@,
                    i as int,
                ) {
                    Some((rest, r)) => Some((rules_view(out@) + rest, r)),
                    None => None,
                },
            decreases self.tokens@.len() - i,
        {
            if self.at(i, TokenKind::RBrace) {
                assert(rules_view(out@) + Seq::<RuleView>::empty() =~= rules_view(out@));
                return Some((out, i + 1));
            }
            match self.rule(i) {
                Some((rule, q)) => {
                    let ghost before = rules_view(out@);
                    let ghost rv = rule@;
                    out.push(rule);
                    let next = if self.at(q, TokenKind::Comma) {
                        q + 1
                    } else {
                        q
                    };
                    proof {
                        assert(rules_view(out@) =~= before.push(rv));
                        match parse_rules(self.text@, self.tokens@, next as int) {
                            Some((rest, r)) => {
                                assert(before + (seq![rv] + rest) =~= rules_view(out@) + rest);
                            },
                            None => {},
                        }
                    }
                    i = next;
                },
                None => {
                    return None;
                },
            }
        }
    }

    fn step(&self, p: usize) -> (r: Option<(MigrationComment, usize)>)
        ensures
            match r {
                Some((step, q)) => parse_step(self.text@, self.tokens@, p as int) == Some(
                    (step@, q as int),
                ) && p < q <= self.tokens@.len(),
                None => parse_step(self.text@, self.tokens@, p as int) is None,
            },
    {
        if self.at(p, TokenKind::Str) && self.at(p + 1, TokenKind::FatArrow) && self.at(
            p + 2,
            TokenKind::Str,
        ) {
            let from = self.word(p);
            let to = self.word(p + 2);
            if self.at(p + 3, TokenKind::LBrace) {
                match self.rules(p + 4) {
                    Some((changes, q)) => Some((MigrationComment { from, to, changes }, q)),
                    None => None,
                }
            } else {
                let step = MigrationComment { from, to, changes: Vec::new() };
                assert(step@.changes =~= Seq::empty());
                Some((step, p + 3))
            }
        } else {
            None
        }
    }
}

/// The rule that a text spells, where it spells one and nothing else.
pub open spec fn rule_of(s: Seq<char>) -> Option<RuleView> {
    match tokens_of(s) {
        Some(toks) => match parse_rule(s, toks, 0) {
            Some((rule, q)) => if q == toks.len() {
                Some(rule)
            } else {
                None
            },
            None => None,
        },
        None => None,
    }
}

/// The step that a text spells, where it spells one and nothing else.
pub open spec fn step_of(s: Seq<char>) -> Option<StepView> {
    match tokens_of(s) {
        Some(toks) => match parse_step(s, toks, 0) {
            Some((step, q)) => if q == toks.len() {
                Some(step)
            } else {
                None
            },
            None => None,
        },
        None => None,
    }
}

/// The converter expression that a text spells, where it spells one and
/// nothing else.
pub open spec fn expr_of(s: Seq<char>) -> Option<ExprView> {
    match tokens_of(s) {
        Some(toks) => match parse_expr(s, toks, 0) {
            Some((e, q)) => if q == toks.len() {
                Some(e)
            } else {
                None
            },
            None => None,
        },
        None => None,
    }
}

/// The version that a text declares: none where the text is empty, the
/// text between double quotes where it holds that and nothing else.
pub open spec fn declared_version(s: Seq<char>) -> Option<Option<Seq<char>>> {
    match tokens_of(s) {
        Some(toks) => if toks.len() == 0 {
            Some(None)
        } else if toks.len() == 1 && toks[0].kind == TokenKind::Str {
            Some(Some(word(s, toks[0])))
        } else {
            None
        },
        None => None,
    }
}

impl Expr {
    /// Reads a converter expression.
    pub fn parse(text: &str) -> (r: Result<Expr, SyntaxError>)
        ensures
            match r {
                Ok(e) => expr_of(text@) == Some(e@),
                Err(_) => expr_of(text@) is None,
            },
    {
        match Source::new(text) {
            Some(source) => match source.expr(0) {
                Some((e, q)) => {
                    if q == source.tokens.len() {
                        Ok(e)
                    } else {
                        Err(SyntaxError)
                    }
                },
                None => Err(SyntaxError),
            },
            None => Err(SyntaxError),
        }
    }
}

impl MigrationField {
    /// Reads one rule.
    pub fn parse(text: &str) -> (r: Result<MigrationField, SyntaxError>)
        ensures
            match r {
                Ok(rule) => rule_of(text@) == Some(rule@),
                Err(_) => rule_of(text@) is None,
            },
    {
        match Source::new(text) {
            Some(source) => match source.rule(0) {
                Some((rule, q)) => {
                    if q == source.tokens.len() {
                        Ok(rule)
                    } else {
                        Err(SyntaxError)
                    }
                },
                None => Err(SyntaxError),
            },
            None => Err(SyntaxError),
        }
    }
}

impl MigrationComment {
    /// Reads one step.
    pub fn parse(text: &str) -> (r: Result<MigrationComment, SyntaxError>)
        ensures
            match r {
                Ok(step) => step_of(text@) == Some(step@),
                Err(_) => step_of(text@) is None,
            },
    {
        match Source::new(text) {
            Some(source) => match source.step(0) {
                Some((step, q)) => {
                    if q == source.tokens.len() {
                        Ok(step)
                    } else {
                        Err(SyntaxError)
                    }
                },
                None => Err(SyntaxError),
            },
            None => Err(SyntaxError),
        }
    }
}

impl DeriveVersion {
    /// Reads the version that a type declares for itself: a text between
    /// double quotes, or nothing.
    pub fn parse(text: &str) -> (r: Result<DeriveVersion, SyntaxError>)
        ensures
            match r {
                Ok(v) => declared_version(text@) == Some(v@),
                Err(_) => declared_version(text@) is None,
            },
    {
        match Source::new(text) {
            Some(source) => {
                if source.tokens.len() == 0 {
                    Ok(DeriveVersion { version: None })
                } else if source.tokens.len() == 1 && source.at(0, TokenKind::Str) {
                    Ok(DeriveVersion { version: Some(source.word(0)) })
                } else {
                    Err(SyntaxError)
                }
            },
            None => Err(SyntaxError),
        }
    }
}

/// What the text of a type says of a field.
pub fn described_type(text: &str) -> (r: TypeDescriptor)
    ensures
        r == type_of_text(text@),
{
    match Source::new(text) {
        Some(source) => match source.ty(0) {
            Some((d, q)) => {
                if q == source.tokens.len() {
                    d
                } else {
                    TypeDescriptor::of(Kind::Any)
                }
            },
            None => TypeDescriptor::of(Kind::Any),
        },
        None => TypeDescriptor::of(Kind::Any),
    }
}

/// The step that an attribute named `migration` holds.
pub fn step_in_attr(text: &str) -> (r: Result<MigrationComment, SyntaxError>)
    ensures
        match r {
            Ok(step) => attr_step(text@) == Some(step@),
            Err(_) => attr_step(text@) is None,
        },
{
    match Source::new(text) {
        Some(source) => {
            if source.word_at(0, "migration") && source.at(1, TokenKind::LParen) {
                match source.step(2) {
                    Some((step, q)) => {
                        if source.at(q, TokenKind::RParen) && q + 1 == source.tokens.len() {
                            Ok(step)
                        } else {
                            Err(SyntaxError)
                        }
                    },
                    None => Err(SyntaxError),
                }
            } else {
                Err(SyntaxError)
            }
        },
        None => Err(SyntaxError),
    }
}

proof fn lemma_steps_stay_unread(attrs: Seq<(Seq<char>, Seq<char>)>, i: int, n: int)
    requires
        0 <= i <= n,
        attr_steps(attrs, i) is None,
    ensures
        attr_steps(attrs, n) is None,
    decreases n - i,
{
    if i < n {
        lemma_steps_stay_unread(attrs, i + 1, n);
    }
}

impl Migration {
    /// What a struct declares of a versioned type: the steps in its
    /// attributes, its name and its fields.
    pub fn from_decl(decl: &StructDecl) -> (r: Result<Migration, SyntaxError>)
        ensures
            match r {
                Ok(m) => migration_from(decl@) == Some(m@),
                Err(_) => migration_from(decl@) is None,
            },
    {
        let mut versions: Vec<MigrationComment> = Vec::new();
        let mut i: usize = 0;
        assert(steps_view(versions@) =~= Seq::empty());
        while i < decl.attrs.len()
            invariant
                i <= decl.attrs.len(),
                attr_steps(decl@.attrs, i as int) == Some(steps_view(versions@)),
            decreases decl.attrs.len() - i,
        {
            let ghost before = steps_view(versions@);
            assert(decl@.attrs[i as int] == (decl.attrs@[i as int].0@, decl.attrs@[i as int].1@));
            if same(&decl.attrs[i].0, "migration") {
                match step_in_attr(decl.attrs[i].1.as_str()) {
                    Ok(step) => {
                        let ghost sv = step@;
                        versions.push(step);
                        assert(steps_view(versions@) =~= before.push(sv));
                    },
                    Err(e) => {
                        proof {
                            lemma_steps_stay_unread(decl@.attrs, i + 1, decl@.attrs.len() as int);
                        }
                        return Err(e);
                    },
                }
            }
            i = i + 1;
        }
        let mut fields: Vec<FieldSpec> = Vec::new();
        let mut j: usize = 0;
        while j < decl.fields.len()
            invariant
                j <= decl.fields.len(),
                fields.len() == j,
                forall|x: int|
                    0 <= x < j ==> (#[trigger] fields@[x])@ == members_of(decl@.fields)[x],
            decreases decl.fields.len() - j,
        {
            assert(decl@.fields[j as int] == (decl.fields@[j as int].0@, decl.fields@[j as int].1@));
            fields.push(
                FieldSpec {
                    name: decl.fields[j].0.clone(),
                    ty: described_type(decl.fields[j].1.as_str()),
                },
            );
            j = j + 1;
        }
        assert(fields_view(fields@) =~= members_of(decl@.fields));
        Ok(Migration { versions, struct_name: decl.name.clone(), fields })
    }

    /// What the items of a file declare of a versioned type, where the
    /// file holds one item and that item is a struct with named fields.
    pub fn among(decls: &Vec<Option<StructDecl>>) -> (r: Result<Migration, SyntaxError>)
        ensures
            match r {
                Ok(m) => migration_among(decls_view(decls@)) == Some(m@),
                Err(_) => migration_among(decls_view(decls@)) is None,
            },
    {
        if decls.len() == 1 {
            match &decls[0] {
                Some(decl) => Migration::from_decl(decl),
                None => Err(SyntaxError),
            }
        } else {
            Err(SyntaxError)
        }
    }

    /// Reads the declaration of a versioned type: its steps, its name and
    /// its current fields. The text is one struct with named fields, as a
    /// Rust source file holds it.
    pub fn parse(text: &str) -> (r: Result<Migration, SyntaxError>)
        ensures
            match r {
                Ok(m) => migration_of(text@) == Some(m@),
                Err(_) => migration_of(text@) is None,
            },
    {
        match parse_structs(text) {
            Some(decls) => Migration::among(&decls),
            None => Err(SyntaxError),
        }
    }
}

} // verus!
