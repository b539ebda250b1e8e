//! From text to syntax, by way of `syn` and `quote`.
//!
//! `syn` parses the text and `quote` prints what was parsed. What those two
//! crates do is not proved: it is stated in the contracts of the private
//! functions of this module that call them, and believed. Everything else
//! here, and everywhere else in the crate, is proved from those contracts.
//!
//! A parsed expression travels as a `syn::GenericArgument`, the form in which
//! `syn` itself hands out the types nested in an expression: the expression
//! read from a text is wrapped as a type argument, and from there on every
//! node of the tree is an argument that is a type or is not.

use vstd::prelude::*;
use crate::syntax::{PathSyntax, PathView, SyntaxView, TypeSyntax};
use crate::text::{has_marker, texts};

verus! {

/// `syn::GenericArgument`, carried through without a look inside.
#[verifier::external_type_specification]
#[verifier::external_body]
pub struct ExGenericArgument(syn::GenericArgument);

/// `syn::Error`, carried through without a look inside.
#[verifier::external_type_specification]
#[verifier::external_body]
pub struct ExError(syn::Error);

/// The syntax of the type that a `syn::GenericArgument` holds; nothing where
/// the argument is not a type.
pub uninterp spec fn argument_of(argument: syn::GenericArgument) -> Option<SyntaxView>;

/// The syntax that `syn` reads out of a text; nothing where it does not read
/// the text as one type expression.
pub uninterp spec fn parsed(text: Seq<char>) -> Option<SyntaxView>;

/// The path of the type that an argument holds, where it holds a named path.
pub open spec fn path_of(argument: syn::GenericArgument) -> Option<PathView> {
    match argument_of(argument) {
        Some(syntax) => syntax.path,
        None => None,
    }
}

/// The angle-bracketed arguments of the type that an argument holds, where it
/// holds a named path that has some.
pub open spec fn arguments_of(argument: syn::GenericArgument) -> Option<Seq<Option<SyntaxView>>> {
    match path_of(argument) {
        Some(path) => path.arguments,
        None => None,
    }
}

/// Calls `syn::parse_str` for a `syn::Type` and wraps the type as an
/// argument.
///
/// Believed: whether the call succeeds, and the syntax of what it returns,
/// depend on the text alone.
#[verifier::external_body]
fn parse_str(text: &str) -> (outcome: Result<syn::GenericArgument, syn::Error>)
    ensures
        match outcome {
            Ok(argument) => parsed(text@) is Some && argument_of(argument) == parsed(text@),
            Err(_) => parsed(text@) is None,
        },
{
    syn::parse_str::<syn::Type>(text).map(syn::GenericArgument::Type)
}

/// Tells `syn::GenericArgument::Type` from the other variants.
#[verifier::external_body]
fn is_type(argument: &syn::GenericArgument) -> (yes: bool)
    ensures
        yes == argument_of(*argument) is Some,
{
    matches!(argument, syn::GenericArgument::Type(_))
}

/// Calls `quote::ToTokens::to_token_stream` and writes the token stream out
/// as a string.
///
/// Believed: for an argument that is a type, the string is the printed form
/// of that type.
#[verifier::external_body]
fn print(argument: &syn::GenericArgument) -> (tokens: String)
    ensures
        argument_of(*argument) matches Some(syntax) ==> tokens@ == syntax.tokens,
{
    quote::ToTokens::to_token_stream(argument).to_string()
}

/// Tells a type that is a `syn::Type::Path` from all else and walks the
/// `segments` of its path, writing out each segment's `ident`.
///
/// Believed: the strings are the path's identifiers in their order, and an
/// identifier holds no `<`.
#[verifier::external_body]
fn path_idents(argument: &syn::GenericArgument) -> (idents: Option<Vec<String>>)
    ensures
        match idents {
            Some(found) => {
                &&& path_of(*argument) matches Some(path)
                &&& texts(found@) == path.segments
                &&& forall|i: int| 0 <= i < found.len() ==> !has_marker(#[trigger] found[i]@)
            },
            None => path_of(*argument) is None,
        },
{
    match argument {
        syn::GenericArgument::Type(syn::Type::Path(named)) => Some(
            named.path.segments.iter().map(|segment| segment.ident.to_string()).collect(),
        ),
        _ => None,
    }
}

/// Tells `syn::PathArguments::AngleBracketed` from the other variants on the
/// last segment of a type that is a `syn::Type::Path`, and walks its `args`.
///
/// Believed: the references are to the arguments between the angle brackets,
/// in their order.
#[verifier::external_body]
fn angle_arguments<'a>(argument: &'a syn::GenericArgument) -> (arguments: Option<
    Vec<&'a syn::GenericArgument>,
>)
    ensures
        match arguments {
            Some(found) => {
                &&& arguments_of(*argument) matches Some(listed)
                &&& found.len() == listed.len()
                &&& forall|i: int|
                    0 <= i < found.len() ==> argument_of(*#[trigger] found[i]) == listed[i]
            },
            None => arguments_of(*argument) is None,
        },
{
    match argument {
        syn::GenericArgument::Type(syn::Type::Path(named)) => match named.path.segments.last() {
            Some(syn::PathSegment { arguments: syn::PathArguments::AngleBracketed(list), .. }) => {
                Some(list.args.iter().collect())
            },
            _ => None,
        },
        _ => None,
    }
}

/// The syntax of a parsed argument, copied out node by node.
fn lower(argument: &syn::GenericArgument) -> (syntax: Option<TypeSyntax>)
    ensures
        match syntax {
            Some(found) => argument_of(*argument) == Some(found@) && found@.well_formed(),
            None => argument_of(*argument) is None,
        },
    decreases argument_of(*argument),
{
    if !is_type(argument) {
        return None;
    }
    let ghost whole = argument_of(*argument).unwrap();
    let tokens = print(argument);
    let path = match path_idents(argument) {
        None => None,
        Some(segments) => {
            let arguments = match angle_arguments(argument) {
                None => None,
                Some(found) => {
                    let ghost listed = whole.path.unwrap().arguments.unwrap();
                    let mut arguments: Vec<Option<TypeSyntax>> = Vec::new();
                    let mut i: usize = 0;
                    while i < found.len()
                        invariant
                            i <= found.len(),
                            found.len() == listed.len(),
                            argument_of(*argument) == Some(whole),
                            whole.path is Some,
                            whole.path.unwrap().arguments == Some(listed),
                            forall|k: int|
                                0 <= k < found.len() ==> argument_of(*#[trigger] found[k])
                                    == listed[k],
                            arguments.len() == i,
                            forall|k: int|
                                0 <= k < i ==> (match #[trigger] arguments[k] {
                                    None => None,
                                    Some(inner) => Some(inner@),
                                }) == listed[k],
                            forall|k: int|
                                0 <= k < i ==> (#[trigger] arguments[k] matches Some(inner)
                                    ==> inner@.well_formed()),
                        decreases found.len() - i,
                    {
                        proof {
                            let outer = argument_of(*argument);
                            let inner = whole.path->0.arguments;
                            assert(decreases_to!(outer => outer->0));
                            assert(decreases_to!(inner => inner->0));
                        }
                        arguments.push(lower(found[i]));
                        i += 1;
                    }
                    Some(arguments)
                },
            };
            Some(PathSyntax { segments, arguments })
        },
    };
    let syntax = TypeSyntax { tokens, path };
    proof {
        if let Some(PathView { arguments: Some(listed), .. }) = whole.path {
            assert(syntax@.path.unwrap().arguments.unwrap() =~= listed);
        }
    }
    Some(syntax)
}

/// Reads `text` as one type expression.
///
/// Gives nothing where the text is not a type expression.
pub fn parse(text: &str) -> (syntax: Option<TypeSyntax>)
    ensures
        match syntax {
            Some(found) => parsed(text@) == Some(found@) && found@.well_formed(),
            None => parsed(text@) is None,
        },
{
    match parse_str(text) {
        Ok(argument) => lower(&argument),
        Err(_) => None,
    }
}

} // verus!
