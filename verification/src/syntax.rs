//! The syntax of a type expression, as far as a type reference looks at it:
//! whether the expression is a named path, which identifiers the path is made
//! of, which arguments stand between its angle brackets, and how the whole
//! expression prints.

use vstd::prelude::*;
use crate::text::{has_marker, joined, texts};

verus! {

/// One type expression.
#[derive(Debug)]
pub struct TypeSyntax {
    /// The expression printed token by token.
    pub tokens: String,
    /// The path that the expression consists of, where it is a named path.
    pub path: Option<PathSyntax>,
}

/// A named path with the arguments of its last segment.
#[derive(Debug)]
pub struct PathSyntax {
    /// The identifiers of the segments, first to last.
    pub segments: Vec<String>,
    /// The angle-bracketed arguments of the last segment, left to right. An
    /// argument that is a type holds that type; any other kind of argument
    /// (a lifetime, a const expression, a binding, a bound) holds nothing.
    pub arguments: Option<Vec<Option<TypeSyntax>>>,
}

/// What a [`TypeSyntax`] stands for.
pub struct SyntaxView {
    /// The expression printed token by token.
    pub tokens: Seq<char>,
    /// The path that the expression consists of, where it is a named path.
    pub path: Option<PathView>,
}

/// What a [`PathSyntax`] stands for.
pub struct PathView {
    /// The identifiers of the segments, first to last.
    pub segments: Seq<Seq<char>>,
    /// The angle-bracketed arguments of the last segment, left to right;
    /// nothing in the place of an argument that is not a type.
    pub arguments: Option<Seq<Option<SyntaxView>>>,
}

impl SyntaxView {
    /// Identifiers are identifiers: no segment of a path, here or in a type
    /// argument below, holds a generic-argument marker.
    pub open spec fn well_formed(self) -> bool
        decreases self,
    {
        self.path matches Some(path) ==> {
            &&& forall|i: int| 0 <= i < path.segments.len() ==> !has_marker(#[trigger] path.segments[i])
            &&& path.arguments matches Some(arguments) ==> forall|i: int|
                0 <= i < arguments.len() ==> (#[trigger] arguments[i] matches Some(argument)
                    ==> argument.well_formed())
        }
    }

    /// Whether the expression is made of named paths and type arguments
    /// alone: it is a named path, and so is every argument of it, all the
    /// way down.
    pub open spec fn nominal(self) -> bool
        decreases self,
    {
        self.path matches Some(path) && (path.arguments matches Some(arguments) ==> forall|i: int|
            0 <= i < arguments.len() ==> (#[trigger] arguments[i] matches Some(argument)
                && argument.nominal()))
    }

    /// The expression written out: the identifiers of the path joined by
    /// separators, and behind them, where there are arguments, the arguments
    /// written out between angle brackets. What is no path is written as it
    /// prints.
    pub open spec fn written(self) -> Seq<char>
        decreases self,
    {
        match self.path {
            Some(PathView { segments, arguments: Some(arguments) }) if arguments.len() > 0 => joined(
                segments,
            ) + seq!['<'] + Self::written_list(arguments) + seq!['>'],
            Some(path) => joined(path.segments),
            None => self.tokens,
        }
    }

    /// The arguments written out, with a comma and a space between
    /// neighbours.
    pub open spec fn written_list(arguments: Seq<Option<SyntaxView>>) -> Seq<char>
        decreases arguments,
    {
        if arguments.len() == 0 {
            Seq::empty()
        } else {
            let last = match arguments.last() {
                Some(argument) => argument.written(),
                None => Seq::empty(),
            };
            if arguments.len() == 1 {
                last
            } else {
                Self::written_list(arguments.drop_last()) + seq![',', ' '] + last
            }
        }
    }
}

/// The view of a type expression, by recursion over its type arguments.
pub open spec fn syntax_view(syntax: TypeSyntax) -> SyntaxView
    decreases syntax,
{
    SyntaxView {
        tokens: syntax.tokens@,
        path: match syntax.path {
            None => None,
            Some(path) => Some(
                PathView {
                    segments: texts(path.segments@),
                    arguments: match path.arguments {
                        None => None,
                        Some(arguments) => Some(
                            Seq::new(
                                arguments@.len(),
                                |i: int|
                                    if 0 <= i < arguments@.len() {
                                        match arguments@[i] {
                                            None => None,
                                            Some(argument) => Some(syntax_view(argument)),
                                        }
                                    } else {
                                        None
                                    },
                            ),
                        ),
                    },
                },
            ),
        },
    }
}

impl View for TypeSyntax {
    type V = SyntaxView;

    open spec fn view(&self) -> SyntaxView {
        syntax_view(*self)
    }
}

} // verus!
