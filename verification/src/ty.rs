//! Type references: a name, the generic arguments it is applied to, and the
//! way from a text to the two and back.

use vstd::prelude::*;
use crate::formatter::{Formatter, WriteError};
use crate::parse::{parse, parsed};
use crate::syntax::{SyntaxView, TypeSyntax};
use crate::text::{
    contains_marker, has_marker, has_separator, join, joined,
    lemma_joined_lacks, lemma_qualified_marker, lemma_unqualified_qualified, marker, qualified, qualify, strip_qualifier, texts, unqualified,
};

verus! {

/// A reference to a type: a name and the generic arguments it is applied to.
#[derive(Debug)]
pub struct Type {
    name: String,
    generics: Vec<Type>,
}

/// What a [`Type`] stands for.
pub struct TypeView {
    /// The name, qualified or not, or a whole expression kept as it prints.
    pub name: Seq<char>,
    /// The generic arguments, in the order in which they are written.
    pub generics: Seq<TypeView>,
}

impl TypeView {
    /// A name without generic arguments.
    pub open spec fn plain(name: Seq<char>) -> TypeView {
        TypeView { name, generics: Seq::empty() }
    }

    /// Generic arguments are either all taken out of the name or all left in
    /// it: at no node do arguments stand beside a name that still holds a
    /// generic-argument marker.
    pub open spec fn well_formed(self) -> bool
        decreases self,
    {
        &&& self.generics.len() > 0 ==> !has_marker(self.name)
        &&& forall|i: int|
            0 <= i < self.generics.len() ==> (#[trigger] self.generics[i]).well_formed()
    }

    /// The text that the reference is written as: the name, and behind it
    /// the generic arguments.
    pub open spec fn rendered(self) -> Seq<char>
        decreases self, 0int,
    {
        self.name + Self::rendered_arguments(self.generics)
    }

    /// The text that generic arguments are written as: nothing where there
    /// are none, else their list between angle brackets.
    pub open spec fn rendered_arguments(types: Seq<TypeView>) -> Seq<char>
        decreases types, 1int,
    {
        if types.len() == 0 {
            Seq::empty()
        } else {
            seq!['<'] + Self::rendered_list(types) + seq!['>']
        }
    }

    /// The texts of `types`, with a comma and a space between neighbours.
    pub open spec fn rendered_list(types: Seq<TypeView>) -> Seq<char>
        decreases types, 0int,
    {
        if types.len() == 0 {
            Seq::empty()
        } else if types.len() == 1 {
            types[0].rendered()
        } else {
            Self::rendered_list(types.drop_last()) + seq![',', ' '] + types.last().rendered()
        }
    }

    /// The key by which references are sorted: the name without its qualifier.
    pub open spec fn sort_key(self) -> Seq<char> {
        unqualified(self.name)
    }

    /// The reference with one more generic argument at the end.
    pub open spec fn with_generic(self, argument: TypeView) -> TypeView {
        TypeView { name: self.name, generics: self.generics.push(argument) }
    }

    /// The reference with its name placed under `prefix`.
    pub open spec fn under(self, prefix: Seq<char>) -> TypeView {
        TypeView { name: qualified(prefix, self.name), generics: self.generics }
    }
}

/// Whether every argument of a list is a type.
pub open spec fn all_types(arguments: Seq<Option<SyntaxView>>) -> bool {
    forall|i: int| 0 <= i < arguments.len() ==> (#[trigger] arguments[i]) is Some
}

/// The reference that a type expression is taken apart into.
///
/// A named path gives its joined identifiers as the name and, where all the
/// arguments of its last segment are types, one generic argument for each, in
/// their order. A path with an argument of another kind, and an expression
/// that is no path, is kept whole: its printed form is the name.
pub open spec fn decomposed(syntax: SyntaxView) -> TypeView
    decreases syntax,
{
    match syntax.path {
        None => TypeView::plain(syntax.tokens),
        Some(path) => match path.arguments {
            None => TypeView::plain(joined(path.segments)),
            Some(arguments) => if all_types(arguments) {
                TypeView {
                    name: joined(path.segments),
                    generics: Seq::new(
                        arguments.len(),
                        |i: int|
                            if 0 <= i < arguments.len() && arguments[i] is Some {
                                decomposed(arguments[i].unwrap())
                            } else {
                                TypeView::plain(Seq::empty())
                            },
                    ),
                }
            } else {
                TypeView::plain(syntax.tokens)
            },
        },
    }
}

/// Whether `text` can be made a reference of: it holds no generic-argument
/// marker, or it reads as a type expression.
pub open spec fn accepted(text: Seq<char>) -> bool {
    has_marker(text) ==> parsed(text) is Some
}

/// The reference that `text` is made into.
pub open spec fn constructed(text: Seq<char>) -> TypeView {
    if has_marker(text) {
        decomposed(parsed(text).unwrap())
    } else {
        TypeView::plain(text)
    }
}

/// The view of a reference, by recursion over its generic arguments.
pub closed spec fn type_view(ty: Type) -> TypeView
    decreases ty,
{
    TypeView {
        name: ty.name@,
        generics: Seq::new(
            ty.generics@.len(),
            |i: int|
                if 0 <= i < ty.generics@.len() {
                    type_view(ty.generics@[i])
                } else {
                    TypeView::plain(Seq::empty())
                },
        ),
    }
}

impl View for Type {
    type V = TypeView;

    closed spec fn view(&self) -> TypeView {
        type_view(*self)
    }
}

/// The views of a run of references.
pub open spec fn views(types: Seq<Type>) -> Seq<TypeView> {
    types.map_values(|ty: Type| ty@)
}

/// A reference that is a name and nothing else is written as that name.
pub proof fn lemma_rendered_plain(name: Seq<char>)
    ensures
        TypeView::plain(name).rendered() == name,
        TypeView::plain(name).well_formed(),
{
    assert(name + Seq::<char>::empty() =~= name);
}

/// The sort key does not see the qualifier: a reference placed under a path
/// is sorted by the name it had before, where that name was unqualified and
/// does not start with a colon.
pub proof fn lemma_sort_key_under(ty: TypeView, prefix: Seq<char>)
    requires
        !has_separator(ty.name),
        ty.name.len() > 0 ==> ty.name[0] != ':',
    ensures
        ty.under(prefix).sort_key() == ty.name,
        ty.sort_key() == ty.name,
{
    lemma_unqualified_qualified(prefix, ty.name);
}

/// Taking apart and writing out undo each other: the reference that a
/// nominal expression is taken apart into is written as the expression is.
pub proof fn lemma_rendered_decomposed(syntax: SyntaxView)
    requires
        syntax.nominal(),
    ensures
        decomposed(syntax).rendered() == syntax.written(),
    decreases syntax,
{
    let path = syntax.path.unwrap();
    if let Some(arguments) = path.arguments {
        assert(all_types(arguments));
        if arguments.len() > 0 {
            lemma_rendered_decomposed_list(arguments, decomposed(syntax).generics);
        }
    }
}

/// The list form of [`lemma_rendered_decomposed`].
proof fn lemma_rendered_decomposed_list(arguments: Seq<Option<SyntaxView>>, generics: Seq<TypeView>)
    requires
        forall|i: int|
            0 <= i < arguments.len() ==> (#[trigger] arguments[i] matches Some(argument)
                && argument.nominal()),
        generics.len() == arguments.len(),
        forall|i: int|
            0 <= i < arguments.len() ==> #[trigger] generics[i] == decomposed(
                arguments[i].unwrap(),
            ),
    ensures
        TypeView::rendered_list(generics) == SyntaxView::written_list(arguments),
    decreases arguments,
{
    if arguments.len() > 0 {
        assert(arguments.last() == arguments[arguments.len() - 1]);
        assert(generics.last() == generics[arguments.len() - 1]);
        lemma_rendered_decomposed(arguments.last().unwrap());
        if arguments.len() > 1 {
            let fewer = arguments.drop_last();
            assert forall|i: int| 0 <= i < fewer.len() implies (#[trigger] fewer[i] matches Some(
                argument,
            ) && argument.nominal()) by {
                assert(fewer[i] == arguments[i]);
            }
            assert forall|i: int| 0 <= i < fewer.len() implies #[trigger] generics.drop_last()[i]
                == decomposed(fewer[i].unwrap()) by {
                assert(generics.drop_last()[i] == generics[i]);
                assert(fewer[i] == arguments[i]);
            }
            lemma_rendered_decomposed_list(fewer, generics.drop_last());
        }
    }
}

/// The texts of the first `n + 1` of `types`, from the texts of the first `n`.
proof fn lemma_rendered_list_step(types: Seq<TypeView>, n: int)
    requires
        0 <= n < types.len(),
    ensures
        TypeView::rendered_list(types.take(n + 1)) == if n == 0 {
            types[0].rendered()
        } else {
            TypeView::rendered_list(types.take(n)) + seq![',', ' '] + types[n].rendered()
        },
{
    let upto = types.take(n + 1);
    assert(upto.last() == types[n]);
    assert(upto.drop_last() == types.take(n));
}

/// A reference that is a name and nothing else.
fn leaf(name: String) -> (ty: Type)
    ensures
        ty@ == TypeView::plain(name@),
        ty@.well_formed(),
{
    let ty = Type { name, generics: Vec::new() };
    assert(ty@.generics =~= Seq::empty());
    ty
}

/// Takes a type expression apart into a reference.
///
/// The identifiers of a named path, joined, are the name, and each argument
/// of its last segment is taken apart in turn. At the first argument that is
/// not a type the whole expression is kept as it prints instead, and so is an
/// expression that is no path.
pub fn split_name_and_generic(ast: &TypeSyntax) -> (ty: Type)
    ensures
        ty@ == decomposed(ast@),
        ast@.well_formed() ==> ty@.well_formed(),
    decreases ast,
{
    let path = match &ast.path {
        None => {
            return leaf(ast.tokens.clone());
        },
        Some(path) => path,
    };
    let mut new_type = leaf(join(&path.segments));
    proof {
        if ast@.well_formed() {
            let segments = texts(path.segments@);
            assert forall|k: int| 0 <= k < segments.len() implies !segments[k].contains(marker()) by {
                assert(!has_marker(ast@.path.unwrap().segments[k]));
            }
            lemma_joined_lacks(segments, marker());
        }
    }
    if let Some(arguments) = &path.arguments {
        let ghost listed = ast@.path.unwrap().arguments.unwrap();
        let mut i: usize = 0;
        while i < arguments.len()
            invariant
                i <= arguments.len(),
                ast.path == Some(*path),
                path.arguments == Some(*arguments),
                ast@.path.unwrap().arguments == Some(listed),
                listed.len() == arguments.len(),
                new_type.name@ == joined(ast@.path.unwrap().segments),
                ast@.well_formed() ==> !has_marker(new_type.name@),
                new_type.generics.len() == i,
                forall|k: int| 0 <= k < i ==> (#[trigger] listed[k]) is Some,
                forall|k: int|
                    0 <= k < i ==> (#[trigger] new_type.generics[k])@ == decomposed(
                        listed[k].unwrap(),
                    ),
                forall|k: int|
                    0 <= k < i && ast@.well_formed() ==> (#[trigger] new_type.generics[k])@.well_formed(),
            decreases arguments.len() - i,
        {
            match &arguments[i] {
                Some(argument) => {
                    let generic_type = split_name_and_generic(argument);
                    new_type.generics.push(generic_type);
                },
                None => {
                    assert(listed[i as int] is None);
                    return leaf(ast.tokens.clone());
                },
            }
            i += 1;
        }
        assert(all_types(listed));
        assert(new_type@.generics =~= decomposed(ast@).generics);
    }
    new_type
}

impl Clone for Type {
    /// A copy that shares nothing with `self`.
    fn clone(&self) -> (copy: Self)
        ensures
            copy@ == self@,
        decreases self,
    {
        let mut generics: Vec<Type> = Vec::new();
        let mut i: usize = 0;
        while i < self.generics.len()
            invariant
                i <= self.generics.len(),
                generics.len() == i,
                forall|k: int| 0 <= k < i ==> (#[trigger] generics[k])@ == self.generics[k]@,
            decreases self.generics.len() - i,
        {
            generics.push(self.generics[i].clone());
            i += 1;
        }
        let copy = Type { name: self.name.clone(), generics };
        assert(copy@.generics =~= self@.generics);
        copy
    }
}

impl<'a> vstd::std_specs::convert::FromSpecImpl<&'a Type> for Type {
    /// The copy has the view of its source, and need not be the same value:
    /// what `from` returns is stated on `from` itself.
    open spec fn obeys_from_spec() -> bool {
        false
    }

    open spec fn from_spec(src: &'a Type) -> Type {
        *src
    }
}

impl<'a> From<&'a Type> for Type {
    /// A copy of `src`.
    fn from(src: &'a Type) -> (ty: Type)
        ensures
            ty@ == src@,
    {
        src.clone()
    }
}

impl Type {
    /// A reference made from `name`.
    ///
    /// A name without a generic-argument marker is taken as it is. Any other
    /// is read as a type expression and taken apart; it has to be one.
    pub fn new(name: &str) -> (ty: Type)
        requires
            accepted(name@),
        ensures
            ty@ == constructed(name@),
            !has_marker(name@) ==> ty@ == TypeView::plain(name@),
            ty@.well_formed(),
    {
        match Type::try_new(name) {
            Some(ty) => ty,
            None => vstd::pervasive::unreached(),
        }
    }

    /// A reference made from `name`, where `name` can be made one of.
    pub fn try_new(name: &str) -> (ty: Option<Type>)
        ensures
            ty is Some == accepted(name@),
            ty matches Some(found) ==> found@ == constructed(name@) && found@.well_formed(),
    {
        if contains_marker(name) {
            match parse(name) {
                Some(ast) => Some(split_name_and_generic(&ast)),
                None => None,
            }
        } else {
            Some(leaf(name.to_owned()))
        }
    }

    /// The name.
    pub fn name(&self) -> (name: &String)
        ensures
            name@ == self@.name,
    {
        &self.name
    }

    /// The generic arguments.
    pub fn generics(&self) -> (generics: &Vec<Type>)
        ensures
            views(generics@) == self@.generics,
    {
        assert(views(self.generics@) =~= self@.generics);
        &self.generics
    }

    /// The key by which references are sorted.
    pub fn key_for_sorting(&self) -> (key: &str)
        ensures
            key@ == self@.sort_key(),
    {
        strip_qualifier(self.name.as_str())
    }

    /// Adds a generic argument behind those that are there.
    ///
    /// The name must not hold generic arguments of its own.
    pub fn generic(&mut self, ty: Type) -> (this: &mut Self)
        requires
            !has_marker(old(self)@.name),
        ensures
            this@ == old(self)@.with_generic(ty@),
            *final(self) == *final(this),
            old(self)@.well_formed() && ty@.well_formed() ==> this@.well_formed(),
    {
        self.generics.push(ty);
        assert(self@.generics =~= old(self)@.generics.push(ty@));
        self
    }

    /// The same reference under the path `path`.
    ///
    /// The name must not be qualified already.
    pub fn path(&self, path: &str) -> (ty: Type)
        requires
            !has_separator(self@.name),
        ensures
            ty@ == self@.under(path@),
            self@.well_formed() ==> (ty@.well_formed() <==> self@.generics.len() == 0
                || !has_marker(path@)),
    {
        let copy = self.clone();
        let ty = Type { name: qualify(path, self.name.as_str()), generics: copy.generics };
        proof {
            assert(ty@.generics =~= self@.generics);
            lemma_qualified_marker(path@, self@.name);
        }
        ty
    }

    /// Writes the reference to `fmt`.
    pub fn fmt(&self, fmt: &mut Formatter<'_>) -> (done: Result<(), WriteError>)
        ensures
            done is Ok,
            final(fmt).text() == old(fmt).text() + self@.rendered(),
            *final(final(fmt).dst) == *final(old(fmt).dst),
        decreases self@,
    {
        fmt.write_str(self.name.as_str())?;
        proof {
            assert(views(self.generics@) =~= self@.generics);
            assert(decreases_to!(self@ => self@.generics));
            let arguments = TypeView::rendered_arguments(self@.generics);
            assert(old(fmt).text() + self@.name + arguments =~= old(fmt).text() + (self@.name
                + arguments));
        }
        Type::fmt_slice(self.generics.as_slice(), fmt)
    }

    /// Writes `generics` to `fmt` as a list between angle brackets, and
    /// nothing where there are none.
    pub fn fmt_slice(generics: &[Type], fmt: &mut Formatter<'_>) -> (done: Result<(), WriteError>)
        ensures
            done is Ok,
            final(fmt).text() == old(fmt).text() + TypeView::rendered_arguments(views(generics@)),
            *final(final(fmt).dst) == *final(old(fmt).dst),
        decreases views(generics@),
    {
        if generics.len() > 0 {
            let ghost before = fmt.text();
            let ghost types = views(generics@);
            fmt.write_str("<")?;
            proof {
                reveal_strlit("<");
                reveal_strlit(", ");
                reveal_strlit(">");
                assert("<"@ =~= seq!['<']);
                assert(", "@ =~= seq![',', ' ']);
                assert(">"@ =~= seq!['>']);
                assert(fmt.text() =~= before + seq!['<'] + TypeView::rendered_list(types.take(0)));
            }
            let mut i: usize = 0;
            while i < generics.len()
                invariant
                    i <= generics.len(),
                    types == views(generics@),
                    ", "@ == seq![',', ' '],
                    fmt.text() == before + seq!['<'] + TypeView::rendered_list(
                        types.take(i as int),
                    ),
                    *final(fmt.dst) == *final(old(fmt).dst),
                decreases generics.len() - i,
            {
                let ghost sofar = TypeView::rendered_list(types.take(i as int));
                if i != 0 {
                    fmt.write_str(", ")?;
                }
                proof {
                    assert(types[i as int] == generics[i as int]@);
                    assert(decreases_to!(types => types[i as int]));
                }
                generics[i].fmt(fmt)?;
                proof {
                    lemma_rendered_list_step(types, i as int);
                    let item = types[i as int].rendered();
                    if i == 0 {
                        assert(sofar =~= Seq::empty());
                        assert(before + seq!['<'] + sofar + item =~= before + seq!['<'] + item);
                    } else {
                        assert(before + seq!['<'] + sofar + seq![',', ' '] + item =~= before
                            + seq!['<'] + (sofar + seq![',', ' '] + item));
                    }
                }
                i += 1;
            }
            fmt.write_str(">")?;
            proof {
                assert(types.take(i as int) == types);
                let list = TypeView::rendered_list(types);
                assert(before + seq!['<'] + list + seq!['>'] =~= before + (seq!['<'] + list
                    + seq!['>']));
            }
        } else {
            assert(fmt.text() + Seq::<char>::empty() =~= fmt.text());
        }
        Ok(())
    }
}

} // verus!
