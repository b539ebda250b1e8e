use typeref::formatter::Formatter;
use typeref::parse::parse;
use typeref::ty::Type;

fn generic_names(ty: &Type) -> String {
    ty.generics().iter().map(|generic| generic.name().as_str()).collect::<Vec<&str>>().join(" ")
}

fn render(ty: &Type) -> String {
    let mut ret = String::new();
    ty.fmt(&mut Formatter::new(&mut ret)).unwrap();
    ret
}

#[test]
fn parse_type() {
    {
        let ty = Type::new("u8");
        assert_eq!(ty.name(), "u8");
        assert!(ty.generics().is_empty());
    }
}

#[test]
fn parse_generic() {
    {
        let ty = Type::new("Vec<u8>");
        assert_eq!(ty.name(), "Vec");
        assert_eq!(generic_names(&ty), "u8");
    }
    {
        let ty = Type::new("foo::Vec<u8>");
        assert_eq!(ty.name(), "foo::Vec");
        assert_eq!(generic_names(&ty), "u8");
    }
    {
        let ty = Type::new("Vec<Vec<u8>>");
        assert_eq!(ty.name(), "Vec");
        assert_eq!(generic_names(&ty), "Vec");
    }
    {
        let ty = Type::new("BTreeMap<u8, u8>");
        assert_eq!(ty.name(), "BTreeMap");
        assert_eq!(generic_names(&ty), "u8 u8");
    }
    {
        let ty = Type::new("BTreeMap<Vec<u8>, BTreeMap<u64, String>>");
        assert_eq!(ty.name(), "BTreeMap");
        assert_eq!(generic_names(&ty), "Vec BTreeMap");

        let mut ret = String::new();
        ty.fmt(&mut Formatter::new(&mut ret)).unwrap();
        assert_eq!(ret, "BTreeMap<Vec<u8>, BTreeMap<u64, String>>");
    }
    {
        let ty = Type::new("Result<&'a mut Foo<Bar>>");
        assert_eq!(ty.name(), "Result");
        assert_eq!(generic_names(&ty), "& 'a mut Foo < Bar >");
    }
}

#[test]
fn plain_names_are_kept_verbatim() {
    for name in ["u8", "String", "foo::Bar", "a::b::c::D", "", " spaced out ", "&'a str", "r#type"] {
        let ty = Type::new(name);
        assert_eq!(ty.name(), name);
        assert!(ty.generics().is_empty());
        assert_eq!(render(&ty), name);
    }
}

#[test]
fn nested_generics_recurse_fully() {
    let ty = Type::new("Vec<Vec<u8>>");
    assert_eq!(ty.name(), "Vec");
    assert_eq!(ty.generics().len(), 1);
    let inner = &ty.generics()[0];
    assert_eq!(inner.name(), "Vec");
    assert_eq!(inner.generics().len(), 1);
    assert_eq!(inner.generics()[0].name(), "u8");
    assert!(inner.generics()[0].generics().is_empty());
}

#[test]
fn arguments_keep_their_order_and_repeats() {
    let ty = Type::new("BTreeMap<u8, u8>");
    assert_eq!(ty.name(), "BTreeMap");
    assert_eq!(ty.generics().len(), 2);
    assert_eq!(ty.generics()[0].name(), "u8");
    assert_eq!(ty.generics()[1].name(), "u8");

    let ty = Type::new("Tuple3<z, a, m>");
    assert_eq!(generic_names(&ty), "z a m");
}

#[test]
fn qualified_path_keeps_its_separators() {
    let ty = Type::new("foo::Vec<u8>");
    assert_eq!(ty.name(), "foo::Vec");
    assert_eq!(ty.generics().len(), 1);
    assert_eq!(ty.generics()[0].name(), "u8");

    let ty = Type::new("::std::vec::Vec<u8>");
    assert_eq!(ty.name(), "std::vec::Vec");
    assert_eq!(generic_names(&ty), "u8");

    let ty = Type::new("std :: collections :: HashMap < K , V >");
    assert_eq!(ty.name(), "std::collections::HashMap");
    assert_eq!(generic_names(&ty), "K V");
}

#[test]
fn only_the_last_segment_gives_arguments() {
    let ty = Type::new("Foo<A>::Bar<B>");
    assert_eq!(ty.name(), "Foo::Bar");
    assert_eq!(generic_names(&ty), "B");

    let ty = Type::new("Foo<A>::Bar");
    assert_eq!(ty.name(), "Foo::Bar");
    assert!(ty.generics().is_empty());
}

#[test]
fn reference_argument_is_kept_whole() {
    let ty = Type::new("Result<&'a mut Foo<Bar>>");
    assert_eq!(ty.name(), "Result");
    assert_eq!(ty.generics().len(), 1);
    let argument = &ty.generics()[0];
    assert_eq!(argument.name(), "& 'a mut Foo < Bar >");
    assert!(argument.generics().is_empty());
}

#[test]
fn expression_that_is_no_path_is_kept_whole() {
    for (text, printed) in [
        ("&'a Foo<Bar>", "& 'a Foo < Bar >"),
        ("(A, B<C>)", "(A , B < C >)"),
        ("[T<U>; 3]", "[T < U > ; 3]"),
        ("[T<U>]", "[T < U >]"),
        ("*const T<U>", "* const T < U >"),
        ("fn(A<B>) -> C", "fn (A < B >) -> C"),
        ("dyn Trait<T> + Send", "dyn Trait < T > + Send"),
        ("impl Iterator<Item = u8>", "impl Iterator < Item = u8 >"),
        ("(Vec<u8>)", "(Vec < u8 >)"),
    ] {
        let ty = Type::new(text);
        assert_eq!(ty.name(), printed);
        assert!(ty.generics().is_empty());
        assert_eq!(render(&ty), printed);
    }
}

#[test]
fn argument_that_is_no_type_keeps_the_whole_node() {
    for (text, printed) in [
        ("HashMap<'a, u8>", "HashMap < 'a , u8 >"),
        ("Foo<u8, 'a>", "Foo < 'a , u8 , >"),
        ("Vec<Vec<u8>, 'a>", "Vec < 'a , Vec < u8 > , >"),
        ("Array<u8, 3>", "Array < u8 , 3 >"),
        ("Array<{ N }>", "Array < { N } >"),
        ("Iterator<Item = u8>", "Iterator < Item = u8 >"),
        ("Iterator<Item: Clone>", "Iterator < Item : Clone >"),
    ] {
        let ty = Type::new(text);
        assert_eq!(ty.name(), printed);
        assert!(ty.generics().is_empty());
    }
}

#[test]
fn fallback_below_does_not_reach_the_node_above() {
    let ty = Type::new("Outer<u8, Inner<'a>>");
    assert_eq!(ty.name(), "Outer");
    assert_eq!(ty.generics().len(), 2);
    assert_eq!(ty.generics()[0].name(), "u8");
    assert_eq!(ty.generics()[1].name(), "Inner < 'a >");
    assert!(ty.generics()[1].generics().is_empty());
    assert_eq!(render(&ty), "Outer<u8, Inner < 'a >>");
}

#[test]
fn empty_argument_list_gives_no_generics() {
    let ty = Type::new("Vec<>");
    assert_eq!(ty.name(), "Vec");
    assert!(ty.generics().is_empty());
    assert_eq!(render(&ty), "Vec");
}

#[test]
fn rendering_gives_back_what_was_read() {
    for text in [
        "Vec<u8>",
        "foo::Vec<u8>",
        "Vec<Vec<u8>>",
        "BTreeMap<u8, u8>",
        "BTreeMap<Vec<u8>, BTreeMap<u64, String>>",
        "a::b<c::d<e>, f, g<h, i<j>>>",
        "Option<Box<Node<T>>>",
    ] {
        assert_eq!(render(&Type::new(text)), text);
    }
}

#[test]
fn rendering_normalises_spacing() {
    assert_eq!(render(&Type::new("Vec <  u8 >")), "Vec<u8>");
    assert_eq!(render(&Type::new("BTreeMap<u8,u8>")), "BTreeMap<u8, u8>");
    assert_eq!(render(&Type::new("foo :: Vec<u8>")), "foo::Vec<u8>");
}

#[test]
fn try_new_tells_what_reads_as_a_type() {
    assert!(Type::try_new("u8").is_some());
    assert!(Type::try_new("not a type at all").is_some());
    assert!(Type::try_new("Vec<u8>").is_some());
    assert!(Type::try_new("Vec<").is_none());
    assert!(Type::try_new("<").is_none());
    assert!(Type::try_new("Vec<u8>>").is_none());
    assert!(Type::try_new("Vec<u8> trailing").is_none());
    assert!(Type::try_new("a < b").is_none());

    let ty = Type::try_new("foo::Vec<u8>").unwrap();
    assert_eq!(ty.name(), "foo::Vec");
    assert_eq!(generic_names(&ty), "u8");
    let ty = Type::try_new("plain").unwrap();
    assert_eq!(ty.name(), "plain");
}

#[test]
fn parse_copies_the_syntax_out() {
    let syntax = parse("foo::Map<u8, 'a, Vec<u16>>").unwrap();
    assert_eq!(syntax.tokens, "foo :: Map < 'a , u8 , Vec < u16 > >");
    let path = syntax.path.as_ref().unwrap();
    assert_eq!(path.segments, vec!["foo".to_string(), "Map".to_string()]);
    let arguments = path.arguments.as_ref().unwrap();
    assert_eq!(arguments.len(), 3);

    let first = arguments[0].as_ref().unwrap();
    assert_eq!(first.tokens, "u8");
    assert_eq!(first.path.as_ref().unwrap().segments, vec!["u8".to_string()]);
    assert!(first.path.as_ref().unwrap().arguments.is_none());

    assert!(arguments[1].is_none());

    let third = arguments[2].as_ref().unwrap();
    assert_eq!(third.tokens, "Vec < u16 >");
    let inner = third.path.as_ref().unwrap().arguments.as_ref().unwrap();
    assert_eq!(inner.len(), 1);
    assert_eq!(inner[0].as_ref().unwrap().tokens, "u16");
}

#[test]
fn parse_tells_paths_from_other_expressions() {
    let syntax = parse("&'a mut Foo<Bar>").unwrap();
    assert_eq!(syntax.tokens, "& 'a mut Foo < Bar >");
    assert!(syntax.path.is_none());

    let syntax = parse("dyn Fn(A) -> B").unwrap();
    assert!(syntax.path.is_none());

    let syntax = parse("u8").unwrap();
    assert!(syntax.path.as_ref().unwrap().arguments.is_none());

    let syntax = parse("Vec<>").unwrap();
    assert_eq!(syntax.path.as_ref().unwrap().arguments.as_ref().unwrap().len(), 0);
}

#[test]
fn parse_refuses_what_is_no_type() {
    assert!(parse("").is_none());
    assert!(parse("Vec<").is_none());
    assert!(parse("'a").is_none());
    assert!(parse("u8 u8").is_none());
    assert!(parse("3").is_none());
    assert!(parse("Fn(A) -> B").is_none());
}

#[test]
fn a_name_kept_whole_still_holds_its_marker() {
    assert!(typeref::text::contains_marker(Type::new("Vec<'a>").name()));
    assert!(typeref::text::contains_marker(Type::new("&'a Vec<u8>").name()));
    assert!(!typeref::text::contains_marker(Type::new("Vec<u8>").name()));
    assert!(!typeref::text::contains_marker(Type::new("Vec").name()));
}

#[test]
fn a_parsed_path_keeps_its_separators_in_the_name() {
    assert!(typeref::text::contains_separator(Type::new("foo::Vec<u8>").name()));
    assert!(typeref::text::contains_separator(Type::new("foo::Vec").name()));
    assert!(!typeref::text::contains_separator(Type::new("Vec<foo::Bar>").name()));
}
