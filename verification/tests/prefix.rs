use ts_rpc::{
    find_matching_delimiter, is_ts_intrinstic_type, is_type_expression, prefix_type,
    try_prefix_type, ExportError,
};

#[test]
fn test_prefix_type() {
    assert_eq!(prefix_type("foo", "bar"), "foo.bar");
    assert_eq!(prefix_type("foo", "string"), "string");
    assert_eq!(prefix_type("foo", "bar<baz>"), "foo.bar<foo.baz>");
    assert_eq!(
        prefix_type("foo", "bar<baz, qux>"),
        "foo.bar<foo.baz, foo.qux>"
    );
    assert_eq!(
        prefix_type("foo", "bar<baz, qux<quux<number, number>>>"),
        "foo.bar<foo.baz, foo.qux<foo.quux<number, number>>>"
    );
    assert_eq!(
        prefix_type("foo", "[bar<barr>, Array<bazz>]"),
        "[foo.bar<foo.barr>, Array<foo.bazz>]"
    );
    assert_eq!(
        prefix_type("list_products", "Array<Product>"),
        "Array<list_products.Product>"
    );
}

#[test]
fn test_void() {
    println!(
        "{:?}",
        prefix_type("a", "Result<[Array<SignUp>, Array<SignUp>], string>")
    );
}

#[test]
fn nested_result_is_rewritten_in_full() {
    assert_eq!(
        prefix_type("a", "Result<[Array<SignUp>, Array<SignUp>], string>"),
        "a.Result<[Array<a.SignUp>, Array<a.SignUp>], string>"
    );
}

#[test]
fn every_intrinsic_is_left_alone() {
    for name in [
        "string", "number", "boolean", "any", "void", "never", "unknown", "null", "Array",
    ] {
        assert!(is_ts_intrinstic_type(name));
        assert_eq!(prefix_type("foo", name), name);
        assert_eq!(prefix_type("", name), name);
        assert_eq!(prefix_type("some_other_namespace", name), name);
    }
}

#[test]
fn other_names_are_not_intrinsic() {
    for name in ["", "String", "array", "Record", "bigint", "string ", "nul", "nulll"] {
        assert!(!is_ts_intrinstic_type(name));
    }
    assert_eq!(prefix_type("ns", "Record<string, Item>"), "ns.Record<string, ns.Item>");
}

#[test]
fn empty_input_gives_empty_output() {
    assert_eq!(prefix_type("foo", ""), "");
    assert!(is_type_expression(""));
}

#[test]
fn white_space_around_entries_is_dropped() {
    assert_eq!(prefix_type("foo", "  bar  "), "foo.bar");
    assert_eq!(prefix_type("foo", "bar<  baz,   qux  >"), "foo.bar<foo.baz, foo.qux>");
    assert_eq!(prefix_type("foo", "bar<baz,qux>"), "foo.bar<foo.baz, foo.qux>");
    assert_eq!(prefix_type("foo", "[ a,\tb,\n c ]"), "[foo.a, foo.b, foo.c]");
    assert_eq!(prefix_type("foo", "bar<baz,>"), "foo.bar<foo.baz>");
    assert_eq!(prefix_type("foo", "bar<baz,, qux>"), "foo.bar<foo.baz, foo.qux>");
}

#[test]
fn empty_lists_are_kept() {
    assert_eq!(prefix_type("foo", "[]"), "[]");
    assert_eq!(prefix_type("foo", "bar<>"), "foo.bar<>");
}

#[test]
fn fragments_are_put_one_after_the_other() {
    assert_eq!(prefix_type("foo", "a b"), "foo.afoo.b");
    assert_eq!(prefix_type("foo", "a<b> c"), "foo.a<foo.b>foo.c");
    assert_eq!(prefix_type("foo", "[a][string]"), "[foo.a][string]");
    assert_eq!(prefix_type("foo", "a <b>"), "foo.a<foo.b>");
}

#[test]
fn underscores_and_digits_belong_to_identifiers() {
    assert_eq!(prefix_type("foo", "my_type_2"), "foo.my_type_2");
    assert_eq!(prefix_type("foo", "_x<_y>"), "foo._x<foo._y>");
    assert_eq!(prefix_type("foo", "string_"), "foo.string_");
}

#[test]
fn letters_beyond_ascii_belong_to_identifiers() {
    assert_eq!(prefix_type("foo", "Größe"), "foo.Größe");
    assert_eq!(prefix_type("foo", "Array<Größe>"), "Array<foo.Größe>");
    assert_eq!(prefix_type("foo", "\u{2003}bar\u{a0}"), "foo.bar");
}

#[test]
fn brackets_of_the_other_kind_do_not_count() {
    assert_eq!(find_matching_delimiter(&['<', '[', '>'], '<', '>'), Some(2));
    assert_eq!(prefix_type("foo", "a<[b, c], d<[e]>>"), "foo.a<[foo.b, foo.c], foo.d<[foo.e]>>");
}

#[test]
fn matching_delimiter_is_found_by_depth() {
    let s: Vec<char> = "<a<b>, c<d<e>>> tail>".chars().collect();
    assert_eq!(find_matching_delimiter(&s, '<', '>'), Some(14));
    let s: Vec<char> = "[[], [[]]]".chars().collect();
    assert_eq!(find_matching_delimiter(&s, '[', ']'), Some(9));
    let s: Vec<char> = "<>".chars().collect();
    assert_eq!(find_matching_delimiter(&s, '<', '>'), Some(1));
}

#[test]
fn matching_delimiter_is_missing() {
    let s: Vec<char> = "<a<b>".chars().collect();
    assert_eq!(find_matching_delimiter(&s, '<', '>'), None);
    assert_eq!(find_matching_delimiter(&[], '<', '>'), None);
    assert_eq!(find_matching_delimiter(&['<'], '<', '>'), None);
}

#[test]
fn matching_delimiter_without_a_leading_bracket() {
    let s: Vec<char> = "ab".chars().collect();
    assert_eq!(find_matching_delimiter(&s, '<', '>'), Some(0));
    let s: Vec<char> = "><".chars().collect();
    assert_eq!(find_matching_delimiter(&s, '<', '>'), Some(1));
}

#[test]
fn unbalanced_brackets_are_malformed() {
    for t in ["bar<baz", "[a, b", "a<b<c>", "<", "[", "a<[b>]"] {
        assert!(!is_type_expression(t), "{t}");
        assert_eq!(
            try_prefix_type("foo", t),
            Err(ExportError::MalformedTypeExpression(t.to_string()))
        );
    }
}

#[test]
fn a_missing_identifier_is_malformed() {
    for t in [" ", ">", "a>", "a, b", ",", "a | b", "< >", "<,a>", "a<b , c>", "a.b", "-"] {
        assert!(!is_type_expression(t), "{t}");
        assert_eq!(
            try_prefix_type("foo", t),
            Err(ExportError::MalformedTypeExpression(t.to_string()))
        );
    }
}

#[test]
fn well_formed_expressions_are_accepted() {
    for t in ["bar", "bar<baz, qux>", "[bar<barr>, Array<bazz>]", "", "a b", "x<>"] {
        assert!(is_type_expression(t), "{t}");
        assert_eq!(try_prefix_type("foo", t), Ok(prefix_type("foo", t)));
    }
}

#[test]
fn prefixing_twice_is_not_prefixing_once() {
    let once = prefix_type("foo", "bar");
    assert_eq!(once, "foo.bar");
    assert_ne!(try_prefix_type("foo", &once), Ok(once.clone()));
    assert_eq!(
        try_prefix_type("foo", &once),
        Err(ExportError::MalformedTypeExpression("foo.bar".to_string()))
    );
    let once = prefix_type("foo", "bar<baz>");
    assert!(!is_type_expression(&once));
}

#[test]
fn the_namespace_is_taken_as_it_is() {
    assert_eq!(prefix_type("", "bar"), ".bar");
    assert_eq!(prefix_type("a.b", "bar<baz>"), "a.b.bar<a.b.baz>");
    assert_eq!(prefix_type("<", "bar"), "<.bar");
}
