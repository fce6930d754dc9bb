use scip_ctags::{emit_tags_for_scope, Descriptor, LeafSymbol, Scope, Suffix};

fn descriptor(name: &str, suffix: Suffix) -> Descriptor {
    Descriptor { name: name.to_string(), suffix }
}

fn leaf(descriptors: Vec<Descriptor>, line: i32) -> LeafSymbol {
    LeafSymbol { descriptors, range: [line, line] }
}

fn scope(descriptors: Vec<Descriptor>, start: i32, children: Vec<Scope>, globals: Vec<LeafSymbol>) -> Scope {
    Scope { descriptors, range: [start, start + 100], children, globals }
}

fn emitted(root: &Scope, parents: Vec<String>, path: &str, language: &str) -> String {
    assert!(root.is_well_formed());
    let mut out: Vec<u8> = Vec::new();
    emit_tags_for_scope(&mut out, path, parents, root, language);
    String::from_utf8(out).unwrap()
}

fn tag_line(name: &str, line: usize, kind: &str, scope: Option<&str>) -> String {
    let scope = match scope {
        Some(s) => format!("\"{}\"", s),
        None => "null".to_string(),
    };
    format!(
        "{{\"_type\":\"tag\",\"name\":\"{}\",\"path\":\"x.go\",\"language\":\"go\",\"line\":{},\"kind\":\"{}\",\"scope\":{}}}\n",
        name, line, kind, scope
    )
}

#[test]
fn type_scope_then_method_symbol_of_the_root() {
    let foo = Scope {
        descriptors: vec![descriptor("Foo", Suffix::Type)],
        range: [2, 10],
        children: vec![],
        globals: vec![],
    };
    let bar = LeafSymbol {
        descriptors: vec![descriptor("Foo", Suffix::Other), descriptor("bar", Suffix::Method)],
        range: [3, 3],
    };
    let root = Scope { descriptors: vec![], range: [0, 12], children: vec![foo], globals: vec![bar] };
    let expected = "{\"_type\":\"tag\",\"name\":\"Foo\",\"path\":\"x.go\",\"language\":\"go\",\"line\":3,\"kind\":\"type\",\"scope\":null}\n\
{\"_type\":\"tag\",\"name\":\"bar\",\"path\":\"x.go\",\"language\":\"go\",\"line\":4,\"kind\":\"method\",\"scope\":\"Foo\"}\n";
    assert_eq!(emitted(&root, vec![], "x.go", "go"), expected);
}

#[test]
fn symbol_inside_a_scope_is_qualified_by_the_scope_and_its_own_prefix() {
    let foo = Scope {
        descriptors: vec![descriptor("Foo", Suffix::Type)],
        range: [2, 10],
        children: vec![],
        globals: vec![LeafSymbol {
            descriptors: vec![descriptor("Foo", Suffix::Other), descriptor("bar", Suffix::Method)],
            range: [3, 3],
        }],
    };
    let root = Scope { descriptors: vec![], range: [0, 12], children: vec![foo], globals: vec![] };
    let expected = tag_line("Foo", 3, "type", None) + &tag_line("bar", 4, "method", Some("Foo.Foo"));
    assert_eq!(emitted(&root, vec![], "x.go", "go"), expected);
}

#[test]
fn anonymous_root_without_children_emits_nothing() {
    let root = scope(vec![], 0, vec![], vec![]);
    assert_eq!(emitted(&root, vec![], "x.go", "go"), "");
}

#[test]
fn child_of_anonymous_root_has_no_scope() {
    let root = scope(vec![], 0, vec![scope(vec![descriptor("A", Suffix::Namespace)], 4, vec![], vec![])], vec![]);
    assert_eq!(emitted(&root, vec![], "x.go", "go"), tag_line("A", 5, "namespace", None));
}

#[test]
fn nested_scope_is_enclosed_by_its_ancestors_without_itself() {
    let c = scope(vec![descriptor("C", Suffix::Method)], 30, vec![], vec![]);
    let b = scope(vec![descriptor("B", Suffix::Type)], 20, vec![c], vec![]);
    let a = scope(vec![descriptor("A", Suffix::Namespace)], 10, vec![b], vec![]);
    let root = scope(vec![], 0, vec![a], vec![]);
    let expected = tag_line("A", 11, "namespace", None)
        + &tag_line("B", 21, "type", Some("A"))
        + &tag_line("C", 31, "method", Some("A.B"));
    assert_eq!(emitted(&root, vec![], "x.go", "go"), expected);
}

#[test]
fn compound_descriptors_name_the_scope_and_qualify_what_is_below() {
    let inner = scope(vec![descriptor("helper", Suffix::Method)], 7, vec![], vec![]);
    let method = scope(
        vec![descriptor("Recv", Suffix::Type), descriptor("run", Suffix::Method)],
        5,
        vec![inner],
        vec![leaf(vec![descriptor("x", Suffix::Other)], 6)],
    );
    let root = scope(vec![], 0, vec![method], vec![]);
    let expected = tag_line("Recv.run", 6, "method", None)
        + &tag_line("helper", 8, "method", Some("Recv.run"))
        + &tag_line("x", 7, "variable", Some("Recv.run"));
    assert_eq!(emitted(&root, vec![], "x.go", "go"), expected);
}

#[test]
fn anonymous_scope_adds_nothing_to_the_scope_of_what_is_below() {
    let named = scope(vec![descriptor("N", Suffix::Type)], 3, vec![], vec![]);
    let anonymous = scope(vec![], 2, vec![named], vec![leaf(vec![descriptor("g", Suffix::Other)], 9)]);
    let root = scope(vec![], 0, vec![anonymous], vec![]);
    let expected = tag_line("N", 4, "type", None) + &tag_line("g", 10, "variable", None);
    assert_eq!(emitted(&root, vec![], "x.go", "go"), expected);
}

#[test]
fn root_with_descriptors_encloses_its_children() {
    let child = scope(vec![descriptor("inner", Suffix::Type)], 1, vec![], vec![]);
    let root = scope(vec![descriptor("pkg", Suffix::Package)], 0, vec![child], vec![]);
    let expected = tag_line("pkg", 1, "package", None) + &tag_line("inner", 2, "type", Some("pkg"));
    assert_eq!(emitted(&root, vec![], "x.go", "go"), expected);
}

#[test]
fn own_tag_then_each_subtree_then_own_symbols() {
    let a1 = scope(vec![descriptor("a1", Suffix::Method)], 11, vec![], vec![]);
    let a = scope(
        vec![descriptor("a", Suffix::Type)],
        10,
        vec![a1],
        vec![leaf(vec![descriptor("ga", Suffix::Other)], 12)],
    );
    let b = scope(
        vec![descriptor("b", Suffix::Type)],
        20,
        vec![],
        vec![leaf(vec![descriptor("gb1", Suffix::Other)], 21), leaf(vec![descriptor("gb2", Suffix::Other)], 22)],
    );
    let top = scope(
        vec![descriptor("top", Suffix::Namespace)],
        1,
        vec![a, b],
        vec![leaf(vec![descriptor("g1", Suffix::Other)], 2), leaf(vec![descriptor("g2", Suffix::Other)], 3)],
    );
    let expected = tag_line("top", 2, "namespace", None)
        + &tag_line("a", 11, "type", Some("top"))
        + &tag_line("a1", 12, "method", Some("top.a"))
        + &tag_line("ga", 13, "variable", Some("top.a"))
        + &tag_line("b", 21, "type", Some("top"))
        + &tag_line("gb1", 22, "variable", Some("top.b"))
        + &tag_line("gb2", 23, "variable", Some("top.b"))
        + &tag_line("g1", 3, "variable", Some("top"))
        + &tag_line("g2", 4, "variable", Some("top"));
    assert_eq!(emitted(&top, vec![], "x.go", "go"), expected);
}

#[test]
fn symbols_of_a_scope_come_after_its_children_even_when_declared_earlier() {
    let child = scope(vec![descriptor("late", Suffix::Type)], 50, vec![], vec![]);
    let root = scope(vec![], 0, vec![child], vec![leaf(vec![descriptor("early", Suffix::Other)], 1)]);
    let expected = tag_line("late", 51, "type", None) + &tag_line("early", 2, "variable", None);
    assert_eq!(emitted(&root, vec![], "x.go", "go"), expected);
}

#[test]
fn line_is_first_range_value_plus_one() {
    let s = Scope {
        descriptors: vec![descriptor("s", Suffix::Type)],
        range: [0, 999],
        children: vec![],
        globals: vec![
            LeafSymbol { descriptors: vec![descriptor("first", Suffix::Other)], range: [0, 7] },
            LeafSymbol { descriptors: vec![descriptor("far", Suffix::Other)], range: [41, 2] },
            LeafSymbol { descriptors: vec![descriptor("last", Suffix::Other)], range: [i32::MAX, i32::MAX] },
        ],
    };
    let expected = tag_line("s", 1, "type", None)
        + &tag_line("first", 1, "variable", Some("s"))
        + &tag_line("far", 42, "variable", Some("s"))
        + &tag_line("last", 2147483648, "variable", Some("s"));
    assert_eq!(emitted(&s, vec![], "x.go", "go"), expected);
}

#[test]
fn given_parent_scopes_enclose_the_scope() {
    let s = scope(
        vec![descriptor("s", Suffix::Type)],
        4,
        vec![],
        vec![leaf(vec![descriptor("q", Suffix::Type), descriptor("v", Suffix::Other)], 5)],
    );
    let parents = vec!["outer".to_string(), "inner".to_string()];
    let expected = tag_line("s", 5, "type", Some("outer.inner")) + &tag_line("v", 6, "variable", Some("outer.inner.s.q"));
    assert_eq!(emitted(&s, parents, "x.go", "go"), expected);
}

#[test]
fn symbol_with_one_descriptor_at_the_root_has_no_scope() {
    let root = scope(vec![], 0, vec![], vec![leaf(vec![descriptor("only", Suffix::Method)], 0)]);
    assert_eq!(emitted(&root, vec![], "x.go", "go"), tag_line("only", 1, "method", None));
}

#[test]
fn path_and_language_go_onto_every_tag() {
    let root = scope(
        vec![],
        0,
        vec![scope(vec![descriptor("A", Suffix::Type)], 1, vec![], vec![])],
        vec![leaf(vec![descriptor("b", Suffix::Other)], 2)],
    );
    let expected = "{\"_type\":\"tag\",\"name\":\"A\",\"path\":\"dir/m.rs\",\"language\":\"rust\",\"line\":2,\"kind\":\"type\",\"scope\":null}\n\
{\"_type\":\"tag\",\"name\":\"b\",\"path\":\"dir/m.rs\",\"language\":\"rust\",\"line\":3,\"kind\":\"variable\",\"scope\":null}\n";
    assert_eq!(emitted(&root, vec![], "dir/m.rs", "rust"), expected);
}

#[test]
fn emission_appends_to_what_the_writer_holds() {
    let root = scope(vec![descriptor("A", Suffix::Type)], 0, vec![], vec![]);
    let mut out: Vec<u8> = b"before\n".to_vec();
    emit_tags_for_scope(&mut out, "x.go", vec![], &root, "go");
    assert_eq!(String::from_utf8(out).unwrap(), "before\n".to_string() + &tag_line("A", 1, "type", None));
}

#[test]
fn empty_names_still_join_with_dots() {
    let s = scope(
        vec![descriptor("", Suffix::Type), descriptor("", Suffix::Method)],
        0,
        vec![scope(vec![descriptor("k", Suffix::Type)], 1, vec![], vec![])],
        vec![],
    );
    let expected = tag_line(".", 1, "method", None) + &tag_line("k", 2, "type", Some("."));
    assert_eq!(emitted(&s, vec![], "x.go", "go"), expected);
}

#[test]
fn well_formedness_is_checked_through_the_whole_tree() {
    let good = scope(
        vec![],
        0,
        vec![scope(vec![descriptor("A", Suffix::Type)], 1, vec![], vec![leaf(vec![descriptor("a", Suffix::Other)], 2)])],
        vec![],
    );
    assert!(good.is_well_formed());
    let negative_line = scope(vec![], -1, vec![], vec![]);
    assert!(!negative_line.is_well_formed());
    let nameless_symbol = scope(vec![], 0, vec![scope(vec![], 1, vec![], vec![leaf(vec![], 2)])], vec![]);
    assert!(!nameless_symbol.is_well_formed());
    let negative_symbol = scope(vec![], 0, vec![], vec![leaf(vec![descriptor("a", Suffix::Other)], -3)]);
    assert!(!negative_symbol.is_well_formed());
    let deep = scope(vec![], 0, vec![scope(vec![], 1, vec![scope(vec![], -5, vec![], vec![])], vec![])], vec![]);
    assert!(!deep.is_well_formed());
    assert!(leaf(vec![descriptor("a", Suffix::Other)], 0).is_well_formed());
    assert!(!leaf(vec![], 0).is_well_formed());
}
