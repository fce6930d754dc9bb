use scip_ctags::descriptor::{join_dotted, push_names};
use scip_ctags::{descriptors_to_kind, Descriptor, Suffix};

fn descriptor(name: &str, suffix: Suffix) -> Descriptor {
    Descriptor { name: name.to_string(), suffix }
}

#[test]
fn each_category_has_its_kind() {
    assert_eq!(descriptors_to_kind(&[descriptor("a", Suffix::Namespace)]), "namespace");
    assert_eq!(descriptors_to_kind(&[descriptor("a", Suffix::Package)]), "package");
    assert_eq!(descriptors_to_kind(&[descriptor("a", Suffix::Method)]), "method");
    assert_eq!(descriptors_to_kind(&[descriptor("a", Suffix::Type)]), "type");
    assert_eq!(descriptors_to_kind(&[descriptor("a", Suffix::Other)]), "variable");
}

#[test]
fn no_descriptor_is_a_variable() {
    assert_eq!(descriptors_to_kind(&[]), "variable");
}

#[test]
fn only_the_last_descriptor_decides_the_kind() {
    let first = [descriptor("T", Suffix::Type), descriptor("m", Suffix::Method)];
    let second = [
        descriptor("ns", Suffix::Namespace),
        descriptor("p", Suffix::Package),
        descriptor("other", Suffix::Method),
    ];
    assert_eq!(descriptors_to_kind(&first), "method");
    assert_eq!(descriptors_to_kind(&second), "method");
    assert_eq!(descriptors_to_kind(&[descriptor("m", Suffix::Method), descriptor("T", Suffix::Type)]), "type");
}

#[test]
fn kind_is_the_same_on_every_call() {
    let descriptors = [descriptor("T", Suffix::Type), descriptor("x", Suffix::Other)];
    let first = descriptors_to_kind(&descriptors);
    let second = descriptors_to_kind(&descriptors);
    assert_eq!(first, second);
    assert_eq!(first, "variable");
}

#[test]
fn names_join_with_dots() {
    assert_eq!(join_dotted(&vec![]), "");
    assert_eq!(join_dotted(&vec!["a".to_string()]), "a");
    assert_eq!(join_dotted(&vec!["a".to_string(), "b".to_string(), "c".to_string()]), "a.b.c");
    assert_eq!(join_dotted(&vec!["".to_string(), "".to_string()]), ".");
    assert_eq!(join_dotted(&vec!["é".to_string(), "ü.x".to_string()]), "é.ü.x");
}

#[test]
fn push_names_takes_the_first_names_in_order() {
    let descriptors = [descriptor("a", Suffix::Type), descriptor("b", Suffix::Method), descriptor("c", Suffix::Other)];
    let mut names = vec!["z".to_string()];
    push_names(&mut names, &descriptors, 2);
    assert_eq!(names, vec!["z".to_string(), "a".to_string(), "b".to_string()]);
    push_names(&mut names, &descriptors, 0);
    assert_eq!(names.len(), 3);
    push_names(&mut names, &descriptors, 3);
    assert_eq!(names.len(), 6);
    assert_eq!(names[5], "c");
}
