use cleu_orm::{camel_case_with, snake_case_with, to_camel_case, to_snake_case};

#[test]
fn snake_case_of_type_names() {
    assert_eq!(to_snake_case("FooBar"), "foo_bar");
    assert_eq!(to_snake_case("fooBarBaz"), "foo_bar_baz");
    assert_eq!(to_snake_case("ABc"), "aBc");
    assert_eq!(to_snake_case("Table2Name"), "table2Name");
    assert_eq!(to_snake_case(""), "");
}

#[test]
fn camel_case_of_field_names() {
    assert_eq!(to_camel_case("foo_bar"), "Foo_Bar");
    assert_eq!(to_camel_case("_x"), "_X");
    assert_eq!(to_camel_case("Already"), "Already");
    assert_eq!(to_camel_case(""), "");
}

#[test]
fn conversions_follow_the_given_case_flags() {
    assert_eq!(camel_case_with("ab", &vec![false, false]), "ab");
    assert_eq!(camel_case_with("a_b", &vec![true, false, true]), "A_B");
    assert_eq!(snake_case_with("aB", &vec![true, false], &vec![false, true]), "a_b");
    assert_eq!(snake_case_with("aB", &vec![false, false], &vec![false, true]), "aB");
}
