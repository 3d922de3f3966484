use coderbyte_rust::first_reverse;

#[test]
fn first_reverse_reverse_short_string() {
    let input = "Hello world";
    let expected = "dlrow olleH";
    let result = first_reverse(input);
    assert_eq!(&result, expected);
}

#[test]
fn first_reverse_longer_string() {
    let input = "Hi, this is a long string";
    let expected = "gnirts gnol a si siht ,iH";
    let result = first_reverse(input);
    assert_eq!(&result, expected);
}

#[test]
fn first_reverse_edge_cases() {
    assert_eq!(first_reverse(""), "");
    assert_eq!(first_reverse("a"), "a");
    assert_eq!(first_reverse("ab"), "ba");
}
