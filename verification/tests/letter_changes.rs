use coderbyte_rust::letter_changes;

#[test]
fn letter_changes_reverse_short_string() {
    let input = "Hello";
    let expected = "Ifmmp";
    let result = letter_changes(input);
    assert_eq!(&result, expected);
}

#[test]
fn letter_changes_longer_string() {
    let input = "This is sparta!";
    let expected = "UIjt jt tqbsUb!";
    let result = letter_changes(input);
    assert_eq!(&result, expected);
}

#[test]
fn letter_changes_wraps_and_capitalizes_vowels() {
    assert_eq!(letter_changes("zZ"), "AA");
    assert_eq!(letter_changes("yY"), "zZ");
    assert_eq!(letter_changes("d"), "E");
    assert_eq!(letter_changes("hello*3"), "Ifmmp*3");
    assert_eq!(letter_changes(""), "");
    assert_eq!(letter_changes("7&?"), "7&?");
}
