use mediasherlock::text::{chars_of, str_eq};

#[test]
fn equal_texts_are_told_from_unequal_ones() {
    assert!(str_eq("", ""));
    assert!(str_eq("Video", "Video"));
    assert!(str_eq("Ошибка", "Ошибка"));
    assert!(!str_eq("Video", "video"));
    assert!(!str_eq("Video", "Vide"));
    assert!(!str_eq("Vide", "Video"));
    assert!(!str_eq("", "a"));
    assert!(!str_eq("a", ""));
    assert!(!str_eq("abc", "abd"));
}

#[test]
fn text_is_split_into_its_characters() {
    assert_eq!(chars_of(""), Vec::<char>::new());
    assert_eq!(chars_of("1.5"), vec!['1', '.', '5']);
    assert_eq!(chars_of("кб/с"), vec!['к', 'б', '/', 'с']);
}
