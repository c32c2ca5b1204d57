use mogeefont::StrLigatureSubstitution;

#[test]
fn test_substitute() {
    let offset = 31;
    let mapping = StrLigatureSubstitution::new("\0\u{66}\u{66}\u{69}\0\u{66}\u{66}\0\u{66}\u{69}\0\u{66}\u{6a}\0\u{67}\u{6a}\0\u{6a}\u{6a}\0\u{73}\u{73}\0\u{79}\u{6a}", offset);
    assert_eq!(mapping.substitute(&['f' as u8]), None);
    assert_eq!(
        mapping.substitute("ffi".as_bytes()),
        Some((offset + 0, "".as_bytes()))
    );
    assert_eq!(
        mapping.substitute("ff".as_bytes()),
        Some((offset + 1, "".as_bytes()))
    );
    assert_eq!(
        mapping.substitute("fi".as_bytes()),
        Some((offset + 2, "".as_bytes()))
    );
    assert_eq!(
        mapping.substitute("yj".as_bytes()),
        Some((offset + 7, "".as_bytes()))
    );
}

#[test]
fn the_first_ligature_of_the_list_wins() {
    let list = StrLigatureSubstitution::new("\0ffi\0ff\0fi", 10);
    let text: Vec<char> = "ffix".chars().collect();
    assert_eq!(list.substitute_chars(&text), Some((10, 3)));
    assert_eq!(list.substitute("ffix".as_bytes()), Some((10, "x".as_bytes())));
    assert_eq!(list.substitute_chars(&text[1..]), Some((12, 2)));
    assert_eq!(list.substitute_chars(&text[2..]), None);
    assert_eq!(list.substitute_chars(&[]), None);
    assert_eq!(list.substitute("ff".as_bytes()), Some((11, "".as_bytes())));
    // in another order the shorter one is found first
    let short_first = StrLigatureSubstitution::new("\0ff\0ffi", 10);
    assert_eq!(short_first.substitute_chars(&text), Some((10, 2)));
    assert_eq!(short_first.substitute("ffix".as_bytes()), Some((10, "ix".as_bytes())));
}

#[test]
fn empty_stretches_are_no_ligatures() {
    let list = StrLigatureSubstitution::new("\0\0ab\0\0\0cd\0", 3);
    assert_eq!(list.count(), 2);
    assert_eq!(list.first_index(), 3);
    assert_eq!(list.ligatures(), vec!["ab".as_bytes(), "cd".as_bytes()]);
    assert_eq!(list.scalars(), vec!['\0', '\0', 'a', 'b', '\0', '\0', '\0', 'c', 'd', '\0']);
    assert_eq!(list.substitute("cde".as_bytes()), Some((4, "e".as_bytes())));
    assert_eq!(list.substitute("".as_bytes()), None);
    let none = StrLigatureSubstitution::new("", 3);
    assert_eq!(none.count(), 0);
    assert_eq!(none.substitute("ab".as_bytes()), None);
    let bare = StrLigatureSubstitution::new("ab", 0);
    assert_eq!(bare.substitute("abc".as_bytes()), Some((0, "c".as_bytes())));
}

#[test]
fn ligatures_of_other_scripts() {
    let list = StrLigatureSubstitution::new("\0ёж\0éa", 40);
    let text: Vec<char> = "éab".chars().collect();
    assert_eq!(list.substitute_chars(&text), Some((41, 2)));
    assert_eq!(list.substitute("éab".as_bytes()), Some((41, "b".as_bytes())));
    assert_eq!(list.ligatures(), vec!["ёж".as_bytes(), "éa".as_bytes()]);
}
