use typo_checker::{
    close_keyboard_placement_list, get_typo_type_name, similar_shape_list, CharacterPositon,
    TypoType,
};

#[test]
fn typo_type_names() {
    let extra = TypoType::ExtraCharacters {
        character: 'a',
        position: CharacterPositon::Head,
    };
    let missing = TypoType::MissingCharacters {
        character: 'z',
        position: CharacterPositon::Tail,
    };
    assert_eq!(get_typo_type_name(&extra), "ExtraCharacters");
    assert_eq!(get_typo_type_name(&missing), "MissingCharacters");
    assert_eq!(
        get_typo_type_name(&TypoType::CloseKeyboardPlacement),
        "CloseKeyboardPlacement"
    );
    assert_eq!(get_typo_type_name(&TypoType::SimilarShapes), "SimilarShapes");
    assert_eq!(get_typo_type_name(&TypoType::UndefinedType), "UndefinedType");
}

#[test]
fn keyboard_table_has_the_letters() {
    let table = close_keyboard_placement_list();
    assert_eq!(table.len(), 26);
    for letter in 'a'..='z' {
        assert!(table.contains_key(&(letter as u32)));
    }
    assert!(!table.contains_key(&('A' as u32)));
    assert!(!table.contains_key(&('1' as u32)));
}

#[test]
fn keyboard_table_rows() {
    let table = close_keyboard_placement_list();
    assert_eq!(table[&('q' as u32)], ['w', 's', 'a']);
    assert_eq!(table[&('a' as u32)], ['q', 'w', 's', 'x', 'z']);
    assert_eq!(table[&('s' as u32)], ['q', 'w', 'e', 'd', 'c', 'x', 'z', 'a']);
    assert_eq!(table[&('h' as u32)], ['t', 'y', 'u', 'j', 'm', 'n', 'b', 'g']);
    assert_eq!(table[&('p' as u32)], ['o', 'l']);
    assert_eq!(table[&('m' as u32)], ['h', 'j', 'k', 'n']);
    assert_eq!(table[&('z' as u32)], ['a', 's', 'x']);
}

#[test]
fn shape_groups_in_their_order() {
    let groups = similar_shape_list();
    assert_eq!(
        groups,
        vec![
            vec!['a', 'c', 'e', 'o'],
            vec!['b', 'd'],
            vec!['f', 'l'],
            vec!['g', 'q'],
            vec!['m', 'n'],
            vec!['p', 'q'],
            vec!['u', 'v'],
        ]
    );
}
