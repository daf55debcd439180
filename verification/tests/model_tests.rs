use majiang::model::{decimal_string, face_of_id, Majiang};

#[test]
fn format_shows_number_and_suit() {
    assert_eq!(Majiang::format(&Majiang::Wan(3)), "3-W");
    assert_eq!(Majiang::format(&Majiang::Tiao(9)), "9-T");
    assert_eq!(Majiang::format(&Majiang::Bin(1)), "1-B");
    assert_eq!(Majiang::format(&Majiang::BaiBan), "Bai");
}

#[test]
fn white_board_is_the_last_kind() {
    assert!(Majiang::is_bai_bang(108));
    assert!(Majiang::is_bai_bang(111));
    assert!(!Majiang::is_bai_bang(107));
    assert!(!Majiang::is_bai_bang(0));
}

#[test]
fn begin_cards_open_a_suit() {
    assert!(Majiang::begin_card(0));
    assert!(Majiang::begin_card(3));
    assert!(Majiang::begin_card(36));
    assert!(Majiang::begin_card(72));
    assert!(!Majiang::begin_card(4));
    assert!(!Majiang::begin_card(108));
}

#[test]
fn end_cards_close_a_suit() {
    assert!(Majiang::end_card(32));
    assert!(Majiang::end_card(35));
    assert!(Majiang::end_card(68));
    assert!(Majiang::end_card(104));
    assert!(!Majiang::end_card(31));
    assert!(!Majiang::end_card(36));
}

#[test]
fn faces_of_a_full_set() {
    assert_eq!(face_of_id(0), Majiang::Wan(1));
    assert_eq!(face_of_id(35), Majiang::Wan(9));
    assert_eq!(face_of_id(36), Majiang::Tiao(1));
    assert_eq!(face_of_id(71), Majiang::Tiao(9));
    assert_eq!(face_of_id(72), Majiang::Bin(1));
    assert_eq!(face_of_id(107), Majiang::Bin(9));
    assert_eq!(face_of_id(111), Majiang::BaiBan);
}

#[test]
fn decimal_text_of_bytes() {
    assert_eq!(decimal_string(0), "0");
    assert_eq!(decimal_string(7), "7");
    assert_eq!(decimal_string(42), "42");
    assert_eq!(decimal_string(100), "100");
    assert_eq!(decimal_string(255), "255");
}
