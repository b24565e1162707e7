use bigtwo::cards::{Card, Rank, Suit};

#[test]
fn basic_test_card_ordering() {
    let card1 = Card::new(Rank::Three, Suit::Diamonds);
    let card2 = Card::new(Rank::Three, Suit::Spades);
    let card3 = Card::new(Rank::Two, Suit::Diamonds);

    assert!(card2 > card1); // Same rank, higher suit
    assert!(card3 > card1); // Higher rank
    assert!(card3 > card2); // Higher rank beats higher suit
}

#[test]
fn basic_test_card_from_string() {
    let king_hearts = Card::from_string("KH").unwrap();
    assert_eq!(king_hearts.rank, Rank::King);
    assert_eq!(king_hearts.suit, Suit::Hearts);

    let two_spades = Card::from_string("2S").unwrap();
    assert_eq!(two_spades.rank, Rank::Two);
    assert_eq!(two_spades.suit, Suit::Spades);

    let ten_diamonds = Card::from_string("TD").unwrap();
    assert_eq!(ten_diamonds.rank, Rank::Ten);
    assert_eq!(ten_diamonds.suit, Suit::Diamonds);

    assert!(Card::from_string("ZH").is_err()); // Invalid rank
    assert!(Card::from_string("KX").is_err()); // Invalid suit
    assert!(Card::from_string("K").is_err()); // Too short
}

#[test]
fn basic_test_suit_try_from() {
    assert_eq!(Suit::try_from("D"), Ok(Suit::Diamonds));
    assert_eq!(Suit::try_from("C"), Ok(Suit::Clubs));
    assert_eq!(Suit::try_from("H"), Ok(Suit::Hearts));
    assert_eq!(Suit::try_from("S"), Ok(Suit::Spades));

    assert!(Suit::try_from("X").is_err());
    assert!(Suit::try_from("").is_err());
    assert!(Suit::try_from("DD").is_err());
}

#[test]
fn basic_test_suit_display() {
    assert_eq!(Suit::Diamonds.to_string(), "D");
    assert_eq!(Suit::Clubs.to_string(), "C");
    assert_eq!(Suit::Hearts.to_string(), "H");
    assert_eq!(Suit::Spades.to_string(), "S");
}

#[test]
fn basic_test_rank_try_from() {
    assert_eq!(Rank::try_from("3"), Ok(Rank::Three));
    assert_eq!(Rank::try_from("4"), Ok(Rank::Four));
    assert_eq!(Rank::try_from("5"), Ok(Rank::Five));
    assert_eq!(Rank::try_from("6"), Ok(Rank::Six));
    assert_eq!(Rank::try_from("7"), Ok(Rank::Seven));
    assert_eq!(Rank::try_from("8"), Ok(Rank::Eight));
    assert_eq!(Rank::try_from("9"), Ok(Rank::Nine));
    assert_eq!(Rank::try_from("T"), Ok(Rank::Ten));
    assert_eq!(Rank::try_from("J"), Ok(Rank::Jack));
    assert_eq!(Rank::try_from("Q"), Ok(Rank::Queen));
    assert_eq!(Rank::try_from("K"), Ok(Rank::King));
    assert_eq!(Rank::try_from("A"), Ok(Rank::Ace));
    assert_eq!(Rank::try_from("2"), Ok(Rank::Two));

    assert!(Rank::try_from("1").is_err());
    assert!(Rank::try_from("0").is_err());
    assert!(Rank::try_from("X").is_err());
    assert!(Rank::try_from("").is_err());
    assert!(Rank::try_from("TT").is_err());
}

#[test]
fn basic_test_rank_display() {
    assert_eq!(Rank::Three.to_string(), "3");
    assert_eq!(Rank::Four.to_string(), "4");
    assert_eq!(Rank::Five.to_string(), "5");
    assert_eq!(Rank::Six.to_string(), "6");
    assert_eq!(Rank::Seven.to_string(), "7");
    assert_eq!(Rank::Eight.to_string(), "8");
    assert_eq!(Rank::Nine.to_string(), "9");
    assert_eq!(Rank::Ten.to_string(), "T");
    assert_eq!(Rank::Jack.to_string(), "J");
    assert_eq!(Rank::Queen.to_string(), "Q");
    assert_eq!(Rank::King.to_string(), "K");
    assert_eq!(Rank::Ace.to_string(), "A");
    assert_eq!(Rank::Two.to_string(), "2");
}

#[test]
fn basic_test_card_display() {
    let king_hearts = Card::new(Rank::King, Suit::Hearts);
    assert_eq!(king_hearts.to_string(), "KH");

    let two_spades = Card::new(Rank::Two, Suit::Spades);
    assert_eq!(two_spades.to_string(), "2S");

    let ten_diamonds = Card::new(Rank::Ten, Suit::Diamonds);
    assert_eq!(ten_diamonds.to_string(), "TD");

    let ace_clubs = Card::new(Rank::Ace, Suit::Clubs);
    assert_eq!(ace_clubs.to_string(), "AC");
}

#[test]
fn basic_test_card_from_string_edge_cases() {
    assert!(Card::from_string("").is_err());
    assert!(Card::from_string("K").is_err());
    assert!(Card::from_string("KHS").is_err());

    for rank in Rank::all() {
        for suit in Suit::all() {
            let card = Card::new(rank, suit);
            let card_str = card.to_string();
            let parsed_card = Card::from_string(&card_str).unwrap();
            assert_eq!(card, parsed_card);
        }
    }
}

#[test]
fn deck_holds_each_card_once_in_suit_then_rank_order() {
    let deck = Card::all_cards();
    assert_eq!(deck.len(), 52);
    assert_eq!(deck[0], Card::new(Rank::Three, Suit::Diamonds));
    assert_eq!(deck[12], Card::new(Rank::Two, Suit::Diamonds));
    assert_eq!(deck[13], Card::new(Rank::Three, Suit::Clubs));
    assert_eq!(deck[51], Card::new(Rank::Two, Suit::Spades));
    for i in 0..52 {
        for j in (i + 1)..52 {
            assert_ne!(deck[i], deck[j]);
        }
    }
}

#[test]
fn card_keys_follow_rank_then_suit() {
    assert_eq!(Card::new(Rank::Three, Suit::Diamonds).key(), 0);
    assert_eq!(Card::new(Rank::Three, Suit::Spades).key(), 3);
    assert_eq!(Card::new(Rank::Four, Suit::Diamonds).key(), 4);
    assert_eq!(Card::new(Rank::Two, Suit::Spades).key(), 51);
    assert_eq!(Rank::King.value(), 10);
    assert_eq!(Suit::Hearts.value(), 2);
}

#[test]
fn symbols_read_back() {
    assert_eq!(Rank::from_symbol('Q'), Some(Rank::Queen));
    assert_eq!(Rank::from_symbol('q'), None);
    assert_eq!(Suit::from_symbol('C'), Some(Suit::Clubs));
    assert_eq!(Suit::from_symbol('c'), None);
    assert_eq!(Suit::try_from("Z"), Err("Z".to_string()));
    assert_eq!(Rank::try_from("10"), Err("10".to_string()));
    assert!(Card::from_string("3d").is_err());
    assert!(Card::from_string("éa").is_err());
}
