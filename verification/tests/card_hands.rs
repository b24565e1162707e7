use bigtwo::cards::{Card, Rank, Suit};
use bigtwo::hands::{compare_played_cards, FiveCardHand, Hand, HandError, PairHand, SingleHand};

fn c(rank: Rank, suit: Suit) -> Card {
    Card::new(rank, suit)
}

#[test]
fn tests_test_card_ordering() {
    let card1 = Card::new(Rank::Three, Suit::Diamonds);
    let card2 = Card::new(Rank::Three, Suit::Spades);
    let card3 = Card::new(Rank::Two, Suit::Diamonds);

    assert!(card2 > card1);
    assert!(card3 > card1);
    assert!(card3 > card2);
}

#[test]
fn test_single_hand() {
    let card1 = Card::new(Rank::King, Suit::Hearts);
    let card2 = Card::new(Rank::Queen, Suit::Spades);

    let hand1 = Hand::from_cards(&vec![card1]).unwrap();
    let hand2 = Hand::from_cards(&vec![card2]).unwrap();

    assert!(hand1.can_beat(&hand2));

    let pair = Hand::from_cards(&vec![
        Card::new(Rank::Three, Suit::Hearts),
        Card::new(Rank::Three, Suit::Spades),
    ])
    .unwrap();

    assert!(!hand1.can_beat(&pair)); // Single cannot beat pair
    assert!(!pair.can_beat(&hand1)); // Pair cannot beat single
}

#[test]
fn test_pair_hand() {
    let pair1 = Hand::from_cards(&vec![
        Card::new(Rank::King, Suit::Hearts),
        Card::new(Rank::King, Suit::Spades),
    ])
    .unwrap();

    let pair2 = Hand::from_cards(&vec![
        Card::new(Rank::Queen, Suit::Diamonds),
        Card::new(Rank::Queen, Suit::Clubs),
    ])
    .unwrap();

    assert!(pair1.can_beat(&pair2));

    let pair3 = Hand::from_cards(&vec![
        Card::new(Rank::King, Suit::Diamonds),
        Card::new(Rank::King, Suit::Clubs),
    ])
    .unwrap();

    assert!(pair1.can_beat(&pair3)); // Spades beats Clubs for the high card
}

#[test]
fn test_triple_hand() {
    let triple1 = Hand::from_cards(&vec![
        Card::new(Rank::King, Suit::Hearts),
        Card::new(Rank::King, Suit::Spades),
        Card::new(Rank::King, Suit::Diamonds),
    ])
    .unwrap();

    let triple2 = Hand::from_cards(&vec![
        Card::new(Rank::Queen, Suit::Hearts),
        Card::new(Rank::Queen, Suit::Spades),
        Card::new(Rank::Queen, Suit::Diamonds),
    ])
    .unwrap();

    assert!(triple1.can_beat(&triple2));
}

#[test]
fn test_construct_invalid_straight() {
    let straight = Hand::from_cards(&vec![
        Card::new(Rank::Jack, Suit::Hearts),
        Card::new(Rank::Queen, Suit::Spades),
        Card::new(Rank::King, Suit::Diamonds),
        Card::new(Rank::Ace, Suit::Clubs),
        Card::new(Rank::Two, Suit::Hearts),
    ]);

    assert!(straight.is_err());
    assert_eq!(straight.err(), Some(HandError::InvalidHandType));
}

#[test]
fn test_construct_valid_straight_with_ace() {
    let straight = Hand::from_cards(&vec![
        Card::new(Rank::Ace, Suit::Hearts),
        Card::new(Rank::Two, Suit::Spades),
        Card::new(Rank::Three, Suit::Diamonds),
        Card::new(Rank::Four, Suit::Clubs),
        Card::new(Rank::Five, Suit::Hearts),
    ]);

    assert!(straight.is_ok());
}

#[test]
fn test_construct_valid_ace_high_straight() {
    let straight = Hand::from_cards(&vec![
        Card::new(Rank::Ten, Suit::Hearts),
        Card::new(Rank::Jack, Suit::Spades),
        Card::new(Rank::Queen, Suit::Diamonds),
        Card::new(Rank::King, Suit::Clubs),
        Card::new(Rank::Ace, Suit::Hearts),
    ]);

    assert!(straight.is_ok());
    match straight.unwrap() {
        Hand::Five(FiveCardHand::Straight(_)) => (),
        _ => panic!("Expected straight hand"),
    }
}

#[test]
fn test_straight() {
    let straight = Hand::from_cards(&vec![
        Card::new(Rank::Six, Suit::Clubs),
        Card::new(Rank::Three, Suit::Hearts),
        Card::new(Rank::Five, Suit::Diamonds),
        Card::new(Rank::Four, Suit::Spades),
        Card::new(Rank::Seven, Suit::Hearts),
    ])
    .unwrap();

    match straight {
        Hand::Five(five) => match five {
            FiveCardHand::Straight(_) => (),
            _ => panic!("Expected straight hand"),
        },
        _ => panic!("Expected five card hand"),
    }
}

fn check_invalid_straight(cards: Vec<Card>) {
    let result = Hand::from_cards(&cards);
    assert!(result.is_err());
    assert_eq!(result.err(), Some(HandError::InvalidHandType));
}

#[test]
fn test_invalid_straights_king_to_four() {
    check_invalid_straight(vec![
        c(Rank::King, Suit::Hearts),
        c(Rank::Ace, Suit::Spades),
        c(Rank::Two, Suit::Diamonds),
        c(Rank::Three, Suit::Clubs),
        c(Rank::Four, Suit::Hearts),
    ]);
}

#[test]
fn test_invalid_straights_queen_to_three() {
    check_invalid_straight(vec![
        c(Rank::Queen, Suit::Hearts),
        c(Rank::King, Suit::Spades),
        c(Rank::Ace, Suit::Diamonds),
        c(Rank::Two, Suit::Clubs),
        c(Rank::Three, Suit::Hearts),
    ]);
}

#[test]
fn test_invalid_straights_gap_at_five() {
    check_invalid_straight(vec![
        c(Rank::Ace, Suit::Hearts),
        c(Rank::Two, Suit::Spades),
        c(Rank::Three, Suit::Diamonds),
        c(Rank::Four, Suit::Clubs),
        c(Rank::Six, Suit::Hearts),
    ]);
}

#[test]
fn test_invalid_straights_gap_at_six() {
    check_invalid_straight(vec![
        c(Rank::Two, Suit::Hearts),
        c(Rank::Three, Suit::Spades),
        c(Rank::Four, Suit::Diamonds),
        c(Rank::Five, Suit::Clubs),
        c(Rank::Seven, Suit::Hearts),
    ]);
}

fn check_valid_straight(cards: Vec<Card>) {
    let result = Hand::from_cards(&cards);
    assert!(result.is_ok());
    match result.unwrap() {
        Hand::Five(FiveCardHand::Straight(_)) => (),
        _ => panic!("Expected straight hand"),
    }
}

#[test]
fn test_valid_normal_straights_three_to_seven() {
    check_valid_straight(vec![
        c(Rank::Three, Suit::Hearts),
        c(Rank::Four, Suit::Spades),
        c(Rank::Five, Suit::Diamonds),
        c(Rank::Six, Suit::Clubs),
        c(Rank::Seven, Suit::Hearts),
    ]);
}

#[test]
fn test_valid_normal_straights_seven_to_jack() {
    check_valid_straight(vec![
        c(Rank::Seven, Suit::Hearts),
        c(Rank::Eight, Suit::Spades),
        c(Rank::Nine, Suit::Diamonds),
        c(Rank::Ten, Suit::Clubs),
        c(Rank::Jack, Suit::Hearts),
    ]);
}

#[test]
fn test_valid_normal_straights_nine_to_king() {
    check_valid_straight(vec![
        c(Rank::Nine, Suit::Hearts),
        c(Rank::Ten, Suit::Spades),
        c(Rank::Jack, Suit::Diamonds),
        c(Rank::Queen, Suit::Clubs),
        c(Rank::King, Suit::Hearts),
    ]);
}

fn five_to_nine_straight() -> Hand {
    Hand::from_cards(&vec![
        c(Rank::Five, Suit::Hearts),
        c(Rank::Six, Suit::Spades),
        c(Rank::Seven, Suit::Diamonds),
        c(Rank::Eight, Suit::Clubs),
        c(Rank::Nine, Suit::Hearts),
    ])
    .unwrap()
}

#[test]
fn test_straight_comparison_with_lower_straight() {
    let other = Hand::from_cards(&vec![
        c(Rank::Three, Suit::Hearts),
        c(Rank::Four, Suit::Spades),
        c(Rank::Five, Suit::Diamonds),
        c(Rank::Six, Suit::Clubs),
        c(Rank::Seven, Suit::Hearts),
    ])
    .unwrap();
    assert_eq!(five_to_nine_straight().can_beat(&other), true);
}

#[test]
fn test_straight_comparison_with_lower_top_suit() {
    let other = Hand::from_cards(&vec![
        c(Rank::Five, Suit::Hearts),
        c(Rank::Six, Suit::Spades),
        c(Rank::Seven, Suit::Diamonds),
        c(Rank::Eight, Suit::Clubs),
        c(Rank::Nine, Suit::Diamonds),
    ])
    .unwrap();
    assert_eq!(five_to_nine_straight().can_beat(&other), true);
}

#[test]
fn test_straight_comparison_with_higher_top_suit() {
    let other = Hand::from_cards(&vec![
        c(Rank::Five, Suit::Hearts),
        c(Rank::Six, Suit::Spades),
        c(Rank::Seven, Suit::Diamonds),
        c(Rank::Eight, Suit::Clubs),
        c(Rank::Nine, Suit::Spades),
    ])
    .unwrap();
    assert_eq!(five_to_nine_straight().can_beat(&other), false);
}

fn hearts_flush() -> Hand {
    Hand::from_cards(&vec![
        c(Rank::Three, Suit::Hearts),
        c(Rank::Six, Suit::Hearts),
        c(Rank::Seven, Suit::Hearts),
        c(Rank::Eight, Suit::Hearts),
        c(Rank::Jack, Suit::Hearts),
    ])
    .unwrap()
}

#[test]
fn test_flush_comparison_with_lower_suit_flush() {
    let other = Hand::from_cards(&vec![
        c(Rank::Five, Suit::Diamonds),
        c(Rank::Six, Suit::Diamonds),
        c(Rank::Seven, Suit::Diamonds),
        c(Rank::Eight, Suit::Diamonds),
        c(Rank::King, Suit::Diamonds),
    ])
    .unwrap();
    assert_eq!(hearts_flush().can_beat(&other), true);
}

#[test]
fn test_flush_comparison_with_higher_suit_flush() {
    let other = Hand::from_cards(&vec![
        c(Rank::Five, Suit::Spades),
        c(Rank::Six, Suit::Spades),
        c(Rank::Seven, Suit::Spades),
        c(Rank::Eight, Suit::Spades),
        c(Rank::Jack, Suit::Spades),
    ])
    .unwrap();
    assert_eq!(hearts_flush().can_beat(&other), false);
}

#[test]
fn test_flush_comparison_with_higher_card_same_suit() {
    let other = Hand::from_cards(&vec![
        c(Rank::Five, Suit::Hearts),
        c(Rank::Six, Suit::Hearts),
        c(Rank::Seven, Suit::Hearts),
        c(Rank::Eight, Suit::Hearts),
        c(Rank::King, Suit::Hearts),
    ])
    .unwrap();
    assert_eq!(hearts_flush().can_beat(&other), false);
}

fn four_aces() -> Hand {
    Hand::from_cards(&vec![
        c(Rank::Ace, Suit::Hearts),
        c(Rank::Ace, Suit::Spades),
        c(Rank::Ace, Suit::Diamonds),
        c(Rank::Ace, Suit::Clubs),
        c(Rank::King, Suit::Hearts),
    ])
    .unwrap()
}

#[test]
fn test_four_of_a_kind_comparison() {
    let straight = Hand::from_cards(&vec![
        c(Rank::Three, Suit::Hearts),
        c(Rank::Four, Suit::Spades),
        c(Rank::Five, Suit::Diamonds),
        c(Rank::Six, Suit::Clubs),
        c(Rank::Seven, Suit::Hearts),
    ])
    .unwrap();
    assert_eq!(four_aces().can_beat(&straight), true);
    let flush = Hand::from_cards(&vec![
        c(Rank::Three, Suit::Hearts),
        c(Rank::Five, Suit::Hearts),
        c(Rank::Seven, Suit::Hearts),
        c(Rank::Nine, Suit::Hearts),
        c(Rank::Jack, Suit::Hearts),
    ])
    .unwrap();
    assert_eq!(four_aces().can_beat(&flush), true);
    let full_house = Hand::from_cards(&vec![
        c(Rank::Three, Suit::Hearts),
        c(Rank::Three, Suit::Spades),
        c(Rank::Three, Suit::Diamonds),
        c(Rank::King, Suit::Clubs),
        c(Rank::King, Suit::Hearts),
    ])
    .unwrap();
    assert_eq!(four_aces().can_beat(&full_house), true);
    let four_twos = Hand::from_cards(&vec![
        c(Rank::Two, Suit::Hearts),
        c(Rank::Two, Suit::Spades),
        c(Rank::Two, Suit::Diamonds),
        c(Rank::Two, Suit::Clubs),
        c(Rank::King, Suit::Hearts),
    ])
    .unwrap();
    assert_eq!(four_aces().can_beat(&four_twos), false);
    let straight_flush = Hand::from_cards(&vec![
        c(Rank::Three, Suit::Hearts),
        c(Rank::Four, Suit::Hearts),
        c(Rank::Five, Suit::Hearts),
        c(Rank::Six, Suit::Hearts),
        c(Rank::Seven, Suit::Hearts),
    ])
    .unwrap();
    assert_eq!(four_aces().can_beat(&straight_flush), false);
}

#[test]
fn test_full_house() {
    let full_house = Hand::from_cards(&vec![
        Card::new(Rank::Three, Suit::Hearts),
        Card::new(Rank::Three, Suit::Spades),
        Card::new(Rank::Three, Suit::Diamonds),
        Card::new(Rank::King, Suit::Clubs),
        Card::new(Rank::King, Suit::Hearts),
    ])
    .unwrap();

    match full_house {
        Hand::Five(five) => match five {
            FiveCardHand::FullHouse(_) => (),
            _ => panic!("Expected full house"),
        },
        _ => panic!("Expected five card hand"),
    }
}

#[test]
fn test_full_house_comparison() {
    let full_house = Hand::from_cards(&vec![
        c(Rank::Five, Suit::Hearts),
        c(Rank::Five, Suit::Spades),
        c(Rank::Five, Suit::Diamonds),
        c(Rank::King, Suit::Clubs),
        c(Rank::King, Suit::Diamonds),
    ])
    .unwrap();
    let threes = Hand::from_cards(&vec![
        c(Rank::Three, Suit::Hearts),
        c(Rank::Three, Suit::Spades),
        c(Rank::Three, Suit::Diamonds),
        c(Rank::King, Suit::Clubs),
        c(Rank::King, Suit::Hearts),
    ])
    .unwrap();
    assert_eq!(full_house.can_beat(&threes), true);
    let queens = Hand::from_cards(&vec![
        c(Rank::Queen, Suit::Hearts),
        c(Rank::Queen, Suit::Spades),
        c(Rank::Queen, Suit::Diamonds),
        c(Rank::King, Suit::Clubs),
        c(Rank::King, Suit::Hearts),
    ])
    .unwrap();
    assert_eq!(full_house.can_beat(&queens), false);
}

#[test]
fn test_hand_type_names() {
    let cases: Vec<(Vec<Card>, &str)> = vec![
        (vec![], "Pass"),
        (vec![c(Rank::King, Suit::Hearts)], "Single"),
        (vec![c(Rank::King, Suit::Hearts), c(Rank::King, Suit::Spades)], "Pair"),
        (
            vec![
                c(Rank::King, Suit::Hearts),
                c(Rank::King, Suit::Spades),
                c(Rank::King, Suit::Diamonds),
            ],
            "Triple",
        ),
        (
            vec![
                c(Rank::Three, Suit::Hearts),
                c(Rank::Four, Suit::Spades),
                c(Rank::Five, Suit::Diamonds),
                c(Rank::Six, Suit::Clubs),
                c(Rank::Seven, Suit::Hearts),
            ],
            "Straight",
        ),
        (
            vec![
                c(Rank::Three, Suit::Hearts),
                c(Rank::Five, Suit::Hearts),
                c(Rank::Seven, Suit::Hearts),
                c(Rank::Nine, Suit::Hearts),
                c(Rank::Jack, Suit::Hearts),
            ],
            "Flush",
        ),
        (
            vec![
                c(Rank::Three, Suit::Hearts),
                c(Rank::Three, Suit::Spades),
                c(Rank::Three, Suit::Diamonds),
                c(Rank::King, Suit::Clubs),
                c(Rank::King, Suit::Hearts),
            ],
            "Full House",
        ),
        (
            vec![
                c(Rank::Three, Suit::Hearts),
                c(Rank::Three, Suit::Spades),
                c(Rank::Three, Suit::Diamonds),
                c(Rank::Three, Suit::Clubs),
                c(Rank::King, Suit::Hearts),
            ],
            "Four of a Kind",
        ),
        (
            vec![
                c(Rank::Three, Suit::Hearts),
                c(Rank::Four, Suit::Hearts),
                c(Rank::Five, Suit::Hearts),
                c(Rank::Six, Suit::Hearts),
                c(Rank::Seven, Suit::Hearts),
            ],
            "Straight Flush",
        ),
    ];
    for (cards, expected_name) in cases {
        let hand = Hand::from_cards(&cards).unwrap();
        assert_eq!(hand.hand_type_name(), expected_name);
    }
}

#[test]
fn test_invalid_hands() {
    let result = Hand::from_cards(&vec![
        Card::new(Rank::King, Suit::Hearts),
        Card::new(Rank::Queen, Suit::Spades),
    ]);
    assert!(result.is_err());

    let result = Hand::from_cards(&vec![
        Card::new(Rank::King, Suit::Hearts),
        Card::new(Rank::King, Suit::Spades),
        Card::new(Rank::King, Suit::Diamonds),
        Card::new(Rank::King, Suit::Clubs),
    ]);
    assert!(result.is_err());
}

#[test]
fn tests_test_card_from_string() {
    let king_hearts = Card::from_string("KH").unwrap();
    assert_eq!(king_hearts.rank, Rank::King);
    assert_eq!(king_hearts.suit, Suit::Hearts);

    let two_spades = Card::from_string("2S").unwrap();
    assert_eq!(two_spades.rank, Rank::Two);
    assert_eq!(two_spades.suit, Suit::Spades);

    let ten_diamonds = Card::from_string("TD").unwrap();
    assert_eq!(ten_diamonds.rank, Rank::Ten);
    assert_eq!(ten_diamonds.suit, Suit::Diamonds);

    assert!(Card::from_string("ZH").is_err());
    assert!(Card::from_string("KX").is_err());
    assert!(Card::from_string("K").is_err());
}

#[test]
fn tests_test_suit_try_from() {
    assert_eq!(Suit::try_from("D"), Ok(Suit::Diamonds));
    assert_eq!(Suit::try_from("C"), Ok(Suit::Clubs));
    assert_eq!(Suit::try_from("H"), Ok(Suit::Hearts));
    assert_eq!(Suit::try_from("S"), Ok(Suit::Spades));

    assert!(Suit::try_from("X").is_err());
    assert!(Suit::try_from("").is_err());
    assert!(Suit::try_from("DD").is_err());
}

#[test]
fn tests_test_suit_display() {
    assert_eq!(Suit::Diamonds.to_string(), "D");
    assert_eq!(Suit::Clubs.to_string(), "C");
    assert_eq!(Suit::Hearts.to_string(), "H");
    assert_eq!(Suit::Spades.to_string(), "S");
}

#[test]
fn tests_test_rank_try_from() {
    assert_eq!(Rank::try_from("3"), Ok(Rank::Three));
    assert_eq!(Rank::try_from("4"), Ok(Rank::Four));
    assert_eq!(Rank::try_from("5"), Ok(Rank::Five));
    assert_eq!(Rank::try_from("6"), Ok(Rank::Six));
    assert_eq!(Rank::try_from("7"), Ok(Rank::Seven));
    assert_eq!(Rank::try_from("8"), Ok(Rank::Eight));
    assert_eq!(Rank::try_from("9"), Ok(Rank::Nine));
    assert_eq!(Rank::try_from("T"), Ok(Rank::Ten));
    assert_eq!(Rank::try_from("J"), Ok(Rank::Jack));
    assert_eq!(Rank::try_from("Q"), Ok(Rank::Queen));
    assert_eq!(Rank::try_from("K"), Ok(Rank::King));
    assert_eq!(Rank::try_from("A"), Ok(Rank::Ace));
    assert_eq!(Rank::try_from("2"), Ok(Rank::Two));

    assert!(Rank::try_from("1").is_err());
    assert!(Rank::try_from("0").is_err());
    assert!(Rank::try_from("X").is_err());
    assert!(Rank::try_from("").is_err());
    assert!(Rank::try_from("TT").is_err());
}

#[test]
fn tests_test_rank_display() {
    assert_eq!(Rank::Three.to_string(), "3");
    assert_eq!(Rank::Four.to_string(), "4");
    assert_eq!(Rank::Five.to_string(), "5");
    assert_eq!(Rank::Six.to_string(), "6");
    assert_eq!(Rank::Seven.to_string(), "7");
    assert_eq!(Rank::Eight.to_string(), "8");
    assert_eq!(Rank::Nine.to_string(), "9");
    assert_eq!(Rank::Ten.to_string(), "T");
    assert_eq!(Rank::Jack.to_string(), "J");
    assert_eq!(Rank::Queen.to_string(), "Q");
    assert_eq!(Rank::King.to_string(), "K");
    assert_eq!(Rank::Ace.to_string(), "A");
    assert_eq!(Rank::Two.to_string(), "2");
}

#[test]
fn tests_test_card_display() {
    let king_hearts = Card::new(Rank::King, Suit::Hearts);
    assert_eq!(king_hearts.to_string(), "KH");

    let two_spades = Card::new(Rank::Two, Suit::Spades);
    assert_eq!(two_spades.to_string(), "2S");

    let ten_diamonds = Card::new(Rank::Ten, Suit::Diamonds);
    assert_eq!(ten_diamonds.to_string(), "TD");

    let ace_clubs = Card::new(Rank::Ace, Suit::Clubs);
    assert_eq!(ace_clubs.to_string(), "AC");
}

#[test]
fn tests_test_card_from_string_edge_cases() {
    assert!(Card::from_string("").is_err());
    assert!(Card::from_string("K").is_err());
    assert!(Card::from_string("KHS").is_err());

    for rank in Rank::all() {
        for suit in Suit::all() {
            let card = Card::new(rank, suit);
            let card_str = card.to_string();
            let parsed_card = Card::from_string(&card_str).unwrap();
            assert_eq!(card, parsed_card);
        }
    }
}

#[test]
fn test_compare_played_cards() {
    let cases: Vec<(Vec<Card>, Vec<Card>, bool)> = vec![
        (vec![], vec![], true),
        (vec![], vec![Card::from_string("3D").unwrap()], true),
        (vec![Card::from_string("KH").unwrap()], vec![Card::from_string("QS").unwrap()], true),
        (vec![Card::from_string("QS").unwrap()], vec![Card::from_string("KH").unwrap()], false),
        (vec![Card::from_string("KH").unwrap()], vec![Card::from_string("KH").unwrap()], false),
        (
            vec![Card::from_string("KH").unwrap(), Card::from_string("KS").unwrap()],
            vec![Card::from_string("AH").unwrap(), Card::from_string("AS").unwrap()],
            false,
        ),
    ];
    for (played_cards, current_cards, expected) in cases {
        let result = compare_played_cards(&played_cards, &current_cards);
        assert!(result.is_ok());
        assert_eq!(result.unwrap(), expected);
    }
}

#[test]
fn compare_refuses_cards_that_form_no_hand() {
    let bad = vec![c(Rank::King, Suit::Hearts), c(Rank::Queen, Suit::Spades)];
    let single = vec![c(Rank::Three, Suit::Diamonds)];
    assert_eq!(compare_played_cards(&bad, &single), Err(HandError::InvalidHandType));
    assert_eq!(compare_played_cards(&single, &bad), Err(HandError::InvalidHandType));
    let four = vec![
        c(Rank::King, Suit::Hearts),
        c(Rank::King, Suit::Spades),
        c(Rank::King, Suit::Diamonds),
        c(Rank::King, Suit::Clubs),
    ];
    assert_eq!(compare_played_cards(&four, &single), Err(HandError::InvalidHandSize));
}

#[test]
fn pair_keeps_lower_suit_first_and_high_card() {
    let pair = PairHand::new(c(Rank::Nine, Suit::Spades), c(Rank::Nine, Suit::Clubs)).unwrap();
    assert_eq!(pair.rank, Rank::Nine);
    assert_eq!(pair.cards, [c(Rank::Nine, Suit::Clubs), c(Rank::Nine, Suit::Spades)]);
    assert_eq!(pair.high_card, c(Rank::Nine, Suit::Spades));
    assert_eq!(
        PairHand::new(c(Rank::Nine, Suit::Spades), c(Rank::Ten, Suit::Clubs)),
        Err(HandError::InvalidHandType)
    );
}

#[test]
fn hand_gives_back_its_cards_sorted() {
    let cards = vec![
        c(Rank::Seven, Suit::Hearts),
        c(Rank::Three, Suit::Hearts),
        c(Rank::Six, Suit::Clubs),
        c(Rank::Four, Suit::Spades),
        c(Rank::Five, Suit::Diamonds),
    ];
    let hand = Hand::from_cards(&cards).unwrap();
    assert_eq!(
        hand.to_cards(),
        vec![
            c(Rank::Three, Suit::Hearts),
            c(Rank::Four, Suit::Spades),
            c(Rank::Five, Suit::Diamonds),
            c(Rank::Six, Suit::Clubs),
            c(Rank::Seven, Suit::Hearts),
        ]
    );
    assert_eq!(Hand::Pass.to_cards(), vec![]);
    assert_eq!(Hand::Single(SingleHand::new(c(Rank::Two, Suit::Spades))).to_cards(), vec![c(Rank::Two, Suit::Spades)]);
    // Forming a hand from a hand's cards gives the same hand back.
    assert_eq!(Hand::from_cards(&hand.to_cards()).unwrap(), hand);
}

#[test]
fn pass_beats_anything_and_nothing_beats_pass() {
    let single = Hand::Single(SingleHand::new(c(Rank::Two, Suit::Spades)));
    assert!(Hand::Pass.can_beat(&single));
    assert!(Hand::Pass.can_beat(&Hand::Pass));
    assert!(!single.can_beat(&Hand::Pass));
    assert!(!single.can_beat(&single));
}

#[test]
fn five_card_types_rank_in_order() {
    let straight = Hand::from_cards(&vec![
        c(Rank::Ten, Suit::Hearts),
        c(Rank::Jack, Suit::Spades),
        c(Rank::Queen, Suit::Diamonds),
        c(Rank::King, Suit::Clubs),
        c(Rank::Ace, Suit::Spades),
    ])
    .unwrap();
    let flush = Hand::from_cards(&vec![
        c(Rank::Three, Suit::Diamonds),
        c(Rank::Five, Suit::Diamonds),
        c(Rank::Seven, Suit::Diamonds),
        c(Rank::Nine, Suit::Diamonds),
        c(Rank::Jack, Suit::Diamonds),
    ])
    .unwrap();
    assert!(flush.can_beat(&straight));
    assert!(!straight.can_beat(&flush));
    match &flush {
        Hand::Five(f) => assert_eq!(f.hand_type_value(), 1),
        _ => panic!("Expected five card hand"),
    }
    match &straight {
        Hand::Five(f) => assert_eq!(f.hand_type_value(), 0),
        _ => panic!("Expected five card hand"),
    }
}
