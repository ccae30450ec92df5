use rustysolver::card::Card;
use rustysolver::error::ParseError;
use rustysolver::hole_cards::HoleCards;
use rustysolver::range::Range;
use rustysolver::suit::Suit;
use rustysolver::weight::Weight;

fn value(weight: Option<Weight>) -> f64 {
    weight.unwrap().billionths() as f64 / 1e9
}

fn weight(text: &str) -> Weight {
    Weight::from_str(text).unwrap()
}

fn hand(rank1: u8, suit1: Suit, rank2: u8, suit2: Suit) -> HoleCards {
    HoleCards::new(&Card::new(rank1, suit1), &Card::new(rank2, suit2)).unwrap()
}

#[test]
fn test_new_from_string() {
    let range_str = "AhAd:1.0;KhKd:0.5;QQ;AQo:0.2;AKs;72o:0";
    let range = Range::new_from_string(range_str).unwrap();

    assert_eq!(range.len(), 5);
    assert_eq!(value(range.get(&hand(14, Suit::Hearts, 14, Suit::Diamonds))), 1.0);
    assert_eq!(value(range.get(&hand(13, Suit::Hearts, 13, Suit::Diamonds))), 0.5);
    assert_eq!(value(range.get(&hand(12, Suit::Offsuit, 12, Suit::Offsuit))), 1.0);
    assert_eq!(value(range.get(&hand(14, Suit::Offsuit, 12, Suit::Offsuit))), 0.2);
    assert_eq!(value(range.get(&hand(14, Suit::Suited, 13, Suit::Suited))), 1.0);
}

#[test]
fn test_extend() {
    let mut range1 = Range::new(vec![(weight("1.0"), hand(14, Suit::Hearts, 14, Suit::Diamonds))]);

    let range2 = Range::new(vec![(weight("0.5"), hand(13, Suit::Hearts, 13, Suit::Diamonds))]);
    range1.extend(&range2);

    assert_eq!(range1.len(), 2);
    assert_eq!(value(range1.get(&hand(14, Suit::Hearts, 14, Suit::Diamonds))), 1.0);
    assert_eq!(value(range1.get(&hand(13, Suit::Hearts, 13, Suit::Diamonds))), 0.5);
}

#[test]
fn test_expand_meta_suits() {
    let range_str = "AhAd:1.0;KhKd:0.5;QQ;AQo:0.2;AKs;72o:0";
    let range = Range::new_from_string(range_str).unwrap();
    let expanded_range = range.expand_meta_suits();

    let expected_range = Range::new(vec![
        (weight("1.0"), hand(14, Suit::Hearts, 14, Suit::Diamonds)),

        (weight("0.5"), hand(13, Suit::Hearts, 13, Suit::Diamonds)),

        (weight("1.0"), hand(12, Suit::Hearts, 12, Suit::Diamonds)),
        (weight("1.0"), hand(12, Suit::Hearts, 12, Suit::Clubs)),
        (weight("1.0"), hand(12, Suit::Hearts, 12, Suit::Spades)),
        (weight("1.0"), hand(12, Suit::Diamonds, 12, Suit::Clubs)),
        (weight("1.0"), hand(12, Suit::Diamonds, 12, Suit::Spades)),
        (weight("1.0"), hand(12, Suit::Clubs, 12, Suit::Spades)),

        (weight("0.2"), hand(14, Suit::Hearts, 12, Suit::Diamonds)),
        (weight("0.2"), hand(14, Suit::Hearts, 12, Suit::Clubs)),
        (weight("0.2"), hand(14, Suit::Hearts, 12, Suit::Spades)),
        (weight("0.2"), hand(14, Suit::Diamonds, 12, Suit::Clubs)),
        (weight("0.2"), hand(14, Suit::Diamonds, 12, Suit::Spades)),
        (weight("0.2"), hand(14, Suit::Diamonds, 12, Suit::Hearts)),
        (weight("0.2"), hand(14, Suit::Clubs, 12, Suit::Diamonds)),
        (weight("0.2"), hand(14, Suit::Clubs, 12, Suit::Spades)),
        (weight("0.2"), hand(14, Suit::Clubs, 12, Suit::Hearts)),
        (weight("0.2"), hand(14, Suit::Spades, 12, Suit::Diamonds)),
        (weight("0.2"), hand(14, Suit::Spades, 12, Suit::Clubs)),
        (weight("0.2"), hand(14, Suit::Spades, 12, Suit::Hearts)),

        (weight("1.0"), hand(14, Suit::Hearts, 13, Suit::Hearts)),
        (weight("1.0"), hand(14, Suit::Diamonds, 13, Suit::Diamonds)),
        (weight("1.0"), hand(14, Suit::Clubs, 13, Suit::Clubs)),
        (weight("1.0"), hand(14, Suit::Spades, 13, Suit::Spades)),
    ]);

    assert_eq!(expanded_range.len(), expected_range.len());
    for (hole_cards, weight) in expected_range.to_vec() {
        assert_eq!(expanded_range.get(&hole_cards), Some(weight));
    }
}

#[test]
fn range_keeps_the_order_of_first_mention() {
    let range = Range::new_from_string("KK;AKs:0.25;KK:0.5").unwrap();
    let entries = range.to_vec();
    assert_eq!(entries.len(), 2);
    assert_eq!(entries[0], (HoleCards::new_with_rank(13), weight("0.5")));
    assert_eq!(entries[1], (hand(14, Suit::Suited, 13, Suit::Suited), weight("0.25")));
}

#[test]
fn range_hands_out_its_entries() {
    let range = Range::new_from_string("KK;AKs:0.25").unwrap();
    let entries: Vec<(HoleCards, Weight)> = range.iter().cloned().collect();
    assert_eq!(entries, range.to_vec());
    assert_eq!(range.clone().to_vec(), range.to_vec());
    let mut grown = Range::new_empty();
    assert_eq!(grown.len(), 0);
    grown.insert(HoleCards::new_with_rank(5), weight("0.5"));
    grown.insert_all(&HoleCards::new_from_string("T9s").unwrap().expand(), weight("0.125"));
    grown.insert(HoleCards::new_with_rank(5), weight("0.75"));
    assert_eq!(grown.len(), 5);
    assert_eq!(grown.to_vec()[0], (HoleCards::new_with_rank(5), weight("0.75")));
    assert_eq!(Range::element_from_string("QQ:0"), Ok(None));
    assert_eq!(
        Range::element_from_string("QQ:0.5"),
        Ok(Some((HoleCards::new_with_rank(12), weight("0.5"))))
    );
    assert_eq!(Range::element_from_string("QQ"), Ok(Some((HoleCards::new_with_rank(12), Weight::one()))));
}

#[test]
fn range_ignores_what_follows_a_second_colon() {
    let range = Range::new_from_string("QQ:0.5:anything").unwrap();
    assert_eq!(range.get(&HoleCards::new_with_rank(12)), Some(weight("0.5")));
}

#[test]
fn range_reports_the_first_malformed_element() {
    assert_eq!(
        Range::new_from_string("AA;AKx;QQ:2").err(),
        Some(ParseError::InvalidHoleCards("AKx".to_string()))
    );
    assert_eq!(
        Range::new_from_string("AA:1.5;AKx").err(),
        Some(ParseError::InvalidWeight("1.5".to_string()))
    );
    assert_eq!(
        Range::new_from_string("").err(),
        Some(ParseError::InvalidHoleCards("".to_string()))
    );
    assert_eq!(
        Range::new_from_string("AA;").err(),
        Some(ParseError::InvalidHoleCards("".to_string()))
    );
    assert_eq!(
        Range::new_from_string("AA:").err(),
        Some(ParseError::InvalidWeight("".to_string()))
    );
}

#[test]
fn pure_range_gives_every_hand_weight_one() {
    let range = Range::new_pure_range(vec![
        HoleCards::new_with_rank(14),
        HoleCards::new_with_rank(12),
        HoleCards::new_with_rank(14),
    ]);
    assert_eq!(range.len(), 2);
    assert_eq!(range.get(&HoleCards::new_with_rank(14)), Some(Weight::one()));
    assert_eq!(range.get(&HoleCards::new_with_rank(13)), None);
}

#[test]
fn weight_reads_decimal_notation() {
    assert_eq!(weight("1").billionths(), 1_000_000_000);
    assert_eq!(weight("1.0").billionths(), 1_000_000_000);
    assert_eq!(weight("0").billionths(), 0);
    assert_eq!(weight("0.5").billionths(), 500_000_000);
    assert_eq!(weight(".25").billionths(), 250_000_000);
    assert_eq!(weight("0.").billionths(), 0);
    assert_eq!(weight("0001").billionths(), 1_000_000_000);
    assert_eq!(weight("0.000000001").billionths(), 1);
    assert_eq!(weight("0.123456789").billionths(), 123_456_789);
    assert!(weight("0.0").is_zero());
    assert!(!weight("0.2").is_zero());
    assert_eq!(Weight::one(), weight("1.000"));
    assert_eq!(Weight::zero(), weight("0"));
}

#[test]
fn weight_rejects_what_is_no_weight() {
    for text in [
        "", ".", "+", "-", "1.1", "2", "10", "-1", "-0.5", "0.5.5", "0,5", "a", " 1", "1 ", "e5",
        "1e", "1e+", "1e-", "1ee1", "1e1.5", "0x1", "1_0", "inf", "nan", "infinity", "++1", "1e1",
        "0.1e2", "1.0000000001", "1000000000000000000000000000000", "-1e-400",
        "1e999999999999999999999999999999999999999999",
    ] {
        assert_eq!(
            Weight::from_str(text),
            Err(ParseError::InvalidWeight(text.to_string())),
            "{}",
            text
        );
    }
}

#[test]
fn weight_reads_signs_and_exponents() {
    assert_eq!(weight("+1").billionths(), 1_000_000_000);
    assert_eq!(weight("+0.5").billionths(), 500_000_000);
    assert_eq!(weight("-0").billionths(), 0);
    assert_eq!(weight("-0.000").billionths(), 0);
    assert_eq!(weight("-0e5").billionths(), 0);
    assert_eq!(weight("1e0").billionths(), 1_000_000_000);
    assert_eq!(weight("1E0").billionths(), 1_000_000_000);
    assert_eq!(weight("5e-1").billionths(), 500_000_000);
    assert_eq!(weight("5E-1").billionths(), 500_000_000);
    assert_eq!(weight("2.5e-1").billionths(), 250_000_000);
    assert_eq!(weight("10e-1").billionths(), 1_000_000_000);
    assert_eq!(weight("0.01e2").billionths(), 1_000_000_000);
    assert_eq!(weight("0.01e+1").billionths(), 100_000_000);
    assert_eq!(weight("1.e-3").billionths(), 1_000_000);
    assert_eq!(weight(".5e0").billionths(), 500_000_000);
    assert_eq!(weight("123456789e-9").billionths(), 123_456_789);
    assert_eq!(weight("1e-9").billionths(), 1);
    assert_eq!(weight("0e999999999999999999999999999999999999999999").billionths(), 0);
    assert_eq!(weight("0e-999999999999999999999999999999999999999999").billionths(), 0);
    assert_eq!(weight("1e-0000000000000000000000000000000000000000001").billionths(), 100_000_000);
    assert_eq!(weight("00000000000000000000000000000000000000000.5").billionths(), 500_000_000);
}

#[test]
fn weight_rounds_up_beyond_the_ninth_decimal() {
    assert_eq!(weight("0.1234567890").billionths(), 123_456_789);
    assert_eq!(weight("0.1234567891").billionths(), 123_456_790);
    assert_eq!(weight("0.12345678900000000000001").billionths(), 123_456_790);
    assert_eq!(weight("0.0000000001").billionths(), 1);
    assert_eq!(weight("1e-10").billionths(), 1);
    assert_eq!(weight("1e-400").billionths(), 1);
    assert_eq!(weight("1e-999999999999999999999999999999999999999999").billionths(), 1);
    assert_eq!(weight("0.9999999999").billionths(), 1_000_000_000);
    assert_eq!(weight("1.0000000000").billionths(), 1_000_000_000);
    assert_eq!(weight("0.3333333333333333").billionths(), 333_333_334);
    assert!(!weight("0.00000000000000000001").is_zero());
    assert!(weight("0.00000000000000000000").is_zero());
}

#[test]
fn range_reads_weights_with_signs_and_exponents() {
    let range = Range::new_from_string("AhAd:5e-1;KhKd:+0.25;QhQd:-0;JhJd:0.0000000001").unwrap();
    assert_eq!(range.len(), 3);
    assert_eq!(value(range.get(&hand(14, Suit::Hearts, 14, Suit::Diamonds))), 0.5);
    assert_eq!(value(range.get(&hand(13, Suit::Hearts, 13, Suit::Diamonds))), 0.25);
    assert_eq!(range.get(&hand(12, Suit::Hearts, 12, Suit::Diamonds)), None);
    assert_eq!(range.get(&hand(11, Suit::Hearts, 11, Suit::Diamonds)).unwrap().billionths(), 1);
    assert_eq!(
        Range::new_from_string("AhAd:-0.5").err(),
        Some(ParseError::InvalidWeight("-0.5".to_string()))
    );
}

#[test]
fn weight_from_billionths_stops_at_one() {
    assert_eq!(Weight::from_billionths(0), Some(Weight::zero()));
    assert_eq!(Weight::from_billionths(1_000_000_000), Some(Weight::one()));
    assert_eq!(Weight::from_billionths(1_000_000_001), None);
    assert_eq!(Weight::from_billionths(250).unwrap().billionths(), 250);
}
