//! Hand evaluation and ordering, exercised on concrete five-card hands.

use pokbotcom::kaart::Combinatie;
use pokbotcom::kaart::Hand;
use pokbotcom::kaart::Kaart;
use pokbotcom::kaart::Kleur;
use pokbotcom::kaart::Waarde;

fn hand_categorisatie(tafel: [Kaart; 5], verwachte_combinatie: Combinatie) {
    let Hand {
        combinatie,
        kaarten,
    } = Hand::new(tafel);
    println!(
        "[{:?} {:?} {:?} {:?} {:?}] is {combinatie:?}",
        kaarten[0], kaarten[1], kaarten[2], kaarten[3], kaarten[4]
    );
    assert_eq!(combinatie, verwachte_combinatie);
}

#[test]
fn flushes() {
    hand_categorisatie(
        [
            Kaart::new(Kleur::Harten, Waarde::Tal(7)),
            Kaart::new(Kleur::Harten, Waarde::Tal(5)),
            Kaart::new(Kleur::Harten, Waarde::Tal(6)),
            Kaart::new(Kleur::Harten, Waarde::Tal(8)),
            Kaart::new(Kleur::Harten, Waarde::Tal(9)),
        ],
        Combinatie::StraightFlush(Waarde::Tal(9)),
    );

    hand_categorisatie(
        [
            Kaart::new(Kleur::Harten, Waarde::Boer),
            Kaart::new(Kleur::Harten, Waarde::Tal(10)),
            Kaart::new(Kleur::Harten, Waarde::Koningin),
            Kaart::new(Kleur::Harten, Waarde::Tal(8)),
            Kaart::new(Kleur::Harten, Waarde::Tal(9)),
        ],
        Combinatie::StraightFlush(Waarde::Koningin),
    );

    hand_categorisatie(
        [
            Kaart::new(Kleur::Harten, Waarde::Koning),
            Kaart::new(Kleur::Harten, Waarde::Tal(10)),
            Kaart::new(Kleur::Harten, Waarde::Koningin),
            Kaart::new(Kleur::Harten, Waarde::Tal(8)),
            Kaart::new(Kleur::Harten, Waarde::Tal(9)),
        ],
        Combinatie::Flush,
    );

    hand_categorisatie(
        [
            Kaart::new(Kleur::Harten, Waarde::Boer),
            Kaart::new(Kleur::Harten, Waarde::Koning),
            Kaart::new(Kleur::Harten, Waarde::Aas),
            Kaart::new(Kleur::Harten, Waarde::Koningin),
            Kaart::new(Kleur::Harten, Waarde::Tal(10)),
        ],
        Combinatie::RoyalFlush,
    );

    hand_categorisatie(
        [
            Kaart::new(Kleur::Schoppen, Waarde::Boer),
            Kaart::new(Kleur::Harten, Waarde::Koning),
            Kaart::new(Kleur::Harten, Waarde::Aas),
            Kaart::new(Kleur::Harten, Waarde::Koningin),
            Kaart::new(Kleur::Harten, Waarde::Tal(10)),
        ],
        Combinatie::Straight(Waarde::Aas, Some(true)),
    );
}

#[test]
fn vergelijkingen() {
    assert!(
        Hand::new([
            Kaart::new(Kleur::Harten, Waarde::Boer),
            Kaart::new(Kleur::Harten, Waarde::Koning),
            Kaart::new(Kleur::Harten, Waarde::Aas),
            Kaart::new(Kleur::Harten, Waarde::Koningin),
            Kaart::new(Kleur::Harten, Waarde::Tal(10)),
        ]) > Hand::new([
            Kaart::new(Kleur::Harten, Waarde::Boer),
            Kaart::new(Kleur::Harten, Waarde::Tal(10)),
            Kaart::new(Kleur::Harten, Waarde::Koningin),
            Kaart::new(Kleur::Harten, Waarde::Tal(8)),
            Kaart::new(Kleur::Harten, Waarde::Tal(9)),
        ],)
    )
}

#[test]
fn evaluatie_is_deterministisch_onder_permutatie() {
    let a = Kaart::new(Kleur::Ruiten, Waarde::Tal(4));
    let b = Kaart::new(Kleur::Klaveren, Waarde::Tal(4));
    let c = Kaart::new(Kleur::Harten, Waarde::Koning);
    let d = Kaart::new(Kleur::Schoppen, Waarde::Koning);
    let e = Kaart::new(Kleur::Harten, Waarde::Tal(2));
    let eerste = Hand::new([a, b, c, d, e]);
    let tweede = Hand::new([e, d, c, b, a]);
    let derde = Hand::new([c, a, e, b, d]);
    assert_eq!(eerste, tweede);
    assert_eq!(eerste, derde);
    assert_eq!(eerste.combinatie, Combinatie::TweePaar(Waarde::Koning, Waarde::Tal(4)));
}

#[test]
fn categorie_orde_is_strikt() {
    // Any four of a kind beats any full house, which beats any flush.
    let vier = Hand::new([
        Kaart::new(Kleur::Harten, Waarde::Tal(2)),
        Kaart::new(Kleur::Schoppen, Waarde::Tal(2)),
        Kaart::new(Kleur::Ruiten, Waarde::Tal(2)),
        Kaart::new(Kleur::Klaveren, Waarde::Tal(2)),
        Kaart::new(Kleur::Harten, Waarde::Tal(3)),
    ]);
    let vol = Hand::new([
        Kaart::new(Kleur::Harten, Waarde::Aas),
        Kaart::new(Kleur::Schoppen, Waarde::Aas),
        Kaart::new(Kleur::Ruiten, Waarde::Aas),
        Kaart::new(Kleur::Klaveren, Waarde::Koning),
        Kaart::new(Kleur::Harten, Waarde::Koning),
    ]);
    let kleur = Hand::new([
        Kaart::new(Kleur::Harten, Waarde::Aas),
        Kaart::new(Kleur::Harten, Waarde::Koning),
        Kaart::new(Kleur::Harten, Waarde::Tal(9)),
        Kaart::new(Kleur::Harten, Waarde::Tal(5)),
        Kaart::new(Kleur::Harten, Waarde::Tal(3)),
    ]);
    assert_eq!(vier.combinatie, Combinatie::FourOfAKind(Waarde::Tal(2)));
    assert!(matches!(vol.combinatie, Combinatie::FullHouse(Waarde::Aas, Waarde::Koning)));
    assert_eq!(kleur.combinatie, Combinatie::Flush);
    assert!(vier > vol);
    assert!(vol > kleur);
    assert!(vier > kleur);
}

#[test]
fn wiel_onder_andere_straights() {
    // Suited: the wheel straight flush sits below every higher straight flush.
    let wiel_suited = Hand::new([
        Kaart::new(Kleur::Ruiten, Waarde::Aas),
        Kaart::new(Kleur::Ruiten, Waarde::Tal(5)),
        Kaart::new(Kleur::Ruiten, Waarde::Tal(4)),
        Kaart::new(Kleur::Ruiten, Waarde::Tal(3)),
        Kaart::new(Kleur::Ruiten, Waarde::Tal(2)),
    ]);
    let zes_hoog_suited = Hand::new([
        Kaart::new(Kleur::Klaveren, Waarde::Tal(6)),
        Kaart::new(Kleur::Klaveren, Waarde::Tal(5)),
        Kaart::new(Kleur::Klaveren, Waarde::Tal(4)),
        Kaart::new(Kleur::Klaveren, Waarde::Tal(3)),
        Kaart::new(Kleur::Klaveren, Waarde::Tal(2)),
    ]);
    assert_eq!(wiel_suited.combinatie, Combinatie::StraightFlush(Waarde::Aas));
    assert_eq!(zes_hoog_suited.combinatie, Combinatie::StraightFlush(Waarde::Tal(6)));
    assert!(wiel_suited < zes_hoog_suited);

    // Unsuited: the wheel sits below the ace-high straight.
    let wiel = Hand::new([
        Kaart::new(Kleur::Harten, Waarde::Aas),
        Kaart::new(Kleur::Ruiten, Waarde::Tal(5)),
        Kaart::new(Kleur::Ruiten, Waarde::Tal(4)),
        Kaart::new(Kleur::Ruiten, Waarde::Tal(3)),
        Kaart::new(Kleur::Ruiten, Waarde::Tal(2)),
    ]);
    let broadway = Hand::new([
        Kaart::new(Kleur::Schoppen, Waarde::Aas),
        Kaart::new(Kleur::Ruiten, Waarde::Koning),
        Kaart::new(Kleur::Ruiten, Waarde::Koningin),
        Kaart::new(Kleur::Ruiten, Waarde::Boer),
        Kaart::new(Kleur::Ruiten, Waarde::Tal(10)),
    ]);
    assert_eq!(wiel.combinatie, Combinatie::Straight(Waarde::Aas, Some(false)));
    assert_eq!(broadway.combinatie, Combinatie::Straight(Waarde::Aas, Some(true)));
    assert!(wiel < broadway);

    // Unsuited: the wheel also sits below every straight of a higher top
    // card — its ace counts low.
    let koning_straight = Hand::new([
        Kaart::new(Kleur::Harten, Waarde::Koning),
        Kaart::new(Kleur::Ruiten, Waarde::Koningin),
        Kaart::new(Kleur::Harten, Waarde::Boer),
        Kaart::new(Kleur::Schoppen, Waarde::Tal(10)),
        Kaart::new(Kleur::Harten, Waarde::Tal(9)),
    ]);
    let zes_hoog = Hand::new([
        Kaart::new(Kleur::Harten, Waarde::Tal(6)),
        Kaart::new(Kleur::Ruiten, Waarde::Tal(5)),
        Kaart::new(Kleur::Harten, Waarde::Tal(4)),
        Kaart::new(Kleur::Schoppen, Waarde::Tal(3)),
        Kaart::new(Kleur::Harten, Waarde::Tal(2)),
    ]);
    assert_eq!(koning_straight.combinatie, Combinatie::Straight(Waarde::Koning, None));
    assert_eq!(zes_hoog.combinatie, Combinatie::Straight(Waarde::Tal(6), None));
    assert!(wiel < koning_straight);
    assert!(wiel < zes_hoog);
    assert!(zes_hoog < koning_straight);
}

#[test]
fn royal_flush_boven_elke_straight_flush() {
    let royal = Hand::new([
        Kaart::new(Kleur::Schoppen, Waarde::Tal(10)),
        Kaart::new(Kleur::Schoppen, Waarde::Aas),
        Kaart::new(Kleur::Schoppen, Waarde::Koningin),
        Kaart::new(Kleur::Schoppen, Waarde::Koning),
        Kaart::new(Kleur::Schoppen, Waarde::Boer),
    ]);
    assert_eq!(royal.combinatie, Combinatie::RoyalFlush);
    let koning_hoog = Hand::new([
        Kaart::new(Kleur::Harten, Waarde::Koning),
        Kaart::new(Kleur::Harten, Waarde::Koningin),
        Kaart::new(Kleur::Harten, Waarde::Boer),
        Kaart::new(Kleur::Harten, Waarde::Tal(10)),
        Kaart::new(Kleur::Harten, Waarde::Tal(9)),
    ]);
    assert_eq!(koning_hoog.combinatie, Combinatie::StraightFlush(Waarde::Koning));
    assert!(royal > koning_hoog);
}

#[test]
fn flush_vergelijking_op_kaarten() {
    // Two flushes compare by their sorted cards, highest first.
    let hoge = Hand::new([
        Kaart::new(Kleur::Harten, Waarde::Aas),
        Kaart::new(Kleur::Harten, Waarde::Tal(9)),
        Kaart::new(Kleur::Harten, Waarde::Tal(7)),
        Kaart::new(Kleur::Harten, Waarde::Tal(5)),
        Kaart::new(Kleur::Harten, Waarde::Tal(3)),
    ]);
    let lage = Hand::new([
        Kaart::new(Kleur::Ruiten, Waarde::Koning),
        Kaart::new(Kleur::Ruiten, Waarde::Tal(9)),
        Kaart::new(Kleur::Ruiten, Waarde::Tal(7)),
        Kaart::new(Kleur::Ruiten, Waarde::Tal(5)),
        Kaart::new(Kleur::Ruiten, Waarde::Tal(3)),
    ]);
    assert_eq!(hoge.combinatie, Combinatie::Flush);
    assert_eq!(lage.combinatie, Combinatie::Flush);
    assert!(hoge > lage);
}

#[test]
fn overige_categorieen() {
    hand_categorisatie(
        [
            Kaart::new(Kleur::Harten, Waarde::Koning),
            Kaart::new(Kleur::Ruiten, Waarde::Koningin),
            Kaart::new(Kleur::Harten, Waarde::Boer),
            Kaart::new(Kleur::Schoppen, Waarde::Tal(10)),
            Kaart::new(Kleur::Harten, Waarde::Tal(9)),
        ],
        Combinatie::Straight(Waarde::Koning, None),
    );
    hand_categorisatie(
        [
            Kaart::new(Kleur::Harten, Waarde::Tal(8)),
            Kaart::new(Kleur::Ruiten, Waarde::Tal(8)),
            Kaart::new(Kleur::Schoppen, Waarde::Tal(8)),
            Kaart::new(Kleur::Harten, Waarde::Tal(4)),
            Kaart::new(Kleur::Harten, Waarde::Tal(2)),
        ],
        Combinatie::ThreeOfAKind(Waarde::Tal(8)),
    );
    hand_categorisatie(
        [
            Kaart::new(Kleur::Harten, Waarde::Boer),
            Kaart::new(Kleur::Ruiten, Waarde::Boer),
            Kaart::new(Kleur::Schoppen, Waarde::Tal(6)),
            Kaart::new(Kleur::Harten, Waarde::Tal(4)),
            Kaart::new(Kleur::Harten, Waarde::Tal(2)),
        ],
        Combinatie::Paar(Waarde::Boer),
    );
    hand_categorisatie(
        [
            Kaart::new(Kleur::Harten, Waarde::Aas),
            Kaart::new(Kleur::Ruiten, Waarde::Boer),
            Kaart::new(Kleur::Schoppen, Waarde::Tal(8)),
            Kaart::new(Kleur::Harten, Waarde::Tal(4)),
            Kaart::new(Kleur::Harten, Waarde::Tal(2)),
        ],
        Combinatie::High,
    );
    hand_categorisatie(
        [
            Kaart::new(Kleur::Harten, Waarde::Tal(5)),
            Kaart::new(Kleur::Ruiten, Waarde::Tal(5)),
            Kaart::new(Kleur::Schoppen, Waarde::Tal(5)),
            Kaart::new(Kleur::Harten, Waarde::Tal(5)),
            Kaart::new(Kleur::Klaveren, Waarde::Tal(9)),
        ],
        Combinatie::FourOfAKind(Waarde::Tal(5)),
    );
    hand_categorisatie(
        [
            Kaart::new(Kleur::Harten, Waarde::Tal(7)),
            Kaart::new(Kleur::Ruiten, Waarde::Tal(7)),
            Kaart::new(Kleur::Schoppen, Waarde::Tal(3)),
            Kaart::new(Kleur::Harten, Waarde::Tal(3)),
            Kaart::new(Kleur::Klaveren, Waarde::Tal(3)),
        ],
        Combinatie::FullHouse(Waarde::Tal(3), Waarde::Tal(7)),
    );
}

#[test]
fn vol_deck_heeft_52_verschillende_kaarten() {
    let deck = Kaart::maak_deck();
    assert_eq!(deck.len(), 52);
    for i in 0..52 {
        for j in 0..i {
            assert_ne!(deck[i], deck[j]);
        }
    }
    // The deck starts at the ace of hearts and ends at the king of diamonds.
    assert_eq!(deck[0], Kaart::new(Kleur::Harten, Waarde::Aas));
    assert_eq!(deck[51], Kaart::new(Kleur::Ruiten, Waarde::Koning));
}
