//! The betting state machine: registration, blinds, actions, round closure,
//! showdown, and the money bookkeeping around them.

use pokbotcom::Actie;
use pokbotcom::Centrale;
use pokbotcom::PokbotcomError;
use pokbotcom::PokbotcomMelding;
use pokbotcom::SpelId;
use pokbotcom::SpelStatus;
use pokbotcom::Speler;
use pokbotcom::SpelerId;
use pokbotcom::BIG_BLIND;
use pokbotcom::CHIPS_PER_SPELER;
use pokbotcom::SMALL_BLIND;

#[test]
fn basic_spel_happy_flow() {
    let speler_a = Speler::new_zonder_id(String::from("Aart"));
    let speler_b = Speler::new_zonder_id(String::from("Bart"));
    let speler_c = Speler::new_zonder_id(String::from("Cart"));
    let speler_d = Speler::new_zonder_id(String::from("Dart"));

    let mut centrale = Centrale::new();

    let id_a = centrale.registreer_speler(speler_a).unwrap();
    let id_b = centrale.registreer_speler(speler_b).unwrap();
    let id_c = centrale.registreer_speler(speler_c).unwrap();
    let id_d = centrale.registreer_speler(speler_d).unwrap();

    let spel_id = centrale.maak_spel(vec![id_a, id_b, id_c, id_d], Some(0));

    assert!(id_a == SpelerId(0));
    assert!(id_b == SpelerId(1));
    assert!(id_c == SpelerId(2));
    assert!(id_d == SpelerId(3));
    assert!(spel_id == SpelId(0));

    centrale.start_spel(spel_id).unwrap();

    assert_eq!(centrale.spellen[0].aan_de_beurt, 3);

    assert!(centrale.ontvang_actie(spel_id, id_a, Actie::Fold).is_err());
    assert!(centrale.ontvang_actie(spel_id, id_d, Actie::Fold).is_ok());

    assert_eq!(centrale.spellen[0].aan_de_beurt, 0);

    assert!(centrale.ontvang_actie(spel_id, id_a, Actie::Check).is_err());
    assert_eq!(centrale.spellen[0].aan_de_beurt, 0);
    assert!(centrale.ontvang_actie(spel_id, id_a, Actie::Call).is_ok());

    assert_eq!(centrale.spelers[0].chips, CHIPS_PER_SPELER - BIG_BLIND);
    assert_eq!(centrale.spelers[0].inzet, BIG_BLIND);

    assert!(centrale
        .ontvang_actie(spel_id, id_b, Actie::Bet(50))
        .is_ok());
    assert_eq!(centrale.spelers[1].inzet, BIG_BLIND + 50);
    assert_eq!(centrale.spelers[1].chips, CHIPS_PER_SPELER - BIG_BLIND - 50);

    assert!(centrale.ontvang_actie(spel_id, id_c, Actie::Call).is_ok());
    assert_eq!(centrale.spelers[2].inzet, BIG_BLIND + 50);
    assert_eq!(centrale.spelers[2].chips, CHIPS_PER_SPELER - BIG_BLIND - 50);

    assert_eq!(centrale.spellen[0].aan_de_beurt, 0);

    // Folding here lets the remaining two players see the next streets.
    assert!(centrale.ontvang_actie(spel_id, id_a, Actie::Fold).is_ok());

    assert!(centrale.ontvang_actie(spel_id, id_b, Actie::Check).is_ok());
    assert!(centrale.ontvang_actie(spel_id, id_c, Actie::Check).is_ok());
    // The flop.
    assert!(centrale.ontvang_actie(spel_id, id_b, Actie::Check).is_ok());
    assert!(centrale.ontvang_actie(spel_id, id_c, Actie::Check).is_ok());

    // The pot holds the two bets of 50 and three big blinds.
    assert_eq!(
        centrale.spellen[0].pot,
        50 + 50 + BIG_BLIND + BIG_BLIND + BIG_BLIND
    );

    // The river.
    assert!(centrale.ontvang_actie(spel_id, id_b, Actie::Check).is_ok());
    assert!(centrale.ontvang_actie(spel_id, id_c, Actie::Check).is_ok());

    // Cart holds a straight, the best hand, and wins the pot. Big blind and
    // a bet of 50 went out; the next hand starts at once and Cart, now the
    // small blind, pays that blind immediately.
    assert_eq!(
        centrale.spelers[2].chips,
        CHIPS_PER_SPELER - 50 - BIG_BLIND + (50 + 50 + BIG_BLIND + BIG_BLIND + BIG_BLIND)
            - SMALL_BLIND
    );

    // The hand is over; Aart acts first since Bart deals, Cart posts the
    // small blind and Dart the big blind.
    assert_eq!(centrale.spellen[0].aan_de_beurt, 0);
}

fn totaal_geld(centrale: &Centrale) -> u64 {
    let mut som: u64 = 0;
    for speler in &centrale.spelers {
        som += speler.chips + speler.inzet;
    }
    for spel in &centrale.spellen {
        som += spel.pot;
    }
    som
}

#[test]
fn chips_blijven_behouden() {
    let mut centrale = Centrale::new();
    let id_a = centrale
        .registreer_speler(Speler::new_zonder_id(String::from("Aart")))
        .unwrap();
    let id_b = centrale
        .registreer_speler(Speler::new_zonder_id(String::from("Bart")))
        .unwrap();
    let id_c = centrale
        .registreer_speler(Speler::new_zonder_id(String::from("Cart")))
        .unwrap();
    let spel_id = centrale.maak_spel(vec![id_a, id_b, id_c], Some(7));
    assert_eq!(totaal_geld(&centrale), 3 * CHIPS_PER_SPELER);

    centrale.start_spel(spel_id).unwrap();
    assert_eq!(totaal_geld(&centrale), 3 * CHIPS_PER_SPELER);

    assert!(centrale.ontvang_actie(spel_id, id_a, Actie::Call).is_ok());
    assert_eq!(totaal_geld(&centrale), 3 * CHIPS_PER_SPELER);

    assert!(centrale.ontvang_actie(spel_id, id_b, Actie::Bet(30)).is_ok());
    assert_eq!(totaal_geld(&centrale), 3 * CHIPS_PER_SPELER);

    assert!(centrale.ontvang_actie(spel_id, id_c, Actie::Call).is_ok());
    assert_eq!(totaal_geld(&centrale), 3 * CHIPS_PER_SPELER);

    // The fold hands the turn back to the raiser, which closes the round:
    // the committed bets move into the pot and the flop is dealt.
    assert!(centrale.ontvang_actie(spel_id, id_a, Actie::Fold).is_ok());
    assert!(centrale.spellen[0].tafel.0.is_some());
    assert_eq!(centrale.spellen[0].pot, 20 + 50 + 50);
    assert_eq!(totaal_geld(&centrale), 3 * CHIPS_PER_SPELER);

    // Check-check closes the next round and deals the turn card.
    assert!(centrale.ontvang_actie(spel_id, id_b, Actie::Check).is_ok());
    assert!(centrale.ontvang_actie(spel_id, id_c, Actie::Check).is_ok());
    assert!(centrale.spellen[0].tafel.1.is_some());
    assert_eq!(totaal_geld(&centrale), 3 * CHIPS_PER_SPELER);
}

#[test]
fn beurt_slaat_gevouwen_zetels_over() {
    let mut centrale = Centrale::new();
    let id_a = centrale
        .registreer_speler(Speler::new_zonder_id(String::from("Aart")))
        .unwrap();
    let id_b = centrale
        .registreer_speler(Speler::new_zonder_id(String::from("Bart")))
        .unwrap();
    let id_c = centrale
        .registreer_speler(Speler::new_zonder_id(String::from("Cart")))
        .unwrap();
    let spel_id = centrale.maak_spel(vec![id_a, id_b, id_c], Some(1));
    centrale.start_spel(spel_id).unwrap();

    // Three seats: Aart deals, Bart is small blind, Cart big blind; with
    // three seats the dealer also acts first.
    assert_eq!(centrale.spellen[0].aan_de_beurt, 0);
    assert!(centrale.ontvang_actie(spel_id, id_a, Actie::Fold).is_ok());
    // The folded dealer seat is skipped from now on.
    assert_eq!(centrale.spellen[0].aan_de_beurt, 1);
    assert!(centrale.ontvang_actie(spel_id, id_b, Actie::Fold).is_ok());
    assert_eq!(centrale.spellen[0].aan_de_beurt, 2);

    // Only Cart is left: its accepted check returns to itself and closes
    // the round at once, dealing the flop.
    assert!(centrale.spellen[0].tafel.0.is_none());
    assert!(centrale.ontvang_actie(spel_id, id_c, Actie::Check).is_ok());
    assert!(centrale.spellen[0].tafel.0.is_some());
    assert_eq!(centrale.spellen[0].aan_de_beurt, 2);
}

#[test]
fn eenzame_speler_sluit_de_ronde_met_elke_actie() {
    let mut centrale = Centrale::new();
    let id_a = centrale
        .registreer_speler(Speler::new_zonder_id(String::from("Aart")))
        .unwrap();
    let id_b = centrale
        .registreer_speler(Speler::new_zonder_id(String::from("Bart")))
        .unwrap();
    let spel_id = centrale.maak_spel(vec![id_a, id_b], Some(9));
    centrale.start_spel(spel_id).unwrap();

    // Two seats: Bart (small blind) acts first and folds; only Aart is left.
    assert_eq!(centrale.spellen[0].aan_de_beurt, 1);
    assert!(centrale.ontvang_actie(spel_id, id_b, Actie::Fold).is_ok());
    assert_eq!(centrale.spellen[0].aan_de_beurt, 0);

    // The lone live player's accepted call closes the round at once, even
    // though no round marker is set: the blinds are swept into the pot and
    // the flop is dealt.
    assert!(centrale.spellen[0].tafel.0.is_none());
    assert!(centrale.ontvang_actie(spel_id, id_a, Actie::Call).is_ok());
    assert!(centrale.spellen[0].tafel.0.is_some());
    assert_eq!(centrale.spellen[0].pot, SMALL_BLIND + BIG_BLIND);
    assert_eq!(totaal_geld(&centrale), 2 * CHIPS_PER_SPELER);

    // And so does a lone check on the next street.
    assert!(centrale.ontvang_actie(spel_id, id_a, Actie::Check).is_ok());
    assert!(centrale.spellen[0].tafel.1.is_some());
}

#[test]
fn fouten_laten_de_toestand_met_rust() {
    let mut centrale = Centrale::new();
    let id_a = centrale
        .registreer_speler(Speler::new_zonder_id(String::from("Aart")))
        .unwrap();
    let id_b = centrale
        .registreer_speler(Speler::new_zonder_id(String::from("Bart")))
        .unwrap();
    let spel_id = centrale.maak_spel(vec![id_a, id_b], Some(3));
    centrale.start_spel(spel_id).unwrap();

    // Two seats: the seat after the dealer posts the small blind and acts
    // first; the dealer posts the big blind.
    assert_eq!(centrale.spellen[0].aan_de_beurt, 1);

    // Acting out of turn.
    assert!(matches!(
        centrale.ontvang_actie(spel_id, id_a, Actie::Check),
        Err(PokbotcomError::NietJouwBeurt)
    ));

    // Checking below the bet-to-match: the small blind has 10 in, 20 is due.
    let chips_voor = centrale.spelers[1].chips;
    assert!(matches!(
        centrale.ontvang_actie(spel_id, id_b, Actie::Check),
        Err(PokbotcomError::NietGenoegChips)
    ));
    assert_eq!(centrale.spelers[1].chips, chips_voor);

    // Raising beyond the stack.
    assert!(matches!(
        centrale.ontvang_actie(spel_id, id_b, Actie::Bet(CHIPS_PER_SPELER)),
        Err(PokbotcomError::NietGenoegChips)
    ));
    assert_eq!(centrale.spelers[1].chips, chips_voor);
    assert_eq!(centrale.spellen[0].huidige_inzet, BIG_BLIND);

    // Registering a player that already carries an identifier.
    let al_geregistreerd = Speler {
        id: Some(SpelerId(7)),
        naam: String::from("Eert"),
        chips: CHIPS_PER_SPELER,
        hand: None,
        inzet: 0,
    };
    assert!(matches!(
        centrale.registreer_speler(al_geregistreerd),
        Err(PokbotcomError::SpelerAlGeregistreerd(_))
    ));
}

#[test]
fn spel_pauzeert_als_de_blinds_op_zijn() {
    // Two players with just enough for one hand: whoever wins the pot, the
    // loser is left too short for the next hand's blinds.
    let mut centrale = Centrale::new();
    let arm_a = Speler {
        id: None,
        naam: String::from("Aart"),
        chips: 25,
        hand: None,
        inzet: 0,
    };
    let arm_b = Speler {
        id: None,
        naam: String::from("Bart"),
        chips: 25,
        hand: None,
        inzet: 0,
    };
    let id_a = centrale.registreer_speler(arm_a).unwrap();
    let id_b = centrale.registreer_speler(arm_b).unwrap();
    let spel_id = centrale.maak_spel(vec![id_a, id_b], Some(6));
    centrale.start_spel(spel_id).unwrap();
    assert_eq!(centrale.spellen[0].status, SpelStatus::Lopend);

    // Check and call the hand through to the showdown.
    assert!(centrale.ontvang_actie(spel_id, id_b, Actie::Call).is_ok());
    assert!(centrale.ontvang_actie(spel_id, id_a, Actie::Check).is_ok());
    assert!(centrale.ontvang_actie(spel_id, id_b, Actie::Check).is_ok());
    for _ in 0..2 {
        assert!(centrale.ontvang_actie(spel_id, id_b, Actie::Check).is_ok());
        assert!(centrale.ontvang_actie(spel_id, id_a, Actie::Check).is_ok());
    }
    assert!(centrale.ontvang_actie(spel_id, id_b, Actie::Check).is_ok());
    // The river-closing check succeeds even though the next hand cannot be
    // dealt: the payout stands and the game pauses instead of failing.
    assert!(centrale.ontvang_actie(spel_id, id_a, Actie::Check).is_ok());
    assert_eq!(centrale.spellen[0].status, SpelStatus::Wachtend);
    assert_eq!(centrale.spellen[0].pot, 0);
    assert_eq!(totaal_geld(&centrale), 50);
    assert!(centrale
        .berichten
        .iter()
        .any(|b| matches!(b.melding, PokbotcomMelding::SpelGepauzeerd)));
    // One player holds the winnings, the other what was left.
    let chips = (centrale.spelers[0].chips, centrale.spelers[1].chips);
    assert!(chips == (45, 5) || chips == (5, 45));
}

#[test]
fn zelfde_zaad_geeft_zelfde_deling() {
    let mut eerste = Centrale::new();
    let a1 = eerste
        .registreer_speler(Speler::new_zonder_id(String::from("Aart")))
        .unwrap();
    let b1 = eerste
        .registreer_speler(Speler::new_zonder_id(String::from("Bart")))
        .unwrap();
    let spel1 = eerste.maak_spel(vec![a1, b1], Some(42));
    eerste.start_spel(spel1).unwrap();

    let mut tweede = Centrale::new();
    let a2 = tweede
        .registreer_speler(Speler::new_zonder_id(String::from("Aart")))
        .unwrap();
    let b2 = tweede
        .registreer_speler(Speler::new_zonder_id(String::from("Bart")))
        .unwrap();
    let spel2 = tweede.maak_spel(vec![a2, b2], Some(42));
    tweede.start_spel(spel2).unwrap();

    assert_eq!(eerste.spelers[0].hand, tweede.spelers[0].hand);
    assert_eq!(eerste.spelers[1].hand, tweede.spelers[1].hand);

    // The deck really was shuffled: the first seat's cards are not simply
    // the top of the unshuffled deck.
    let ongeschud = (
        pokbotcom::kaart::Kaart::new(
            pokbotcom::kaart::Kleur::Ruiten,
            pokbotcom::kaart::Waarde::Koning,
        ),
        pokbotcom::kaart::Kaart::new(
            pokbotcom::kaart::Kleur::Schoppen,
            pokbotcom::kaart::Waarde::Koningin,
        ),
    );
    assert_ne!(eerste.spelers[0].hand, Some(ongeschud));

    // A different seed shuffles differently.
    let mut anders = Centrale::new();
    let a3 = anders
        .registreer_speler(Speler::new_zonder_id(String::from("Aart")))
        .unwrap();
    let b3 = anders
        .registreer_speler(Speler::new_zonder_id(String::from("Bart")))
        .unwrap();
    let spel3 = anders.maak_spel(vec![a3, b3], Some(43));
    anders.start_spel(spel3).unwrap();
    assert_ne!(
        (eerste.spelers[0].hand, eerste.spelers[1].hand),
        (anders.spelers[0].hand, anders.spelers[1].hand)
    );
}

#[test]
fn berichten_melden_kaarten_en_winst() {
    let mut centrale = Centrale::new();
    let id_a = centrale
        .registreer_speler(Speler::new_zonder_id(String::from("Aart")))
        .unwrap();
    let id_b = centrale
        .registreer_speler(Speler::new_zonder_id(String::from("Bart")))
        .unwrap();
    let spel_id = centrale.maak_spel(vec![id_a, id_b], Some(5));
    centrale.start_spel(spel_id).unwrap();

    // Every seat got its hole cards announced.
    let handen = centrale
        .berichten
        .iter()
        .filter(|b| matches!(b.melding, PokbotcomMelding::Hand(_, _)))
        .count();
    assert_eq!(handen, 2);

    // Play a full hand of checks and calls to the showdown: the small
    // blind completes, the big blind checks, and every street is checked
    // through by both seats.
    assert!(centrale.ontvang_actie(spel_id, id_b, Actie::Call).is_ok());
    assert!(centrale.ontvang_actie(spel_id, id_a, Actie::Check).is_ok());
    assert!(centrale.ontvang_actie(spel_id, id_b, Actie::Check).is_ok());
    for _ in 0..3 {
        assert!(centrale.ontvang_actie(spel_id, id_b, Actie::Check).is_ok());
        assert!(centrale.ontvang_actie(spel_id, id_a, Actie::Check).is_ok());
    }
    // The win is announced to both seats: one notice per seated player.
    let gewonnen = centrale
        .berichten
        .iter()
        .filter(|b| matches!(b.melding, PokbotcomMelding::Gewonnen(_, _)))
        .count();
    assert_eq!(gewonnen, 2);
}
