//! Players, games, actions and the messages the engine emits.

use vstd::prelude::*;
use crate::kaart::Hand;
use crate::kaart::Kaart;
use crate::kaart::volledig_deck;
use crate::toeval::rng_uit_entropie;
use crate::toeval::rng_uit_zaad;

verus! {

/// Life cycle of a game: created, hand in progress, finished.
#[derive(Clone, Copy, Debug, PartialEq, Eq, Structural)]
pub enum SpelStatus {
    Wachtend,
    Lopend,
    Gestopt,
}

/// Identifier of a registered player; handed out once, never reused.
#[derive(Clone, Copy, Debug, PartialEq, Eq, Structural)]
pub struct SpelerId(pub u64);

/// Identifier of a created game; handed out once, never reused.
#[derive(Clone, Copy, Debug, PartialEq, Eq, Structural)]
pub struct SpelId(pub u64);

/// Chips a freshly created player starts with.
pub const CHIPS_PER_SPELER: u64 = 1000;

/// Forced bet of the seat directly after the dealer.
pub const SMALL_BLIND: u64 = 10;

/// Forced bet of the second seat after the dealer, and the opening
/// bet-to-match of every betting round.
pub const BIG_BLIND: u64 = 20;

/// Per-seat state: chip stack, optional hole cards (none: folded or not yet
/// dealt in) and the amount committed to the pot this betting round.
#[derive(Clone, Debug, PartialEq, Eq)]
pub struct Speler {
    pub id: Option<SpelerId>,
    pub naam: String,
    pub chips: u64,
    pub hand: Option<(Kaart, Kaart)>,
    pub inzet: u64,
}

/// What an acting player may do; `Bet` raises the bet-to-match by its amount.
#[derive(Clone, Copy, Debug, PartialEq, Eq, Structural)]
pub enum Actie {
    Fold,
    Check,
    Call,
    Bet(u64),
}

/// The recoverable failures: acting out of turn, a chip transfer that would
/// drive a stack negative, and registering a player twice. Each leaves all
/// game state untouched.
#[derive(Clone, Copy, Debug, PartialEq, Eq, Structural)]
pub enum PokbotcomError {
    SpelerAlGeregistreerd(SpelerId),
    NietGenoegChips,
    NietJouwBeurt,
}

/// An event for one player: cards dealt, an opponent's action, the turn
/// marker, the end of a betting round, the hand's winner, or the notice
/// that the game paused because a blind for the next hand could not be
/// posted (a new start resumes it).
#[derive(Clone, Copy, Debug, PartialEq)]
pub enum PokbotcomMelding {
    Hand(Kaart, Kaart),
    Flop(Kaart, Kaart, Kaart),
    Turn(Kaart),
    River(Kaart),
    SpelerActie(SpelerId, Actie),
    AanDeBeurt,
    RondeOver,
    Gewonnen(Hand, SpelerId),
    SpelGepauzeerd,
}

/// An event addressed to one player. The engine only collects these; the
/// caller delivers them however it likes.
#[derive(Clone, Copy, Debug, PartialEq)]
pub struct Bericht {
    pub aan: SpelerId,
    pub melding: PokbotcomMelding,
}

impl Speler {
    /// A new player at the fixed starting stack, not yet registered.
    pub fn new_zonder_id(naam: String) -> (s: Speler)
        ensures
            s.id == None::<SpelerId>,
            s.naam == naam,
            s.chips == CHIPS_PER_SPELER,
            s.hand == None::<(Kaart, Kaart)>,
            s.inzet == 0,
    {
        Speler { id: None, naam, chips: CHIPS_PER_SPELER, hand: None, inzet: 0 }
    }

    /// Moves `te_vorderen` chips from the stack to the committed bet; fails
    /// without touching anything when the stack is too small. Chips are moved,
    /// never created or destroyed: stack plus committed bet is unchanged.
    pub fn zet_chips_in(&mut self, te_vorderen: u64) -> (r: Result<(), PokbotcomError>)
        requires
            old(self).chips + old(self).inzet <= u64::MAX,
        ensures
            old(self).chips >= te_vorderen ==> {
                &&& r is Ok
                &&& final(self).chips == old(self).chips - te_vorderen
                &&& final(self).inzet == old(self).inzet + te_vorderen
            },
            old(self).chips < te_vorderen ==> r == Err::<(), PokbotcomError>(
                PokbotcomError::NietGenoegChips,
            ) && *final(self) == *old(self),
            final(self).id == old(self).id,
            final(self).naam == old(self).naam,
            final(self).hand == old(self).hand,
            final(self).chips + final(self).inzet == old(self).chips + old(self).inzet,
    {
        if self.chips >= te_vorderen {
            self.chips = self.chips - te_vorderen;
            self.inzet = self.inzet + te_vorderen;
            Ok(())
        } else {
            Err(PokbotcomError::NietGenoegChips)
        }
    }
}

/// One table: fixed seating order, community card slots filled strictly in
/// order, a deck consumed from the end, and the bookkeeping of the betting
/// round in progress.
#[derive(Debug)]
pub struct Spel {
    pub id: Option<SpelId>,
    pub spelers: Vec<SpelerId>,
    pub pot: u64,
    pub tafel: (Option<(Kaart, Kaart, Kaart)>, Option<Kaart>, Option<Kaart>),
    pub huidige_dealer: usize,
    pub aan_de_beurt: usize,
    pub deck: Vec<Kaart>,
    pub huidige_inzet: u64,
    pub laatste_actionabele_speler: Option<SpelerId>,
    pub status: SpelStatus,
    pub rng: rand::rngs::StdRng,
}

impl Spel {
    /// An empty game under the given identifier, waiting for a start; seeded
    /// deterministically when a seed is given, from entropy otherwise.
    pub fn new(toegekende_id: SpelId, rng_seed: Option<u64>) -> (spel: Spel)
        ensures
            spel.id == Some(toegekende_id),
            spel.spelers@ == Seq::<SpelerId>::empty(),
            spel.pot == 0,
            spel.tafel == (
                None::<(Kaart, Kaart, Kaart)>,
                None::<Kaart>,
                None::<Kaart>,
            ),
            spel.huidige_dealer == 0,
            spel.aan_de_beurt == 1,
            spel.deck@ == volledig_deck(),
            spel.huidige_inzet == BIG_BLIND,
            spel.laatste_actionabele_speler == None::<SpelerId>,
            spel.status == SpelStatus::Wachtend,
    {
        let deck = crate::kaart::vers_deck();
        Spel {
            id: Some(toegekende_id),
            spelers: Vec::new(),
            pot: 0,
            tafel: (None, None, None),
            huidige_dealer: 0,
            aan_de_beurt: 1,
            deck,
            huidige_inzet: BIG_BLIND,
            laatste_actionabele_speler: None,
            status: SpelStatus::Wachtend,
            rng: match rng_seed {
                Some(zaad) => rng_uit_zaad(zaad),
                None => rng_uit_entropie(),
            },
        }
    }
}

} // verus!
