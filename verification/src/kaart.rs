//! Cards and the five-card hand evaluator.
//!
//! A `Kaart` is a rank (`Waarde`) and a suit (`Kleur`). `Hand::new` sorts five
//! cards by descending rank and classifies them into a `Combinatie`; hands are
//! totally ordered through an integer key (`hand_sleutel`) that ranks the
//! category first and breaks ties with the category's embedded ranks.

use vstd::prelude::*;
use vstd::seq_lib::lemma_sorted_unique;
use vstd::relations::sorted_by;
use itertools::Itertools;

verus! {

/// One of the four suits. Suits never carry strength; flush checks use
/// equality only, and the suit order below only makes five-card arrays
/// totally sortable.
#[derive(Clone, Copy, Debug, PartialEq, Eq, Structural)]
pub enum Kleur {
    Klaveren,
    Schoppen,
    Harten,
    Ruiten,
}

/// A card rank: the numerals two to ten carry their face value, above them
/// come jack, queen, king and ace.
#[derive(Clone, Copy, Debug, PartialEq, Eq, Structural)]
pub enum Waarde {
    Tal(u8),
    Boer,
    Koningin,
    Koning,
    Aas,
}

/// A playing card.
#[derive(Clone, Copy, Debug, PartialEq, Eq, Structural)]
pub struct Kaart {
    pub waarde: Waarde,
    pub kleur: Kleur,
}

/// Position of a suit in the (strength-free) suit order.
pub open spec fn kleur_rang(k: Kleur) -> int {
    match k {
        Kleur::Klaveren => 0,
        Kleur::Schoppen => 1,
        Kleur::Harten => 2,
        Kleur::Ruiten => 3,
    }
}

/// Position of a rank in the rank order: numerals by their value, then jack,
/// queen, king, ace. The face cards sit above every possible numeral, so the
/// order agrees with the card order of the data model for every `Waarde`
/// value, and the map is injective.
pub open spec fn waarde_rang(w: Waarde) -> int {
    match w {
        Waarde::Tal(t) => t as int,
        Waarde::Boer => 256,
        Waarde::Koningin => 257,
        Waarde::Koning => 258,
        Waarde::Aas => 259,
    }
}

/// Total order key of a single card: rank first, suit as final tiebreak.
pub open spec fn kaart_rang(k: Kaart) -> int {
    4 * waarde_rang(k.waarde) + kleur_rang(k.kleur)
}

pub proof fn lemma_kaart_rang_grenzen(k: Kaart)
    ensures
        0 <= kaart_rang(k) <= 1039,
{
}

pub proof fn lemma_kaart_rang_injectief(a: Kaart, b: Kaart)
    requires
        kaart_rang(a) == kaart_rang(b),
    ensures
        a == b,
{
}

/// Descending order on cards, as used for the five cards of a hand.
pub open spec fn aflopend(s: Seq<Kaart>) -> bool {
    forall|i: int, j: int| 0 <= i < j < s.len() ==> kaart_rang(s[j]) <= kaart_rang(s[i])
}

/// The comparison that `gesorteerd_aflopend` sorts by.
pub open spec fn kaart_daal() -> spec_fn(Kaart, Kaart) -> bool {
    |a: Kaart, b: Kaart| kaart_rang(b) <= kaart_rang(a)
}

/// The unique descending reordering of a card sequence.
pub open spec fn gesorteerd_aflopend(s: Seq<Kaart>) -> Seq<Kaart> {
    s.sort_by(kaart_daal())
}

pub proof fn lemma_daal_totale_orde()
    ensures
        vstd::relations::total_ordering(kaart_daal()),
{
    let leq = kaart_daal();
    assert forall|a: Kaart, b: Kaart| #[trigger] leq(a, b) && #[trigger] leq(b, a) implies a == b by {
        lemma_kaart_rang_injectief(a, b);
    }
}

pub proof fn lemma_gesorteerd_aflopend(s: Seq<Kaart>)
    ensures
        gesorteerd_aflopend(s).to_multiset() == s.to_multiset(),
        aflopend(gesorteerd_aflopend(s)),
        gesorteerd_aflopend(s).len() == s.len(),
{
    broadcast use vstd::seq_lib::group_to_multiset_ensures;

    lemma_daal_totale_orde();
    s.lemma_sort_by_ensures(kaart_daal());
    let g = gesorteerd_aflopend(s);
    assert(sorted_by(g, kaart_daal()));
    assert forall|i: int, j: int| 0 <= i < j < g.len() implies kaart_rang(g[j]) <= kaart_rang(
        g[i],
    ) by {
        assert(kaart_daal()(g[i], g[j]));
    }
    assert(g.to_multiset().len() == s.to_multiset().len());
}

/// A sequence that is descending and holds the same cards as `s` is exactly
/// the descending reordering of `s`: sorting is deterministic, whatever the
/// order the five cards came in.
pub proof fn lemma_aflopend_uniek(s: Seq<Kaart>, t: Seq<Kaart>)
    requires
        aflopend(t),
        t.to_multiset() == s.to_multiset(),
    ensures
        t == gesorteerd_aflopend(s),
{
    lemma_daal_totale_orde();
    lemma_gesorteerd_aflopend(s);
    let g = gesorteerd_aflopend(s);
    assert(sorted_by(t, kaart_daal()));
    assert(sorted_by(g, kaart_daal()));
    lemma_sorted_unique(t, g, kaart_daal());
    assert(t =~= g);
}

/// Suit of card `i` of the unshuffled deck.
pub open spec fn deck_kleur(i: int) -> Kleur {
    if i % 4 == 0 {
        Kleur::Harten
    } else if i % 4 == 1 {
        Kleur::Klaveren
    } else if i % 4 == 2 {
        Kleur::Schoppen
    } else {
        Kleur::Ruiten
    }
}

/// Rank of card `i` of the unshuffled deck: ace, the numerals two to ten,
/// jack, queen, king, repeating every thirteen cards.
pub open spec fn deck_waarde(i: int) -> Waarde {
    let r = i % 13;
    if r == 0 {
        Waarde::Aas
    } else if r <= 9 {
        Waarde::Tal((r + 1) as u8)
    } else if r == 10 {
        Waarde::Boer
    } else if r == 11 {
        Waarde::Koningin
    } else {
        Waarde::Koning
    }
}

pub open spec fn deck_kaart(i: int) -> Kaart {
    Kaart { waarde: deck_waarde(i), kleur: deck_kleur(i) }
}

/// The 52 cards of a fresh, unshuffled deck.
pub open spec fn volledig_deck() -> Seq<Kaart> {
    Seq::new(52, |i: int| deck_kaart(i))
}

impl Kaart {
    pub fn new(kleur: Kleur, waarde: Waarde) -> (k: Kaart)
        ensures
            k == (Kaart { waarde, kleur }),
    {
        Kaart { kleur, waarde }
    }

    /// Builds the full deck, every suit crossed with every rank.
    pub fn maak_deck() -> (deck: [Kaart; 52])
        ensures
            deck@ == volledig_deck(),
    {
        broadcast use vstd::array::group_array_axioms;

        let mut deck = [Kaart::new(Kleur::Harten, Waarde::Aas); 52];
        for i in 0..52usize
            invariant
                forall|j: int| 0 <= j < i ==> deck@[j] == deck_kaart(j),
        {
            let kleur = if i % 4 == 0 {
                Kleur::Harten
            } else if i % 4 == 1 {
                Kleur::Klaveren
            } else if i % 4 == 2 {
                Kleur::Schoppen
            } else {
                Kleur::Ruiten
            };
            let rest13 = i % 13;
            let waarde = if rest13 == 0 {
                Waarde::Aas
            } else if rest13 <= 9 {
                Waarde::Tal((rest13 + 1) as u8)
            } else if rest13 == 10 {
                Waarde::Boer
            } else if rest13 == 11 {
                Waarde::Koningin
            } else {
                Waarde::Koning
            };
            deck[i] = Kaart::new(kleur, waarde);
        }
        proof {
            assert(deck@ =~= volledig_deck());
        }
        deck
    }
}

/// A full deck as a vector, ready to be shuffled and consumed from the end.
pub fn vers_deck() -> (v: Vec<Kaart>)
    ensures
        v@ == volledig_deck(),
{
    let kaarten = Kaart::maak_deck();
    let mut v: Vec<Kaart> = Vec::new();
    for i in 0..52usize
        invariant
            v@.len() == i,
            forall|j: int| 0 <= j < i ==> v@[j] == volledig_deck()[j],
            kaarten@ == volledig_deck(),
    {
        v.push(kaarten[i]);
    }
    proof {
        assert(v@ =~= volledig_deck());
    }
    v
}

/// The poker categories, weakest first; the embedded ranks break ties between
/// two hands of the same category. A `Straight` whose top card is the ace
/// also records whether the ace is high (broadway) or low (the wheel).
#[derive(Clone, Copy, Debug, PartialEq, Eq)]
pub enum Combinatie {
    High,
    Paar(Waarde),
    TweePaar(Waarde, Waarde),
    ThreeOfAKind(Waarde),
    Straight(Waarde, Option<bool>),
    Flush,
    FullHouse(Waarde, Waarde),
    FourOfAKind(Waarde),
    StraightFlush(Waarde),
    RoyalFlush,
}

/// Five cards sorted descending, together with their category.
#[derive(Clone, Copy, Debug, PartialEq, Eq)]
pub struct Hand {
    pub combinatie: Combinatie,
    pub kaarten: [Kaart; 5],
}

/// All cards share one suit (trivially true of fewer than two cards).
pub open spec fn zelfde_kleur(s: Seq<Kaart>) -> bool {
    forall|i: int, j: int| 0 <= i < s.len() && 0 <= j < s.len() ==> s[i].kleur == s[j].kleur
}

/// Top card of a straight, given the five ranks in descending order; `None`
/// when they do not form a straight. The ace-high straight (broadway) is not
/// recognised here: it is handled before this check. The wheel yields the ace
/// itself, as the category stores it.
pub open spec fn straat_top(w0: Waarde, w1: Waarde, w2: Waarde, w3: Waarde, w4: Waarde) -> Option<
    Waarde,
> {
    if w0 == Waarde::Aas && w1 == Waarde::Tal(5) && w2 == Waarde::Tal(4) && w3 == Waarde::Tal(3)
        && w4 == Waarde::Tal(2) {
        Some(Waarde::Aas)
    } else if w0 == Waarde::Koning && w1 == Waarde::Koningin && w2 == Waarde::Boer && w3
        == Waarde::Tal(10) && w4 == Waarde::Tal(9) {
        Some(Waarde::Koning)
    } else if w0 == Waarde::Koningin && w1 == Waarde::Boer && w2 == Waarde::Tal(10) && w3
        == Waarde::Tal(9) && w4 == Waarde::Tal(8) {
        Some(Waarde::Koningin)
    } else if w0 == Waarde::Boer && w1 == Waarde::Tal(10) && w2 == Waarde::Tal(9) && w3
        == Waarde::Tal(8) && w4 == Waarde::Tal(7) {
        Some(Waarde::Boer)
    } else {
        match (w0, w1, w2, w3, w4) {
            (Waarde::Tal(a), Waarde::Tal(b), Waarde::Tal(c), Waarde::Tal(d), Waarde::Tal(e)) => if a
                == b + 1 && b == c + 1 && c == d + 1 && d == e + 1 {
                Some(w0)
            } else {
                None
            },
            _ => None,
        }
    }
}

/// Category of five cards sorted descending. The checks run in precedence
/// order: the ace-high run first, then four of a kind and full house (which
/// outrank straights and flushes), then the suited and unsuited branches.
pub open spec fn combinatie_van(s: Seq<Kaart>) -> Combinatie {
    let zelfde = zelfde_kleur(s);
    let w0 = s[0].waarde;
    let w1 = s[1].waarde;
    let w2 = s[2].waarde;
    let w3 = s[3].waarde;
    let w4 = s[4].waarde;
    if w0 == Waarde::Aas && w1 == Waarde::Koning && w2 == Waarde::Koningin && w3 == Waarde::Boer
        && w4 == Waarde::Tal(10) {
        if zelfde {
            Combinatie::RoyalFlush
        } else {
            Combinatie::Straight(Waarde::Aas, Some(true))
        }
    } else if w0 == w1 && w0 == w2 && w0 == w3 {
        Combinatie::FourOfAKind(w0)
    } else if w1 == w2 && w1 == w3 && w1 == w4 {
        Combinatie::FourOfAKind(w1)
    } else if w0 == w1 && w0 == w2 && w3 == w4 {
        Combinatie::FullHouse(w0, w3)
    } else if w0 == w1 && w2 == w3 && w2 == w4 {
        Combinatie::FullHouse(w2, w0)
    } else if zelfde {
        match straat_top(w0, w1, w2, w3, w4) {
            Some(top) => Combinatie::StraightFlush(top),
            None => Combinatie::Flush,
        }
    } else {
        match straat_top(w0, w1, w2, w3, w4) {
            Some(top) => Combinatie::Straight(
                top,
                if top == Waarde::Aas {
                    Some(false)
                } else {
                    None
                },
            ),
            None => {
                if w0 == w1 && w0 == w2 {
                    Combinatie::ThreeOfAKind(w0)
                } else if w1 == w2 && w1 == w3 {
                    Combinatie::ThreeOfAKind(w1)
                } else if w2 == w3 && w2 == w4 {
                    Combinatie::ThreeOfAKind(w2)
                } else if w0 == w1 && w2 == w3 {
                    Combinatie::TweePaar(w0, w2)
                } else if w0 == w1 && w3 == w4 {
                    Combinatie::TweePaar(w0, w3)
                } else if w1 == w2 && w3 == w4 {
                    Combinatie::TweePaar(w1, w3)
                } else if w0 == w1 {
                    Combinatie::Paar(w0)
                } else if w1 == w2 {
                    Combinatie::Paar(w1)
                } else if w2 == w3 {
                    Combinatie::Paar(w2)
                } else if w3 == w4 {
                    Combinatie::Paar(w3)
                } else {
                    Combinatie::High
                }
            },
        }
    }
}

/// A hand is well formed when its cards are sorted descending and its
/// category is exactly the classification of those cards.
pub open spec fn hand_wf(h: Hand) -> bool {
    &&& aflopend(h.kaarten@)
    &&& h.combinatie == combinatie_van(h.kaarten@)
}

/// Relies on itertools' `all_equal`: true exactly when every element of the
/// iterator compares equal to its first element, and for an empty iterator.
#[verifier::external_body]
fn alle_kleuren_gelijk(kaarten: &Vec<Kaart>) -> (r: bool)
    ensures
        r == zelfde_kleur(kaarten@),
{
    kaarten.iter().map(|k| k.kleur).all_equal()
}

/// Executable straight check, mirroring `straat_top`.
fn bepaal_straat_top(w0: Waarde, w1: Waarde, w2: Waarde, w3: Waarde, w4: Waarde) -> (r: Option<
    Waarde,
>)
    ensures
        r == straat_top(w0, w1, w2, w3, w4),
{
    if w0 == Waarde::Aas && w1 == Waarde::Tal(5) && w2 == Waarde::Tal(4) && w3 == Waarde::Tal(3)
        && w4 == Waarde::Tal(2) {
        Some(Waarde::Aas)
    } else if w0 == Waarde::Koning && w1 == Waarde::Koningin && w2 == Waarde::Boer && w3
        == Waarde::Tal(10) && w4 == Waarde::Tal(9) {
        Some(Waarde::Koning)
    } else if w0 == Waarde::Koningin && w1 == Waarde::Boer && w2 == Waarde::Tal(10) && w3
        == Waarde::Tal(9) && w4 == Waarde::Tal(8) {
        Some(Waarde::Koningin)
    } else if w0 == Waarde::Boer && w1 == Waarde::Tal(10) && w2 == Waarde::Tal(9) && w3
        == Waarde::Tal(8) && w4 == Waarde::Tal(7) {
        Some(Waarde::Boer)
    } else {
        match (w0, w1, w2, w3, w4) {
            (Waarde::Tal(a), Waarde::Tal(b), Waarde::Tal(c), Waarde::Tal(d), Waarde::Tal(e)) => {
                if a as u16 == b as u16 + 1 && b as u16 == c as u16 + 1 && c as u16 == d as u16 + 1
                    && d as u16 == e as u16 + 1 {
                    Some(w0)
                } else {
                    None
                }
            },
            _ => None,
        }
    }
}

/// Executable classification of five sorted cards, mirroring `combinatie_van`.
fn bepaal_combinatie(s: &Vec<Kaart>) -> (c: Combinatie)
    requires
        s@.len() == 5,
    ensures
        c == combinatie_van(s@),
{
    let zelfde = alle_kleuren_gelijk(s);
    let w0 = s[0].waarde;
    let w1 = s[1].waarde;
    let w2 = s[2].waarde;
    let w3 = s[3].waarde;
    let w4 = s[4].waarde;
    if w0 == Waarde::Aas && w1 == Waarde::Koning && w2 == Waarde::Koningin && w3 == Waarde::Boer
        && w4 == Waarde::Tal(10) {
        if zelfde {
            Combinatie::RoyalFlush
        } else {
            Combinatie::Straight(Waarde::Aas, Some(true))
        }
    } else if w0 == w1 && w0 == w2 && w0 == w3 {
        Combinatie::FourOfAKind(w0)
    } else if w1 == w2 && w1 == w3 && w1 == w4 {
        Combinatie::FourOfAKind(w1)
    } else if w0 == w1 && w0 == w2 && w3 == w4 {
        Combinatie::FullHouse(w0, w3)
    } else if w0 == w1 && w2 == w3 && w2 == w4 {
        Combinatie::FullHouse(w2, w0)
    } else if zelfde {
        match bepaal_straat_top(w0, w1, w2, w3, w4) {
            Some(top) => Combinatie::StraightFlush(top),
            None => Combinatie::Flush,
        }
    } else {
        match bepaal_straat_top(w0, w1, w2, w3, w4) {
            Some(top) => Combinatie::Straight(
                top,
                if top == Waarde::Aas {
                    Some(false)
                } else {
                    None
                },
            ),
            None => {
                if w0 == w1 && w0 == w2 {
                    Combinatie::ThreeOfAKind(w0)
                } else if w1 == w2 && w1 == w3 {
                    Combinatie::ThreeOfAKind(w1)
                } else if w2 == w3 && w2 == w4 {
                    Combinatie::ThreeOfAKind(w2)
                } else if w0 == w1 && w2 == w3 {
                    Combinatie::TweePaar(w0, w2)
                } else if w0 == w1 && w3 == w4 {
                    Combinatie::TweePaar(w0, w3)
                } else if w1 == w2 && w3 == w4 {
                    Combinatie::TweePaar(w1, w3)
                } else if w0 == w1 {
                    Combinatie::Paar(w0)
                } else if w1 == w2 {
                    Combinatie::Paar(w1)
                } else if w2 == w3 {
                    Combinatie::Paar(w2)
                } else if w3 == w4 {
                    Combinatie::Paar(w3)
                } else {
                    Combinatie::High
                }
            },
        }
    }
}

impl Hand {
    /// Sorts the five cards descending and classifies them. Total: every five
    /// cards yield exactly one category, whatever order they came in.
    pub fn new(kaarten: [Kaart; 5]) -> (h: Hand)
        ensures
            h.kaarten@ == gesorteerd_aflopend(kaarten@),
            h.combinatie == combinatie_van(h.kaarten@),
            hand_wf(h),
    {
        broadcast use vstd::array::group_array_axioms;

        let mut v: Vec<Kaart> = Vec::new();
        v.push(kaarten[0]);
        v.push(kaarten[1]);
        v.push(kaarten[2]);
        v.push(kaarten[3]);
        v.push(kaarten[4]);
        proof {
            assert(v@ =~= kaarten@);
        }
        let s = sorteer_aflopend(v);
        proof {
            lemma_gesorteerd_aflopend(kaarten@);
        }
        let combinatie = bepaal_combinatie(&s);
        let mut vijf = [s[0]; 5];
        vijf[1] = s[1];
        vijf[2] = s[2];
        vijf[3] = s[3];
        vijf[4] = s[4];
        proof {
            assert(vijf@ =~= s@);
        }
        Hand { combinatie, kaarten: vijf }
    }
}

/// Rank position of a card's rank, as an executable number.
pub fn rang_van_waarde(w: Waarde) -> (r: u16)
    ensures
        r as int == waarde_rang(w),
{
    match w {
        Waarde::Tal(t) => t as u16,
        Waarde::Boer => 256,
        Waarde::Koningin => 257,
        Waarde::Koning => 258,
        Waarde::Aas => 259,
    }
}

/// Total order key of a card, as an executable number.
pub fn rang_van_kaart(k: &Kaart) -> (r: u16)
    ensures
        r as int == kaart_rang(*k),
{
    let w = rang_van_waarde(k.waarde);
    let s: u16 = match k.kleur {
        Kleur::Klaveren => 0,
        Kleur::Schoppen => 1,
        Kleur::Harten => 2,
        Kleur::Ruiten => 3,
    };
    4 * w + s
}

/// Selection sort into descending card order.
fn sorteer_aflopend(invoer: Vec<Kaart>) -> (uit: Vec<Kaart>)
    ensures
        uit@ == gesorteerd_aflopend(invoer@),
{
    broadcast use vstd::seq_lib::group_to_multiset_ensures;

    let mut rest = invoer;
    let mut uit: Vec<Kaart> = Vec::new();
    proof {
        assert(uit@.to_multiset().add(rest@.to_multiset()) =~= invoer@.to_multiset());
    }
    while rest.len() > 0
        invariant
            uit@.to_multiset().add(rest@.to_multiset()) == invoer@.to_multiset(),
            aflopend(uit@),
            forall|i: int, j: int|
                0 <= i < uit@.len() && 0 <= j < rest@.len() ==> kaart_rang(rest@[j]) <= kaart_rang(
                    uit@[i],
                ),
        decreases rest.len(),
    {
        let mut m: usize = 0;
        let mut t: usize = 1;
        while t < rest.len()
            invariant
                0 < rest@.len(),
                m < t <= rest@.len(),
                forall|j: int| 0 <= j < t ==> kaart_rang(rest@[j]) <= kaart_rang(rest@[m as int]),
            decreases rest.len() - t,
        {
            if rang_van_kaart(&rest[t]) > rang_van_kaart(&rest[m]) {
                m = t;
            }
            t = t + 1;
        }
        let ghost oude_rest = rest@;
        let ghost oude_uit = uit@;
        let k = rest.remove(m);
        uit.push(k);
        proof {
            broadcast use vstd::seq_lib::group_to_multiset_ensures;

            assert(rest@ == oude_rest.remove(m as int));
            assert(k == oude_rest[m as int]);
            assert(oude_rest.remove(m as int).to_multiset() =~= oude_rest.to_multiset().remove(
                oude_rest[m as int],
            ));
            assert(oude_rest.contains(k));
            assert(oude_rest.to_multiset().count(k) > 0);
            assert(uit@.to_multiset() =~= oude_uit.to_multiset().insert(k));
            assert(uit@.to_multiset().add(rest@.to_multiset()) =~= invoer@.to_multiset());
            assert forall|i: int, j: int|
                0 <= i < uit@.len() && 0 <= j < rest@.len() implies kaart_rang(rest@[j])
                <= kaart_rang(uit@[i]) by {
                if i < oude_uit.len() {
                    if j < m {
                        assert(rest@[j] == oude_rest[j]);
                    } else {
                        assert(rest@[j] == oude_rest[j + 1]);
                    }
                } else {
                    assert(uit@[i] == k);
                    if j < m {
                        assert(rest@[j] == oude_rest[j]);
                    } else {
                        assert(rest@[j] == oude_rest[j + 1]);
                    }
                }
            }
        }
    }
    proof {
        assert(rest@.to_multiset().len() == 0);
        assert(uit@.to_multiset().add(rest@.to_multiset()) =~= uit@.to_multiset());
        lemma_aflopend_uniek(invoer@, uit@);
    }
    uit
}

/// Digit base of the hand key: strictly above every card key (at most 1039).
pub const SLEUTEL_BASIS: u64 = 2048;

pub const SLEUTEL_BASIS2: u64 = 2048 * 2048;

pub const SLEUTEL_BASIS3: u64 = 2048 * 2048 * 2048;

pub const SLEUTEL_BASIS4: u64 = 2048 * 2048 * 2048 * 2048;

pub const SLEUTEL_BASIS5: u64 = 2048 * 2048 * 2048 * 2048 * 2048;

/// Position of a category in the order weakest to strongest.
pub open spec fn combinatie_rang(c: Combinatie) -> int {
    match c {
        Combinatie::High => 0,
        Combinatie::Paar(_) => 1,
        Combinatie::TweePaar(_, _) => 2,
        Combinatie::ThreeOfAKind(_) => 3,
        Combinatie::Straight(_, _) => 4,
        Combinatie::Flush => 5,
        Combinatie::FullHouse(_, _) => 6,
        Combinatie::FourOfAKind(_) => 7,
        Combinatie::StraightFlush(_) => 8,
        Combinatie::RoyalFlush => 9,
    }
}

/// Lexicographic key of five cards: rank first, suit as final tiebreak,
/// highest position most significant.
pub open spec fn kaarten_sleutel(s: Seq<Kaart>) -> int {
    kaart_rang(s[0]) * SLEUTEL_BASIS4 + kaart_rang(s[1]) * SLEUTEL_BASIS3 + kaart_rang(s[2])
        * SLEUTEL_BASIS2 + kaart_rang(s[3]) * SLEUTEL_BASIS + kaart_rang(s[4])
}

/// Tiebreak within one category. High card and flush compare the whole
/// five-card array; pairs and sets compare their embedded rank(s); a straight
/// compares the top card, except that the wheel (stored with an ace, but the
/// five-high straight: its ace counts low) ranks below every other straight,
/// suited or not; a straight flush compares the top card with the same wheel
/// exception.
pub open spec fn tiebreuk(c: Combinatie, s: Seq<Kaart>) -> int {
    match c {
        Combinatie::High => kaarten_sleutel(s),
        Combinatie::Paar(a) => waarde_rang(a),
        Combinatie::TweePaar(a, b) => waarde_rang(a) * SLEUTEL_BASIS + waarde_rang(b),
        Combinatie::ThreeOfAKind(a) => waarde_rang(a),
        Combinatie::Straight(a, hoog) => if a == Waarde::Aas && hoog == Some(false) {
            0int
        } else {
            waarde_rang(a) * 2 + if hoog == Some(true) {
                1int
            } else {
                0int
            }
        },
        Combinatie::Flush => kaarten_sleutel(s),
        Combinatie::FullHouse(a, b) => waarde_rang(a) * SLEUTEL_BASIS + waarde_rang(b),
        Combinatie::FourOfAKind(a) => waarde_rang(a),
        Combinatie::StraightFlush(a) => if a == Waarde::Aas {
            0int
        } else {
            waarde_rang(a)
        },
        Combinatie::RoyalFlush => 0,
    }
}

/// Key of a category together with the five sorted cards it was read from.
pub open spec fn sleutel_van(c: Combinatie, s: Seq<Kaart>) -> int {
    combinatie_rang(c) * SLEUTEL_BASIS5 + tiebreuk(c, s)
}

/// Total-order key of a hand: the category is decisive, the tiebreak only
/// separates hands within one category.
pub open spec fn hand_sleutel(h: Hand) -> int {
    sleutel_van(h.combinatie, h.kaarten@)
}

/// Multiplying by a nonnegative factor preserves a bound.
pub proof fn lemma_maal_grens(x: int, g: int, c: u64)
    requires
        0 <= x <= g,
    ensures
        0 <= x * c <= g * c,
{
    assert(0 <= x * c <= g * c) by (nonlinear_arith)
        requires
            0 <= x <= g,
            c >= 0,
    ;
}

pub proof fn lemma_tiebreuk_grenzen(h: Hand)
    ensures
        0 <= tiebreuk(h.combinatie, h.kaarten@) < SLEUTEL_BASIS5,
{
    lemma_kaart_rang_grenzen(h.kaarten@[0]);
    lemma_kaart_rang_grenzen(h.kaarten@[1]);
    lemma_kaart_rang_grenzen(h.kaarten@[2]);
    lemma_kaart_rang_grenzen(h.kaarten@[3]);
    lemma_kaart_rang_grenzen(h.kaarten@[4]);
    let s = h.kaarten@;
    lemma_maal_grens(kaart_rang(s[0]), 1039, SLEUTEL_BASIS4);
    lemma_maal_grens(kaart_rang(s[1]), 1039, SLEUTEL_BASIS3);
    lemma_maal_grens(kaart_rang(s[2]), 1039, SLEUTEL_BASIS2);
    lemma_maal_grens(kaart_rang(s[3]), 1039, SLEUTEL_BASIS);
    lemma_maal_grens(waarde_rang(h.combinatie->TweePaar_0), 259, SLEUTEL_BASIS);
    lemma_maal_grens(waarde_rang(h.combinatie->FullHouse_0), 259, SLEUTEL_BASIS);
    assert(0 <= kaarten_sleutel(s) < SLEUTEL_BASIS5);
}

/// How two hands compare: by key, category first.
pub open spec fn hand_vergelijking(h1: Hand, h2: Hand) -> core::cmp::Ordering {
    if hand_sleutel(h1) < hand_sleutel(h2) {
        core::cmp::Ordering::Less
    } else if hand_sleutel(h1) == hand_sleutel(h2) {
        core::cmp::Ordering::Equal
    } else {
        core::cmp::Ordering::Greater
    }
}

/// Executable lexicographic key of the five sorted cards.
fn bepaal_kaarten_sleutel(kaarten: &[Kaart; 5]) -> (r: u64)
    ensures
        r as int == kaarten_sleutel(kaarten@),
{
    proof {
        lemma_kaart_rang_grenzen(kaarten@[0]);
        lemma_kaart_rang_grenzen(kaarten@[1]);
        lemma_kaart_rang_grenzen(kaarten@[2]);
        lemma_kaart_rang_grenzen(kaarten@[3]);
        lemma_kaart_rang_grenzen(kaarten@[4]);
    }
    let r0 = rang_van_kaart(&kaarten[0]) as u64;
    let r1 = rang_van_kaart(&kaarten[1]) as u64;
    let r2 = rang_van_kaart(&kaarten[2]) as u64;
    let r3 = rang_van_kaart(&kaarten[3]) as u64;
    let r4 = rang_van_kaart(&kaarten[4]) as u64;
    proof {
        lemma_maal_grens(r0 as int, 1039, SLEUTEL_BASIS4);
        lemma_maal_grens(r1 as int, 1039, SLEUTEL_BASIS3);
        lemma_maal_grens(r2 as int, 1039, SLEUTEL_BASIS2);
        lemma_maal_grens(r3 as int, 1039, SLEUTEL_BASIS);
    }
    r0 * SLEUTEL_BASIS4 + r1 * SLEUTEL_BASIS3 + r2 * SLEUTEL_BASIS2 + r3 * SLEUTEL_BASIS + r4
}

impl Hand {
    /// Executable total-order key of this hand.
    pub fn sleutel(&self) -> (r: u64)
        ensures
            r as int == hand_sleutel(*self),
    {
        proof {
            lemma_tiebreuk_grenzen(*self);
        }
        let tb: u64 = match self.combinatie {
            Combinatie::High => bepaal_kaarten_sleutel(&self.kaarten),
            Combinatie::Paar(a) => rang_van_waarde(a) as u64,
            Combinatie::TweePaar(a, b) => rang_van_waarde(a) as u64 * SLEUTEL_BASIS + rang_van_waarde(
                b,
            ) as u64,
            Combinatie::ThreeOfAKind(a) => rang_van_waarde(a) as u64,
            Combinatie::Straight(a, hoog) => if a == Waarde::Aas && hoog == Some(false) {
                0u64
            } else {
                rang_van_waarde(a) as u64 * 2 + match hoog {
                    Some(true) => 1u64,
                    _ => 0u64,
                }
            },
            Combinatie::Flush => bepaal_kaarten_sleutel(&self.kaarten),
            Combinatie::FullHouse(a, b) => rang_van_waarde(a) as u64 * SLEUTEL_BASIS
                + rang_van_waarde(b) as u64,
            Combinatie::FourOfAKind(a) => rang_van_waarde(a) as u64,
            Combinatie::StraightFlush(a) => if a == Waarde::Aas {
                0u64
            } else {
                rang_van_waarde(a) as u64
            },
            Combinatie::RoyalFlush => 0u64,
        };
        let cr: u64 = match self.combinatie {
            Combinatie::High => 0,
            Combinatie::Paar(_) => 1,
            Combinatie::TweePaar(_, _) => 2,
            Combinatie::ThreeOfAKind(_) => 3,
            Combinatie::Straight(_, _) => 4,
            Combinatie::Flush => 5,
            Combinatie::FullHouse(_, _) => 6,
            Combinatie::FourOfAKind(_) => 7,
            Combinatie::StraightFlush(_) => 8,
            Combinatie::RoyalFlush => 9,
        };
        cr * SLEUTEL_BASIS5 + tb
    }

    /// Compares two hands: category first, then the category's tiebreak.
    pub fn vergelijk(&self, ander: &Hand) -> (r: core::cmp::Ordering)
        ensures
            r == hand_vergelijking(*self, *ander),
    {
        let a = self.sleutel();
        let b = ander.sleutel();
        if a < b {
            core::cmp::Ordering::Less
        } else if a == b {
            core::cmp::Ordering::Equal
        } else {
            core::cmp::Ordering::Greater
        }
    }
}

impl PartialOrd for Hand {
    fn partial_cmp(&self, other: &Hand) -> (r: Option<core::cmp::Ordering>) {
        Some(self.vergelijk(other))
    }
}

impl vstd::std_specs::cmp::PartialOrdSpecImpl for Hand {
    open spec fn obeys_partial_cmp_spec() -> bool {
        true
    }

    open spec fn partial_cmp_spec(&self, other: &Hand) -> Option<core::cmp::Ordering> {
        Some(hand_vergelijking(*self, *other))
    }
}

/// The hand comparison is a total order: every pair of hands compares one
/// way, the comparison flips with its arguments, and it is transitive.
pub proof fn lemma_vergelijking_totale_orde(h1: Hand, h2: Hand, h3: Hand)
    ensures
        hand_vergelijking(h1, h1) == core::cmp::Ordering::Equal,
        (hand_vergelijking(h1, h2) == core::cmp::Ordering::Greater) <==> (hand_vergelijking(h2, h1)
            == core::cmp::Ordering::Less),
        (hand_vergelijking(h1, h2) == core::cmp::Ordering::Equal) <==> (hand_vergelijking(h2, h1)
            == core::cmp::Ordering::Equal),
        hand_vergelijking(h1, h2) == core::cmp::Ordering::Greater && hand_vergelijking(h2, h3)
            == core::cmp::Ordering::Greater ==> hand_vergelijking(h1, h3)
            == core::cmp::Ordering::Greater,
{
}

/// A hand of a stronger category beats every hand of a weaker category,
/// whatever the tiebreak ranks are: four of a kind beats any full house,
/// a full house beats any flush, and so on down the category order.
pub proof fn lemma_categorie_boven(h1: Hand, h2: Hand)
    requires
        combinatie_rang(h1.combinatie) > combinatie_rang(h2.combinatie),
    ensures
        hand_vergelijking(h1, h2) == core::cmp::Ordering::Greater,
{
    lemma_tiebreuk_grenzen(h1);
    lemma_tiebreuk_grenzen(h2);
    let r1 = combinatie_rang(h1.combinatie);
    let r2 = combinatie_rang(h2.combinatie);
    assert(r1 * SLEUTEL_BASIS5 >= (r2 + 1) * SLEUTEL_BASIS5) by (nonlinear_arith)
        requires
            r1 >= r2 + 1,
    ;
    assert((r2 + 1) * SLEUTEL_BASIS5 == r2 * SLEUTEL_BASIS5 + SLEUTEL_BASIS5) by (nonlinear_arith);
}

/// The wheel straight flush (stored with an ace, but the five-high straight)
/// ranks below every other straight flush.
pub proof fn lemma_wiel_straight_flush_onder(h1: Hand, h2: Hand)
    requires
        hand_wf(h2),
        h1.combinatie == Combinatie::StraightFlush(Waarde::Aas),
        h2.combinatie matches Combinatie::StraightFlush(t) && t != Waarde::Aas,
    ensures
        hand_vergelijking(h1, h2) == core::cmp::Ordering::Less,
{
    let s = h2.kaarten@;
    assert(combinatie_van(s) == h2.combinatie);
    let t = straat_top(s[0].waarde, s[1].waarde, s[2].waarde, s[3].waarde, s[4].waarde);
    assert(t matches Some(top) && h2.combinatie == Combinatie::StraightFlush(top));
}

/// The wheel straight (stored with an ace, but the five-high straight: its
/// ace counts low) ranks below every other straight, the ace-high straight
/// included.
pub proof fn lemma_wiel_straight_onder(h1: Hand, h2: Hand)
    requires
        hand_wf(h2),
        h1.combinatie == Combinatie::Straight(Waarde::Aas, Some(false)),
        h2.combinatie matches Combinatie::Straight(t, hoog) && !(t == Waarde::Aas && hoog == Some(
            false,
        )),
    ensures
        hand_vergelijking(h1, h2) == core::cmp::Ordering::Less,
{
    let s = h2.kaarten@;
    assert(combinatie_van(s) == h2.combinatie);
    if s[0].waarde == Waarde::Aas && s[1].waarde == Waarde::Koning && s[2].waarde
        == Waarde::Koningin && s[3].waarde == Waarde::Boer && s[4].waarde == Waarde::Tal(10) {
        assert(h2.combinatie == Combinatie::Straight(Waarde::Aas, Some(true)));
    } else {
        let t = straat_top(s[0].waarde, s[1].waarde, s[2].waarde, s[3].waarde, s[4].waarde);
        assert(t matches Some(top) && h2.combinatie == Combinatie::Straight(
            top,
            if top == Waarde::Aas {
                Some(false)
            } else {
                None
            },
        ));
    }
}

/// Ace, king, queen, jack and ten of one suit always classify as a royal
/// flush: sorting any ordering of those five cards yields them descending.
pub proof fn lemma_royal_flush_evaluatie(s: Seq<Kaart>, k: Kleur)
    requires
        s.to_multiset() == seq![
            Kaart { waarde: Waarde::Aas, kleur: k },
            Kaart { waarde: Waarde::Koning, kleur: k },
            Kaart { waarde: Waarde::Koningin, kleur: k },
            Kaart { waarde: Waarde::Boer, kleur: k },
            Kaart { waarde: Waarde::Tal(10), kleur: k },
        ].to_multiset(),
    ensures
        combinatie_van(gesorteerd_aflopend(s)) == Combinatie::RoyalFlush,
{
    let royaal = seq![
        Kaart { waarde: Waarde::Aas, kleur: k },
        Kaart { waarde: Waarde::Koning, kleur: k },
        Kaart { waarde: Waarde::Koningin, kleur: k },
        Kaart { waarde: Waarde::Boer, kleur: k },
        Kaart { waarde: Waarde::Tal(10), kleur: k },
    ];
    assert(aflopend(royaal));
    lemma_aflopend_uniek(s, royaal);
    assert(combinatie_van(royaal) == Combinatie::RoyalFlush);
}

/// A royal flush is strictly stronger than every straight flush.
pub proof fn lemma_royal_boven_straight_flush(h1: Hand, h2: Hand)
    requires
        h1.combinatie == Combinatie::RoyalFlush,
        h2.combinatie matches Combinatie::StraightFlush(_),
    ensures
        hand_vergelijking(h1, h2) == core::cmp::Ordering::Greater,
{
    lemma_categorie_boven(h1, h2);
}

/// Five increasing positions among seven cards.
pub open spec fn geldige_keuze(k: (int, int, int, int, int)) -> bool {
    0 <= k.0 < k.1 < k.2 < k.3 < k.4 < 7
}

/// The five cards at the positions of `k`.
pub open spec fn gekozen(zeven: Seq<Kaart>, k: (int, int, int, int, int)) -> Seq<Kaart> {
    seq![zeven[k.0], zeven[k.1], zeven[k.2], zeven[k.3], zeven[k.4]]
}

/// Key of the hand that the five cards of choice `k` evaluate to.
pub open spec fn keuze_sleutel(zeven: Seq<Kaart>, k: (int, int, int, int, int)) -> int {
    let ks = gesorteerd_aflopend(gekozen(zeven, k));
    sleutel_van(combinatie_van(ks), ks)
}

/// The hand is the evaluation of some five of the seven cards.
pub open spec fn hand_uit_keuze(zeven: Seq<Kaart>, h: Hand) -> bool {
    exists|k: (int, int, int, int, int)|
        #![auto]
        geldige_keuze(k) && h.kaarten@ == gesorteerd_aflopend(gekozen(zeven, k)) && h.combinatie
            == combinatie_van(h.kaarten@)
}

/// A choice is covered when the hand is at least as strong as it.
pub open spec fn keuze_gedekt(zeven: Seq<Kaart>, h: Hand, k: (int, int, int, int, int)) -> bool {
    geldige_keuze(k) ==> keuze_sleutel(zeven, k) <= hand_sleutel(h)
}

/// The strongest five-card hand out of seven cards (two hole cards and the
/// five community cards): every choice of five of the seven is evaluated and
/// the maximum is kept, the earliest choice winning ties.
#[verifier::rlimit(80)]
pub fn beste_hand(zeven: &Vec<Kaart>) -> (beste: Hand)
    requires
        zeven@.len() == 7,
    ensures
        hand_uit_keuze(zeven@, beste),
        hand_wf(beste),
        forall|k: (int, int, int, int, int)|
            geldige_keuze(k) ==> #[trigger] keuze_sleutel(zeven@, k) <= hand_sleutel(beste),
{
    broadcast use vstd::array::group_array_axioms;

    
    let mut eerste = [zeven[0]; 5];
    eerste[1] = zeven[1];
    eerste[2] = zeven[2];
    eerste[3] = zeven[3];
    eerste[4] = zeven[4];
    proof {
        assert(eerste@ =~= gekozen(zeven@, (0int, 1int, 2int, 3int, 4int)));
    }
    let mut beste = Hand::new(eerste);
    proof {
        assert(geldige_keuze((0int, 1int, 2int, 3int, 4int)));
        assert(hand_uit_keuze(zeven@, beste));
    }
    for a in 0..7usize
        invariant
            zeven@.len() == 7,
            hand_uit_keuze(zeven@, beste),
            hand_wf(beste),
            forall|k: (int, int, int, int, int)|
                k.0 < a ==> #[trigger] keuze_gedekt(zeven@, beste, k),
    {
        for b in (a + 1)..7usize
            invariant
                zeven@.len() == 7,
                a < 7,
                a < b,
                hand_uit_keuze(zeven@, beste),
                hand_wf(beste),
                forall|k: (int, int, int, int, int)|
                    k.0 < a ==> #[trigger] keuze_gedekt(zeven@, beste, k),
                forall|k: (int, int, int, int, int)|
                    k.0 == a && k.1 < b ==> #[trigger] keuze_gedekt(zeven@, beste, k),
        {
            for c in (b + 1)..7usize
                invariant
                    zeven@.len() == 7,
                    a < b < c,
                    b < 7,
                    hand_uit_keuze(zeven@, beste),
                    hand_wf(beste),
                    forall|k: (int, int, int, int, int)|
                        k.0 < a ==> #[trigger] keuze_gedekt(zeven@, beste, k),
                    forall|k: (int, int, int, int, int)|
                        k.0 == a && k.1 < b ==> #[trigger] keuze_gedekt(zeven@, beste, k),
                    forall|k: (int, int, int, int, int)|
                        k.0 == a && k.1 == b && k.2 < c ==> #[trigger] keuze_gedekt(
                            zeven@,
                            beste,
                            k,
                        ),
            {
                for d in (c + 1)..7usize
                    invariant
                        zeven@.len() == 7,
                        a < b < c < d,
                        c < 7,
                        hand_uit_keuze(zeven@, beste),
                        hand_wf(beste),
                        forall|k: (int, int, int, int, int)|
                            k.0 < a ==> #[trigger] keuze_gedekt(zeven@, beste, k),
                        forall|k: (int, int, int, int, int)|
                            k.0 == a && k.1 < b ==> #[trigger] keuze_gedekt(zeven@, beste, k),
                        forall|k: (int, int, int, int, int)|
                            k.0 == a && k.1 == b && k.2 < c ==> #[trigger] keuze_gedekt(
                                zeven@,
                                beste,
                                k,
                            ),
                        forall|k: (int, int, int, int, int)|
                            k.0 == a && k.1 == b && k.2 == c && k.3 < d ==> #[trigger] keuze_gedekt(
                                zeven@,
                                beste,
                                k,
                            ),
                {
                    for e in (d + 1)..7usize
                        invariant
                            zeven@.len() == 7,
                            a < b < c < d < e,
                            d < 7,
                            hand_uit_keuze(zeven@, beste),
                            hand_wf(beste),
                            forall|k: (int, int, int, int, int)|
                                k.0 < a ==> #[trigger] keuze_gedekt(zeven@, beste, k),
                            forall|k: (int, int, int, int, int)|
                                k.0 == a && k.1 < b ==> #[trigger] keuze_gedekt(zeven@, beste, k),
                            forall|k: (int, int, int, int, int)|
                                k.0 == a && k.1 == b && k.2 < c ==> #[trigger] keuze_gedekt(
                                    zeven@,
                                    beste,
                                    k,
                                ),
                            forall|k: (int, int, int, int, int)|
                                k.0 == a && k.1 == b && k.2 == c && k.3 < d
                                    ==> #[trigger] keuze_gedekt(zeven@, beste, k),
                            forall|k: (int, int, int, int, int)|
                                k.0 == a && k.1 == b && k.2 == c && k.3 == d && k.4 < e
                                    ==> #[trigger] keuze_gedekt(zeven@, beste, k),
                    {
                        let ghost kk = (a as int, b as int, c as int, d as int, e as int);
                        let mut vijf = [zeven[a]; 5];
                        vijf[1] = zeven[b];
                        vijf[2] = zeven[c];
                        vijf[3] = zeven[d];
                        vijf[4] = zeven[e];
                        proof {
                            assert(vijf@ =~= gekozen(zeven@, kk));
                        }
                        let kand = Hand::new(vijf);
                        let ghost oude_beste = beste;
                        if kand.sleutel() > beste.sleutel() {
                            beste = kand;
                        }
                        proof {
                            assert(hand_sleutel(oude_beste) <= hand_sleutel(beste));
                            assert(keuze_sleutel(zeven@, kk) == hand_sleutel(kand));
                            assert(keuze_gedekt(zeven@, beste, kk));
                            assert forall|k: (int, int, int, int, int)|
                                keuze_gedekt(zeven@, oude_beste, k) implies keuze_gedekt(
                                zeven@,
                                beste,
                                k,
                            ) by {}
                            if beste == kand {
                                assert(geldige_keuze(kk) && beste.kaarten@ == gesorteerd_aflopend(
                                    gekozen(zeven@, kk),
                                ) && beste.combinatie == combinatie_van(beste.kaarten@));
                                assert(hand_uit_keuze(zeven@, beste));
                            } else {
                                assert(beste == oude_beste);
                                assert(hand_uit_keuze(zeven@, beste));
                            }
                        }
                    }
                    proof {
                        assert forall|k: (int, int, int, int, int)|
                            k.0 == a && k.1 == b && k.2 == c && k.3 == d implies #[trigger] keuze_gedekt(
                            zeven@,
                            beste,
                            k,
                        ) by {
                            if geldige_keuze(k) {
                                assert(k.4 < 7);
                            }
                        }
                    }
                }
                proof {
                    assert forall|k: (int, int, int, int, int)|
                        k.0 == a && k.1 == b && k.2 == c implies #[trigger] keuze_gedekt(
                        zeven@,
                        beste,
                        k,
                    ) by {
                        if geldige_keuze(k) {
                            assert(k.3 < 7);
                        }
                    }
                }
            }
            proof {
                assert forall|k: (int, int, int, int, int)|
                    k.0 == a && k.1 == b implies #[trigger] keuze_gedekt(zeven@, beste, k) by {
                    if geldige_keuze(k) {
                        assert(k.2 < 7);
                    }
                }
            }
        }
        proof {
            assert forall|k: (int, int, int, int, int)| k.0 == a implies #[trigger] keuze_gedekt(
                zeven@,
                beste,
                k,
            ) by {
                if geldige_keuze(k) {
                    assert(k.1 < 7);
                }
            }
        }
    }
    proof {
        assert forall|k: (int, int, int, int, int)| geldige_keuze(k) implies #[trigger] keuze_sleutel(
            zeven@,
            k,
        ) <= hand_sleutel(beste) by {
            assert(keuze_gedekt(zeven@, beste, k));
        }
    }
    beste
}

/// Evaluation is deterministic: two orderings of the same five cards sort to
/// the same sequence and classify to the same category.
pub proof fn lemma_evaluatie_deterministisch(s1: Seq<Kaart>, s2: Seq<Kaart>)
    requires
        s1.to_multiset() == s2.to_multiset(),
    ensures
        gesorteerd_aflopend(s1) == gesorteerd_aflopend(s2),
        combinatie_van(gesorteerd_aflopend(s1)) == combinatie_van(gesorteerd_aflopend(s2)),
{
    lemma_gesorteerd_aflopend(s2);
    lemma_aflopend_uniek(s1, gesorteerd_aflopend(s2));
}

} // verus!
