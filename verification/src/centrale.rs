//! The registry and dispatcher: owns all players and games, hands out
//! identifiers, routes actions to the right game, and drives betting rounds,
//! community cards and showdowns.
//!
//! The engine never performs I/O: every message it wants delivered is pushed
//! onto `berichten`, and the caller drains and transports them.

use vstd::prelude::*;
use crate::kaart::Hand;
use crate::kaart::Kaart;
use crate::kaart::beste_hand;
use crate::kaart::geldige_keuze;
use crate::kaart::hand_sleutel;
use crate::kaart::hand_uit_keuze;
use crate::kaart::hand_wf;
use crate::kaart::keuze_sleutel;
use crate::spel::Actie;
use crate::spel::Bericht;
use crate::spel::PokbotcomError;
use crate::spel::PokbotcomMelding;
use crate::spel::Spel;
use crate::spel::SpelId;
use crate::spel::Speler;
use crate::spel::SpelerId;
use crate::spel::BIG_BLIND;
use crate::spel::SMALL_BLIND;

verus! {

/// Owns every player and game; identifiers are monotonically increasing
/// counters, assigned exactly once and never reused.
#[derive(Debug)]
pub struct Centrale {
    pub spelers: Vec<Speler>,
    pub spellen: Vec<Spel>,
    pub volgende_geldige_speler_id: u64,
    pub volgende_geldige_spel_id: u64,
    pub berichten: Vec<Bericht>,
}

/// Index of the first registered player carrying `id`, or -1.
pub open spec fn vind_speler(spelers: Seq<Speler>, id: SpelerId) -> int
    decreases spelers.len(),
{
    if spelers.len() == 0 {
        -1
    } else if spelers[0].id == Some(id) {
        0
    } else {
        let r = vind_speler(spelers.drop_first(), id);
        if r == -1 {
            -1
        } else {
            r + 1
        }
    }
}

pub open spec fn heeft_speler(spelers: Seq<Speler>, id: SpelerId) -> bool {
    vind_speler(spelers, id) >= 0
}

/// Index of the first game carrying `id`, or -1.
pub open spec fn vind_spel(spellen: Seq<Spel>, id: SpelId) -> int
    decreases spellen.len(),
{
    if spellen.len() == 0 {
        -1
    } else if spellen[0].id == Some(id) {
        0
    } else {
        let r = vind_spel(spellen.drop_first(), id);
        if r == -1 {
            -1
        } else {
            r + 1
        }
    }
}

pub open spec fn heeft_spel(spellen: Seq<Spel>, id: SpelId) -> bool {
    vind_spel(spellen, id) >= 0
}

pub proof fn lemma_vind_speler(spelers: Seq<Speler>, id: SpelerId)
    ensures
        vind_speler(spelers, id) >= -1,
        vind_speler(spelers, id) >= 0 ==> {
            &&& vind_speler(spelers, id) < spelers.len()
            &&& spelers[vind_speler(spelers, id)].id == Some(id)
            &&& forall|j: int|
                0 <= j < vind_speler(spelers, id) ==> (#[trigger] spelers[j]).id != Some(id)
        },
        vind_speler(spelers, id) == -1 ==> forall|j: int|
            0 <= j < spelers.len() ==> (#[trigger] spelers[j]).id != Some(id),
    decreases spelers.len(),
{
    if spelers.len() > 0 && spelers[0].id != Some(id) {
        let rest = spelers.drop_first();
        lemma_vind_speler(rest, id);
        let r = vind_speler(rest, id);
        if r >= 0 {
            assert(spelers[r + 1] == rest[r]);
            assert forall|j: int| 0 <= j < r + 1 implies spelers[j].id != Some(id) by {
                if j > 0 {
                    assert(rest[j - 1] == spelers[j]);
                }
            }
        } else {
            assert forall|j: int| 0 <= j < spelers.len() implies spelers[j].id != Some(id) by {
                if j > 0 {
                    assert(rest[j - 1] == spelers[j]);
                }
            }
        }
    }
}

pub proof fn lemma_vind_spel(spellen: Seq<Spel>, id: SpelId)
    ensures
        vind_spel(spellen, id) >= -1,
        vind_spel(spellen, id) >= 0 ==> {
            &&& vind_spel(spellen, id) < spellen.len()
            &&& spellen[vind_spel(spellen, id)].id == Some(id)
            &&& forall|j: int|
                0 <= j < vind_spel(spellen, id) ==> (#[trigger] spellen[j]).id != Some(id)
        },
        vind_spel(spellen, id) == -1 ==> forall|j: int|
            0 <= j < spellen.len() ==> (#[trigger] spellen[j]).id != Some(id),
    decreases spellen.len(),
{
    if spellen.len() > 0 && spellen[0].id != Some(id) {
        let rest = spellen.drop_first();
        lemma_vind_spel(rest, id);
        let r = vind_spel(rest, id);
        if r >= 0 {
            assert(spellen[r + 1] == rest[r]);
            assert forall|j: int| 0 <= j < r + 1 implies spellen[j].id != Some(id) by {
                if j > 0 {
                    assert(rest[j - 1] == spellen[j]);
                }
            }
        } else {
            assert forall|j: int| 0 <= j < spellen.len() implies spellen[j].id != Some(id) by {
                if j > 0 {
                    assert(rest[j - 1] == spellen[j]);
                }
            }
        }
    }
}

/// All chips still in stacks plus all committed bets.
pub open spec fn som_geld(spelers: Seq<Speler>) -> int
    decreases spelers.len(),
{
    if spelers.len() == 0 {
        0
    } else {
        spelers[0].chips + spelers[0].inzet + som_geld(spelers.drop_first())
    }
}

/// All chips in pots.
pub open spec fn som_potten(spellen: Seq<Spel>) -> int
    decreases spellen.len(),
{
    if spellen.len() == 0 {
        0
    } else {
        spellen[0].pot + som_potten(spellen.drop_first())
    }
}

/// All chips anywhere: stacks, committed bets, and pots. Every operation of
/// the engine leaves this total unchanged but registration, which adds the
/// new player's stake.
pub open spec fn totaal_geld(c: Centrale) -> int {
    som_geld(c.spelers@) + som_potten(c.spellen@)
}

pub proof fn lemma_som_geld_update(s: Seq<Speler>, i: int, p: Speler)
    requires
        0 <= i < s.len(),
    ensures
        som_geld(s.update(i, p)) == som_geld(s) + p.chips + p.inzet - s[i].chips - s[i].inzet,
    decreases s.len(),
{
    if i == 0 {
        assert(s.update(0, p)[0] == p);
        assert(s.update(0, p).drop_first() =~= s.drop_first());
    } else {
        assert(s.update(i, p)[0] == s[0]);
        assert(s.update(i, p).drop_first() =~= s.drop_first().update(i - 1, p));
        lemma_som_geld_update(s.drop_first(), i - 1, p);
        assert(s.drop_first()[i - 1] == s[i]);
    }
}

pub proof fn lemma_som_potten_update(s: Seq<Spel>, i: int, g: Spel)
    requires
        0 <= i < s.len(),
    ensures
        som_potten(s.update(i, g)) == som_potten(s) + g.pot - s[i].pot,
    decreases s.len(),
{
    if i == 0 {
        assert(s.update(0, g)[0] == g);
        assert(s.update(0, g).drop_first() =~= s.drop_first());
    } else {
        assert(s.update(i, g)[0] == s[0]);
        assert(s.update(i, g).drop_first() =~= s.drop_first().update(i - 1, g));
        lemma_som_potten_update(s.drop_first(), i - 1, g);
        assert(s.drop_first()[i - 1] == s[i]);
    }
}

pub proof fn lemma_som_geld_push(s: Seq<Speler>, p: Speler)
    ensures
        som_geld(s.push(p)) == som_geld(s) + p.chips + p.inzet,
    decreases s.len(),
{
    assert(som_geld(s.push(p)) == s.push(p)[0].chips + s.push(p)[0].inzet + som_geld(
        s.push(p).drop_first(),
    ));
    if s.len() == 0 {
        assert(s.push(p)[0] == p);
        assert(s.push(p).drop_first() =~= Seq::<Speler>::empty());
        assert(som_geld(Seq::<Speler>::empty()) == 0);
    } else {
        assert(s.push(p)[0] == s[0]);
        assert(s.push(p).drop_first() =~= s.drop_first().push(p));
        lemma_som_geld_push(s.drop_first(), p);
    }
}

pub proof fn lemma_som_potten_push(s: Seq<Spel>, g: Spel)
    ensures
        som_potten(s.push(g)) == som_potten(s) + g.pot,
    decreases s.len(),
{
    assert(som_potten(s.push(g)) == s.push(g)[0].pot + som_potten(s.push(g).drop_first()));
    if s.len() == 0 {
        assert(s.push(g)[0] == g);
        assert(s.push(g).drop_first() =~= Seq::<Spel>::empty());
        assert(som_potten(Seq::<Spel>::empty()) == 0);
    } else {
        assert(s.push(g)[0] == s[0]);
        assert(s.push(g).drop_first() =~= s.drop_first().push(g));
        lemma_som_potten_push(s.drop_first(), g);
    }
}

/// One player's money never exceeds the total over all players.
pub proof fn lemma_som_geld_deel(s: Seq<Speler>, i: int)
    requires
        0 <= i < s.len(),
    ensures
        s[i].chips + s[i].inzet <= som_geld(s),
        som_geld(s) >= 0,
    decreases s.len(),
{
    if s.len() > 0 {
        if i == 0 {
            lemma_som_geld_niet_negatief(s.drop_first());
        } else {
            lemma_som_geld_deel(s.drop_first(), i - 1);
        }
    }
}

pub proof fn lemma_som_geld_niet_negatief(s: Seq<Speler>)
    ensures
        som_geld(s) >= 0,
    decreases s.len(),
{
    if s.len() > 0 {
        lemma_som_geld_niet_negatief(s.drop_first());
    }
}

/// One game's pot never exceeds the total over all pots.
pub proof fn lemma_som_potten_deel(s: Seq<Spel>, i: int)
    requires
        0 <= i < s.len(),
    ensures
        s[i].pot <= som_potten(s),
        som_potten(s) >= 0,
    decreases s.len(),
{
    if s.len() > 0 {
        if i == 0 {
            lemma_som_potten_niet_negatief(s.drop_first());
        } else {
            lemma_som_potten_deel(s.drop_first(), i - 1);
        }
    }
}

pub proof fn lemma_som_potten_niet_negatief(s: Seq<Spel>)
    ensures
        som_potten(s) >= 0,
    decreases s.len(),
{
    if s.len() > 0 {
        lemma_som_potten_niet_negatief(s.drop_first());
    }
}

impl Centrale {
    /// Registry invariant: every stored entity carries an identifier below
    /// the next free one, identifiers are unique, and all money together
    /// fits a machine word (so no transfer can overflow).
    pub open spec fn wf(&self) -> bool {
        &&& forall|i: int|
            0 <= i < self.spelers@.len() ==> (#[trigger] self.spelers@[i].id matches Some(sid)
                && sid.0 < self.volgende_geldige_speler_id)
        &&& forall|i: int, j: int|
            0 <= i < j < self.spelers@.len() ==> self.spelers@[i].id != self.spelers@[j].id
        &&& forall|i: int|
            0 <= i < self.spellen@.len() ==> (#[trigger] self.spellen@[i].id matches Some(gid)
                && gid.0 < self.volgende_geldige_spel_id)
        &&& forall|i: int, j: int|
            0 <= i < j < self.spellen@.len() ==> self.spellen@[i].id != self.spellen@[j].id
        &&& totaal_geld(*self) <= u64::MAX
    }

    /// An empty registry.
    pub fn new() -> (c: Centrale)
        ensures
            c.spelers@ == Seq::<Speler>::empty(),
            c.spellen@ == Seq::<Spel>::empty(),
            c.volgende_geldige_speler_id == 0,
            c.volgende_geldige_spel_id == 0,
            c.berichten@ == Seq::<Bericht>::empty(),
            c.wf(),
    {
        Centrale {
            spelers: Vec::new(),
            spellen: Vec::new(),
            volgende_geldige_speler_id: 0,
            volgende_geldige_spel_id: 0,
            berichten: Vec::new(),
        }
    }

    /// Takes a player in and hands out the next identifier. A player that
    /// already carries an identifier is refused (the error names the
    /// identifier that was burnt for the attempt); the counter advances
    /// either way, so identifiers are never handed out twice.
    pub fn registreer_speler(&mut self, speler: Speler) -> (r: Result<SpelerId, PokbotcomError>)
        requires
            old(self).wf(),
            old(self).volgende_geldige_speler_id < u64::MAX,
            totaal_geld(*old(self)) + speler.chips + speler.inzet <= u64::MAX,
        ensures
            final(self).wf(),
            final(self).volgende_geldige_speler_id == old(self).volgende_geldige_speler_id + 1,
            final(self).spellen@ == old(self).spellen@,
            final(self).volgende_geldige_spel_id == old(self).volgende_geldige_spel_id,
            final(self).berichten@ == old(self).berichten@,
            speler.id is None ==> {
                &&& r == Ok::<SpelerId, PokbotcomError>(
                    SpelerId(old(self).volgende_geldige_speler_id),
                )
                &&& final(self).spelers@ == old(self).spelers@.push(
                    Speler {
                        id: Some(SpelerId(old(self).volgende_geldige_speler_id)),
                        ..speler
                    },
                )
            },
            speler.id is Some ==> {
                &&& r == Err::<SpelerId, PokbotcomError>(
                    PokbotcomError::SpelerAlGeregistreerd(
                        SpelerId(old(self).volgende_geldige_speler_id),
                    ),
                )
                &&& final(self).spelers@ == old(self).spelers@
            },
    {
        let geregistreerde_id = SpelerId(self.volgende_geldige_speler_id);
        self.volgende_geldige_speler_id = self.volgende_geldige_speler_id + 1;
        if speler.id.is_some() {
            return Err(PokbotcomError::SpelerAlGeregistreerd(geregistreerde_id));
        }
        let nieuw = Speler { id: Some(geregistreerde_id), ..speler };
        proof {
            lemma_som_geld_push(self.spelers@, nieuw);
        }
        self.spelers.push(nieuw);
        proof {
            assert forall|i: int, j: int|
                0 <= i < j < self.spelers@.len() implies self.spelers@[i].id
                != self.spelers@[j].id by {
                if j == self.spelers@.len() - 1 {
                    assert(self.spelers@[i].id matches Some(sid) && sid.0
                        < old(self).volgende_geldige_speler_id);
                }
            }
        }
        Ok(geregistreerde_id)
    }

    /// Creates a game over the given seat list (seating order is fixed from
    /// now on) and hands out the next game identifier.
    pub fn maak_spel(&mut self, spelers: Vec<SpelerId>, rng_seed: Option<u64>) -> (gid: SpelId)
        requires
            old(self).wf(),
            old(self).volgende_geldige_spel_id < u64::MAX,
        ensures
            final(self).wf(),
            gid == SpelId(old(self).volgende_geldige_spel_id),
            final(self).volgende_geldige_spel_id == old(self).volgende_geldige_spel_id + 1,
            final(self).spelers@ == old(self).spelers@,
            final(self).volgende_geldige_speler_id == old(self).volgende_geldige_speler_id,
            final(self).berichten@ == old(self).berichten@,
            final(self).spellen@.len() == old(self).spellen@.len() + 1,
            final(self).spellen@.subrange(0, old(self).spellen@.len() as int) == old(
                self,
            ).spellen@,
            final(self).spellen@.last().id == Some(gid),
            final(self).spellen@.last().spelers@ == spelers@,
            final(self).spellen@.last().pot == 0,
            final(self).spellen@.last().status == crate::spel::SpelStatus::Wachtend,
    {
        let geregistreerde_id = SpelId(self.volgende_geldige_spel_id);
        self.volgende_geldige_spel_id = self.volgende_geldige_spel_id + 1;
        let mut leeg_spel = Spel::new(geregistreerde_id, rng_seed);
        leeg_spel.spelers = spelers;
        proof {
            lemma_som_potten_push(self.spellen@, leeg_spel);
        }
        self.spellen.push(leeg_spel);
        proof {
            assert(final(self).spellen@.subrange(0, old(self).spellen@.len() as int) =~= old(
                self,
            ).spellen@);
            assert forall|i: int, j: int|
                0 <= i < j < self.spellen@.len() implies self.spellen@[i].id
                != self.spellen@[j].id by {
                if j == self.spellen@.len() - 1 {
                    assert(self.spellen@[i].id matches Some(gid) && gid.0
                        < old(self).volgende_geldige_spel_id);
                }
            }
        }
        geregistreerde_id
    }

    /// Removes a registered player; the hole its seat leaves in the order is
    /// filled by the last player, as `swap_remove` does. Only meant between
    /// games: a seated player keeps its (now dangling) seat entry.
    fn verwijder_speler(&mut self, speler_id: SpelerId) -> (weg: Speler)
        requires
            old(self).wf(),
            heeft_speler(old(self).spelers@, speler_id),
        ensures
            final(self).wf(),
            weg == old(self).spelers@[vind_speler(old(self).spelers@, speler_id)],
            final(self).spelers@ == old(self).spelers@.update(
                vind_speler(old(self).spelers@, speler_id),
                old(self).spelers@.last(),
            ).drop_last(),
            final(self).spellen@ == old(self).spellen@,
            final(self).berichten@ == old(self).berichten@,
            final(self).volgende_geldige_speler_id == old(self).volgende_geldige_speler_id,
            final(self).volgende_geldige_spel_id == old(self).volgende_geldige_spel_id,
    {
        proof {
            lemma_vind_speler(old(self).spelers@, speler_id);
        }
        let i = self.zoek_speler(speler_id);
        let ghost voor = self.spelers@;
        let weg = self.spelers.swap_remove(i);
        proof {
            let na = self.spelers@;
            assert(na =~= voor.update(i as int, voor.last()).drop_last());
            assert forall|k: int| 0 <= k < na.len() implies (#[trigger] na[k].id matches Some(sid)
                && sid.0 < self.volgende_geldige_speler_id) by {
                if k == i {
                    assert(na[k] == voor[voor.len() - 1]);
                } else {
                    assert(na[k] == voor[k]);
                }
            }
            assert forall|k: int, l: int| 0 <= k < l < na.len() implies na[k].id != na[l].id by {
                if k == i {
                    assert(na[k] == voor[voor.len() - 1]);
                    assert(na[l] == voor[l]);
                } else if l == i {
                    assert(na[l] == voor[voor.len() - 1]);
                    assert(na[k] == voor[k]);
                } else {
                    assert(na[k] == voor[k]);
                    assert(na[l] == voor[l]);
                }
            }
            lemma_som_geld_verwijderd(voor, i as int);
        }
        weg
    }

    /// First registry index of the player carrying `speler_id`.
    fn zoek_speler(&self, speler_id: SpelerId) -> (i: usize)
        requires
            heeft_speler(self.spelers@, speler_id),
        ensures
            i as int == vind_speler(self.spelers@, speler_id),
            i < self.spelers@.len(),
            self.spelers@[i as int].id == Some(speler_id),
    {
        proof {
            lemma_vind_speler(self.spelers@, speler_id);
        }
        let n = self.spelers.len();
        let mut i: usize = 0;
        loop
            invariant
                heeft_speler(self.spelers@, speler_id),
                n == self.spelers@.len(),
                vind_speler(self.spelers@, speler_id) < self.spelers@.len(),
                self.spelers@[vind_speler(self.spelers@, speler_id)].id == Some(speler_id),
                i <= vind_speler(self.spelers@, speler_id),
            decreases vind_speler(self.spelers@, speler_id) - i,
        {
            proof {
                lemma_vind_speler(self.spelers@, speler_id);
            }
            let kandidaat = &self.spelers[i];
            match kandidaat.id {
                Some(id) if id == speler_id => {
                    return i;
                },
                _ => {
                },
            }
            i = i + 1;
        }
    }

    /// First registry index of the game carrying `spel_id`.
    fn zoek_spel(&self, spel_id: SpelId) -> (i: usize)
        requires
            heeft_spel(self.spellen@, spel_id),
        ensures
            i as int == vind_spel(self.spellen@, spel_id),
            i < self.spellen@.len(),
            self.spellen@[i as int].id == Some(spel_id),
    {
        proof {
            lemma_vind_spel(self.spellen@, spel_id);
        }
        let n = self.spellen.len();
        let mut i: usize = 0;
        loop
            invariant
                heeft_spel(self.spellen@, spel_id),
                n == self.spellen@.len(),
                vind_spel(self.spellen@, spel_id) < self.spellen@.len(),
                self.spellen@[vind_spel(self.spellen@, spel_id)].id == Some(spel_id),
                i <= vind_spel(self.spellen@, spel_id),
            decreases vind_spel(self.spellen@, spel_id) - i,
        {
            proof {
                lemma_vind_spel(self.spellen@, spel_id);
            }
            let kandidaat = &self.spellen[i];
            match kandidaat.id {
                Some(id) if id == spel_id => {
                    return i;
                },
                _ => {
                },
            }
            i = i + 1;
        }
    }

    /// The registered player carrying `speler_id`.
    fn get_speler(&self, speler_id: SpelerId) -> (s: &Speler)
        requires
            heeft_speler(self.spelers@, speler_id),
        ensures
            *s == self.spelers@[vind_speler(self.spelers@, speler_id)],
    {
        let i = self.zoek_speler(speler_id);
        &self.spelers[i]
    }

    /// The game carrying `spel_id`.
    fn get_spel(&self, spel_id: SpelId) -> (g: &Spel)
        requires
            heeft_spel(self.spellen@, spel_id),
        ensures
            *g == self.spellen@[vind_spel(self.spellen@, spel_id)],
    {
        let i = self.zoek_spel(spel_id);
        &self.spellen[i]
    }
}

/// The same message for every seat of a game, in seating order.
pub open spec fn aan_allen(zit: Seq<SpelerId>, melding: PokbotcomMelding) -> Seq<Bericht> {
    zit.map(|i: int, id: SpelerId| Bericht { aan: id, melding })
}

/// The registry after every seat's committed bet is swept (set to zero),
/// seat by seat; a seat whose identifier is unknown is skipped.
pub open spec fn geveegd(spelers: Seq<Speler>, zit: Seq<SpelerId>, s: int) -> Seq<Speler>
    decreases zit.len() - s,
{
    if s < 0 || s >= zit.len() {
        spelers
    } else {
        let pi = vind_speler(spelers, zit[s]);
        if pi < 0 {
            geveegd(spelers, zit, s + 1)
        } else {
            geveegd(spelers.update(pi, Speler { inzet: 0, ..spelers[pi] }), zit, s + 1)
        }
    }
}

/// What the sweep collects: every seat's committed bet, counted once.
pub open spec fn geveegde_inzet(spelers: Seq<Speler>, zit: Seq<SpelerId>, s: int) -> int
    decreases zit.len() - s,
{
    if s < 0 || s >= zit.len() {
        0
    } else {
        let pi = vind_speler(spelers, zit[s]);
        if pi < 0 {
            geveegde_inzet(spelers, zit, s + 1)
        } else {
            spelers[pi].inzet + geveegde_inzet(
                spelers.update(pi, Speler { inzet: 0, ..spelers[pi] }),
                zit,
                s + 1,
            )
        }
    }
}

/// Two registries with the same identifiers at the same places give the same
/// lookup result.
pub proof fn lemma_vind_speler_gelijke_ids(s1: Seq<Speler>, s2: Seq<Speler>, id: SpelerId)
    requires
        s1.len() == s2.len(),
        forall|i: int| 0 <= i < s1.len() ==> (#[trigger] s1[i]).id == s2[i].id,
    ensures
        vind_speler(s1, id) == vind_speler(s2, id),
    decreases s1.len(),
{
    if s1.len() > 0 {
        assert(s1[0].id == s2[0].id);
        assert forall|i: int| 0 <= i < s1.drop_first().len() implies (#[trigger] s1.drop_first()[i]).id
            == s2.drop_first()[i].id by {
            assert(s1.drop_first()[i] == s1[i + 1]);
            assert(s2.drop_first()[i] == s2[i + 1]);
            assert(s1[i + 1].id == s2[i + 1].id);
        }
        lemma_vind_speler_gelijke_ids(s1.drop_first(), s2.drop_first(), id);
    }
}

/// The sweep moves money out of committed bets and nowhere else: it never
/// touches identifiers, names, stacks or hole cards, and the total of the
/// registry drops by exactly what it collects, which is never negative.
pub proof fn lemma_geveegd(spelers: Seq<Speler>, zit: Seq<SpelerId>, s: int)
    ensures
        geveegd(spelers, zit, s).len() == spelers.len(),
        forall|i: int|
            0 <= i < spelers.len() ==> {
                let na = #[trigger] geveegd(spelers, zit, s)[i];
                &&& na.id == spelers[i].id
                &&& na.naam == spelers[i].naam
                &&& na.chips == spelers[i].chips
                &&& na.hand == spelers[i].hand
                &&& (na.inzet == spelers[i].inzet || na.inzet == 0)
            },
        som_geld(geveegd(spelers, zit, s)) == som_geld(spelers) - geveegde_inzet(spelers, zit, s),
        geveegde_inzet(spelers, zit, s) >= 0,
    decreases zit.len() - s,
{
    if 0 <= s < zit.len() {
        let pi = vind_speler(spelers, zit[s]);
        if pi < 0 {
            lemma_geveegd(spelers, zit, s + 1);
        } else {
            lemma_vind_speler(spelers, zit[s]);
            let tussen = spelers.update(pi, Speler { inzet: 0, ..spelers[pi] });
            lemma_som_geld_update(spelers, pi, Speler { inzet: 0, ..spelers[pi] });
            lemma_geveegd(tussen, zit, s + 1);
        }
    }
}

impl Centrale {
    /// Appends the message once for every seat of the game, in seating order.
    pub fn stuur_naar_alle_spelers(&mut self, spel_id: SpelId, melding: PokbotcomMelding)
        requires
            heeft_spel(old(self).spellen@, spel_id),
        ensures
            final(self).berichten@ == old(self).berichten@ + aan_allen(
                old(self).spellen@[vind_spel(old(self).spellen@, spel_id)].spelers@,
                melding,
            ),
            final(self).spelers@ == old(self).spelers@,
            final(self).spellen@ == old(self).spellen@,
            final(self).volgende_geldige_speler_id == old(self).volgende_geldige_speler_id,
            final(self).volgende_geldige_spel_id == old(self).volgende_geldige_spel_id,
    {
        proof {
            lemma_vind_spel(self.spellen@, spel_id);
        }
        let gi = self.zoek_spel(spel_id);
        let ghost zit = self.spellen@[gi as int].spelers@;
        let n = self.spellen[gi].spelers.len();
        for s in 0..n
            invariant
                gi < self.spellen@.len(),
                zit == self.spellen@[gi as int].spelers@,
                n == zit.len(),
                self.spelers@ == old(self).spelers@,
                self.spellen@ == old(self).spellen@,
                self.volgende_geldige_speler_id == old(self).volgende_geldige_speler_id,
                self.volgende_geldige_spel_id == old(self).volgende_geldige_spel_id,
                self.berichten@.len() == old(self).berichten@.len() + s,
                self.berichten@.subrange(0, old(self).berichten@.len() as int) == old(
                    self,
                ).berichten@,
                forall|j: int|
                    0 <= j < s ==> self.berichten@[old(self).berichten@.len() + j] == (Bericht {
                        aan: zit[j],
                        melding,
                    }),
        {
            let ontvanger = self.spellen[gi].spelers[s];
            self.berichten.push(Bericht { aan: ontvanger, melding });
            proof {
                assert(self.berichten@.subrange(0, old(self).berichten@.len() as int) =~= old(
                    self,
                ).berichten@);
            }
        }
        proof {
            assert(self.berichten@ =~= old(self).berichten@ + aan_allen(zit, melding));
        }
    }

    /// Sweeps every seat's committed bet into the pot, zeroing each seat's
    /// commitment; the pot grows by exactly what the seats had committed.
    fn verzamel_pot(&mut self, spel_id: SpelId)
        requires
            old(self).wf(),
            heeft_spel(old(self).spellen@, spel_id),
            forall|s: int|
                0 <= s < old(self).spellen@[vind_spel(old(self).spellen@, spel_id)].spelers@.len()
                    ==> heeft_speler(
                    old(self).spelers@,
                    #[trigger] old(self).spellen@[vind_spel(
                        old(self).spellen@,
                        spel_id,
                    )].spelers@[s],
                ),
        ensures
            final(self).wf(),
            ({
                let gi = vind_spel(old(self).spellen@, spel_id);
                let zit = old(self).spellen@[gi].spelers@;
                let oud = old(self).spellen@[gi];
                &&& final(self).spelers@ == geveegd(old(self).spelers@, zit, 0)
                &&& final(self).spellen@ == old(self).spellen@.update(
                    gi,
                    Spel {
                        pot: (oud.pot + geveegde_inzet(old(self).spelers@, zit, 0)) as u64,
                        ..oud
                    },
                )
                &&& oud.pot + geveegde_inzet(old(self).spelers@, zit, 0) <= u64::MAX
            }),
            final(self).berichten@ == old(self).berichten@,
            final(self).volgende_geldige_speler_id == old(self).volgende_geldige_speler_id,
            final(self).volgende_geldige_spel_id == old(self).volgende_geldige_spel_id,
            totaal_geld(*final(self)) == totaal_geld(*old(self)),
    {
        proof {
            lemma_vind_spel(self.spellen@, spel_id);
        }
        let gi = self.zoek_spel(spel_id);
        let ghost gii = gi as int;
        let ghost zit = self.spellen@[gii].spelers@;
        let ghost oud_spel = self.spellen@[gii];
        let n = self.spellen[gi].spelers.len();
        proof {
            lemma_som_potten_deel(self.spellen@, gii);
            lemma_geveegd(self.spelers@, zit, 0);
            lemma_som_geld_niet_negatief(self.spelers@);
            lemma_som_geld_niet_negatief(geveegd(self.spelers@, zit, 0));
            assert(self.spellen@ =~= self.spellen@.update(
                gii,
                Spel { pot: self.spellen@[gii].pot, ..self.spellen@[gii] },
            ));
        }
        for s in 0..n
            invariant
                gii == gi,
                gi < old(self).spellen@.len(),
                self.spellen@.len() == old(self).spellen@.len(),
                n == zit.len(),
                old(self).wf(),
                zit == old(self).spellen@[gii].spelers@,
                oud_spel == old(self).spellen@[gii],
                forall|j: int|
                    0 <= j < zit.len() ==> heeft_speler(old(self).spelers@, #[trigger] zit[j]),
                self.spelers@.len() == old(self).spelers@.len(),
                forall|i: int|
                    0 <= i < self.spelers@.len() ==> (#[trigger] self.spelers@[i]).id == old(
                        self,
                    ).spelers@[i].id,
                geveegd(self.spelers@, zit, s as int) == geveegd(old(self).spelers@, zit, 0),
                self.spellen@ == old(self).spellen@.update(
                    gii,
                    Spel { pot: self.spellen@[gii].pot, ..oud_spel },
                ),
                self.spellen@[gii].pot + geveegde_inzet(self.spelers@, zit, s as int) == oud_spel.pot
                    + geveegde_inzet(old(self).spelers@, zit, 0),
                som_geld(self.spelers@) + self.spellen@[gii].pot == som_geld(old(self).spelers@)
                    + oud_spel.pot,
                som_geld(self.spelers@) >= 0,
                oud_spel.pot + geveegde_inzet(old(self).spelers@, zit, 0) <= som_geld(
                    old(self).spelers@,
                ) + oud_spel.pot,
                som_geld(old(self).spelers@) + oud_spel.pot <= u64::MAX,
                self.berichten@ == old(self).berichten@,
                self.volgende_geldige_speler_id == old(self).volgende_geldige_speler_id,
                self.volgende_geldige_spel_id == old(self).volgende_geldige_spel_id,
        {
            proof {
                let ghost vorm = Spel { pot: self.spellen@[gii].pot, ..oud_spel };
                assert(old(self).spellen@.update(gii, vorm)[gii] == vorm);
                assert(self.spellen@[gii] == vorm);
                assert(self.spellen@[gii].spelers@ == zit);
                lemma_vind_speler_gelijke_ids(old(self).spelers@, self.spelers@, zit[s as int]);
                lemma_vind_speler(self.spelers@, zit[s as int]);
                lemma_geveegd(self.spelers@, zit, s as int);
                lemma_geveegd(self.spelers@, zit, s + 1 as int);
            }
            let zetel_id = self.spellen[gi].spelers[s];
            let pi = self.zoek_speler(zetel_id);
            let ghost voor_spelers = self.spelers@;
            let ghost voor_pot = self.spellen@[gii].pot;
            let inzet = self.spelers[pi].inzet;
            proof {
                let nieuw = Speler { inzet: 0, ..voor_spelers[pi as int] };
                lemma_som_geld_update(voor_spelers, pi as int, nieuw);
                lemma_geveegd(voor_spelers.update(pi as int, nieuw), zit, s + 1 as int);
                assert(geveegde_inzet(voor_spelers, zit, s as int) == voor_spelers[pi as int].inzet
                    + geveegde_inzet(voor_spelers.update(pi as int, nieuw), zit, s + 1 as int));
            }
            self.spelers[pi].inzet = 0;
            let oude_pot = self.spellen[gi].pot;
            self.spellen[gi].pot = oude_pot + inzet;
            proof {
                let nieuw = Speler { inzet: 0, ..voor_spelers[pi as int] };
                assert(self.spelers@ =~= voor_spelers.update(pi as int, nieuw));
                assert(self.spellen@ =~= old(self).spellen@.update(
                    gii,
                    Spel { pot: self.spellen@[gii].pot, ..oud_spel },
                ));
            }
        }
        proof {
            assert(geveegd(self.spelers@, zit, n as int) == self.spelers@);
            assert(geveegde_inzet(self.spelers@, zit, n as int) == 0);
            lemma_geveegd(old(self).spelers@, zit, 0);
            lemma_som_potten_update(
                old(self).spellen@,
                gii,
                Spel { pot: self.spellen@[gii].pot, ..oud_spel },
            );
        }
    }
}

pub proof fn lemma_som_geld_verwijderd(s: Seq<Speler>, i: int)
    requires
        0 <= i < s.len(),
    ensures
        som_geld(s.update(i, s.last()).drop_last()) <= som_geld(s),
{
    lemma_som_geld_update(s, i, s.last());
    lemma_som_geld_laatste_weg(s.update(i, s.last()));
}

pub proof fn lemma_som_geld_laatste_weg(s: Seq<Speler>)
    requires
        s.len() > 0,
    ensures
        som_geld(s.drop_last()) == som_geld(s) - s.last().chips - s.last().inzet,
    decreases s.len(),
{
    assert(som_geld(s) == s[0].chips + s[0].inzet + som_geld(s.drop_first()));
    if s.len() == 1 {
        assert(s.drop_last() =~= Seq::<Speler>::empty());
        assert(som_geld(Seq::<Speler>::empty()) == 0);
        assert(s[0] == s.last());
    } else {
        assert(som_geld(s.drop_last()) == s.drop_last()[0].chips + s.drop_last()[0].inzet
            + som_geld(s.drop_last().drop_first()));
        assert(s.drop_last().drop_first() =~= s.drop_first().drop_last());
        assert(s.drop_last()[0] == s[0]);
        assert(s.drop_first().last() == s.last());
        lemma_som_geld_laatste_weg(s.drop_first());
    }
}

/// Seat `s`'s player after the deal: the next two cards off the top of the
/// deck (consumed from the end, two per seat in seating order), with the
/// blind of the seat's position moved from stack to committed bet.
pub open spec fn na_deling(p: Speler, deck: Seq<Kaart>, s: int, n: int, d: int) -> Speler {
    let k1 = deck[deck.len() - 1 - 2 * s];
    let k2 = deck[deck.len() - 2 - 2 * s];
    let sb = (d + 1) % n;
    let bb = (d + 2) % n;
    Speler {
        hand: Some((k1, k2)),
        chips: if s == sb {
            (p.chips - SMALL_BLIND) as u64
        } else if s == bb {
            (p.chips - BIG_BLIND) as u64
        } else {
            p.chips
        },
        inzet: if s == sb {
            (p.inzet + SMALL_BLIND) as u64
        } else if s == bb {
            (p.inzet + BIG_BLIND) as u64
        } else {
            p.inzet
        },
        ..p
    }
}

/// The registry after hole cards and blinds are dealt to seats `s` onward;
/// a seat whose identifier is unknown is skipped.
pub open spec fn gedeeld(
    spelers: Seq<Speler>,
    zit: Seq<SpelerId>,
    deck: Seq<Kaart>,
    d: int,
    s: int,
) -> Seq<Speler>
    decreases zit.len() - s,
{
    if s < 0 || s >= zit.len() {
        spelers
    } else {
        let pi = vind_speler(spelers, zit[s]);
        if pi < 0 {
            gedeeld(spelers, zit, deck, d, s + 1)
        } else {
            gedeeld(
                spelers.update(pi, na_deling(spelers[pi], deck, s, zit.len() as int, d)),
                zit,
                deck,
                d,
                s + 1,
            )
        }
    }
}

/// The messages of a deal: every seat its two cards in seating order, and
/// the seat three places after the dealer the notice that it is to act —
/// unless that seat posts a blind (on tables of one or two seats).
pub open spec fn deel_berichten(zit: Seq<SpelerId>, deck: Seq<Kaart>, d: int, s: int) -> Seq<
    Bericht,
>
    decreases zit.len() - s,
{
    if s < 0 || s >= zit.len() {
        Seq::empty()
    } else {
        let n = zit.len() as int;
        let k1 = deck[deck.len() - 1 - 2 * s];
        let k2 = deck[deck.len() - 2 - 2 * s];
        let hand_b = seq![Bericht { aan: zit[s], melding: PokbotcomMelding::Hand(k1, k2) }];
        let beurt_b: Seq<Bericht> = if s != (d + 1) % n && s != (d + 2) % n && s == (d + 3) % n {
            seq![Bericht { aan: zit[s], melding: PokbotcomMelding::AanDeBeurt }]
        } else {
            Seq::empty()
        };
        hand_b + beurt_b + deel_berichten(zit, deck, d, s + 1)
    }
}

/// Whether the blinds can be posted: the small-blind seat's player can pay
/// the small blind and the big-blind seat's player the big blind. On a
/// one-seat table only the small blind is due.
pub open spec fn blinds_mogelijk(spelers: Seq<Speler>, zit: Seq<SpelerId>, d: int) -> bool {
    let n = zit.len() as int;
    let sb = (d + 1) % n;
    let bb = (d + 2) % n;
    let psb = vind_speler(spelers, zit[sb]);
    let pbb = vind_speler(spelers, zit[bb]);
    &&& spelers[psb].chips >= SMALL_BLIND
    &&& (bb == sb || spelers[pbb].chips >= BIG_BLIND)
}

/// No two seats hold the same player.
pub open spec fn zitplaatsen_verschillend(zit: Seq<SpelerId>) -> bool {
    forall|i: int, j: int| 0 <= i < j < zit.len() ==> zit[i] != zit[j]
}

/// Every seat holds a registered player.
pub open spec fn zitplaatsen_geregistreerd(spelers: Seq<Speler>, zit: Seq<SpelerId>) -> bool {
    forall|s: int| 0 <= s < zit.len() ==> heeft_speler(spelers, #[trigger] zit[s])
}

/// What a deal requires of a game: at least one seat, the dealer pointer in
/// range, distinct and registered seats, and enough cards for two per seat.
pub open spec fn deelbaar(c: Centrale, gi: int) -> bool {
    let g = c.spellen@[gi];
    &&& 0 <= gi < c.spellen@.len()
    &&& g.spelers@.len() >= 1
    &&& g.huidige_dealer < g.spelers@.len()
    &&& zitplaatsen_verschillend(g.spelers@)
    &&& zitplaatsen_geregistreerd(c.spelers@, g.spelers@)
    &&& g.deck@.len() >= 2 * g.spelers@.len()
}

/// A seat reached by stepping `k` places past seat `d` and wrapping is
/// exactly the modular position.
pub proof fn lemma_zetel_na(d: int, k: int, n: int, z: int)
    requires
        0 < n,
        0 <= d < n,
        0 <= k,
        0 <= z < n,
        z == d + k || z == d + k - n || z == d + k - 2 * n,
    ensures
        z == (d + k) % n,
{
    vstd::arithmetic::div_mod::lemma_small_mod(z as nat, n as nat);
    if z == d + k - n {
        vstd::arithmetic::div_mod::lemma_mod_multiples_vanish(1, z, n);
    } else if z == d + k - 2 * n {
        vstd::arithmetic::div_mod::lemma_mod_multiples_vanish(2, z, n);
    }
}

impl Centrale {
    /// Whether the game's blinds can be posted right now.
    fn blinds_haalbaar(&self, gi: usize, d: usize) -> (b: bool)
        requires
            gi < self.spellen@.len(),
            self.spellen@[gi as int].spelers@.len() >= 1,
            d < self.spellen@[gi as int].spelers@.len(),
            zitplaatsen_geregistreerd(self.spelers@, self.spellen@[gi as int].spelers@),
        ensures
            b == blinds_mogelijk(self.spelers@, self.spellen@[gi as int].spelers@, d as int),
    {
        let n = self.spellen[gi].spelers.len();
        let sb_zetel = if d + 1 < n {
            d + 1
        } else {
            0
        };
        let bb_zetel = if sb_zetel + 1 < n {
            sb_zetel + 1
        } else {
            0
        };
        proof {
            lemma_zetel_na(d as int, 1, n as int, sb_zetel as int);
            lemma_zetel_na(d as int, 2, n as int, bb_zetel as int);
        }
        let sb_id = self.spellen[gi].spelers[sb_zetel];
        let bb_id = self.spellen[gi].spelers[bb_zetel];
        let psb = self.zoek_speler(sb_id);
        if self.spelers[psb].chips < SMALL_BLIND {
            false
        } else if bb_zetel == sb_zetel {
            true
        } else {
            let pbb = self.zoek_speler(bb_id);
            self.spelers[pbb].chips >= BIG_BLIND
        }
    }

    /// Deals two hole cards to every seat (deck consumed from the end),
    /// posts the blinds, and points the turn at the seat three places after
    /// the dealer. Fails without touching anything when a blind cannot be
    /// paid.
    fn deel_rond(&mut self, spel_id: SpelId) -> (r: Result<(), PokbotcomError>)
        requires
            old(self).wf(),
            heeft_spel(old(self).spellen@, spel_id),
            deelbaar(*old(self), vind_spel(old(self).spellen@, spel_id)),
        ensures
            final(self).wf(),
            totaal_geld(*final(self)) == totaal_geld(*old(self)),
            final(self).volgende_geldige_speler_id == old(self).volgende_geldige_speler_id,
            final(self).volgende_geldige_spel_id == old(self).volgende_geldige_spel_id,
            ({
                let gi = vind_spel(old(self).spellen@, spel_id);
                let g = old(self).spellen@[gi];
                let zit = g.spelers@;
                let d = g.huidige_dealer as int;
                let n = zit.len() as int;
                if blinds_mogelijk(old(self).spelers@, zit, d) {
                    &&& r is Ok
                    &&& final(self).spelers@ == gedeeld(old(self).spelers@, zit, g.deck@, d, 0)
                    &&& final(self).spellen@.len() == old(self).spellen@.len()
                    &&& (forall|j: int|
                        0 <= j < old(self).spellen@.len() && j != gi
                            ==> final(self).spellen@[j] == old(self).spellen@[j])
                    &&& ({
                        let ng = final(self).spellen@[gi];
                        &&& ng.id == g.id
                        &&& ng.spelers@ == g.spelers@
                        &&& ng.pot == g.pot
                        &&& ng.tafel == g.tafel
                        &&& ng.huidige_dealer == g.huidige_dealer
                        &&& ng.aan_de_beurt as int == (d + 3) % n
                        &&& ng.deck@ == g.deck@.take(g.deck@.len() - 2 * n)
                        &&& ng.huidige_inzet == g.huidige_inzet
                        &&& ng.laatste_actionabele_speler == g.laatste_actionabele_speler
                        &&& ng.status == g.status
                        &&& ng.rng == g.rng
                    })
                    &&& final(self).berichten@ == old(self).berichten@ + deel_berichten(
                        zit,
                        g.deck@,
                        d,
                        0,
                    )
                } else {
                    &&& r == Err::<(), PokbotcomError>(PokbotcomError::NietGenoegChips)
                    &&& final(self).spelers@ == old(self).spelers@
                    &&& final(self).spellen@ == old(self).spellen@
                    &&& final(self).berichten@ == old(self).berichten@
                }
            }),
    {
        proof {
            lemma_vind_spel(self.spellen@, spel_id);
        }
        let gi = self.zoek_spel(spel_id);
        let ghost gii = gi as int;
        let ghost zit = self.spellen@[gii].spelers@;
        let ghost oud_spel = self.spellen@[gii];
        let ghost oud_deck = oud_spel.deck@;
        let n = self.spellen[gi].spelers.len();
        let d = self.spellen[gi].huidige_dealer;
        let deck_lengte = self.spellen[gi].deck.len();
        proof {
            assert(self.spellen@[gi as int] == old(self).spellen@[vind_spel(
                old(self).spellen@,
                spel_id,
            )]);
            assert(d < n);
            assert(2 * n <= deck_lengte);
            assert(n <= usize::MAX / 2);
        }
        if !self.blinds_haalbaar(gi, d) {
            return Err(PokbotcomError::NietGenoegChips);
        }
        let sb_zetel = (d + 1) % n;
        let bb_zetel = (d + 2) % n;
        let beurt_zetel = (d + 3) % n;
        let ghost psb = vind_speler(old(self).spelers@, zit[sb_zetel as int]);
        let ghost pbb = vind_speler(old(self).spelers@, zit[bb_zetel as int]);
        proof {
            lemma_vind_speler(self.spelers@, zit[sb_zetel as int]);
            lemma_vind_speler(self.spelers@, zit[bb_zetel as int]);
        }
        let mut s: usize = 0;
        while s < n
            invariant
                gii == gi,
                gi < old(self).spellen@.len(),
                self.spellen@.len() == old(self).spellen@.len(),
                old(self).wf(),
                zit == old(self).spellen@[gii].spelers@,
                oud_spel == old(self).spellen@[gii],
                oud_deck == oud_spel.deck@,
                n == zit.len(),
                s <= n,
                1 <= n,
                2 * n <= oud_deck.len(),
                d == oud_spel.huidige_dealer,
                d < n,
                sb_zetel as int == (d as int + 1) % (n as int),
                bb_zetel as int == (d as int + 2) % (n as int),
                beurt_zetel as int == (d as int + 3) % (n as int),
                sb_zetel < n,
                bb_zetel < n,
                beurt_zetel < n,
                zitplaatsen_verschillend(zit),
                zitplaatsen_geregistreerd(old(self).spelers@, zit),
                psb == vind_speler(old(self).spelers@, zit[sb_zetel as int]),
                pbb == vind_speler(old(self).spelers@, zit[bb_zetel as int]),
                0 <= psb < old(self).spelers@.len(),
                0 <= pbb < old(self).spelers@.len(),
                old(self).spelers@[psb].id == Some(zit[sb_zetel as int]),
                old(self).spelers@[pbb].id == Some(zit[bb_zetel as int]),
                old(self).spelers@[psb].chips >= SMALL_BLIND,
                bb_zetel != sb_zetel ==> old(self).spelers@[pbb].chips >= BIG_BLIND,
                self.spelers@.len() == old(self).spelers@.len(),
                forall|i: int|
                    0 <= i < self.spelers@.len() ==> (#[trigger] self.spelers@[i]).id == old(
                        self,
                    ).spelers@[i].id,
                forall|i: int|
                    0 <= i < self.spelers@.len() ==> (#[trigger] self.spelers@[i]).chips == (
                    if i == psb && s > sb_zetel {
                        (old(self).spelers@[i].chips - SMALL_BLIND) as u64
                    } else if i == pbb && bb_zetel != sb_zetel && s > bb_zetel {
                        (old(self).spelers@[i].chips - BIG_BLIND) as u64
                    } else {
                        old(self).spelers@[i].chips
                    }),
                gedeeld(self.spelers@, zit, oud_deck, d as int, s as int) == gedeeld(
                    old(self).spelers@,
                    zit,
                    oud_deck,
                    d as int,
                    0,
                ),
                som_geld(self.spelers@) == som_geld(old(self).spelers@),
                forall|j: int|
                    0 <= j < old(self).spellen@.len() && j != gii ==> #[trigger] self.spellen@[j]
                        == old(self).spellen@[j],
                ({
                    let hg = self.spellen@[gii];
                    &&& hg.id == oud_spel.id
                    &&& hg.spelers@ == zit
                    &&& hg.pot == oud_spel.pot
                    &&& hg.tafel == oud_spel.tafel
                    &&& hg.huidige_dealer == oud_spel.huidige_dealer
                    &&& hg.aan_de_beurt == oud_spel.aan_de_beurt
                    &&& hg.deck@ == oud_deck.take(oud_deck.len() - 2 * (s as int))
                    &&& hg.huidige_inzet == oud_spel.huidige_inzet
                    &&& hg.laatste_actionabele_speler == oud_spel.laatste_actionabele_speler
                    &&& hg.status == oud_spel.status
                    &&& hg.rng == oud_spel.rng
                }),
                self.berichten@ + deel_berichten(zit, oud_deck, d as int, s as int) == old(
                    self,
                ).berichten@ + deel_berichten(zit, oud_deck, d as int, 0),
                self.berichten@.len() >= old(self).berichten@.len(),
                self.volgende_geldige_speler_id == old(self).volgende_geldige_speler_id,
                self.volgende_geldige_spel_id == old(self).volgende_geldige_spel_id,
            decreases n - s,
        {
            proof {
                lemma_vind_speler_gelijke_ids(old(self).spelers@, self.spelers@, zit[s as int]);
                lemma_vind_speler(self.spelers@, zit[s as int]);
                lemma_vind_speler(old(self).spelers@, zit[s as int]);
            }
            let zetel_id = self.spellen[gi].spelers[s];
            let pi = self.zoek_speler(zetel_id);
            let ghost voor_spelers = self.spelers@;
            let k1 = match self.spellen[gi].deck.pop() {
                Some(k) => k,
                None => {
                    proof {
                        assert(false);
                    }
                    return Err(PokbotcomError::NietGenoegChips);
                },
            };
            let k2 = match self.spellen[gi].deck.pop() {
                Some(k) => k,
                None => {
                    proof {
                        assert(false);
                    }
                    return Err(PokbotcomError::NietGenoegChips);
                },
            };
            proof {
                assert(k1 == oud_deck[oud_deck.len() - 1 - 2 * (s as int)]);
                assert(k2 == oud_deck[oud_deck.len() - 2 - 2 * (s as int)]);
                assert(self.spellen@[gii].deck@ =~= oud_deck.take(
                    oud_deck.len() - 2 * (s as int) - 2,
                ));
            }
            self.spelers[pi].hand = Some((k1, k2));
            self.berichten.push(Bericht { aan: zetel_id, melding: PokbotcomMelding::Hand(k1, k2) });
            proof {
                let met_hand = Speler { hand: Some((k1, k2)), ..voor_spelers[pi as int] };
                assert(self.spelers@ =~= voor_spelers.update(pi as int, met_hand));
                lemma_som_geld_update(voor_spelers, pi as int, met_hand);
                lemma_som_geld_deel(self.spelers@, pi as int);
                lemma_som_potten_niet_negatief(old(self).spellen@);
                if sb_zetel != bb_zetel {
                    assert(zit[sb_zetel as int] != zit[bb_zetel as int]);
                    assert(psb != pbb);
                }
            }
            if s == sb_zetel {
                let uitkomst = self.spelers[pi].zet_chips_in(SMALL_BLIND);
                proof {
                    assert(uitkomst is Ok);
                }
            } else if s == bb_zetel {
                let uitkomst = self.spelers[pi].zet_chips_in(BIG_BLIND);
                proof {
                    assert(uitkomst is Ok);
                }
            } else if s == beurt_zetel {
                self.berichten.push(
                    Bericht { aan: zetel_id, melding: PokbotcomMelding::AanDeBeurt },
                );
            }
            proof {
                let nd = na_deling(voor_spelers[pi as int], oud_deck, s as int, n as int, d as int);
                assert(self.spelers@ =~= voor_spelers.update(pi as int, nd));
                lemma_som_geld_update(voor_spelers, pi as int, nd);
                assert(gedeeld(voor_spelers, zit, oud_deck, d as int, s as int) == gedeeld(
                    voor_spelers.update(pi as int, nd),
                    zit,
                    oud_deck,
                    d as int,
                    s as int + 1,
                ));
                assert(self.berichten@ + deel_berichten(zit, oud_deck, d as int, s as int + 1)
                    =~= old(self).berichten@ + deel_berichten(zit, oud_deck, d as int, 0));
            }
            s = s + 1;
        }
        self.spellen[gi].aan_de_beurt = beurt_zetel;
        proof {
            assert(gedeeld(self.spelers@, zit, oud_deck, d as int, n as int) == self.spelers@);
            assert(deel_berichten(zit, oud_deck, d as int, n as int) =~= Seq::<Bericht>::empty());
            assert(self.berichten@ =~= self.berichten@ + Seq::<Bericht>::empty());
            assert(final(self).berichten@ == old(self).berichten@ + deel_berichten(
                zit,
                oud_deck,
                d as int,
                0,
            ));
            lemma_som_potten_gelijke_potten(self.spellen@, old(self).spellen@);
        }
        Ok(())
    }
}

/// Two game lists with the same identifiers at the same places give the same
/// lookup result.
pub proof fn lemma_vind_spel_gelijke_ids(s1: Seq<Spel>, s2: Seq<Spel>, id: SpelId)
    requires
        s1.len() == s2.len(),
        forall|i: int| 0 <= i < s1.len() ==> (#[trigger] s1[i]).id == s2[i].id,
    ensures
        vind_spel(s1, id) == vind_spel(s2, id),
    decreases s1.len(),
{
    if s1.len() > 0 {
        assert(s1[0].id == s2[0].id);
        assert forall|i: int| 0 <= i < s1.drop_first().len() implies (#[trigger] s1.drop_first()[i]).id
            == s2.drop_first()[i].id by {
            assert(s1.drop_first()[i] == s1[i + 1]);
            assert(s2.drop_first()[i] == s2[i + 1]);
            assert(s1[i + 1].id == s2[i + 1].id);
        }
        lemma_vind_spel_gelijke_ids(s1.drop_first(), s2.drop_first(), id);
    }
}

impl Centrale {
    /// Starts (or restarts) the hand: fresh shuffled deck, cleared community
    /// cards, bet-to-match at the big blind, two hole cards for every seat,
    /// blinds posted, and the turn at the seat three after the dealer.
    /// Starting a running game discards its state. Fails without touching
    /// anything when a blind-posting seat cannot pay.
    pub fn start_spel(&mut self, spel_id: SpelId) -> (r: Result<(), PokbotcomError>)
        requires
            old(self).wf(),
            heeft_spel(old(self).spellen@, spel_id),
            ({
                let g = old(self).spellen@[vind_spel(old(self).spellen@, spel_id)];
                &&& g.spelers@.len() >= 2
                &&& g.spelers@.len() <= 23
                &&& g.huidige_dealer < g.spelers@.len()
                &&& zitplaatsen_verschillend(g.spelers@)
                &&& zitplaatsen_geregistreerd(old(self).spelers@, g.spelers@)
            }),
        ensures
            final(self).wf(),
            totaal_geld(*final(self)) == totaal_geld(*old(self)),
            final(self).volgende_geldige_speler_id == old(self).volgende_geldige_speler_id,
            final(self).volgende_geldige_spel_id == old(self).volgende_geldige_spel_id,
            ({
                let gi = vind_spel(old(self).spellen@, spel_id);
                let g = old(self).spellen@[gi];
                let zit = g.spelers@;
                let d = g.huidige_dealer as int;
                let n = zit.len() as int;
                if blinds_mogelijk(old(self).spelers@, zit, d) {
                    &&& r is Ok
                    &&& final(self).spellen@.len() == old(self).spellen@.len()
                    &&& (forall|j: int|
                        0 <= j < old(self).spellen@.len() && j != gi
                            ==> final(self).spellen@[j] == old(self).spellen@[j])
                    &&& exists|geschud: Seq<Kaart>|
                        #![auto]
                        {
                            &&& geschud.to_multiset() == crate::kaart::volledig_deck().to_multiset()
                            &&& geschud.len() == 52
                            &&& final(self).spelers@ == gedeeld(
                                old(self).spelers@,
                                zit,
                                geschud,
                                d,
                                0,
                            )
                            &&& final(self).spellen@[gi].deck@ == geschud.take(52 - 2 * n)
                            &&& final(self).berichten@ == old(self).berichten@ + deel_berichten(
                                zit,
                                geschud,
                                d,
                                0,
                            )
                        }
                    &&& ({
                        let ng = final(self).spellen@[gi];
                        &&& ng.id == g.id
                        &&& ng.spelers@ == zit
                        &&& ng.pot == g.pot
                        &&& ng.tafel == (
                            None::<(Kaart, Kaart, Kaart)>,
                            None::<Kaart>,
                            None::<Kaart>,
                        )
                        &&& ng.huidige_dealer == g.huidige_dealer
                        &&& ng.aan_de_beurt as int == (d + 3) % n
                        &&& ng.huidige_inzet == BIG_BLIND
                        &&& ng.laatste_actionabele_speler == g.laatste_actionabele_speler
                        &&& ng.status == crate::spel::SpelStatus::Lopend
                    })
                } else {
                    &&& r == Err::<(), PokbotcomError>(PokbotcomError::NietGenoegChips)
                    &&& final(self).spelers@ == old(self).spelers@
                    &&& final(self).spellen@ == old(self).spellen@
                    &&& final(self).berichten@ == old(self).berichten@
                }
            }),
    {
        proof {
            lemma_vind_spel(self.spellen@, spel_id);
        }
        let gi = self.zoek_spel(spel_id);
        let ghost gii = gi as int;
        let ghost oud_spel = self.spellen@[gii];
        let ghost zit = oud_spel.spelers@;
        let n = self.spellen[gi].spelers.len();
        let d = self.spellen[gi].huidige_dealer;
        if !self.blinds_haalbaar(gi, d) {
            return Err(PokbotcomError::NietGenoegChips);
        }
        let vers = crate::kaart::vers_deck();
        let spel = &mut self.spellen[gi];
        spel.deck = vers;
        crate::toeval::schud_kaarten(&mut spel.deck, &mut spel.rng);
        spel.status = crate::spel::SpelStatus::Lopend;
        spel.tafel = (None, None, None);
        spel.huidige_inzet = BIG_BLIND;
        proof {
            assert(self.spellen@[gii].spelers@ == zit);
            assert(self.spellen@[gii].deck@.to_multiset().len() == crate::kaart::volledig_deck()
                .to_multiset()
                .len());
            broadcast use vstd::seq_lib::group_to_multiset_ensures;

            assert(self.spellen@[gii].deck@.len() == 52);
            assert forall|i: int| 0 <= i < self.spellen@.len() implies (#[trigger] self.spellen@[i]).id
                == old(self).spellen@[i].id by {}
            lemma_vind_spel_gelijke_ids(self.spellen@, old(self).spellen@, spel_id);
            lemma_vind_spel(self.spellen@, spel_id);
            lemma_som_potten_gelijke_potten(self.spellen@, old(self).spellen@);
        }
        let ghost geschud = self.spellen@[gii].deck@;
        let ghost voor_deel = *self;
        let uitkomst = self.deel_rond(spel_id);
        proof {
            assert(blinds_mogelijk(voor_deel.spelers@, zit, d as int));
            assert(uitkomst is Ok);
            assert(final(self).spelers@ == gedeeld(old(self).spelers@, zit, geschud, d as int, 0));
            assert(final(self).berichten@ == old(self).berichten@ + deel_berichten(
                zit,
                geschud,
                d as int,
                0,
            ));
            assert(final(self).spellen@[gii].deck@ == geschud.take(
                geschud.len() - 2 * (zit.len() as int),
            ));
        }
        Ok(())
    }

    /// Moves to the next hand after a showdown: the dealer advances one
    /// seat, the table is cleared, the bet-to-match returns to the big
    /// blind, and hole cards and blinds are dealt from the remaining deck.
    /// Fails without touching anything when a blind-posting seat cannot pay.
    fn naar_volgende_gesamtronde(&mut self, spel_id: SpelId) -> (r: Result<(), PokbotcomError>)
        requires
            old(self).wf(),
            heeft_spel(old(self).spellen@, spel_id),
            ({
                let g = old(self).spellen@[vind_spel(old(self).spellen@, spel_id)];
                &&& g.spelers@.len() >= 1
                &&& g.huidige_dealer < g.spelers@.len()
                &&& zitplaatsen_verschillend(g.spelers@)
                &&& zitplaatsen_geregistreerd(old(self).spelers@, g.spelers@)
                &&& g.deck@.len() >= 2 * g.spelers@.len()
            }),
        ensures
            final(self).wf(),
            totaal_geld(*final(self)) == totaal_geld(*old(self)),
            final(self).volgende_geldige_speler_id == old(self).volgende_geldige_speler_id,
            final(self).volgende_geldige_spel_id == old(self).volgende_geldige_spel_id,
            ({
                let gi = vind_spel(old(self).spellen@, spel_id);
                let g = old(self).spellen@[gi];
                let zit = g.spelers@;
                let n = zit.len() as int;
                let d2 = (g.huidige_dealer + 1) % n;
                if blinds_mogelijk(old(self).spelers@, zit, d2) {
                    &&& r is Ok
                    &&& final(self).spelers@ == gedeeld(old(self).spelers@, zit, g.deck@, d2, 0)
                    &&& final(self).spellen@.len() == old(self).spellen@.len()
                    &&& (forall|j: int|
                        0 <= j < old(self).spellen@.len() && j != gi
                            ==> final(self).spellen@[j] == old(self).spellen@[j])
                    &&& ({
                        let ng = final(self).spellen@[gi];
                        &&& ng.id == g.id
                        &&& ng.spelers@ == zit
                        &&& ng.pot == g.pot
                        &&& ng.tafel == (
                            None::<(Kaart, Kaart, Kaart)>,
                            None::<Kaart>,
                            None::<Kaart>,
                        )
                        &&& ng.huidige_dealer as int == d2
                        &&& ng.aan_de_beurt as int == (d2 + 3) % n
                        &&& ng.deck@ == g.deck@.take(g.deck@.len() - 2 * n)
                        &&& ng.huidige_inzet == BIG_BLIND
                        &&& ng.laatste_actionabele_speler == g.laatste_actionabele_speler
                        &&& ng.status == g.status
                        &&& ng.rng == g.rng
                    })
                    &&& final(self).berichten@ == old(self).berichten@ + deel_berichten(
                        zit,
                        g.deck@,
                        d2,
                        0,
                    )
                } else {
                    &&& r == Err::<(), PokbotcomError>(PokbotcomError::NietGenoegChips)
                    &&& final(self).spelers@ == old(self).spelers@
                    &&& final(self).spellen@ == old(self).spellen@
                    &&& final(self).berichten@ == old(self).berichten@
                }
            }),
    {
        proof {
            lemma_vind_spel(self.spellen@, spel_id);
        }
        let gi = self.zoek_spel(spel_id);
        let ghost gii = gi as int;
        let ghost oud_spel = self.spellen@[gii];
        let ghost zit = oud_spel.spelers@;
        let n = self.spellen[gi].spelers.len();
        let d = self.spellen[gi].huidige_dealer;
        let d2 = if d + 1 < n {
            d + 1
        } else {
            0
        };
        proof {
            lemma_zetel_na(d as int, 1, n as int, d2 as int);
        }
        if !self.blinds_haalbaar(gi, d2) {
            return Err(PokbotcomError::NietGenoegChips);
        }
        let spel = &mut self.spellen[gi];
        spel.huidige_dealer = d2;
        spel.tafel = (None, None, None);
        spel.huidige_inzet = BIG_BLIND;
        proof {
            assert(self.spellen@[gii].spelers@ == zit);
            assert(self.spellen@[gii].deck@ == oud_spel.deck@);
            assert forall|i: int| 0 <= i < self.spellen@.len() implies (#[trigger] self.spellen@[i]).id
                == old(self).spellen@[i].id by {}
            lemma_vind_spel_gelijke_ids(self.spellen@, old(self).spellen@, spel_id);
            lemma_vind_spel(self.spellen@, spel_id);
            lemma_som_potten_gelijke_potten(self.spellen@, old(self).spellen@);
        }
        let ghost voor_deel = *self;
        let uitkomst = self.deel_rond(spel_id);
        proof {
            assert(blinds_mogelijk(voor_deel.spelers@, zit, d2 as int));
            assert(uitkomst is Ok);
        }
        Ok(())
    }
}

/// The seat holds a registered player who still has a hand.
pub open spec fn zetel_levend(spelers: Seq<Speler>, zit: Seq<SpelerId>, s: int) -> bool {
    let pi = vind_speler(spelers, zit[s]);
    &&& pi >= 0
    &&& spelers[pi].hand is Some
}

/// No seat other than `zetel` still holds a live hand: its player is the
/// hand's last one standing.
pub open spec fn enige_levende(spelers: Seq<Speler>, zit: Seq<SpelerId>, zetel: int) -> bool {
    forall|s: int| 0 <= s < zit.len() && s != zetel ==> !zetel_levend(spelers, zit, s)
}

/// The seat `j` places past `vanaf` on a table of `n` seats.
pub open spec fn stap(vanaf: int, j: int, n: int) -> int {
    (vanaf + j) % n
}

/// Seat `z` is the first seat with a live hand strictly after `vanaf`,
/// walking the table clockwise and wrapping.
pub open spec fn eerste_levende_na(
    spelers: Seq<Speler>,
    zit: Seq<SpelerId>,
    vanaf: int,
    z: int,
) -> bool {
    let n = zit.len() as int;
    exists|j: int|
        {
            &&& 1 <= j <= n
            &&& z == #[trigger] stap(vanaf, j, n)
            &&& zetel_levend(spelers, zit, z)
            &&& forall|j2: int|
                1 <= j2 < j ==> !(#[trigger] zetel_levend(spelers, zit, stap(vanaf, j2, n)))
        }
}

/// A registered player takes part in the showdown when seated in the game
/// and still holding a hand.
pub open spec fn doet_mee(p: Speler, zit: Seq<SpelerId>) -> bool {
    &&& p.id matches Some(id) && zit.contains(id)
    &&& p.hand is Some
}

/// The seven cards a participant chooses from: the five community cards,
/// then the two hole cards.
pub open spec fn zeven_kaarten(p: Speler, tafelkaarten: Seq<Kaart>) -> Seq<Kaart> {
    tafelkaarten + seq![(p.hand->0).0, (p.hand->0).1]
}

/// Registry index `wi` and hand `wh` are the showdown outcome: `wh` is the
/// best five-card hand of participant `wi` over every choice of five of its
/// seven cards, no participant's choice beats it, and every participant
/// before `wi` in registry order stays strictly below it — so `wi` is the
/// first participant reaching the strongest hand.
pub open spec fn winnaar_bepaling(
    spelers: Seq<Speler>,
    zit: Seq<SpelerId>,
    tafelkaarten: Seq<Kaart>,
    wi: int,
    wh: Hand,
) -> bool {
    &&& 0 <= wi < spelers.len()
    &&& doet_mee(spelers[wi], zit)
    &&& hand_uit_keuze(zeven_kaarten(spelers[wi], tafelkaarten), wh)
    &&& hand_wf(wh)
    &&& forall|j: int, k: (int, int, int, int, int)|
        0 <= j < spelers.len() && doet_mee(#[trigger] spelers[j], zit) && geldige_keuze(k)
            ==> #[trigger] keuze_sleutel(zeven_kaarten(spelers[j], tafelkaarten), k)
            <= hand_sleutel(wh)
    &&& forall|j: int, k: (int, int, int, int, int)|
        0 <= j < wi && doet_mee(#[trigger] spelers[j], zit) && geldige_keuze(k)
            ==> #[trigger] keuze_sleutel(zeven_kaarten(spelers[j], tafelkaarten), k)
            < hand_sleutel(wh)
}

impl Centrale {
    /// Whether one of the game's seats holds this player.
    fn zit_bevat(zitv: &Vec<SpelerId>, id: SpelerId) -> (b: bool)
        ensures
            b == zitv@.contains(id),
    {
        let mut t: usize = 0;
        while t < zitv.len()
            invariant
                t <= zitv@.len(),
                forall|j: int| 0 <= j < t ==> zitv@[j] != id,
            decreases zitv@.len() - t,
        {
            if zitv[t] == id {
                return true;
            }
            t = t + 1;
        }
        false
    }

    /// The showdown outcome: walks the registry in order, keeps the best
    /// five-of-seven hand of every participant, and returns the first
    /// participant whose best hand no other participant beats, with that
    /// hand.
    fn bepaal_winnaar(&self, gi: usize, tafelkaarten: &Vec<Kaart>) -> (w: (usize, Hand))
        requires
            gi < self.spellen@.len(),
            tafelkaarten@.len() == 5,
            exists|i: int|
                0 <= i < self.spelers@.len() && doet_mee(
                    #[trigger] self.spelers@[i],
                    self.spellen@[gi as int].spelers@,
                ),
        ensures
            winnaar_bepaling(
                self.spelers@,
                self.spellen@[gi as int].spelers@,
                tafelkaarten@,
                w.0 as int,
                w.1,
            ),
    {
        let ghost zit = self.spellen@[gi as int].spelers@;
        let mut winnaar: Option<(usize, Hand)> = None;
        let ghost mut wsleutel: int = 0;
        let n = self.spelers.len();
        let mut pi: usize = 0;
        while pi < n
            invariant
                n == self.spelers@.len(),
                pi <= n,
                zit == self.spellen@[gi as int].spelers@,
                gi < self.spellen@.len(),
                tafelkaarten@.len() == 5,
                winnaar is None ==> forall|i: int|
                    0 <= i < pi ==> !doet_mee(#[trigger] self.spelers@[i], zit),
                winnaar matches Some(w) ==> {
                    &&& w.0 < pi
                    &&& doet_mee(self.spelers@[w.0 as int], zit)
                    &&& hand_uit_keuze(zeven_kaarten(self.spelers@[w.0 as int], tafelkaarten@), w.1)
                    &&& hand_wf(w.1)
                    &&& wsleutel == hand_sleutel(w.1)
                    &&& forall|j: int, k: (int, int, int, int, int)|
                        0 <= j < pi && doet_mee(#[trigger] self.spelers@[j], zit) && geldige_keuze(
                            k,
                        ) ==> #[trigger] keuze_sleutel(
                            zeven_kaarten(self.spelers@[j], tafelkaarten@),
                            k,
                        ) <= wsleutel
                    &&& forall|j: int, k: (int, int, int, int, int)|
                        0 <= j < w.0 && doet_mee(#[trigger] self.spelers@[j], zit) && geldige_keuze(
                            k,
                        ) ==> #[trigger] keuze_sleutel(
                            zeven_kaarten(self.spelers@[j], tafelkaarten@),
                            k,
                        ) < wsleutel
                },
            decreases n - pi,
        {
            let speler = &self.spelers[pi];
            let mee = match speler.id {
                Some(id) => Self::zit_bevat(&self.spellen[gi].spelers, id),
                None => false,
            };
            if mee && speler.hand.is_some() {
                let (h1, h2) = speler.hand.unwrap();
                let mut zeven: Vec<Kaart> = Vec::new();
                let mut t: usize = 0;
                while t < 5
                    invariant
                        t <= 5,
                        tafelkaarten@.len() == 5,
                        zeven@.len() == t,
                        forall|j: int| 0 <= j < t ==> zeven@[j] == tafelkaarten@[j],
                    decreases 5 - t,
                {
                    zeven.push(tafelkaarten[t]);
                    t = t + 1;
                }
                zeven.push(h1);
                zeven.push(h2);
                proof {
                    assert(zeven@ =~= zeven_kaarten(self.spelers@[pi as int], tafelkaarten@));
                }
                let beste = beste_hand(&zeven);
                let sleutel = beste.sleutel();
                let vervang = match &winnaar {
                    None => true,
                    Some(w) => sleutel > w.1.sleutel(),
                };
                if vervang {
                    proof {
                        wsleutel = hand_sleutel(beste);
                    }
                    winnaar = Some((pi, beste));
                }
            }
            pi = pi + 1;
        }
        match winnaar {
            Some(w) => w,
            None => {
                proof {
                    let ghost i = choose|i: int|
                        0 <= i < self.spelers@.len() && doet_mee(
                            #[trigger] self.spelers@[i],
                            zit,
                        );
                    assert(!doet_mee(self.spelers@[i], zit));
                    assert(false);
                }
                (0, Hand::new([tafelkaarten[0]; 5]))
            },
        }
    }
}

/// All three community slots are filled: the next round close is a showdown.
pub open spec fn tafel_vol(t: (Option<(Kaart, Kaart, Kaart)>, Option<Kaart>, Option<Kaart>)) -> bool {
    &&& t.0 is Some
    &&& t.1 is Some
    &&& t.2 is Some
}

/// The five community cards of a full table, in the order they were dealt.
pub open spec fn tafel_kaarten(
    t: (Option<(Kaart, Kaart, Kaart)>, Option<Kaart>, Option<Kaart>),
) -> Seq<Kaart> {
    seq![(t.0->0).0, (t.0->0).1, (t.0->0).2, t.1->0, t.2->0]
}

/// How one round close transforms the state: the sweep, then a street deal
/// or the showdown with the immediate next hand, as `ronde_klaar` performs
/// it. `g` is the game before the close, `ng` the game after; likewise the
/// registry and the message log around it.
pub open spec fn ronde_overgang(
    voor_spelers: Seq<Speler>,
    g: Spel,
    voor_berichten: Seq<Bericht>,
    na_spelers: Seq<Speler>,
    ng: Spel,
    na_berichten: Seq<Bericht>,
    r: Result<(), PokbotcomError>,
) -> bool {
    let zit = g.spelers@;
    let n = zit.len() as int;
    let d = g.huidige_dealer as int;
    let geveegde = geveegd(voor_spelers, zit, 0);
    let pot1 = (g.pot + geveegde_inzet(voor_spelers, zit, 0)) as u64;
    let rondeover = voor_berichten + aan_allen(zit, PokbotcomMelding::RondeOver);
    let L = g.deck@.len() as int;
    if !tafel_vol(g.tafel) {
        let aantal: int = if g.tafel.0 is None {
            3
        } else {
            1
        };
        let melding = if g.tafel.0 is None {
            PokbotcomMelding::Flop(g.deck@[L - 1], g.deck@[L - 2], g.deck@[L - 3])
        } else if g.tafel.1 is None {
            PokbotcomMelding::Turn(g.deck@[L - 1])
        } else {
            PokbotcomMelding::River(g.deck@[L - 1])
        };
        &&& r is Ok
        &&& na_spelers == geveegde
        &&& ng.id == g.id
        &&& ng.spelers@ == zit
        &&& ng.pot == pot1
        &&& ng.tafel == (
            if g.tafel.0 is None {
                Some((g.deck@[L - 1], g.deck@[L - 2], g.deck@[L - 3]))
            } else {
                g.tafel.0
            },
            if g.tafel.0 is Some && g.tafel.1 is None {
                Some(g.deck@[L - 1])
            } else {
                g.tafel.1
            },
            if g.tafel.1 is Some && g.tafel.2 is None {
                Some(g.deck@[L - 1])
            } else {
                g.tafel.2
            },
        )
        &&& ng.huidige_dealer == g.huidige_dealer
        &&& eerste_levende_na(geveegde, zit, d, ng.aan_de_beurt as int)
        &&& ng.deck@ == g.deck@.take(L - aantal)
        &&& ng.huidige_inzet == 0
        &&& ng.laatste_actionabele_speler is None
        &&& ng.status == g.status
        &&& ng.rng == g.rng
        &&& na_berichten == rondeover + aan_allen(zit, melding)
    } else {
        let tk = tafel_kaarten(g.tafel);
        exists|wi: int, wh: Hand|
            {
                &&& #[trigger] winnaar_bepaling(geveegde, zit, tk, wi, wh)
                &&& ({
                    let met_winst = geveegde.update(
                        wi,
                        Speler { chips: (geveegde[wi].chips + pot1) as u64, ..geveegde[wi] },
                    );
                    let d2 = (d + 1) % n;
                    let gewonnen_b = rondeover + aan_allen(
                        zit,
                        PokbotcomMelding::Gewonnen(wh, geveegde[wi].id->0),
                    );
                    if blinds_mogelijk(met_winst, zit, d2) {
                        &&& r is Ok
                        &&& na_spelers == gedeeld(met_winst, zit, g.deck@, d2, 0)
                        &&& ng.id == g.id
                        &&& ng.spelers@ == zit
                        &&& ng.pot == 0
                        &&& ng.tafel == (
                            None::<(Kaart, Kaart, Kaart)>,
                            None::<Kaart>,
                            None::<Kaart>,
                        )
                        &&& ng.huidige_dealer as int == d2
                        &&& ng.aan_de_beurt as int == (d2 + 3) % n
                        &&& ng.deck@ == g.deck@.take(L - 2 * n)
                        &&& ng.huidige_inzet == BIG_BLIND
                        &&& ng.laatste_actionabele_speler is None
                        &&& ng.status == g.status
                        &&& ng.rng == g.rng
                        &&& na_berichten == gewonnen_b + deel_berichten(zit, g.deck@, d2, 0)
                    } else {
                        &&& r is Ok
                        &&& na_spelers == met_winst
                        &&& ng.id == g.id
                        &&& ng.spelers@ == zit
                        &&& ng.pot == 0
                        &&& ng.tafel == g.tafel
                        &&& ng.huidige_dealer == g.huidige_dealer
                        &&& eerste_levende_na(met_winst, zit, d, ng.aan_de_beurt as int)
                        &&& ng.deck@ == g.deck@
                        &&& ng.huidige_inzet == 0
                        &&& ng.laatste_actionabele_speler is None
                        &&& ng.status == crate::spel::SpelStatus::Wachtend
                        &&& ng.rng == g.rng
                        &&& na_berichten == gewonnen_b + aan_allen(
                            zit,
                            PokbotcomMelding::SpelGepauzeerd,
                        )
                    }
                })
            }
    }
}

impl Centrale {
    /// The first seat with a live hand strictly after `vanaf`, wrapping.
    fn eerste_levende(&self, gi: usize, vanaf: usize) -> (z: usize)
        requires
            gi < self.spellen@.len(),
            ({
                let zit = self.spellen@[gi as int].spelers@;
                &&& zit.len() >= 1
                &&& (vanaf as int) < zit.len()
                &&& zitplaatsen_geregistreerd(self.spelers@, zit)
                &&& exists|s: int| 0 <= s < zit.len() && #[trigger] zetel_levend(self.spelers@, zit, s)
            }),
        ensures
            (z as int) < self.spellen@[gi as int].spelers@.len(),
            eerste_levende_na(self.spelers@, self.spellen@[gi as int].spelers@, vanaf as int, z as int),
    {
        let ghost zit = self.spellen@[gi as int].spelers@;
        let n = self.spellen[gi].spelers.len();
        let ghost ster = choose|s: int| 0 <= s < zit.len() && #[trigger] zetel_levend(self.spelers@, zit, s);
        let ghost afstand: int = if ster > vanaf { ster - vanaf } else { ster - vanaf + n };
        proof {
            lemma_zetel_na(vanaf as int, afstand, n as int, ster);
            assert(ster == stap(vanaf as int, afstand, n as int));
            assert(1 <= afstand <= n);
        }
        let mut j: usize = 1;
        loop
            invariant
                n == zit.len(),
                zit == self.spellen@[gi as int].spelers@,
                gi < self.spellen@.len(),
                vanaf < n,
                1 <= n,
                zitplaatsen_geregistreerd(self.spelers@, zit),
                zetel_levend(self.spelers@, zit, ster),
                0 <= ster < n,
                1 <= afstand <= n,
                ster == stap(vanaf as int, afstand, n as int),
                1 <= j <= afstand,
                forall|j2: int|
                    1 <= j2 < j ==> !(#[trigger] zetel_levend(
                        self.spelers@,
                        zit,
                        stap(vanaf as int, j2, n as int),
                    )),
            decreases afstand - j,
        {
            let z = if j >= n - vanaf {
                j - (n - vanaf)
            } else {
                vanaf + j
            };
            proof {
                lemma_zetel_na(vanaf as int, j as int, n as int, z as int);
                assert(z as int == stap(vanaf as int, j as int, n as int));
                lemma_vind_speler(self.spelers@, zit[z as int]);
            }
            let zetel_id = self.spellen[gi].spelers[z];
            let pi = self.zoek_speler(zetel_id);
            if self.spelers[pi].hand.is_some() {
                proof {
                    assert(zetel_levend(self.spelers@, zit, z as int));
                    assert(eerste_levende_na(self.spelers@, zit, vanaf as int, z as int));
                }
                return z;
            }
            proof {
                assert(!zetel_levend(self.spelers@, zit, z as int));
                assert(j < afstand) by {
                    if j == afstand {
                        assert(z as int == ster);
                    }
                }
            }
            j = j + 1;
        }
    }

    /// Closes the betting round: tells every seat the round is over, sweeps
    /// the committed bets into the pot, resets the bet-to-match and the
    /// round marker, and then deals the flop, the turn or the river — or,
    /// when the river is already out, holds the showdown: the strongest
    /// five-of-seven hand wins the whole pot, and the next hand starts at
    /// once with the dealer advanced one seat. When that next hand's blinds
    /// cannot be posted, the payout stands, the game pauses (`Wachtend`)
    /// and every seat is told; a new start resumes it. The call itself
    /// always succeeds.
    pub fn ronde_klaar(&mut self, spel_id: SpelId) -> (r: Result<(), PokbotcomError>)
        requires
            old(self).wf(),
            heeft_spel(old(self).spellen@, spel_id),
            ({
                let g = old(self).spellen@[vind_spel(old(self).spellen@, spel_id)];
                let zit = g.spelers@;
                &&& zit.len() >= 1
                &&& g.huidige_dealer < zit.len()
                &&& zitplaatsen_verschillend(zit)
                &&& zitplaatsen_geregistreerd(old(self).spelers@, zit)
                &&& (g.tafel.1 is Some ==> g.tafel.0 is Some)
                &&& (g.tafel.2 is Some ==> g.tafel.1 is Some)
                &&& (g.tafel.0 is None ==> g.deck@.len() >= 3)
                &&& (g.tafel.0 is Some && g.tafel.1 is None ==> g.deck@.len() >= 1)
                &&& (g.tafel.1 is Some && g.tafel.2 is None ==> g.deck@.len() >= 1)
                &&& (tafel_vol(g.tafel) ==> g.deck@.len() >= 2 * zit.len())
                &&& exists|s: int|
                    0 <= s < zit.len() && #[trigger] zetel_levend(old(self).spelers@, zit, s)
            }),
        ensures
            final(self).wf(),
            totaal_geld(*final(self)) == totaal_geld(*old(self)),
            final(self).volgende_geldige_speler_id == old(self).volgende_geldige_speler_id,
            final(self).volgende_geldige_spel_id == old(self).volgende_geldige_spel_id,
            final(self).spellen@.len() == old(self).spellen@.len(),
            forall|j: int|
                0 <= j < old(self).spellen@.len() && j != vind_spel(old(self).spellen@, spel_id)
                    ==> final(self).spellen@[j] == old(self).spellen@[j],
            ({
                let gi = vind_spel(old(self).spellen@, spel_id);
                ronde_overgang(
                    old(self).spelers@,
                    old(self).spellen@[gi],
                    old(self).berichten@,
                    final(self).spelers@,
                    final(self).spellen@[gi],
                    final(self).berichten@,
                    r,
                )
            }),
    {
        proof {
            lemma_vind_spel(old(self).spellen@, spel_id);
        }
        let ghost gii = vind_spel(old(self).spellen@, spel_id);
        let ghost oud_spel = old(self).spellen@[gii];
        let ghost zit = oud_spel.spelers@;
        let ghost geveegde = geveegd(old(self).spelers@, zit, 0);
        self.stuur_naar_alle_spelers(spel_id, PokbotcomMelding::RondeOver);
        self.verzamel_pot(spel_id);
        proof {
            lemma_geveegd(old(self).spelers@, zit, 0);
            assert forall|i: int| 0 <= i < self.spellen@.len() implies (#[trigger] self.spellen@[i]).id
                == old(self).spellen@[i].id by {}
            lemma_vind_spel_gelijke_ids(self.spellen@, old(self).spellen@, spel_id);
            lemma_vind_spel(self.spellen@, spel_id);
            assert forall|s: int|
                0 <= s < zit.len() implies (#[trigger] zetel_levend(self.spelers@, zit, s))
                == zetel_levend(old(self).spelers@, zit, s) by {
                lemma_vind_speler_gelijke_ids(old(self).spelers@, self.spelers@, zit[s]);
                lemma_vind_speler(old(self).spelers@, zit[s]);
            }
            assert forall|s: int|
                0 <= s < zit.len() implies heeft_speler(self.spelers@, #[trigger] zit[s]) by {
                lemma_vind_speler_gelijke_ids(old(self).spelers@, self.spelers@, zit[s]);
            }
        }
        let gi = self.zoek_spel(spel_id);
        self.spellen[gi].laatste_actionabele_speler = None;
        self.spellen[gi].huidige_inzet = 0;
        proof {
            assert(self.spellen@ =~= old(self).spellen@.update(
                gii,
                Spel {
                    pot: self.spellen@[gii].pot,
                    huidige_inzet: 0,
                    laatste_actionabele_speler: None,
                    ..oud_spel
                },
            ));
        }
        let ghost pot1 = self.spellen@[gii].pot;
        let t = self.spellen[gi].tafel;
        let mut melding: PokbotcomMelding = PokbotcomMelding::RondeOver;
        let mut gewonnen = false;
        match t {
            (None, None, None) => {
                let k1 = self.pak_kaart(gi);
                let k2 = self.pak_kaart(gi);
                let k3 = self.pak_kaart(gi);
                let t2 = self.spellen[gi].tafel;
                self.spellen[gi].tafel = (Some((k1, k2, k3)), t2.1, t2.2);
                melding = PokbotcomMelding::Flop(k1, k2, k3);
            },
            (Some(_), None, None) => {
                let k1 = self.pak_kaart(gi);
                let t2 = self.spellen[gi].tafel;
                self.spellen[gi].tafel = (t2.0, Some(k1), t2.2);
                melding = PokbotcomMelding::Turn(k1);
            },
            (Some(_), Some(_), None) => {
                let k1 = self.pak_kaart(gi);
                let t2 = self.spellen[gi].tafel;
                self.spellen[gi].tafel = (t2.0, t2.1, Some(k1));
                melding = PokbotcomMelding::River(k1);
            },
            (Some(flop), Some(turn), Some(river)) => {
                let mut tafelkaarten: Vec<Kaart> = Vec::new();
                tafelkaarten.push(flop.0);
                tafelkaarten.push(flop.1);
                tafelkaarten.push(flop.2);
                tafelkaarten.push(turn);
                tafelkaarten.push(river);
                proof {
                    assert(tafelkaarten@ =~= tafel_kaarten(oud_spel.tafel));
                    let sster = choose|s: int|
                        0 <= s < zit.len() && #[trigger] zetel_levend(old(self).spelers@, zit, s);
                    assert(zetel_levend(self.spelers@, zit, sster));
                    lemma_vind_speler(self.spelers@, zit[sster]);
                    let pster = vind_speler(self.spelers@, zit[sster]);
                    assert(self.spelers@[pster].id == Some(zit[sster]));
                    assert(zit.contains(zit[sster]));
                    assert(doet_mee(self.spelers@[pster], zit));
                }
                let (wi, wh) = self.bepaal_winnaar(gi, &tafelkaarten);
                let winnaar_id = match self.spelers[wi].id {
                    Some(id) => id,
                    None => {
                        proof {
                            assert(false);
                        }
                        SpelerId(0)
                    },
                };
                let pot = self.spellen[gi].pot;
                let ghost voor_winst = self.spelers@;
                let ghost voor_spellen = self.spellen@;
                proof {
                    lemma_som_geld_deel(self.spelers@, wi as int);
                    lemma_som_potten_deel(self.spellen@, gii);
                    lemma_som_potten_niet_negatief(self.spellen@);
                    lemma_som_geld_niet_negatief(self.spelers@);
                    lemma_som_potten_update(
                        old(self).spellen@,
                        gii,
                        Spel {
                            pot: pot1,
                            huidige_inzet: 0,
                            laatste_actionabele_speler: None,
                            ..oud_spel
                        },
                    );
                }
                let chips_nu = self.spelers[wi].chips;
                self.spelers[wi].chips = chips_nu + pot;
                self.spellen[gi].pot = 0;
                proof {
                    let winst = Speler {
                        chips: (voor_winst[wi as int].chips + pot1) as u64,
                        ..voor_winst[wi as int]
                    };
                    assert(self.spelers@ =~= voor_winst.update(wi as int, winst));
                    lemma_som_geld_update(voor_winst, wi as int, winst);
                    assert(self.spellen@ =~= voor_spellen.update(
                        gii,
                        Spel { pot: 0, ..voor_spellen[gii] },
                    ));
                    lemma_som_potten_update(voor_spellen, gii, Spel { pot: 0, ..voor_spellen[gii] });
                }
                melding = PokbotcomMelding::Gewonnen(wh, winnaar_id);
                gewonnen = true;
            },
            _ => {
                proof {
                    assert(false);
                }
            },
        }
        proof {
            assert forall|i: int| 0 <= i < self.spellen@.len() implies (#[trigger] self.spellen@[i]).id
                == old(self).spellen@[i].id by {}
            lemma_vind_spel_gelijke_ids(self.spellen@, old(self).spellen@, spel_id);
            lemma_vind_spel(self.spellen@, spel_id);
            assert(self.spellen@[gii].spelers@ == zit);
            assert forall|i: int|
                0 <= i < self.spelers@.len() implies (#[trigger] self.spelers@[i]).id == old(
                self,
            ).spelers@[i].id && self.spelers@[i].hand == old(self).spelers@[i].hand by {}
            assert forall|s: int|
                0 <= s < zit.len() implies (#[trigger] zetel_levend(self.spelers@, zit, s))
                == zetel_levend(old(self).spelers@, zit, s) by {
                lemma_vind_speler_gelijke_ids(old(self).spelers@, self.spelers@, zit[s]);
                lemma_vind_speler(old(self).spelers@, zit[s]);
            }
            assert forall|s: int|
                0 <= s < zit.len() implies heeft_speler(self.spelers@, #[trigger] zit[s]) by {
                lemma_vind_speler_gelijke_ids(old(self).spelers@, self.spelers@, zit[s]);
            }
            let sster = choose|s: int|
                0 <= s < zit.len() && #[trigger] zetel_levend(old(self).spelers@, zit, s);
            assert(zetel_levend(self.spelers@, zit, sster));
        }
        let d = self.spellen[gi].huidige_dealer;
        let beurt = self.eerste_levende(gi, d);
        self.spellen[gi].aan_de_beurt = beurt;
        proof {
            assert forall|i: int| 0 <= i < self.spellen@.len() implies (#[trigger] self.spellen@[i]).id
                == old(self).spellen@[i].id by {}
            lemma_vind_spel_gelijke_ids(self.spellen@, old(self).spellen@, spel_id);
            lemma_vind_spel(self.spellen@, spel_id);
            assert(self.spellen@[gii].spelers@ == zit);
        }
        let ghost voor_melding = *self;
        self.stuur_naar_alle_spelers(spel_id, melding);
        proof {
            lemma_som_potten_gelijke_potten_hulp(self.spellen@, old(self).spellen@, gii);
            lemma_wf_gelijke_ids(*old(self), *self);
        }
        if gewonnen {
            proof {
                assert(self.wf());
                assert forall|s: int|
                    0 <= s < zit.len() implies heeft_speler(self.spelers@, #[trigger] zit[s]) by {
                    lemma_vind_speler_gelijke_ids(old(self).spelers@, self.spelers@, zit[s]);
                }
            }
            let ghost voor_deling = *self;
            let uitkomst = self.naar_volgende_gesamtronde(spel_id);
            match uitkomst {
                Ok(_) => {
                    proof {
                        lemma_geveegd(old(self).spelers@, zit, 0);
                    }
                    return Ok(());
                },
                Err(_) => {
                    // The next hand's blinds cannot be posted: the payout
                    // stands, the game pauses until it is started again.
                    self.spellen[gi].status = crate::spel::SpelStatus::Wachtend;
                    proof {
                        assert forall|i: int|
                            0 <= i < self.spellen@.len() implies (#[trigger] self.spellen@[i]).id
                            == voor_deling.spellen@[i].id by {}
                        lemma_vind_spel_gelijke_ids(self.spellen@, voor_deling.spellen@, spel_id);
                        lemma_vind_spel(self.spellen@, spel_id);
                        assert(self.spellen@[gii].spelers@ == zit);
                    }
                    self.stuur_naar_alle_spelers(spel_id, PokbotcomMelding::SpelGepauzeerd);
                    proof {
                        lemma_som_potten_gelijke_potten_hulp(
                            self.spellen@,
                            voor_deling.spellen@,
                            gii,
                        );
                        lemma_wf_gelijke_ids(voor_deling, *self);
                        lemma_geveegd(old(self).spelers@, zit, 0);
                    }
                    return Ok(());
                },
            }
        }
        proof {
            assert(self.wf());
            lemma_geveegd(old(self).spelers@, zit, 0);
            assert(final(self).berichten@ == old(self).berichten@ + aan_allen(
                zit,
                PokbotcomMelding::RondeOver,
            ) + aan_allen(zit, melding));
            let aantal: int = if oud_spel.tafel.0 is None {
                3
            } else {
                1
            };
            assert(final(self).spellen@[gii].deck@ =~= oud_spel.deck@.take(
                oud_spel.deck@.len() - aantal,
            ));
        }
        Ok(())
    }

    /// Takes the top card off the game's deck.
    fn pak_kaart(&mut self, gi: usize) -> (k: Kaart)
        requires
            gi < old(self).spellen@.len(),
            old(self).spellen@[gi as int].deck@.len() >= 1,
        ensures
            k == old(self).spellen@[gi as int].deck@.last(),
            final(self).spellen@ == old(self).spellen@.update(
                gi as int,
                Spel {
                    deck: final(self).spellen@[gi as int].deck,
                    ..old(self).spellen@[gi as int]
                },
            ),
            final(self).spellen@[gi as int].deck@ == old(self).spellen@[gi as int].deck@.drop_last(),
            final(self).spelers@ == old(self).spelers@,
            final(self).berichten@ == old(self).berichten@,
            final(self).volgende_geldige_speler_id == old(self).volgende_geldige_speler_id,
            final(self).volgende_geldige_spel_id == old(self).volgende_geldige_spel_id,
    {
        let k = match self.spellen[gi].deck.pop() {
            Some(k) => k,
            None => {
                proof {
                    assert(false);
                }
                Kaart::new(crate::kaart::Kleur::Harten, crate::kaart::Waarde::Aas)
            },
        };
        proof {
            assert(final(self).spellen@ =~= old(self).spellen@.update(
                gi as int,
                Spel {
                    deck: final(self).spellen@[gi as int].deck,
                    ..old(self).spellen@[gi as int]
                },
            ));
            assert(final(self).spellen@[gi as int].deck@ =~= old(self).spellen@[gi as int].deck@
                .drop_last());
        }
        k
    }
}

/// The action notice for every seat of the game but the acting player's,
/// in seating order from seat `s` on.
pub open spec fn actie_berichten_vanaf(
    zit: Seq<SpelerId>,
    dader: SpelerId,
    actie: Actie,
    s: int,
) -> Seq<Bericht>
    decreases zit.len() - s,
{
    if s < 0 || s >= zit.len() {
        Seq::empty()
    } else {
        let kop: Seq<Bericht> = if zit[s] == dader {
            Seq::empty()
        } else {
            seq![Bericht { aan: zit[s], melding: PokbotcomMelding::SpelerActie(dader, actie) }]
        };
        kop + actie_berichten_vanaf(zit, dader, actie, s + 1)
    }
}

/// The action notice for every seat of the game but the acting player's.
pub open spec fn actie_berichten(zit: Seq<SpelerId>, dader: SpelerId, actie: Actie) -> Seq<
    Bericht,
> {
    actie_berichten_vanaf(zit, dader, actie, 0)
}

/// The turn notices sent to the folded seats that the walk skipped: one for
/// each seat at offsets one to `j - 1` past `vanaf`.
pub open spec fn overgeslagen_berichten(zit: Seq<SpelerId>, vanaf: int, j: int) -> Seq<Bericht>
    decreases j,
{
    if j <= 1 {
        Seq::empty()
    } else {
        overgeslagen_berichten(zit, vanaf, j - 1) + seq![
            Bericht {
                aan: zit[stap(vanaf, j - 1, zit.len() as int)],
                melding: PokbotcomMelding::AanDeBeurt,
            },
        ]
    }
}

impl Centrale {
    /// Whether any seat other than `behalve` still holds a live hand.
    fn andere_levende_bestaat(&self, gi: usize, behalve: usize) -> (b: bool)
        requires
            gi < self.spellen@.len(),
            zitplaatsen_geregistreerd(self.spelers@, self.spellen@[gi as int].spelers@),
        ensures
            b == !enige_levende(
                self.spelers@,
                self.spellen@[gi as int].spelers@,
                behalve as int,
            ),
    {
        let ghost zit = self.spellen@[gi as int].spelers@;
        let n = self.spellen[gi].spelers.len();
        let mut s: usize = 0;
        while s < n
            invariant
                gi < self.spellen@.len(),
                zit == self.spellen@[gi as int].spelers@,
                n == zit.len(),
                s <= n,
                zitplaatsen_geregistreerd(self.spelers@, zit),
                forall|t: int|
                    0 <= t < s && t != behalve ==> !(#[trigger] zetel_levend(
                        self.spelers@,
                        zit,
                        t,
                    )),
            decreases n - s,
        {
            if s != behalve {
                let zetel_id = self.spellen[gi].spelers[s];
                proof {
                    lemma_vind_speler(self.spelers@, zit[s as int]);
                }
                let pi = self.zoek_speler(zetel_id);
                if self.spelers[pi].hand.is_some() {
                    proof {
                        assert(zetel_levend(self.spelers@, zit, s as int));
                    }
                    return true;
                }
                proof {
                    assert(!zetel_levend(self.spelers@, zit, s as int));
                }
            }
            s = s + 1;
        }
        false
    }

    /// Tells every seat of the game but the actor what the actor did.
    fn meld_actie(&mut self, gi: usize, dader: SpelerId, actie: Actie)
        requires
            gi < old(self).spellen@.len(),
        ensures
            final(self).spelers@ == old(self).spelers@,
            final(self).spellen@ == old(self).spellen@,
            final(self).volgende_geldige_speler_id == old(self).volgende_geldige_speler_id,
            final(self).volgende_geldige_spel_id == old(self).volgende_geldige_spel_id,
            final(self).berichten@ == old(self).berichten@ + actie_berichten(
                old(self).spellen@[gi as int].spelers@,
                dader,
                actie,
            ),
    {
        let ghost zit = self.spellen@[gi as int].spelers@;
        let n = self.spellen[gi].spelers.len();
        let mut s: usize = 0;
        while s < n
            invariant
                gi < old(self).spellen@.len(),
                zit == old(self).spellen@[gi as int].spelers@,
                n == zit.len(),
                s <= n,
                self.spelers@ == old(self).spelers@,
                self.spellen@ == old(self).spellen@,
                self.volgende_geldige_speler_id == old(self).volgende_geldige_speler_id,
                self.volgende_geldige_spel_id == old(self).volgende_geldige_spel_id,
                self.berichten@ + actie_berichten_vanaf(zit, dader, actie, s as int) == old(
                    self,
                ).berichten@ + actie_berichten(zit, dader, actie),
            decreases n - s,
        {
            let ontvanger = self.spellen[gi].spelers[s];
            if ontvanger != dader {
                self.berichten.push(
                    Bericht { aan: ontvanger, melding: PokbotcomMelding::SpelerActie(dader, actie) },
                );
            }
            proof {
                assert(self.berichten@ + actie_berichten_vanaf(zit, dader, actie, s as int + 1)
                    =~= old(self).berichten@ + actie_berichten(zit, dader, actie));
            }
            s = s + 1;
        }
        proof {
            assert(actie_berichten_vanaf(zit, dader, actie, n as int) =~= Seq::<Bericht>::empty());
            assert(self.berichten@ =~= self.berichten@ + Seq::<Bericht>::empty());
        }
    }

    /// Walks the turn pointer forward past folded seats, telling each folded
    /// seat it would have been its turn, until a live seat is found; also
    /// reports whether that seat is the round's marked last actionable
    /// player, which closes the round.
    fn wandel_beurt(&mut self, gi: usize, vanaf: usize) -> (uitkomst: (usize, bool, Ghost<int>))
        requires
            gi < old(self).spellen@.len(),
            ({
                let zit = old(self).spellen@[gi as int].spelers@;
                &&& zit.len() >= 1
                &&& (vanaf as int) < zit.len()
                &&& zitplaatsen_geregistreerd(old(self).spelers@, zit)
                &&& exists|s: int|
                    0 <= s < zit.len() && #[trigger] zetel_levend(old(self).spelers@, zit, s)
            }),
        ensures
            final(self).spelers@ == old(self).spelers@,
            final(self).spellen@ == old(self).spellen@,
            final(self).volgende_geldige_speler_id == old(self).volgende_geldige_speler_id,
            final(self).volgende_geldige_spel_id == old(self).volgende_geldige_spel_id,
            ({
                let zit = old(self).spellen@[gi as int].spelers@;
                let n = zit.len() as int;
                &&& (uitkomst.0 as int) < n
                &&& uitkomst.1 == (old(self).spellen@[gi as int].laatste_actionabele_speler == Some(
                    zit[uitkomst.0 as int],
                ))
                &&& ({
                    let j = uitkomst.2@;
                    &&& 1 <= j <= n
                    &&& uitkomst.0 as int == stap(vanaf as int, j, n)
                    &&& zetel_levend(old(self).spelers@, zit, uitkomst.0 as int)
                    &&& (forall|j2: int|
                        1 <= j2 < j ==> !(#[trigger] zetel_levend(
                            old(self).spelers@,
                            zit,
                            stap(vanaf as int, j2, n),
                        )))
                    &&& final(self).berichten@ == old(self).berichten@ + overgeslagen_berichten(
                        zit,
                        vanaf as int,
                        j,
                    )
                })
            }),
    {
        let ghost zit = self.spellen@[gi as int].spelers@;
        let n = self.spellen[gi].spelers.len();
        let ghost ster = choose|s: int|
            0 <= s < zit.len() && #[trigger] zetel_levend(self.spelers@, zit, s);
        let ghost afstand: int = if ster > vanaf {
            ster - vanaf
        } else {
            ster - vanaf + n
        };
        proof {
            lemma_zetel_na(vanaf as int, afstand, n as int, ster);
            assert(ster == stap(vanaf as int, afstand, n as int));
            assert(1 <= afstand <= n);
        }
        let mut j: usize = 1;
        loop
            invariant
                n == zit.len(),
                zit == old(self).spellen@[gi as int].spelers@,
                gi < old(self).spellen@.len(),
                self.spelers@ == old(self).spelers@,
                self.spellen@ == old(self).spellen@,
                self.volgende_geldige_speler_id == old(self).volgende_geldige_speler_id,
                self.volgende_geldige_spel_id == old(self).volgende_geldige_spel_id,
                vanaf < n,
                1 <= n,
                zitplaatsen_geregistreerd(self.spelers@, zit),
                zetel_levend(self.spelers@, zit, ster),
                0 <= ster < n,
                1 <= afstand <= n,
                ster == stap(vanaf as int, afstand, n as int),
                1 <= j <= afstand,
                forall|j2: int|
                    1 <= j2 < j ==> !(#[trigger] zetel_levend(
                        self.spelers@,
                        zit,
                        stap(vanaf as int, j2, n as int),
                    )),
                self.berichten@ == old(self).berichten@ + overgeslagen_berichten(
                    zit,
                    vanaf as int,
                    j as int,
                ),
            decreases afstand - j,
        {
            let z = if j >= n - vanaf {
                j - (n - vanaf)
            } else {
                vanaf + j
            };
            proof {
                lemma_zetel_na(vanaf as int, j as int, n as int, z as int);
                assert(z as int == stap(vanaf as int, j as int, n as int));
                lemma_vind_speler(self.spelers@, zit[z as int]);
            }
            let zetel_id = self.spellen[gi].spelers[z];
            let pi = self.zoek_speler(zetel_id);
            if self.spelers[pi].hand.is_some() {
                let sluit = match self.spellen[gi].laatste_actionabele_speler {
                    Some(m) => m == zetel_id,
                    None => false,
                };
                proof {
                    assert(zetel_levend(self.spelers@, zit, z as int));
                }
                return (z, sluit, Ghost(j as int));
            }
            self.berichten.push(Bericht { aan: zetel_id, melding: PokbotcomMelding::AanDeBeurt });
            proof {
                assert(!zetel_levend(self.spelers@, zit, z as int));
                assert(j < afstand) by {
                    if j == afstand {
                        assert(z as int == ster);
                    }
                }
                assert(self.berichten@ =~= old(self).berichten@ + overgeslagen_berichten(
                    zit,
                    vanaf as int,
                    j as int + 1,
                ));
            }
            j = j + 1;
        }
    }

    /// Routes a player's action to the game. Acting out of turn, checking
    /// below the bet-to-match, or calling or raising beyond the stack is
    /// rejected without touching anything. An accepted action is applied,
    /// announced to every other seated player, and the turn walks to the
    /// next live seat; reaching the marked last actionable player closes
    /// the round instead (see `ronde_klaar`). A check by the marked player
    /// closes the round at once, and so does any accepted action by the
    /// hand's only remaining live player.
    #[verifier::rlimit(80)]
    pub fn ontvang_actie(
        &mut self,
        spel_id: SpelId,
        speler_id: SpelerId,
        actie: Actie,
    ) -> (r: Result<(), PokbotcomError>)
        requires
            old(self).wf(),
            heeft_spel(old(self).spellen@, spel_id),
            heeft_speler(old(self).spelers@, speler_id),
            ({
                let g = old(self).spellen@[vind_spel(old(self).spellen@, spel_id)];
                let zit = g.spelers@;
                let pl = old(self).spelers@[vind_speler(old(self).spelers@, speler_id)];
                &&& zit.len() >= 1
                &&& g.huidige_dealer < zit.len()
                &&& g.aan_de_beurt < zit.len()
                &&& zitplaatsen_verschillend(zit)
                &&& zitplaatsen_geregistreerd(old(self).spelers@, zit)
                &&& (g.tafel.1 is Some ==> g.tafel.0 is Some)
                &&& (g.tafel.2 is Some ==> g.tafel.1 is Some)
                &&& (g.tafel.0 is None ==> g.deck@.len() >= 3)
                &&& (g.tafel.0 is Some && g.tafel.1 is None ==> g.deck@.len() >= 1)
                &&& (g.tafel.1 is Some && g.tafel.2 is None ==> g.deck@.len() >= 1)
                &&& (tafel_vol(g.tafel) ==> g.deck@.len() >= 2 * zit.len())
                &&& zetel_levend(old(self).spelers@, zit, g.aan_de_beurt as int)
                &&& (speler_id == zit[g.aan_de_beurt as int] ==> pl.inzet <= g.huidige_inzet)
                &&& (actie is Fold && speler_id == zit[g.aan_de_beurt as int] ==> exists|s: int|
                    0 <= s < zit.len() && zit[s] != speler_id && #[trigger] zetel_levend(
                        old(self).spelers@,
                        zit,
                        s,
                    ))
            }),
        ensures
            final(self).wf(),
            totaal_geld(*final(self)) == totaal_geld(*old(self)),
            final(self).volgende_geldige_speler_id == old(self).volgende_geldige_speler_id,
            final(self).volgende_geldige_spel_id == old(self).volgende_geldige_spel_id,
            final(self).spellen@.len() == old(self).spellen@.len(),
            forall|j: int|
                0 <= j < old(self).spellen@.len() && j != vind_spel(old(self).spellen@, spel_id)
                    ==> final(self).spellen@[j] == old(self).spellen@[j],
            ({
                let gi = vind_spel(old(self).spellen@, spel_id);
                let g = old(self).spellen@[gi];
                let zit = g.spelers@;
                let n = zit.len() as int;
                let beurt = g.aan_de_beurt as int;
                let pi = vind_speler(old(self).spelers@, speler_id);
                let pl = old(self).spelers@[pi];
                if speler_id != zit[beurt] {
                    &&& r == Err::<(), PokbotcomError>(PokbotcomError::NietJouwBeurt)
                    &&& *final(self) == *old(self)
                } else if actie is Check && g.laatste_actionabele_speler == Some(speler_id) {
                    ronde_overgang(
                        old(self).spelers@,
                        g,
                        old(self).berichten@,
                        final(self).spelers@,
                        final(self).spellen@[gi],
                        final(self).berichten@,
                        r,
                    )
                } else if actie is Check && pl.inzet < g.huidige_inzet {
                    &&& r == Err::<(), PokbotcomError>(PokbotcomError::NietGenoegChips)
                    &&& final(self).spelers@ == old(self).spelers@
                    &&& final(self).spellen@ == old(self).spellen@
                    &&& final(self).berichten@ == old(self).berichten@
                } else if actie is Call && pl.chips < g.huidige_inzet - pl.inzet {
                    &&& r == Err::<(), PokbotcomError>(PokbotcomError::NietGenoegChips)
                    &&& final(self).spelers@ == old(self).spelers@
                    &&& final(self).spellen@ == old(self).spellen@
                    &&& final(self).berichten@ == old(self).berichten@
                } else if (actie matches Actie::Bet(extra) && pl.chips < g.huidige_inzet - pl.inzet
                    + extra) {
                    &&& r == Err::<(), PokbotcomError>(PokbotcomError::NietGenoegChips)
                    &&& final(self).spelers@ == old(self).spelers@
                    &&& final(self).spellen@ == old(self).spellen@
                    &&& final(self).berichten@ == old(self).berichten@
                } else {
                    let spelers1 = if actie is Fold {
                        old(self).spelers@.update(pi, Speler { hand: None, ..pl })
                    } else if actie is Check {
                        old(self).spelers@
                    } else if actie is Call {
                        old(self).spelers@.update(
                            pi,
                            Speler {
                                chips: (pl.chips - (g.huidige_inzet - pl.inzet)) as u64,
                                inzet: g.huidige_inzet,
                                ..pl
                            },
                        )
                    } else {
                        let extra = actie->Bet_0;
                        old(self).spelers@.update(
                            pi,
                            Speler {
                                chips: (pl.chips - (g.huidige_inzet - pl.inzet + extra)) as u64,
                                inzet: (g.huidige_inzet + extra) as u64,
                                ..pl
                            },
                        )
                    };
                    let marker1 = if actie is Check && g.laatste_actionabele_speler is None {
                        Some(speler_id)
                    } else if actie matches Actie::Bet(_) {
                        Some(speler_id)
                    } else {
                        g.laatste_actionabele_speler
                    };
                    let huidige1 = if actie matches Actie::Bet(_) {
                        (g.huidige_inzet + actie->Bet_0) as u64
                    } else {
                        g.huidige_inzet
                    };
                    let b1 = old(self).berichten@ + actie_berichten(zit, speler_id, actie);
                    if enige_levende(spelers1, zit, beurt) {
                        ronde_overgang(
                            spelers1,
                            Spel {
                                huidige_inzet: huidige1,
                                laatste_actionabele_speler: marker1,
                                ..g
                            },
                            b1,
                            final(self).spelers@,
                            final(self).spellen@[gi],
                            final(self).berichten@,
                            r,
                        )
                    } else {
                        exists|j: int|
                            {
                                &&& 1 <= j <= n
                                &&& zetel_levend(spelers1, zit, #[trigger] stap(beurt, j, n))
                                &&& (forall|j2: int|
                                    1 <= j2 < j ==> !(#[trigger] zetel_levend(
                                        spelers1,
                                        zit,
                                        stap(beurt, j2, n),
                                    )))
                                &&& ({
                                    let z = stap(beurt, j, n);
                                    let b2 = b1 + overgeslagen_berichten(zit, beurt, j);
                                    let g1 = Spel {
                                        aan_de_beurt: z as usize,
                                        huidige_inzet: huidige1,
                                        laatste_actionabele_speler: marker1,
                                        ..g
                                    };
                                    if marker1 == Some(zit[z]) {
                                        ronde_overgang(
                                            spelers1,
                                            g1,
                                            b2,
                                            final(self).spelers@,
                                            final(self).spellen@[gi],
                                            final(self).berichten@,
                                            r,
                                        )
                                    } else {
                                        &&& r is Ok
                                        &&& final(self).spelers@ == spelers1
                                        &&& final(self).spellen@[gi] == g1
                                        &&& final(self).berichten@ == b2
                                    }
                                })
                            }
                    }
                }
            }),
    {
        proof {
            lemma_vind_spel(old(self).spellen@, spel_id);
            lemma_vind_speler(old(self).spelers@, speler_id);
        }
        let gi = self.zoek_spel(spel_id);
        let ghost gii = gi as int;
        let ghost oud_spel = old(self).spellen@[gii];
        let ghost zit = oud_spel.spelers@;
        let pi = self.zoek_speler(speler_id);
        let ghost pii = pi as int;
        let beurt = self.spellen[gi].aan_de_beurt;
        let beurt_id = self.spellen[gi].spelers[beurt];
        if speler_id != beurt_id {
            return Err(PokbotcomError::NietJouwBeurt);
        }
        let ghost voor_spelers = self.spelers@;
        match actie {
            Actie::Fold => {
                self.spelers[pi].hand = None;
                proof {
                    assert(self.spelers@ =~= voor_spelers.update(
                        pii,
                        Speler { hand: None, ..voor_spelers[pii] },
                    ));
                    lemma_som_geld_update(
                        voor_spelers,
                        pii,
                        Speler { hand: None, ..voor_spelers[pii] },
                    );
                }
            },
            Actie::Check => {
                let marker = self.spellen[gi].laatste_actionabele_speler;
                match marker {
                    Some(m) if m == speler_id => {
                        return self.ronde_klaar(spel_id);
                    },
                    _ => {
                    },
                }
                let inzet = self.spelers[pi].inzet;
                let huidige = self.spellen[gi].huidige_inzet;
                if inzet < huidige {
                    return Err(PokbotcomError::NietGenoegChips);
                }
                if marker.is_none() {
                    self.spellen[gi].laatste_actionabele_speler = Some(speler_id);
                }
            },
            Actie::Call => {
                let huidige = self.spellen[gi].huidige_inzet;
                let inzet = self.spelers[pi].inzet;
                proof {
                    lemma_som_geld_deel(self.spelers@, pii);
                    lemma_som_potten_niet_negatief(self.spellen@);
                }
                let te_vorderen = huidige - inzet;
                let uitkomst = self.spelers[pi].zet_chips_in(te_vorderen);
                match uitkomst {
                    Err(fout) => {
                        proof {
                            assert(self.spelers@ =~= voor_spelers);
                        }
                        return Err(fout);
                    },
                    Ok(_) => {
                    },
                }
                proof {
                    let nieuw = Speler {
                        chips: (voor_spelers[pii].chips - te_vorderen) as u64,
                        inzet: (voor_spelers[pii].inzet + te_vorderen) as u64,
                        ..voor_spelers[pii]
                    };
                    assert(self.spelers@ =~= voor_spelers.update(pii, nieuw));
                    lemma_som_geld_update(voor_spelers, pii, nieuw);
                }
            },
            Actie::Bet(extra_chips) => {
                let huidige = self.spellen[gi].huidige_inzet;
                let inzet = self.spelers[pi].inzet;
                proof {
                    lemma_som_geld_deel(self.spelers@, pii);
                    lemma_som_potten_niet_negatief(self.spellen@);
                }
                let nodig = huidige - inzet;
                if extra_chips > u64::MAX - nodig {
                    return Err(PokbotcomError::NietGenoegChips);
                }
                let uitkomst = self.spelers[pi].zet_chips_in(nodig + extra_chips);
                match uitkomst {
                    Err(fout) => {
                        proof {
                            assert(self.spelers@ =~= voor_spelers);
                        }
                        return Err(fout);
                    },
                    Ok(_) => {
                    },
                }
                proof {
                    let nieuw = Speler {
                        chips: (voor_spelers[pii].chips - (nodig + extra_chips)) as u64,
                        inzet: (voor_spelers[pii].inzet + (nodig + extra_chips)) as u64,
                        ..voor_spelers[pii]
                    };
                    assert(self.spelers@ =~= voor_spelers.update(pii, nieuw));
                    lemma_som_geld_update(voor_spelers, pii, nieuw);
                    assert(voor_spelers[pii].inzet + nodig + extra_chips == huidige + extra_chips);
                }
                self.spellen[gi].huidige_inzet = huidige + extra_chips;
                self.spellen[gi].laatste_actionabele_speler = Some(speler_id);
            },
        }
        let ghost spelers1 = self.spelers@;
        proof {
            assert forall|i: int|
                0 <= i < self.spelers@.len() implies (#[trigger] self.spelers@[i]).id == old(
                self,
            ).spelers@[i].id by {}
            assert forall|i: int| 0 <= i < self.spellen@.len() implies (#[trigger] self.spellen@[i]).id
                == old(self).spellen@[i].id by {}
            lemma_vind_spel_gelijke_ids(self.spellen@, old(self).spellen@, spel_id);
            lemma_vind_spel(self.spellen@, spel_id);
            assert(self.spellen@[gii].spelers@ == zit);
            assert forall|s: int|
                0 <= s < zit.len() implies heeft_speler(self.spelers@, #[trigger] zit[s]) by {
                lemma_vind_speler_gelijke_ids(old(self).spelers@, self.spelers@, zit[s]);
            }
            if actie is Fold {
                let sa = choose|s: int|
                    0 <= s < zit.len() && zit[s] != speler_id && #[trigger] zetel_levend(
                        old(self).spelers@,
                        zit,
                        s,
                    );
                lemma_vind_speler_gelijke_ids(old(self).spelers@, self.spelers@, zit[sa]);
                lemma_vind_speler(old(self).spelers@, zit[sa]);
                lemma_vind_speler(old(self).spelers@, speler_id);
                assert(zetel_levend(self.spelers@, zit, sa));
            } else {
                lemma_vind_speler_gelijke_ids(
                    old(self).spelers@,
                    self.spelers@,
                    zit[oud_spel.aan_de_beurt as int],
                );
                lemma_vind_speler(old(self).spelers@, zit[oud_spel.aan_de_beurt as int]);
                assert(zetel_levend(self.spelers@, zit, oud_spel.aan_de_beurt as int));
            }
        }
        self.meld_actie(gi, speler_id, actie);
        if !self.andere_levende_bestaat(gi, beurt) {
            // Every other seat has folded: the lone live player's accepted
            // action closes the round at once, whatever the round marker.
            proof {
                if actie is Fold {
                    let sa = choose|s: int|
                        0 <= s < zit.len() && zit[s] != speler_id && #[trigger] zetel_levend(
                            old(self).spelers@,
                            zit,
                            s,
                        );
                    lemma_vind_speler(old(self).spelers@, speler_id);
                    assert(zit[beurt as int] == speler_id);
                    assert(sa != beurt);
                    assert(zetel_levend(self.spelers@, zit, sa));
                    assert(false);
                }
                assert(zetel_levend(self.spelers@, zit, beurt as int));
                lemma_som_potten_gelijke_potten_hulp(self.spellen@, old(self).spellen@, gii);
                lemma_wf_gelijke_ids(*old(self), *self);
                let marker1 = if actie is Check && oud_spel.laatste_actionabele_speler is None {
                    Some(speler_id)
                } else if actie matches Actie::Bet(_) {
                    Some(speler_id)
                } else {
                    oud_spel.laatste_actionabele_speler
                };
                let huidige1 = if actie matches Actie::Bet(_) {
                    (oud_spel.huidige_inzet + actie->Bet_0) as u64
                } else {
                    oud_spel.huidige_inzet
                };
                assert(self.spellen@[gii] == Spel {
                    huidige_inzet: huidige1,
                    laatste_actionabele_speler: marker1,
                    ..oud_spel
                });
            }
            let ghost voor_sluiting = *self;
            let uitkomst2 = self.ronde_klaar(spel_id);
            proof {
                assert(voor_sluiting.spelers@ == spelers1);
                assert(voor_sluiting.berichten@ == old(self).berichten@ + actie_berichten(
                    zit,
                    speler_id,
                    actie,
                ));
                assert(vind_spel(voor_sluiting.spellen@, spel_id) == gii);
                assert(enige_levende(spelers1, zit, oud_spel.aan_de_beurt as int));
            }
            return uitkomst2;
        }
        let uitkomst = self.wandel_beurt(gi, beurt);
        let z = uitkomst.0;
        let sluit = uitkomst.1;
        let ghost jw = uitkomst.2@;
        self.spellen[gi].aan_de_beurt = z;
        proof {
            assert(stap(oud_spel.aan_de_beurt as int, jw, zit.len() as int) == z as int);
            let marker1 = if actie is Check && oud_spel.laatste_actionabele_speler is None {
                Some(speler_id)
            } else if actie matches Actie::Bet(_) {
                Some(speler_id)
            } else {
                oud_spel.laatste_actionabele_speler
            };
            let huidige1 = if actie matches Actie::Bet(_) {
                (oud_spel.huidige_inzet + actie->Bet_0) as u64
            } else {
                oud_spel.huidige_inzet
            };
            assert(self.spellen@[gii] == Spel {
                aan_de_beurt: z as usize,
                huidige_inzet: huidige1,
                laatste_actionabele_speler: marker1,
                ..oud_spel
            });
            let n_ = zit.len() as int;
            let beurt0 = oud_spel.aan_de_beurt as int;
            assert(zetel_levend(spelers1, zit, stap(beurt0, jw, n_)));
            assert(self.berichten@ == old(self).berichten@ + actie_berichten(
                zit,
                speler_id,
                actie,
            ) + overgeslagen_berichten(zit, beurt0, jw));
        }
        proof {
            assert forall|i: int| 0 <= i < self.spellen@.len() implies (#[trigger] self.spellen@[i]).id
                == old(self).spellen@[i].id by {}
            lemma_vind_spel_gelijke_ids(self.spellen@, old(self).spellen@, spel_id);
            lemma_vind_spel(self.spellen@, spel_id);
            assert(self.spellen@[gii].spelers@ == zit);
            assert forall|s: int|
                0 <= s < zit.len() implies heeft_speler(self.spelers@, #[trigger] zit[s]) by {
                lemma_vind_speler_gelijke_ids(old(self).spelers@, self.spelers@, zit[s]);
            }
            lemma_som_potten_gelijke_potten(self.spellen@, old(self).spellen@);
            lemma_wf_gelijke_ids(*old(self), *self);
        }
        if sluit {
            let ghost voor_sluiting = *self;
            let uitkomst2 = self.ronde_klaar(spel_id);
            proof {
                let n_ = zit.len() as int;
                let beurt0 = oud_spel.aan_de_beurt as int;
                let marker1 = if actie is Check && oud_spel.laatste_actionabele_speler is None {
                    Some(speler_id)
                } else if actie matches Actie::Bet(_) {
                    Some(speler_id)
                } else {
                    oud_spel.laatste_actionabele_speler
                };
                let huidige1 = if actie matches Actie::Bet(_) {
                    (oud_spel.huidige_inzet + actie->Bet_0) as u64
                } else {
                    oud_spel.huidige_inzet
                };
                let z_ = stap(beurt0, jw, n_);
                let b1 = old(self).berichten@ + actie_berichten(zit, speler_id, actie);
                let b2 = b1 + overgeslagen_berichten(zit, beurt0, jw);
                let g1 = Spel {
                    aan_de_beurt: z_ as usize,
                    huidige_inzet: huidige1,
                    laatste_actionabele_speler: marker1,
                    ..oud_spel
                };
                assert(z_ == z as int);
                assert(voor_sluiting.spelers@ == spelers1);
                assert(voor_sluiting.spellen@[gii] == g1);
                assert(voor_sluiting.berichten@ == b2);
                assert(vind_spel(voor_sluiting.spellen@, spel_id) == gii);
                assert(marker1 == Some(zit[z_]));
                assert(ronde_overgang(
                    spelers1,
                    g1,
                    b2,
                    final(self).spelers@,
                    final(self).spellen@[gii],
                    final(self).berichten@,
                    uitkomst2,
                ));
                assert(zetel_levend(spelers1, zit, stap(beurt0, jw, n_)));
            }
            return uitkomst2;
        }
        Ok(())
    }
}

/// The turn walk never lands on a folded seat, and when every seat but one
/// has folded it lands on that one seat from anywhere. Hence, once the lone
/// live player is also the round's marked last actionable player — as after
/// its own check or bet — the walk reaching it closes the round at once.
pub proof fn lemma_enige_levende_zetel(
    spelers: Seq<Speler>,
    zit: Seq<SpelerId>,
    vanaf: int,
    z: int,
    z0: int,
)
    requires
        zit.len() > 0,
        0 <= z0 < zit.len(),
        zetel_levend(spelers, zit, z0),
        forall|s: int| 0 <= s < zit.len() && s != z0 ==> !zetel_levend(spelers, zit, s),
        eerste_levende_na(spelers, zit, vanaf, z),
        0 <= vanaf < zit.len(),
    ensures
        z == z0,
{
    let n = zit.len() as int;
    let j = choose|j: int|
        {
            &&& 1 <= j <= n
            &&& z == #[trigger] stap(vanaf, j, n)
            &&& zetel_levend(spelers, zit, z)
            &&& forall|j2: int|
                1 <= j2 < j ==> !(#[trigger] zetel_levend(spelers, zit, stap(vanaf, j2, n)))
        };
    assert(0 <= (vanaf + j) % n < n) by (nonlinear_arith)
        requires
            n > 0,
    ;
    assert(zetel_levend(spelers, zit, z));
    if z != z0 {
        assert(!zetel_levend(spelers, zit, z));
        assert(false);
    }
}

/// A state whose identifiers, counters and money agree with a well-formed
/// one is itself well formed.
pub proof fn lemma_wf_gelijke_ids(voor: Centrale, na: Centrale)
    requires
        voor.wf(),
        na.spelers@.len() == voor.spelers@.len(),
        forall|i: int| 0 <= i < na.spelers@.len() ==> (#[trigger] na.spelers@[i]).id == voor.spelers@[i].id,
        na.spellen@.len() == voor.spellen@.len(),
        forall|i: int| 0 <= i < na.spellen@.len() ==> (#[trigger] na.spellen@[i]).id == voor.spellen@[i].id,
        na.volgende_geldige_speler_id == voor.volgende_geldige_speler_id,
        na.volgende_geldige_spel_id == voor.volgende_geldige_spel_id,
        totaal_geld(na) <= u64::MAX,
    ensures
        na.wf(),
{
    assert forall|i: int|
        0 <= i < na.spelers@.len() implies ((#[trigger] na.spelers@[i]).id matches Some(sid)
        && sid.0 < na.volgende_geldige_speler_id) by {
        assert(voor.spelers@[i].id matches Some(sid) && sid.0 < voor.volgende_geldige_speler_id);
    }
    assert forall|i: int, j: int|
        0 <= i < j < na.spelers@.len() implies na.spelers@[i].id != na.spelers@[j].id by {
        assert(na.spelers@[i].id == voor.spelers@[i].id);
        assert(na.spelers@[j].id == voor.spelers@[j].id);
    }
    assert forall|i: int|
        0 <= i < na.spellen@.len() implies ((#[trigger] na.spellen@[i]).id matches Some(gid)
        && gid.0 < na.volgende_geldige_spel_id) by {
        assert(voor.spellen@[i].id matches Some(gid) && gid.0 < voor.volgende_geldige_spel_id);
    }
    assert forall|i: int, j: int|
        0 <= i < j < na.spellen@.len() implies na.spellen@[i].id != na.spellen@[j].id by {
        assert(na.spellen@[i].id == voor.spellen@[i].id);
        assert(na.spellen@[j].id == voor.spellen@[j].id);
    }
}

/// Two game lists that agree on every pot except that one game's pot is the
/// whole list's difference.
pub proof fn lemma_som_potten_gelijke_potten_hulp(s1: Seq<Spel>, s2: Seq<Spel>, gi: int)
    requires
        s1.len() == s2.len(),
        0 <= gi < s1.len(),
        forall|i: int| 0 <= i < s1.len() && i != gi ==> (#[trigger] s1[i]).pot == s2[i].pot,
    ensures
        som_potten(s1) == som_potten(s2) + s1[gi].pot - s2[gi].pot,
{
    lemma_som_potten_update(s2, gi, s1[gi]);
    lemma_som_potten_gelijke_potten(s1, s2.update(gi, s1[gi]));
}

/// Two game lists with the same pots have the same pot total.
pub proof fn lemma_som_potten_gelijke_potten(s1: Seq<Spel>, s2: Seq<Spel>)
    requires
        s1.len() == s2.len(),
        forall|i: int| 0 <= i < s1.len() ==> (#[trigger] s1[i]).pot == s2[i].pot,
    ensures
        som_potten(s1) == som_potten(s2),
    decreases s1.len(),
{
    if s1.len() > 0 {
        assert(s1[0].pot == s2[0].pot);
        assert forall|i: int| 0 <= i < s1.drop_first().len() implies (#[trigger] s1.drop_first()[i]).pot
            == s2.drop_first()[i].pot by {
            assert(s1.drop_first()[i] == s1[i + 1]);
            assert(s2.drop_first()[i] == s2[i + 1]);
            assert(s1[i + 1].pot == s2[i + 1].pot);
        }
        lemma_som_potten_gelijke_potten(s1.drop_first(), s2.drop_first());
    }
}

} // verus!

