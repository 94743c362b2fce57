use vstd::prelude::*;
use crate::creature::{Creature, Health};
use crate::holder::Holder;
use crate::player::Player;
use crate::playerid::PlayerId;
use crate::pos::Pos;
use crate::posmap::PosMap;
use crate::render::{draw_changes, draw_field, is_change, is_field, stack_of};
use crate::sprite::Sprite;
use crate::text::{decimal, push_decimal};
use crate::weapon::Weapon;
use crate::world::{fits_ground, RoundState, World};
use crate::worldmessages::WorldMessage;

verus! {

/// The text that announces wave `wave`.
pub open spec fn wave_text(wave: nat) -> Seq<char> {
    "**** Wave "@ + decimal(wave) + " ****"@
}

/// The text that announces wave `wave`.
pub fn wave_banner(wave: usize) -> (text: String)
    ensures
        text@ == wave_text(wave as nat),
{
    let mut text = String::from_str("**** Wave ");
    push_decimal(&mut text, wave);
    text.append(" ****");
    text
}

/// The names of the weapons in the slots, in their order.
pub open spec fn slot_names(slots: Seq<(Weapon, bool)>) -> Seq<&'static str> {
    slots.map_values(|slot: (Weapon, bool)| slot.0.name)
}

/// The names of the weapons in the slots, in their order.
pub fn weapon_names(slots: &Vec<(Weapon, bool)>) -> (names: Vec<&'static str>)
    ensures
        names@ == slot_names(slots@),
{
    let mut names: Vec<&'static str> = Vec::new();
    let mut i: usize = 0;
    while i < slots.len()
        invariant
            i <= slots@.len(),
            names@.len() == i,
            forall|k: int| 0 <= k < i ==> names@[k] == slots@[k].0.name,
        decreases slots@.len() - i,
    {
        names.push(slots[i].0.name);
        i += 1;
    }
    assert(names@ =~= slot_names(slots@));
    names
}

/// Whether `sounds` are the notices that a round state calls for: the
/// number of the wave when a pause has one tick left, the news of a new
/// session when the time after a lost round has one tick left, and none else.
pub open spec fn sounds_fit(round_state: RoundState, wave: usize, sounds: Option<Vec<(String, String, Option<String>)>>) -> bool {
    match round_state {
        RoundState::Paused(1) => sounds matches Some(list) && list@.len() == 1 && list@[0].0@ == "wave"@ && list@[0].1@
            == wave_text(wave as nat) && list@[0].2 is None,
        RoundState::GameOver(1) => sounds matches Some(list) && list@.len() == 1 && list@[0].0@ == "gameover"@
            && list@[0].1@ == "---- Starting new session ----"@ && list@[0].2 is None,
        _ => sounds is None,
    }
}

/// The notices that a round state calls for, see `sounds_fit`.
pub fn sounds_for(round_state: RoundState, wave: usize) -> (sounds: Option<Vec<(String, String, Option<String>)>>)
    ensures
        sounds_fit(round_state, wave, sounds),
{
    match round_state {
        RoundState::Paused(n) => {
            if n == 1 {
                let mut list: Vec<(String, String, Option<String>)> = Vec::new();
                list.push((String::from_str("wave"), wave_banner(wave), None));
                Some(list)
            } else {
                None
            }
        },
        RoundState::GameOver(n) => {
            if n == 1 {
                let mut list: Vec<(String, String, Option<String>)> = Vec::new();
                list.push((String::from_str("gameover"), String::from_str("---- Starting new session ----"), None));
                Some(list)
            } else {
                None
            }
        },
        RoundState::Running => None,
    }
}

/// The ids of the players that have a body, in the order of the players.
pub open spec fn addressed(players: Seq<(PlayerId, Player)>, creatures: Holder<Creature>) -> Seq<PlayerId>
    decreases players.len(),
{
    if players.len() == 0 {
        Seq::empty()
    } else if creatures.contains(players.last().1.body) {
        addressed(players.drop_last(), creatures).push(players.last().0)
    } else {
        addressed(players.drop_last(), creatures)
    }
}

impl World {
    /// Whether `msg` is what the player at place `k` is to be told of
    /// this world, drawn as `now`: the changes since the last drawing, or
    /// the whole field if there is no last drawing or the player has not
    /// had the field yet; where its body is, how healthy it is and what
    /// weapons it has; and the notices of the round.
    pub open spec fn message_fits(self, now: PosMap<Vec<Sprite>>, k: int, msg: WorldMessage) -> bool {
        let player = self.players@[k].1;
        let body = self.creatures.value(player.body);
        &&& if self.drawing is Some && !player.is_new {
            msg.field is None && msg.change is Some && is_change(
                self.ground,
                self.drawing.unwrap(),
                now,
                msg.change.unwrap()@,
            )
        } else {
            msg.change is None && msg.field is Some && is_field(
                self.ground,
                now,
                msg.field.unwrap().width,
                msg.field.unwrap().height,
                msg.field.unwrap().field@,
                msg.field.unwrap().mapping@,
            )
        }
        &&& msg.pos == Some(body.pos)
        &&& msg.health == Some((body.health, body.max_health))
        &&& msg.weapons is Some && msg.weapons.unwrap().0@ == slot_names(body.weapons@) && msg.weapons.unwrap().1
            == body.selected_weapon
        &&& sounds_fit(self.round_state, self.wave, msg.sounds)
    }

    /// A drawing of the world is one of its ground.
    pub proof fn lemma_drawn_fits(self, drawing: PosMap<Vec<Sprite>>)
        requires
            self.drawn(drawing),
        ensures
            fits_ground(self.ground, drawing),
    {
        assert forall|p: Pos|
            #[trigger] drawing.contains(p) implies
            self.ground.contains(p) && drawing.lookup(p).unwrap()@.len() >= 2 by {
            assert(stack_of(drawing, p) == self.overlay(p).push(self.ground.at(p).spec_sprite()));
        }
    }

    /// What the player at place `k` is to be told, see `message_fits`.
    pub fn message_for(&self, now: &PosMap<Vec<Sprite>>, k: usize) -> (msg: WorldMessage)
        requires
            self.wf(),
            fits_ground(self.ground, *now),
            k < self.players@.len(),
            self.creatures.contains(self.players@[k as int].1.body),
        ensures
            self.message_fits(*now, k as int, msg),
    {
        let player = self.players[k].1;
        let mut msg = WorldMessage::default();
        let partial = match &self.drawing {
            Some(last) => {
                if !player.is_new {
                    msg.change = Some(draw_changes(&self.ground, last, now));
                    true
                } else {
                    false
                }
            },
            None => false,
        };
        if !partial {
            msg.field = Some(draw_field(self.size, &self.ground, now));
        }
        match self.creatures.get(&player.body) {
            Some(body) => {
                msg.pos = Some(body.pos);
                msg.health = Some((body.health, body.max_health));
                msg.weapons = Some((weapon_names(&body.weapons), body.selected_weapon));
            },
            None => {},
        }
        msg.sounds = sounds_for(self.round_state, self.wave);
        msg
    }

    /// Draws the world and tells every player that has a body what
    /// there is to tell, in the order of the players. The drawing is
    /// kept for the next time, and a player who is sent the whole field
    /// is no longer due it.
    pub fn view(&mut self) -> (views: Vec<(PlayerId, WorldMessage)>)
        requires
            old(self).wf(),
        ensures
            final(self).wf(),
            *final(self) == (World { players: final(self).players, drawing: final(self).drawing, ..*old(self) }),
            final(self).drawing is Some,
            old(self).drawn(final(self).drawing.unwrap()),
            final(self).players@.len() == old(self).players@.len(),
            forall|k: int|
                0 <= k < old(self).players@.len() ==> #[trigger] final(self).players@[k] == (
                    old(self).players@[k].0,
                    Player {
                        is_new: old(self).players@[k].1.is_new && !old(self).creatures.contains(old(self).players@[k].1.body),
                        ..old(self).players@[k].1
                    },
                ),
            views@.len() == addressed(old(self).players@, old(self).creatures).len(),
            forall|j: int|
                0 <= j < views@.len() ==> (#[trigger] views@[j]).0 == addressed(old(self).players@, old(self).creatures)[j]
                    && old(self).has_player(views@[j].0) && old(self).message_fits(
                    final(self).drawing.unwrap(),
                    old(self).player_index(views@[j].0).unwrap(),
                    views@[j].1,
                ),
    {
        let dynamic = self.draw_dynamic();
        proof {
            self.lemma_drawn_fits(dynamic);
        }
        let mut views: Vec<(PlayerId, WorldMessage)> = Vec::new();
        let n = self.players.len();
        let mut k: usize = 0;
        while k < n
            invariant
                old(self).wf(),
                self.wf(),
                fits_ground(self.ground, dynamic),
                k <= n,
                n == old(self).players@.len(),
                self.players@.len() == n,
                *self == (World { players: self.players, ..*old(self) }),
                forall|i: int| k <= i < n ==> #[trigger] self.players@[i] == old(self).players@[i],
                forall|i: int|
                    0 <= i < k ==> #[trigger] self.players@[i] == (
                        old(self).players@[i].0,
                        Player {
                            is_new: old(self).players@[i].1.is_new && !old(self).creatures.contains(old(self).players@[i].1.body),
                            ..old(self).players@[i].1
                        },
                    ),
                views@.len() == addressed(old(self).players@.subrange(0, k as int), old(self).creatures).len(),
                forall|j: int|
                    0 <= j < views@.len() ==> (#[trigger] views@[j]).0 == addressed(
                        old(self).players@.subrange(0, k as int),
                        old(self).creatures,
                    )[j] && old(self).has_player(views@[j].0) && old(self).message_fits(
                        dynamic,
                        old(self).player_index(views@[j].0).unwrap(),
                        views@[j].1,
                    ),
            decreases n - k,
        {
            let (id, player) = self.players[k];
            let ghost before = *self;
            let ghost seen = views@;
            proof {
                let next = old(self).players@.subrange(0, k + 1);
                assert(next.drop_last() =~= old(self).players@.subrange(0, k as int));
                assert(next.last() == old(self).players@[k as int]);
                assert(old(self).players@[k as int].0 == id);
                let w = old(self).player_index(id).unwrap();
                assert(old(self).players@[w].0 == id);
                assert(w == k);
            }
            if self.creatures.contains_key(&player.body) {
                let msg = self.message_for(&dynamic, k);
                proof {
                    assert(before.message_fits(dynamic, k as int, msg));
                    assert(old(self).message_fits(dynamic, k as int, msg));
                }
                self.players[k].1.is_new = false;
                views.push((id, msg));
            }
            proof {
                assert forall|i: int, j: int|
                    0 <= i < j < self.players@.len() implies
                    (#[trigger] self.players@[i]).0 != (#[trigger] self.players@[j]).0 by {
                    assert(before.players@[i].0 != before.players@[j].0);
                }
                assert forall|i: int|
                    0 <= i < self.players@.len() implies
                    ((#[trigger] self.players@[i]).1.plan matches Some(control) ==> control.wf()) by {
                    assert(before.players@[i].1.plan matches Some(control) ==> control.wf());
                }
                assert forall|i: int|
                    0 <= i < self.players@.len() implies
                    (#[trigger] self.players@[i]).1.body <= self.creatures.counter() by {
                    assert(before.players@[i].1.body <= before.creatures.counter());
                }
                assert forall|j: int|
                    0 <= j < views@.len() implies
                    (#[trigger] views@[j]).0 == addressed(old(self).players@.subrange(0, k + 1), old(self).creatures)[j] && old(self).has_player(views@[j].0) && old(self).message_fits(dynamic, old(self).player_index(views@[j].0).unwrap(), views@[j].1) by {
                    if j < seen.len() {
                        assert(views@[j] == seen[j]);
                    }
                }
            }
            k += 1;
        }
        proof {
            assert(old(self).players@.subrange(0, n as int) =~= old(self).players@);
        }
        self.drawing = Some(dynamic);
        views
    }
}

} // verus!
