use vstd::prelude::*;
use crate::creature::Creature;
use crate::grid::Grid;
use crate::item::Item;
use crate::pos::Pos;
use crate::posmap::PosMap;
use crate::sprite::{Sprite, SpriteView};
use crate::tile::Tile;
use crate::world::{fits_ground, World};
use crate::worldmessages::FieldMessage;

verus! {

/// A stack of sprites as the texts that it shows.
pub open spec fn stack_view(stack: Seq<Sprite>) -> Seq<SpriteView> {
    stack.map_values(|s: Sprite| s@)
}

/// The stack that a drawing has for a cell, and none where it has no entry.
pub open spec fn stack_of(drawing: PosMap<Vec<Sprite>>, p: Pos) -> Seq<Sprite> {
    match drawing.lookup(p) {
        Some(stack) => stack@,
        None => Seq::empty(),
    }
}

/// Whether a drawing has no entry without sprites.
pub open spec fn no_empty_stack(drawing: PosMap<Vec<Sprite>>) -> bool {
    forall|p: Pos| #[trigger] drawing.contains(p) ==> stack_of(drawing, p).len() > 0
}

/// The sprites of the creatures that stand on `p`, in their order.
pub open spec fn creature_sprites(creatures: Seq<Creature>, p: Pos) -> Seq<Sprite>
    decreases creatures.len(),
{
    if creatures.len() == 0 {
        Seq::empty()
    } else if creatures.last().pos == p {
        creature_sprites(creatures.drop_last(), p).push(creatures.last().sprite)
    } else {
        creature_sprites(creatures.drop_last(), p)
    }
}

/// The sprite of what a map of sprites has on a cell.
pub open spec fn particle_part(particles: PosMap<Sprite>, p: Pos) -> Seq<Sprite> {
    match particles.lookup(p) {
        Some(sprite) => seq![sprite],
        None => Seq::empty(),
    }
}

/// The sprite of the item on a cell.
pub open spec fn item_part(items: PosMap<Item>, p: Pos) -> Seq<Sprite> {
    match items.lookup(p) {
        Some(item) => seq![item.spec_sprite()],
        None => Seq::empty(),
    }
}

/// Whether two stacks show the same sprites.
pub fn same_stack(a: &Vec<Sprite>, b: &Vec<Sprite>) -> (r: bool)
    ensures
        r == (stack_view(a@) == stack_view(b@)),
{
    if a.len() != b.len() {
        assert(stack_view(a@).len() != stack_view(b@).len());
        return false;
    }
    let mut i: usize = 0;
    while i < a.len()
        invariant
            i <= a@.len(),
            a@.len() == b@.len(),
            forall|k: int| 0 <= k < i ==> a@[k]@ == b@[k]@,
        decreases a@.len() - i,
    {
        if !(a[i] == b[i]) {
            assert(stack_view(a@)[i as int] != stack_view(b@)[i as int]);
            return false;
        }
        i += 1;
    }
    assert(stack_view(a@) =~= stack_view(b@));
    true
}

/// A stack with the same sprites.
pub fn copy_stack(stack: &Vec<Sprite>) -> (r: Vec<Sprite>)
    ensures
        r@ == stack@,
{
    let mut out: Vec<Sprite> = Vec::new();
    let mut i: usize = 0;
    while i < stack.len()
        invariant
            i <= stack@.len(),
            out@ == stack@.subrange(0, i as int),
        decreases stack@.len() - i,
    {
        out.push(stack[i]);
        assert(out@ =~= stack@.subrange(0, i + 1));
        i += 1;
    }
    assert(out@ =~= stack@);
    out
}

/// Puts `sprite` under the sprites that the drawing has for `pos`.
pub fn add_sprite(drawing: &mut PosMap<Vec<Sprite>>, pos: Pos, sprite: Sprite)
    requires
        old(drawing).wf(),
        no_empty_stack(*old(drawing)),
    ensures
        final(drawing).wf(),
        no_empty_stack(*final(drawing)),
        forall|p: Pos|
            #[trigger] stack_of(*final(drawing), p) == (if p == pos {
                stack_of(*old(drawing), p).push(sprite)
            } else {
                stack_of(*old(drawing), p)
            }),
        forall|p: Pos| #[trigger] final(drawing).contains(p) <==> (p == pos || old(drawing).contains(p)),
{
    let mut stack = match drawing.remove(pos) {
        Some(stack) => stack,
        None => Vec::new(),
    };
    let ghost removed = *drawing;
    stack.push(sprite);
    drawing.insert(pos, stack);
    proof {
        assert forall|p: Pos| #[trigger] stack_of(*drawing, p) == (if p == pos {
            stack_of(*old(drawing), p).push(sprite)
        } else {
            stack_of(*old(drawing), p)
        }) by {
            if p != pos {
                assert(drawing.lookup(p) == removed.lookup(p));
                assert(removed.lookup(p) == old(drawing).lookup(p));
            }
        }
        assert forall|p: Pos| #[trigger] drawing.contains(p) <==> (p == pos || old(drawing).contains(p)) by {
            if p != pos {
                assert(drawing.lookup(p) == removed.lookup(p));
                assert(removed.lookup(p) == old(drawing).lookup(p));
            }
        }
        assert forall|p: Pos| #[trigger] drawing.contains(p) implies stack_of(*drawing, p).len() > 0 by {
            if p != pos {
                assert(old(drawing).contains(p));
            }
        }
    }
}

impl World {
    /// The sprites of what is on a cell, from the top down: a particle,
    /// the creatures in their order, and an item.
    pub open spec fn overlay(self, p: Pos) -> Seq<Sprite> {
        particle_part(self.particles, p) + creature_sprites(self.creatures.items(), p) + item_part(self.items, p)
    }

    /// Whether `drawing` shows the world: it has an entry for each cell
    /// of the ground on which something is, with the sprites of that and
    /// the sprite of the tile under them.
    pub open spec fn drawn(self, drawing: PosMap<Vec<Sprite>>) -> bool {
        &&& drawing.wf()
        &&& forall|p: Pos|
            #[trigger] stack_of(drawing, p) == (if self.ground.contains(p) && self.overlay(p).len() > 0 {
                self.overlay(p).push(self.ground.at(p).spec_sprite())
            } else {
                Seq::empty()
            })
        &&& forall|p: Pos| #[trigger] drawing.contains(p) <==> self.ground.contains(p) && self.overlay(p).len() > 0
    }

    /// Draws what is on the ground, see `drawn`.
    pub fn draw_dynamic(&self) -> (drawing: PosMap<Vec<Sprite>>)
        requires
            self.wf(),
        ensures
            self.drawn(drawing),
    {
        let mut sprites: PosMap<Vec<Sprite>> = PosMap::new();
        let mut i: usize = 0;
        let np = self.particles.len();
        while i < np
            invariant
                self.wf(),
                np == self.particles.keys().len(),
                i <= np,
                sprites.wf(),
                no_empty_stack(sprites),
                forall|p: Pos|
                    #[trigger] stack_of(sprites, p) == (if self.particles.keys().subrange(0, i as int).contains(p) {
                        particle_part(self.particles, p)
                    } else {
                        Seq::empty()
                    }),
                forall|p: Pos| #[trigger] sprites.contains(p) <==> self.particles.keys().subrange(0, i as int).contains(p),
            decreases np - i,
        {
            let pos = self.particles.key_at(i);
            let sprite = *self.particles.value_at(i);
            let ghost before = sprites;
            proof {
                self.particles.lemma_place(i as int);
                let head = self.particles.keys().subrange(0, i as int);
                if head.contains(pos) {
                    let w = head.index_of(pos);
                    assert(self.particles.keys()[w] == pos);
                }
                assert(stack_of(sprites, pos) == Seq::<Sprite>::empty());
            }
            add_sprite(&mut sprites, pos, sprite);
            proof {
                let head = self.particles.keys().subrange(0, i as int);
                let next = self.particles.keys().subrange(0, i + 1);
                assert(next =~= head.push(pos));
                assert forall|p: Pos| next.contains(p) <==> (p == pos || head.contains(p)) by {
                    if head.contains(p) {
                        let w = head.index_of(p);
                        assert(next[w] == p);
                    }
                    if next.contains(p) && p != pos {
                        let w = next.index_of(p);
                        assert(head[w] == p);
                    }
                    assert(next[i as int] == pos);
                }
                assert forall|p: Pos| #[trigger] stack_of(sprites, p) == (if next.contains(p) {
                    particle_part(self.particles, p)
                } else {
                    Seq::empty()
                }) by {
                    if p == pos {
                        assert(stack_of(sprites, p) =~= seq![sprite]);
                    } else {
                        assert(stack_of(sprites, p) == stack_of(before, p));
                    }
                }
            }
            i += 1;
        }
        proof {
            assert(self.particles.keys().subrange(0, np as int) =~= self.particles.keys());
            assert forall|p: Pos| #[trigger] stack_of(sprites, p) == particle_part(self.particles, p) by {}
        }
        let nc = self.creatures.len();
        let mut j: usize = 0;
        while j < nc
            invariant
                self.wf(),
                nc == self.creatures.items().len(),
                j <= nc,
                sprites.wf(),
                no_empty_stack(sprites),
                forall|p: Pos|
                    #[trigger] stack_of(sprites, p) == particle_part(self.particles, p) + creature_sprites(
                        self.creatures.items().subrange(0, j as int),
                        p,
                    ),
            decreases nc - j,
        {
            let creature = self.creatures.value_at(j);
            let ghost before = sprites;
            add_sprite(&mut sprites, creature.pos, creature.sprite);
            proof {
                let head = self.creatures.items().subrange(0, j as int);
                let next = self.creatures.items().subrange(0, j + 1);
                assert(next.drop_last() =~= head);
                assert(next.last() == *creature);
                assert forall|p: Pos| #[trigger] stack_of(sprites, p) == particle_part(self.particles, p) + creature_sprites(next, p) by {
                    if p == creature.pos {
                        assert(stack_of(sprites, p) =~= particle_part(self.particles, p) + creature_sprites(next, p));
                    } else {
                        assert(stack_of(sprites, p) == stack_of(before, p));
                    }
                }
            }
            j += 1;
        }
        proof {
            assert(self.creatures.items().subrange(0, nc as int) =~= self.creatures.items());
        }
        let ni = self.items.len();
        let mut k: usize = 0;
        while k < ni
            invariant
                self.wf(),
                ni == self.items.keys().len(),
                k <= ni,
                sprites.wf(),
                no_empty_stack(sprites),
                forall|p: Pos|
                    #[trigger] stack_of(sprites, p) == particle_part(self.particles, p) + creature_sprites(self.creatures.items(), p)
                        + (if self.items.keys().subrange(0, k as int).contains(p) {
                        item_part(self.items, p)
                    } else {
                        Seq::empty()
                    }),
            decreases ni - k,
        {
            let pos = self.items.key_at(k);
            let item = *self.items.value_at(k);
            let ghost before = sprites;
            proof {
                self.items.lemma_place(k as int);
                let head = self.items.keys().subrange(0, k as int);
                if head.contains(pos) {
                    let w = head.index_of(pos);
                    assert(self.items.keys()[w] == pos);
                }
            }
            add_sprite(&mut sprites, pos, item.sprite());
            proof {
                let head = self.items.keys().subrange(0, k as int);
                let next = self.items.keys().subrange(0, k + 1);
                assert(next =~= head.push(pos));
                assert forall|p: Pos| next.contains(p) <==> (p == pos || head.contains(p)) by {
                    if head.contains(p) {
                        let w = head.index_of(p);
                        assert(next[w] == p);
                    }
                    if next.contains(p) && p != pos {
                        let w = next.index_of(p);
                        assert(head[w] == p);
                    }
                    assert(next[k as int] == pos);
                }
                assert forall|p: Pos| #[trigger] stack_of(sprites, p) == particle_part(self.particles, p) + creature_sprites(self.creatures.items(), p) + (if next.contains(p) {
                    item_part(self.items, p)
                } else {
                    Seq::empty()
                }) by {
                    let base = particle_part(self.particles, p) + creature_sprites(self.creatures.items(), p);
                    if p == pos {
                        assert(stack_of(before, p) =~= base);
                        assert(stack_of(sprites, p) =~= base + item_part(self.items, p));
                    } else {
                        assert(stack_of(sprites, p) == stack_of(before, p));
                    }
                }
            }
            k += 1;
        }
        proof {
            assert(self.items.keys().subrange(0, ni as int) =~= self.items.keys());
            assert forall|p: Pos| #[trigger] stack_of(sprites, p) == self.overlay(p) by {
                if !self.items.keys().contains(p) {
                    assert(self.overlay(p) =~= particle_part(self.particles, p) + creature_sprites(self.creatures.items(), p));
                    assert(stack_of(sprites, p) =~= self.overlay(p));
                }
            }
        }
        let mut drawing: PosMap<Vec<Sprite>> = PosMap::new();
        let n = sprites.len();
        let mut m: usize = 0;
        while m < n
            invariant
                self.wf(),
                sprites.wf(),
                no_empty_stack(sprites),
                n == sprites.keys().len(),
                m <= n,
                forall|p: Pos| #[trigger] stack_of(sprites, p) == self.overlay(p),
                drawing.wf(),
                forall|p: Pos|
                    #[trigger] drawing.contains(p) <==> self.ground.contains(p) && sprites.keys().subrange(0, m as int).contains(p),
                forall|p: Pos|
                    #[trigger] stack_of(drawing, p) == (if self.ground.contains(p) && sprites.keys().subrange(0, m as int).contains(p) {
                        self.overlay(p).push(self.ground.at(p).spec_sprite())
                    } else {
                        Seq::empty()
                    }),
            decreases n - m,
        {
            let pos = sprites.key_at(m);
            let ghost before = drawing;
            proof {
                sprites.lemma_place(m as int);
            }
            match self.ground.get(pos) {
                Some(tile) => {
                    let mut stack = copy_stack(sprites.value_at(m));
                    stack.push(tile.sprite());
                    let ghost pushed = stack@;
                    drawing.insert(pos, stack);
                    proof {
                        assert(stack_of(sprites, pos) == sprites.vals()[m as int]@);
                        assert(pushed == sprites.vals()[m as int]@.push(self.ground.at(pos).spec_sprite()));
                        assert(stack_of(drawing, pos) == pushed);
                    }
                },
                None => {},
            }
            proof {
                let head = sprites.keys().subrange(0, m as int);
                let next = sprites.keys().subrange(0, m + 1);
                assert(next =~= head.push(pos));
                assert forall|p: Pos| next.contains(p) <==> (p == pos || head.contains(p)) by {
                    if head.contains(p) {
                        let w = head.index_of(p);
                        assert(next[w] == p);
                    }
                    if next.contains(p) && p != pos {
                        let w = next.index_of(p);
                        assert(head[w] == p);
                    }
                    assert(next[m as int] == pos);
                }
                assert forall|p: Pos| #[trigger] drawing.contains(p) <==> self.ground.contains(p) && next.contains(p) by {
                    if p != pos {
                        assert(drawing.lookup(p) == before.lookup(p));
                        assert(drawing.contains(p) == before.contains(p));
                    } else if !self.ground.contains(pos) {
                        assert(drawing.contains(p) == before.contains(p));
                    }
                }
                assert forall|p: Pos| #[trigger] stack_of(drawing, p) == (if self.ground.contains(p) && next.contains(p) {
                    self.overlay(p).push(self.ground.at(p).spec_sprite())
                } else {
                    Seq::empty()
                }) by {
                    if p != pos {
                        assert(drawing.lookup(p) == before.lookup(p));
                        assert(stack_of(drawing, p) == stack_of(before, p));
                    } else if self.ground.contains(pos) {
                        assert(stack_of(sprites, pos) == self.overlay(pos));
                        assert(stack_of(drawing, pos) =~= self.overlay(pos).push(self.ground.at(pos).spec_sprite()));
                    } else {
                        assert(drawing.lookup(p) == before.lookup(p));
                        assert(stack_of(drawing, p) == stack_of(before, p));
                    }
                }
            }
            m += 1;
        }
        proof {
            assert(sprites.keys().subrange(0, n as int) =~= sprites.keys());
            assert forall|p: Pos| sprites.keys().contains(p) <==> self.overlay(p).len() > 0 by {
                assert(sprites.contains(p) ==> stack_of(sprites, p).len() > 0);
                assert(stack_of(sprites, p) == self.overlay(p));
            }
        }
        drawing
    }
}

/// The stack that a drawing shows on a cell of the ground: the one it
/// has for the cell, and the sprite of the tile alone where it has none.
pub open spec fn shown(ground: Grid<Tile>, drawing: PosMap<Vec<Sprite>>, p: Pos) -> Seq<Sprite> {
    match drawing.lookup(p) {
        Some(stack) => stack@,
        None => seq![ground.at(p).spec_sprite()],
    }
}

/// Whether the list of changes has an entry for cell `p`.
pub open spec fn lists(change: Seq<(Pos, Vec<Sprite>)>, p: Pos) -> bool {
    exists|k: int| 0 <= k < change.len() && (#[trigger] change[k]).0 == p
}

/// Whether what is shown on cell `p` differs between two drawings.
pub open spec fn differs(ground: Grid<Tile>, last: PosMap<Vec<Sprite>>, now: PosMap<Vec<Sprite>>, p: Pos) -> bool {
    stack_view(shown(ground, last, p)) != stack_view(shown(ground, now, p))
}

/// Whether `change` is the list of changes from the drawing `last` to
/// the drawing `now`: it has one entry for each cell of the ground on
/// which the two show different stacks, with the stack that `now` shows,
/// and no other entry.
pub open spec fn is_change(
    ground: Grid<Tile>,
    last: PosMap<Vec<Sprite>>,
    now: PosMap<Vec<Sprite>>,
    change: Seq<(Pos, Vec<Sprite>)>,
) -> bool {
    &&& forall|a: int, b: int| 0 <= a < b < change.len() ==> (#[trigger] change[a]).0 != (#[trigger] change[b]).0
    &&& forall|k: int|
        0 <= k < change.len() ==> ground.contains((#[trigger] change[k]).0) && change[k].1@ == shown(
            ground,
            now,
            change[k].0,
        )
    &&& forall|p: Pos| ground.contains(p) ==> (#[trigger] lists(change, p) <==> differs(ground, last, now, p))
}

/// The stack that a cell shows once the changes are applied to what
/// was shown before.
pub open spec fn applied(change: Seq<(Pos, Vec<Sprite>)>, before: Seq<Sprite>, p: Pos) -> Seq<Sprite> {
    if lists(change, p) {
        change[choose|k: int| 0 <= k < change.len() && (#[trigger] change[k]).0 == p].1@
    } else {
        before
    }
}

/// The changes bring what was shown up to date. A drawing applied to
/// with the list of changes from it to a second drawing shows on every
/// cell of the ground what the second drawing shows.
pub proof fn lemma_change_is_sound(
    ground: Grid<Tile>,
    last: PosMap<Vec<Sprite>>,
    now: PosMap<Vec<Sprite>>,
    change: Seq<(Pos, Vec<Sprite>)>,
    p: Pos,
)
    requires
        is_change(ground, last, now, change),
        ground.contains(p),
    ensures
        stack_view(applied(change, shown(ground, last, p), p)) == stack_view(shown(ground, now, p)),
{
    if lists(change, p) {
        let k = choose|k: int| 0 <= k < change.len() && (#[trigger] change[k]).0 == p;
        assert(change[k].1@ == shown(ground, now, change[k].0));
    } else {
        assert(!differs(ground, last, now, p));
    }
}

proof fn lemma_lists_push(change: Seq<(Pos, Vec<Sprite>)>, entry: (Pos, Vec<Sprite>), p: Pos)
    ensures
        lists(change.push(entry), p) <==> (lists(change, p) || p == entry.0),
{
    let next = change.push(entry);
    if lists(change, p) {
        let k = choose|k: int| 0 <= k < change.len() && (#[trigger] change[k]).0 == p;
        assert(next[k] == change[k]);
    }
    if p == entry.0 {
        assert(next[change.len() as int] == entry);
    }
    if lists(next, p) {
        let k = choose|k: int| 0 <= k < next.len() && (#[trigger] next[k]).0 == p;
        if k < change.len() {
            assert(change[k] == next[k]);
        }
    }
}

proof fn lemma_prefix_contains(keys: Seq<Pos>, i: int, p: Pos)
    requires
        0 <= i < keys.len(),
    ensures
        keys.subrange(0, i + 1).contains(p) <==> (keys.subrange(0, i).contains(p) || p == keys[i]),
{
    let head = keys.subrange(0, i);
    let next = keys.subrange(0, i + 1);
    if head.contains(p) {
        let w = head.index_of(p);
        assert(next[w] == p);
    }
    if p == keys[i] {
        assert(next[i] == p);
    }
    if next.contains(p) {
        let w = next.index_of(p);
        if w < i {
            assert(head[w] == p);
        }
    }
}

/// The list of changes from the drawing `last` to the drawing `now`, see `is_change`.
pub fn draw_changes(ground: &Grid<Tile>, last: &PosMap<Vec<Sprite>>, now: &PosMap<Vec<Sprite>>) -> (change: Vec<(Pos, Vec<Sprite>)>)
    requires
        ground.wf(),
        fits_ground(*ground, *last),
        fits_ground(*ground, *now),
    ensures
        is_change(*ground, *last, *now, change@),
{
    let mut change: Vec<(Pos, Vec<Sprite>)> = Vec::new();
    let n = now.len();
    let mut i: usize = 0;
    while i < n
        invariant
            ground.wf(),
            fits_ground(*ground, *last),
            fits_ground(*ground, *now),
            n == now.keys().len(),
            i <= n,
            forall|a: int, b: int| 0 <= a < b < change@.len() ==> (#[trigger] change@[a]).0 != (#[trigger] change@[b]).0,
            forall|k: int| 0 <= k < change@.len() ==> ground.contains((#[trigger] change@[k]).0) && change@[k].1@ == shown(*ground, *now, change@[k].0),
            forall|p: Pos| #[trigger] lists(change@, p) <==> (now.keys().subrange(0, i as int).contains(p) && differs(*ground, *last, *now, p)),
        decreases n - i,
    {
        let pos = now.key_at(i);
        let stack = now.value_at(i);
        proof {
            now.lemma_place(i as int);
            assert(now.contains(pos));
            let head = now.keys().subrange(0, i as int);
            if head.contains(pos) {
                let w = head.index_of(pos);
                assert(now.keys()[w] == pos);
            }
        }
        let same = match last.get(pos) {
            Some(old) => same_stack(old, stack),
            None => false,
        };
        let ghost before = change@;
        if !same {
            change.push((pos, copy_stack(stack)));
        }
        proof {
            if last.lookup(pos) is None {
                assert(shown(*ground, *last, pos).len() == 1);
                assert(shown(*ground, *now, pos).len() >= 2);
                assert(stack_view(shown(*ground, *last, pos)).len() != stack_view(shown(*ground, *now, pos)).len());
            }
            assert forall|p: Pos| #[trigger] lists(change@, p) <==> (now.keys().subrange(0, i + 1).contains(p) && differs(*ground, *last, *now, p)) by {
                lemma_prefix_contains(now.keys(), i as int, p);
                if !same {
                    lemma_lists_push(before, change@[before.len() as int], p);
                    assert(change@ =~= before.push(change@[before.len() as int]));
                }
            }
            if !same {
                assert(!lists(before, pos));
                assert forall|a: int, b: int|
                    0 <= a < b < change@.len() implies
                    (#[trigger] change@[a]).0 != (#[trigger] change@[b]).0 by {
                    if b == before.len() {
                        assert(before[a] == change@[a]);
                    } else {
                        assert(before[a] == change@[a]);
                        assert(before[b] == change@[b]);
                    }
                }
            }
        }
        i += 1;
    }
    assert(now.keys().subrange(0, n as int) =~= now.keys());
    let nl = last.len();
    let mut j: usize = 0;
    while j < nl
        invariant
            ground.wf(),
            fits_ground(*ground, *last),
            fits_ground(*ground, *now),
            nl == last.keys().len(),
            j <= nl,
            forall|a: int, b: int| 0 <= a < b < change@.len() ==> (#[trigger] change@[a]).0 != (#[trigger] change@[b]).0,
            forall|k: int| 0 <= k < change@.len() ==> ground.contains((#[trigger] change@[k]).0) && change@[k].1@ == shown(*ground, *now, change@[k].0),
            forall|p: Pos|
                #[trigger] lists(change@, p) <==> ((now.contains(p) || last.keys().subrange(0, j as int).contains(p)) && differs(
                    *ground,
                    *last,
                    *now,
                    p,
                )),
        decreases nl - j,
    {
        let pos = last.key_at(j);
        proof {
            last.lemma_place(j as int);
            assert(last.contains(pos));
            let head = last.keys().subrange(0, j as int);
            if head.contains(pos) {
                let w = head.index_of(pos);
                assert(last.keys()[w] == pos);
            }
        }
        let ghost before = change@;
        let mut pushed = false;
        if !now.contains_key(pos) {
            let tile = ground.get_unchecked(pos);
            let mut floor: Vec<Sprite> = Vec::new();
            floor.push(tile.sprite());
            assert(floor@ =~= shown(*ground, *now, pos));
            if !same_stack(last.value_at(j), &floor) {
                change.push((pos, floor));
                pushed = true;
            }
        }
        proof {
            assert forall|p: Pos| #[trigger] lists(change@, p) <==> ((now.contains(p) || last.keys().subrange(0, j + 1).contains(p)) && differs(*ground, *last, *now, p)) by {
                lemma_prefix_contains(last.keys(), j as int, p);
                if pushed {
                    lemma_lists_push(before, change@[before.len() as int], p);
                    assert(change@ =~= before.push(change@[before.len() as int]));
                }
            }
            if pushed {
                assert(!lists(before, pos));
                assert forall|a: int, b: int|
                    0 <= a < b < change@.len() implies
                    (#[trigger] change@[a]).0 != (#[trigger] change@[b]).0 by {
                    if b == before.len() {
                        assert(before[a] == change@[a]);
                    } else {
                        assert(before[a] == change@[a]);
                        assert(before[b] == change@[b]);
                    }
                }
            }
        }
        j += 1;
    }
    proof {
        assert(last.keys().subrange(0, nl as int) =~= last.keys());
        assert forall|p: Pos|
            ground.contains(p) implies
            (#[trigger] lists(change@, p) <==> differs(*ground, *last, *now, p)) by {
            if !now.contains(p) && !last.contains(p) {
                assert(shown(*ground, *last, p) == shown(*ground, *now, p));
            }
        }
    }
    change
}

/// The cell at place `i` of the row-major order of a ground of the given width.
pub open spec fn cell_at(width: int, i: int) -> Pos {
    Pos { x: (i % width) as i64, y: (i / width) as i64 }
}

/// What the first `upto` cells of the ground show, row after row.
pub open spec fn cell_views(ground: Grid<Tile>, drawing: PosMap<Vec<Sprite>>, upto: int) -> Seq<Seq<SpriteView>> {
    Seq::new(
        if upto >= 0 {
            upto as nat
        } else {
            0
        },
        |i: int| stack_view(shown(ground, drawing, cell_at(ground.spec_size().x as int, i))),
    )
}

/// The different stacks among `cells`, each once, in the order in which
/// they first come.
pub open spec fn first_seen(cells: Seq<Seq<SpriteView>>) -> Seq<Seq<SpriteView>>
    decreases cells.len(),
{
    if cells.len() == 0 {
        Seq::empty()
    } else {
        let found = first_seen(cells.drop_last());
        if found.contains(cells.last()) {
            found
        } else {
            found.push(cells.last())
        }
    }
}

/// The stacks of a mapping as the texts that they show.
pub open spec fn mapping_views(mapping: Seq<Vec<Sprite>>) -> Seq<Seq<SpriteView>> {
    mapping.map_values(|stack: Vec<Sprite>| stack_view(stack@))
}

/// Whether `width`, `height`, `field` and `mapping` are the whole field
/// for a drawing: the size is that of the ground; the mapping holds the
/// different stacks that the cells show, each once and in the order in
/// which they first come, row after row; and the field gives for each
/// cell the place of its stack in the mapping.
pub open spec fn is_field(
    ground: Grid<Tile>,
    drawing: PosMap<Vec<Sprite>>,
    width: i64,
    height: i64,
    field: Seq<usize>,
    mapping: Seq<Vec<Sprite>>,
) -> bool {
    let cells = cell_views(ground, drawing, ground.spec_size().x * ground.spec_size().y);
    &&& width == ground.spec_size().x
    &&& height == ground.spec_size().y
    &&& field.len() == cells.len()
    &&& mapping_views(mapping) == first_seen(cells)
    &&& forall|i: int| 0 <= i < field.len() ==> (#[trigger] field[i]) < mapping.len() && mapping_views(mapping)[field[i] as int] == cells[i]
}

/// No stack comes twice among the different stacks.
pub proof fn lemma_first_seen_distinct(cells: Seq<Seq<SpriteView>>)
    ensures
        forall|a: int, b: int| 0 <= a < b < first_seen(cells).len() ==> first_seen(cells)[a] != first_seen(cells)[b],
        forall|i: int| 0 <= i < cells.len() ==> first_seen(cells).contains(#[trigger] cells[i]),
    decreases cells.len(),
{
    if cells.len() > 0 {
        let front = cells.drop_last();
        lemma_first_seen_distinct(front);
        let found = first_seen(front);
        let all = first_seen(cells);
        assert forall|a: int, b: int| 0 <= a < b < all.len() implies all[a] != all[b] by {
            if b == found.len() {
                assert(found[a] == all[a]);
                assert(found.contains(found[a]));
            }
        }
        assert forall|i: int| 0 <= i < cells.len() implies all.contains(#[trigger] cells[i]) by {
            if i < front.len() {
                assert(front[i] == cells[i]);
                let w = found.index_of(cells[i]);
                assert(all[w] == cells[i]);
            } else {
                if found.contains(cells.last()) {
                    let w = found.index_of(cells.last());
                    assert(all[w] == cells[i]);
                } else {
                    assert(all[found.len() as int] == cells[i]);
                }
            }
        }
    }
}

/// The place of a stack with the same sprites in the mapping, if there is one.
pub fn find_stack(mapping: &Vec<Vec<Sprite>>, stack: &Vec<Sprite>) -> (r: Option<usize>)
    ensures
        match r {
            Some(i) => i < mapping@.len() && mapping_views(mapping@)[i as int] == stack_view(stack@),
            None => !mapping_views(mapping@).contains(stack_view(stack@)),
        },
{
    let mut i: usize = 0;
    while i < mapping.len()
        invariant
            i <= mapping@.len(),
            forall|k: int| 0 <= k < i ==> mapping_views(mapping@)[k] != stack_view(stack@),
        decreases mapping@.len() - i,
    {
        if same_stack(&mapping[i], stack) {
            return Some(i);
        }
        i += 1;
    }
    proof {
        if mapping_views(mapping@).contains(stack_view(stack@)) {
            let w = mapping_views(mapping@).index_of(stack_view(stack@));
            assert(mapping_views(mapping@)[w] == stack_view(stack@));
        }
    }
    None
}

/// Draws the whole field, see `is_field`.
pub fn draw_field(size: Pos, tiles: &Grid<Tile>, sprites: &PosMap<Vec<Sprite>>) -> (msg: FieldMessage)
    requires
        tiles.wf(),
        tiles.spec_size() == size,
        sprites.wf(),
    ensures
        is_field(*tiles, *sprites, msg.width, msg.height, msg.field@, msg.mapping@),
        forall|a: int, b: int|
            0 <= a < b < msg.mapping@.len() ==> mapping_views(msg.mapping@)[a] != mapping_views(msg.mapping@)[b],
{
    proof {
        lemma_first_seen_distinct(cell_views(*tiles, *sprites, size.x * size.y));
    }
    let mut values: Vec<usize> = Vec::new();
    let mut mapping: Vec<Vec<Sprite>> = Vec::new();
    let ghost total = size.x * size.y;
    assert(cell_views(*tiles, *sprites, 0) =~= Seq::<Seq<SpriteView>>::empty());
    assert(mapping_views(mapping@) =~= Seq::<Seq<SpriteView>>::empty());
    let mut y: i64 = 0;
    while y < size.y
        invariant
            tiles.wf(),
            tiles.spec_size() == size,
            sprites.wf(),
            0 <= y <= size.y,
            0 <= size.x,
            values@.len() == y * size.x,
            mapping_views(mapping@) == first_seen(cell_views(*tiles, *sprites, y * size.x)),
            forall|i: int|
                0 <= i < values@.len() ==> (#[trigger] values@[i]) < mapping@.len() && mapping_views(mapping@)[values@[i] as int]
                    == cell_views(*tiles, *sprites, y * size.x)[i],
        decreases size.y - y,
    {
        let mut x: i64 = 0;
        while x < size.x
            invariant
                tiles.wf(),
                tiles.spec_size() == size,
                sprites.wf(),
                0 <= y < size.y,
                0 <= x <= size.x,
                values@.len() == y * size.x + x,
                mapping_views(mapping@) == first_seen(cell_views(*tiles, *sprites, y * size.x + x)),
                forall|i: int|
                    0 <= i < values@.len() ==> (#[trigger] values@[i]) < mapping@.len() && mapping_views(mapping@)[values@[i] as int]
                        == cell_views(*tiles, *sprites, y * size.x + x)[i],
            decreases size.x - x,
        {
            let pos = Pos::new(x, y);
            let ghost at = y * size.x + x;
            let ghost before_cells = cell_views(*tiles, *sprites, at);
            let ghost before_mapping = mapping@;
            let mut tilesprite: Vec<Sprite> = Vec::new();
            tilesprite.push(tiles.get_unchecked(pos).sprite());
            let stack: &Vec<Sprite> = match sprites.get(pos) {
                Some(stack) => stack,
                None => &tilesprite,
            };
            proof {
                crate::grid::lemma_cell_index(size.x as int, size.y as int, x as int, y as int);
                assert(cell_at(size.x as int, at) == pos);
                assert(stack@ =~= shown(*tiles, *sprites, pos));
            }
            let index = match find_stack(&mapping, stack) {
                Some(index) => index,
                None => {
                    mapping.push(copy_stack(stack));
                    mapping.len() - 1
                },
            };
            values.push(index);
            proof {
                let cells = cell_views(*tiles, *sprites, at + 1);
                assert(cells.drop_last() =~= before_cells);
                assert(cells.last() == stack_view(stack@));
                let found = first_seen(before_cells);
                if found.contains(stack_view(stack@)) {
                    assert(mapping@ == before_mapping);
                } else {
                    assert(mapping_views(mapping@) =~= found.push(stack_view(stack@)));
                }
                assert forall|i: int|
                    0 <= i < values@.len() implies
                    (#[trigger] values@[i]) < mapping@.len() && mapping_views(mapping@)[values@[i] as int] == cells[i] by {
                    if i < at {
                        assert(cells[i] == before_cells[i]);
                        assert(mapping_views(before_mapping)[values@[i] as int] == before_cells[i]);
                        assert(mapping_views(mapping@)[values@[i] as int] == mapping_views(before_mapping)[values@[i] as int]);
                    }
                }
            }
            x += 1;
        }
        proof {
            assert((y + 1) * size.x == y * size.x + size.x) by (nonlinear_arith);
        }
        y += 1;
    }
    proof {
        assert(size.y * size.x == size.x * size.y) by (nonlinear_arith);
    }
    FieldMessage { width: size.x, height: size.y, field: values, mapping }
}

} // verus!
