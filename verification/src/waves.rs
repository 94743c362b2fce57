use vstd::prelude::*;
use crate::creature::CreatureType;
use crate::gamemode::GameMode;

verus! {

/// `n` monsters of one kind.
pub open spec fn pack(typ: CreatureType, n: int) -> Seq<CreatureType> {
    Seq::new(
        if n >= 0 {
            n as nat
        } else {
            0
        },
        |i: int| typ,
    )
}

/// The monsters of a wave, in the order in which they enter. The first
/// fourteen waves are laid down one by one; each wave after them is larger
/// than the one before.
pub open spec fn spec_wave_composition(wave: int) -> Seq<CreatureType> {
    let post = if wave >= 14 {
        wave - 14
    } else {
        0
    };
    if wave == 0 {
        pack(CreatureType::Zombie, 5)
    } else if wave == 1 {
        pack(CreatureType::Zombie, 8)
    } else if wave == 2 {
        pack(CreatureType::Zombie, 10) + pack(CreatureType::Worm, 1)
    } else if wave == 3 {
        pack(CreatureType::Zombie, 12) + pack(CreatureType::Worm, 1) + pack(CreatureType::Ymp, 1)
    } else if wave == 4 {
        pack(CreatureType::Zombie, 14) + pack(CreatureType::Ymp, 1) + pack(CreatureType::Worm, 2)
    } else if wave == 5 {
        pack(CreatureType::Zombie, 12) + pack(CreatureType::Vargr, 10) + pack(CreatureType::Worm, 2)
    } else if wave == 6 {
        pack(CreatureType::Zombie, 16) + pack(CreatureType::Xiangliu, 2) + pack(CreatureType::Worm, 1)
    } else if wave == 7 {
        pack(CreatureType::Zombie, 16) + pack(CreatureType::Ymp, 2) + pack(CreatureType::Worm, 1)
    } else if wave == 8 {
        pack(CreatureType::Zombie, 16) + pack(CreatureType::Ymp, 1) + pack(CreatureType::Worm, 1) + pack(
            CreatureType::Xiangliu,
            1,
        )
    } else if wave == 9 {
        pack(CreatureType::Zombie, 16) + pack(CreatureType::Ymp, 1) + pack(CreatureType::Worm, 1) + pack(
            CreatureType::Xiangliu,
            2,
        )
    } else if wave == 10 {
        pack(CreatureType::Zombie, 16) + pack(CreatureType::Ymp, 2) + pack(CreatureType::Worm, 2) + pack(
            CreatureType::Xiangliu,
            2,
        )
    } else if wave == 11 {
        pack(CreatureType::Zombie, 12) + pack(CreatureType::Worm, 1) + pack(CreatureType::Troll, 1) + pack(
            CreatureType::Vargr,
            10,
        )
    } else if wave == 12 {
        pack(CreatureType::Zombie, 16) + pack(CreatureType::Ymp, 2) + pack(CreatureType::Worm, 2) + pack(
            CreatureType::Vargr,
            10,
        )
    } else if wave == 13 {
        pack(CreatureType::Zombie, 16) + pack(CreatureType::Troll, 2) + pack(CreatureType::Xiangliu, 3) + pack(
            CreatureType::Vargr,
            20,
        )
    } else {
        pack(CreatureType::Vargr, 10 + post) + pack(CreatureType::Zombie, 18 + post) + pack(
            CreatureType::Ymp,
            3 + (3 + post) / 3,
        ) + pack(CreatureType::Worm, post / 2 + 1) + pack(CreatureType::Xiangliu, 2 + (3 + post) / 3) + pack(
            CreatureType::Zombie,
            post + 5,
        ) + pack(CreatureType::Troll, 1)
    }
}

/// What stands in for a monster in a game mode: in survival three zombies
/// for a worm, and an ymp with two zombies for a troll; else the monster itself.
pub open spec fn stand_in(gamemode: GameMode, typ: CreatureType) -> Seq<CreatureType> {
    if gamemode == GameMode::Survival && typ == CreatureType::Worm {
        seq![CreatureType::Zombie, CreatureType::Zombie, CreatureType::Zombie]
    } else if gamemode == GameMode::Survival && typ == CreatureType::Troll {
        seq![CreatureType::Ymp, CreatureType::Zombie, CreatureType::Zombie]
    } else {
        seq![typ]
    }
}

/// A wave with each monster replaced by what stands in for it.
pub open spec fn spec_mode_substitute(gamemode: GameMode, monsters: Seq<CreatureType>) -> Seq<CreatureType>
    decreases monsters.len(),
{
    if monsters.len() == 0 {
        Seq::empty()
    } else {
        spec_mode_substitute(gamemode, monsters.drop_last()) + stand_in(gamemode, monsters.last())
    }
}

/// Whether the kinds are kinds of monsters all.
pub open spec fn all_monsters(kinds: Seq<CreatureType>) -> bool {
    forall|i: int| 0 <= i < kinds.len() ==> !((#[trigger] kinds[i]) is Pillar) && !(kinds[i] is Player)
}

/// Two rows of monsters, one behind the other, are a row of monsters.
pub proof fn lemma_monsters_joined(a: Seq<CreatureType>, b: Seq<CreatureType>)
    requires
        all_monsters(a),
        all_monsters(b),
    ensures
        all_monsters(a + b),
{
    assert forall|i: int|
        0 <= i < (a + b).len() implies
        !((#[trigger] (a + b)[i]) is Pillar) && !((a + b)[i] is Player) by {
        if i < a.len() {
            assert((a + b)[i] == a[i]);
        } else {
            assert((a + b)[i] == b[i - a.len()]);
        }
    }
}

/// A wave holds monsters only.
pub proof fn lemma_wave_of_monsters(wave: int)
    ensures
        all_monsters(spec_wave_composition(wave)),
{
    let post = if wave >= 14 {
        wave - 14
    } else {
        0
    };
    let z = |n: int| pack(CreatureType::Zombie, n);
    let y = |n: int| pack(CreatureType::Ymp, n);
    let w = |n: int| pack(CreatureType::Worm, n);
    let t = |n: int| pack(CreatureType::Troll, n);
    let v = |n: int| pack(CreatureType::Vargr, n);
    let x = |n: int| pack(CreatureType::Xiangliu, n);
    assert forall|n: int| all_monsters(#[trigger] pack(CreatureType::Zombie, n)) by {}
    assert forall|n: int| all_monsters(#[trigger] pack(CreatureType::Ymp, n)) by {}
    assert forall|n: int| all_monsters(#[trigger] pack(CreatureType::Worm, n)) by {}
    assert forall|n: int| all_monsters(#[trigger] pack(CreatureType::Troll, n)) by {}
    assert forall|n: int| all_monsters(#[trigger] pack(CreatureType::Vargr, n)) by {}
    assert forall|n: int| all_monsters(#[trigger] pack(CreatureType::Xiangliu, n)) by {}
    assert forall|a: Seq<CreatureType>, b: Seq<CreatureType>|
        all_monsters(a) && all_monsters(b) implies
        all_monsters(#[trigger] (a + b)) by {
        lemma_monsters_joined(a, b);
    }
}

/// What stands in for monsters are monsters.
pub proof fn lemma_substitute_monsters(gamemode: GameMode, monsters: Seq<CreatureType>)
    requires
        all_monsters(monsters),
    ensures
        all_monsters(spec_mode_substitute(gamemode, monsters)),
    decreases monsters.len(),
{
    if monsters.len() > 0 {
        let front = monsters.drop_last();
        assert forall|i: int|
            0 <= i < front.len() implies
            !((#[trigger] front[i]) is Pillar) && !(front[i] is Player) by {
            assert(front[i] == monsters[i]);
        }
        lemma_substitute_monsters(gamemode, front);
        let last = monsters[monsters.len() - 1];
        assert(!(last is Pillar) && !(last is Player));
        assert(all_monsters(stand_in(gamemode, monsters.last())));
        lemma_monsters_joined(spec_mode_substitute(gamemode, front), stand_in(gamemode, monsters.last()));
    }
}

/// A wave is as long as its packs together.
pub proof fn lemma_wave_length(wave: int)
    requires
        0 <= wave,
    ensures
        spec_wave_composition(wave).len() >= 5,
{
}

/// What stands in for the monsters of a wave is at least as many.
pub proof fn lemma_substitute_length(gamemode: GameMode, monsters: Seq<CreatureType>)
    ensures
        spec_mode_substitute(gamemode, monsters).len() >= monsters.len(),
    decreases monsters.len(),
{
    if monsters.len() > 0 {
        lemma_substitute_length(gamemode, monsters.drop_last());
    }
}

fn add_pack(monsters: &mut Vec<CreatureType>, typ: CreatureType, n: usize)
    ensures
        final(monsters)@ == old(monsters)@ + pack(typ, n as int),
{
    let mut i: usize = 0;
    while i < n
        invariant
            i <= n,
            monsters@ == old(monsters)@ + pack(typ, i as int),
        decreases n - i,
    {
        monsters.push(typ);
        assert(monsters@ =~= old(monsters)@ + pack(typ, i + 1));
        i += 1;
    }
}

pub fn wave_composition(wave: usize) -> (monsters: Vec<CreatureType>)
    requires
        wave + 4 <= usize::MAX,
    ensures
        monsters@ == spec_wave_composition(wave as int),
{
    let mut monsters: Vec<CreatureType> = Vec::new();
    assert(monsters@ + pack(CreatureType::Zombie, 0) =~= monsters@);
    if wave == 0 {
        add_pack(&mut monsters, CreatureType::Zombie, 5);
    } else if wave == 1 {
        add_pack(&mut monsters, CreatureType::Zombie, 8);
    } else if wave == 2 {
        add_pack(&mut monsters, CreatureType::Zombie, 10);
        add_pack(&mut monsters, CreatureType::Worm, 1);
    } else if wave == 3 {
        add_pack(&mut monsters, CreatureType::Zombie, 12);
        add_pack(&mut monsters, CreatureType::Worm, 1);
        add_pack(&mut monsters, CreatureType::Ymp, 1);
    } else if wave == 4 {
        add_pack(&mut monsters, CreatureType::Zombie, 14);
        add_pack(&mut monsters, CreatureType::Ymp, 1);
        add_pack(&mut monsters, CreatureType::Worm, 2);
    } else if wave == 5 {
        add_pack(&mut monsters, CreatureType::Zombie, 12);
        add_pack(&mut monsters, CreatureType::Vargr, 10);
        add_pack(&mut monsters, CreatureType::Worm, 2);
    } else if wave == 6 {
        add_pack(&mut monsters, CreatureType::Zombie, 16);
        add_pack(&mut monsters, CreatureType::Xiangliu, 2);
        add_pack(&mut monsters, CreatureType::Worm, 1);
    } else if wave == 7 {
        add_pack(&mut monsters, CreatureType::Zombie, 16);
        add_pack(&mut monsters, CreatureType::Ymp, 2);
        add_pack(&mut monsters, CreatureType::Worm, 1);
    } else if wave == 8 {
        add_pack(&mut monsters, CreatureType::Zombie, 16);
        add_pack(&mut monsters, CreatureType::Ymp, 1);
        add_pack(&mut monsters, CreatureType::Worm, 1);
        add_pack(&mut monsters, CreatureType::Xiangliu, 1);
    } else if wave == 9 {
        add_pack(&mut monsters, CreatureType::Zombie, 16);
        add_pack(&mut monsters, CreatureType::Ymp, 1);
        add_pack(&mut monsters, CreatureType::Worm, 1);
        add_pack(&mut monsters, CreatureType::Xiangliu, 2);
    } else if wave == 10 {
        add_pack(&mut monsters, CreatureType::Zombie, 16);
        add_pack(&mut monsters, CreatureType::Ymp, 2);
        add_pack(&mut monsters, CreatureType::Worm, 2);
        add_pack(&mut monsters, CreatureType::Xiangliu, 2);
    } else if wave == 11 {
        add_pack(&mut monsters, CreatureType::Zombie, 12);
        add_pack(&mut monsters, CreatureType::Worm, 1);
        add_pack(&mut monsters, CreatureType::Troll, 1);
        add_pack(&mut monsters, CreatureType::Vargr, 10);
    } else if wave == 12 {
        add_pack(&mut monsters, CreatureType::Zombie, 16);
        add_pack(&mut monsters, CreatureType::Ymp, 2);
        add_pack(&mut monsters, CreatureType::Worm, 2);
        add_pack(&mut monsters, CreatureType::Vargr, 10);
    } else if wave == 13 {
        add_pack(&mut monsters, CreatureType::Zombie, 16);
        add_pack(&mut monsters, CreatureType::Troll, 2);
        add_pack(&mut monsters, CreatureType::Xiangliu, 3);
        add_pack(&mut monsters, CreatureType::Vargr, 20);
    } else {
        let post = wave - 14;
        add_pack(&mut monsters, CreatureType::Vargr, 10 + post);
        add_pack(&mut monsters, CreatureType::Zombie, 18 + post);
        add_pack(&mut monsters, CreatureType::Ymp, 3 + (3 + post) / 3);
        add_pack(&mut monsters, CreatureType::Worm, post / 2 + 1);
        add_pack(&mut monsters, CreatureType::Xiangliu, 2 + (3 + post) / 3);
        add_pack(&mut monsters, CreatureType::Zombie, post + 5);
        add_pack(&mut monsters, CreatureType::Troll, 1);
    }
    assert(monsters@ =~= spec_wave_composition(wave as int));
    monsters
}

/// Replaces each monster of a wave by what stands in for it in the game mode.
pub fn mode_substitute(gamemode: GameMode, monsters: &Vec<CreatureType>) -> (r: Vec<CreatureType>)
    ensures
        r@ == spec_mode_substitute(gamemode, monsters@),
{
    let mut out: Vec<CreatureType> = Vec::new();
    let mut i: usize = 0;
    while i < monsters.len()
        invariant
            i <= monsters@.len(),
            out@ == spec_mode_substitute(gamemode, monsters@.subrange(0, i as int)),
        decreases monsters@.len() - i,
    {
        let typ = monsters[i];
        let ghost before = out@;
        if gamemode == GameMode::Survival && typ == CreatureType::Worm {
            out.push(CreatureType::Zombie);
            out.push(CreatureType::Zombie);
            out.push(CreatureType::Zombie);
        } else if gamemode == GameMode::Survival && typ == CreatureType::Troll {
            out.push(CreatureType::Ymp);
            out.push(CreatureType::Zombie);
            out.push(CreatureType::Zombie);
        } else {
            out.push(typ);
        }
        proof {
            let next = monsters@.subrange(0, i + 1);
            assert(next.drop_last() =~= monsters@.subrange(0, i as int));
            assert(next.last() == typ);
            assert(out@ =~= before + stand_in(gamemode, typ));
        }
        i += 1;
    }
    assert(monsters@.subrange(0, i as int) =~= monsters@);
    out
}

} // verus!
