use vstd::prelude::*;
use vstd::std_specs::cmp::PartialEqSpecImpl;
use crate::text::{ascii_alphabetic, ascii_graphic, chars_of, lowercase, push_char, spec_ascii_alphabetic, spec_ascii_graphic, str_eq, to_lowercase};

verus! {

/// The name of something that can be shown in a cell.
#[derive(Debug, Clone, Copy, Eq)]
pub enum Sprite {
    Custom(&'static str),
    Letter(char),
    Player(&'static str, char),
}

/// A sprite with its texts as character sequences.
pub enum SpriteView {
    Custom(Seq<char>),
    Letter(char),
    Player(Seq<char>, char),
}

impl View for Sprite {
    type V = SpriteView;

    open spec fn view(&self) -> SpriteView {
        match *self {
            Sprite::Custom(name) => SpriteView::Custom(name@),
            Sprite::Letter(letter) => SpriteView::Letter(letter),
            Sprite::Player(colour, letter) => SpriteView::Player(colour@, letter),
        }
    }
}

impl PartialEq for Sprite {
    fn eq(&self, other: &Sprite) -> (r: bool) {
        match (*self, *other) {
            (Sprite::Custom(a), Sprite::Custom(b)) => str_eq(a, b),
            (Sprite::Letter(a), Sprite::Letter(b)) => a == b,
            (Sprite::Player(a, x), Sprite::Player(b, y)) => str_eq(a, b) && x == y,
            _ => false,
        }
    }
}

impl PartialEqSpecImpl for Sprite {
    open spec fn obeys_eq_spec() -> bool {
        true
    }

    open spec fn eq_spec(&self, other: &Sprite) -> bool {
        self@ == other@
    }
}

impl SpriteView {
    /// The identifier under which the sprite goes over the wire.
    pub open spec fn name(self) -> Seq<char> {
        match self {
            SpriteView::Custom(name) => name,
            SpriteView::Letter(letter) => "emptyletter-"@.push(letter),
            SpriteView::Player(colour, letter) => ("player_"@ + colour).push('-').push(letter),
        }
    }
}

/// Whether `colour` is one of the colour codes a player sprite may have.
pub open spec fn is_colour(colour: Seq<char>) -> bool {
    ||| colour == seq!['r']
    ||| colour == seq!['g']
    ||| colour == seq!['b']
    ||| colour == seq!['c']
    ||| colour == seq!['m']
    ||| colour == seq!['y']
    ||| colour == seq!['a']
    ||| colour == seq!['l', 'r']
    ||| colour == seq!['l', 'g']
    ||| colour == seq!['l', 'b']
    ||| colour == seq!['l', 'c']
    ||| colour == seq!['l', 'm']
    ||| colour == seq!['l', 'y']
}

/// The colour code and the letter of a player sprite's name in lower case:
/// `player_`, a colour code, a hyphen and one ASCII letter.
pub open spec fn player_parts(lowered: Seq<char>) -> Option<(Seq<char>, char)> {
    if lowered.len() >= 10
        && lowered.subrange(0, 7) == seq!['p', 'l', 'a', 'y', 'e', 'r', '_']
        && lowered[lowered.len() - 2] == '-'
        && is_colour(lowered.subrange(7, lowered.len() - 2))
        && spec_ascii_alphabetic(lowered.last()) {
        Some((lowered.subrange(7, lowered.len() - 2), lowered.last()))
    } else {
        None
    }
}

/// The static text for a colour code given by its one or two characters.
fn colour_code(first: char, second: Option<char>) -> (r: Option<&'static str>)
    ensures
        match r {
            Some(code) => is_colour(code@) && code@ == (match second {
                Some(s) => seq![first, s],
                None => seq![first],
            }),
            None => !is_colour(
                match second {
                    Some(s) => seq![first, s],
                    None => seq![first],
                },
            ),
        },
{
    proof {
        reveal_strlit("r");
        reveal_strlit("g");
        reveal_strlit("b");
        reveal_strlit("c");
        reveal_strlit("m");
        reveal_strlit("y");
        reveal_strlit("a");
        reveal_strlit("lr");
        reveal_strlit("lg");
        reveal_strlit("lb");
        reveal_strlit("lc");
        reveal_strlit("lm");
        reveal_strlit("ly");
    }
    let ghost wanted = match second {
        Some(s) => seq![first, s],
        None => seq![first],
    };
    let r = match second {
        None => {
            if first == 'r' {
                Some("r")
            } else if first == 'g' {
                Some("g")
            } else if first == 'b' {
                Some("b")
            } else if first == 'c' {
                Some("c")
            } else if first == 'm' {
                Some("m")
            } else if first == 'y' {
                Some("y")
            } else if first == 'a' {
                Some("a")
            } else {
                None
            }
        },
        Some(s) => {
            if first != 'l' {
                None
            } else if s == 'r' {
                Some("lr")
            } else if s == 'g' {
                Some("lg")
            } else if s == 'b' {
                Some("lb")
            } else if s == 'c' {
                Some("lc")
            } else if s == 'm' {
                Some("lm")
            } else if s == 'y' {
                Some("ly")
            } else {
                None
            }
        },
    };
    proof {
        match r {
            Some(code) => {
                assert(code@ =~= wanted);
            },
            None => {
                assert(wanted.len() == 1 ==> wanted[0] == first);
                assert(wanted.len() == 2 ==> wanted[0] == first && wanted[1] == second.unwrap());
                assert(seq!['l', 'r'][1] == 'r');
                assert(seq!['l', 'g'][1] == 'g');
                assert(seq!['l', 'b'][1] == 'b');
                assert(seq!['l', 'c'][1] == 'c');
                assert(seq!['l', 'm'][1] == 'm');
                assert(seq!['l', 'y'][1] == 'y');
                assert(seq!['l', 'r'][0] == 'l');
                assert(seq!['r'][0] == 'r');
                assert(seq!['g'][0] == 'g');
                assert(seq!['b'][0] == 'b');
                assert(seq!['c'][0] == 'c');
                assert(seq!['m'][0] == 'm');
                assert(seq!['y'][0] == 'y');
                assert(seq!['a'][0] == 'a');
            },
        }
    }
    r
}

impl Sprite {
    pub fn new(name: &'static str) -> (s: Sprite)
        ensures
            s == Sprite::Custom(name),
    {
        Sprite::Custom(name)
    }

    /// The player sprite that a name in lower case stands for, if it is one.
    pub fn parse_player_name(lowered: &str) -> (r: Option<Sprite>)
        ensures
            match player_parts(lowered@) {
                Some((colour, letter)) => r matches Some(Sprite::Player(c, l)) && c@ == colour && l == letter,
                None => r is None,
            },
    {
        let chars = chars_of(lowered);
        let n = chars.len();
        if n < 10 {
            return None;
        }
        if !(chars[0] == 'p' && chars[1] == 'l' && chars[2] == 'a' && chars[3] == 'y' && chars[4]
            == 'e' && chars[5] == 'r' && chars[6] == '_') {
            assert(lowered@.subrange(0, 7) != seq!['p', 'l', 'a', 'y', 'e', 'r', '_']) by {
                let head = lowered@.subrange(0, 7);
                let want = seq!['p', 'l', 'a', 'y', 'e', 'r', '_'];
                if head == want {
                    assert(head[0] == want[0] && head[1] == want[1] && head[2] == want[2]
                        && head[3] == want[3] && head[4] == want[4] && head[5] == want[5]
                        && head[6] == want[6]);
                }
            }
            return None;
        }
        assert(lowered@.subrange(0, 7) =~= seq!['p', 'l', 'a', 'y', 'e', 'r', '_']);
        if chars[n - 2] != '-' {
            return None;
        }
        let letter = chars[n - 1];
        if !ascii_alphabetic(letter) {
            return None;
        }
        let ghost middle = lowered@.subrange(7, n - 2);
        let code = if n == 10 {
            assert(middle =~= seq![chars@[7]]);
            colour_code(chars[7], None)
        } else if n == 11 {
            assert(middle =~= seq![chars@[7], chars@[8]]);
            colour_code(chars[7], Some(chars[8]))
        } else {
            assert(middle.len() > 2);
            None
        };
        match code {
            Some(colour) => Some(Sprite::Player(colour, letter)),
            None => None,
        }
    }

    /// The player sprite that `spritename` stands for once it is put in lower case.
    pub fn player_sprite(spritename: &str) -> (r: Option<Sprite>)
        ensures
            match player_parts(lowercase(spritename@)) {
                Some((colour, letter)) => r matches Some(Sprite::Player(c, l)) && c@ == colour && l == letter,
                None => r is None,
            },
    {
        let lowername = to_lowercase(spritename);
        Sprite::parse_player_name(lowername.as_str())
    }

    pub fn letter_sprite(letter: char) -> (r: Option<Sprite>)
        ensures
            r == (if spec_ascii_graphic(letter) {
                Some(Sprite::Letter(letter))
            } else {
                None
            }),
    {
        if ascii_graphic(letter) {
            Some(Sprite::Letter(letter))
        } else {
            None
        }
    }

    /// The identifier under which the sprite goes over the wire.
    pub fn to_string(&self) -> (r: String)
        ensures
            r@ == self@.name(),
    {
        match *self {
            Sprite::Custom(name) => String::from_str(name),
            Sprite::Letter(letter) => {
                let mut out = String::from_str("emptyletter-");
                push_char(&mut out, letter);
                out
            },
            Sprite::Player(colour, letter) => {
                let mut out = String::from_str("player_");
                out.append(colour);
                push_char(&mut out, '-');
                push_char(&mut out, letter);
                out
            },
        }
    }
}

/// The colour codes that a player sprite may have, in their fixed order.
pub open spec fn palette() -> Seq<Seq<char>> {
    seq![
        seq!['r'],
        seq!['g'],
        seq!['b'],
        seq!['c'],
        seq!['m'],
        seq!['y'],
        seq!['l', 'r'],
        seq!['l', 'g'],
        seq!['l', 'b'],
        seq!['l', 'c'],
        seq!['l', 'm'],
        seq!['l', 'y'],
        seq!['a'],
    ]
}

/// The letters of the ready-made player sprites, in their fixed order.
pub open spec fn sprite_letters() -> Seq<char> {
    seq![
        'a', 'b', 'c', 'd', 'e', 'f', 'g', 'h', 'i', 'j', 'k', 'l', 'm', 'n', 'o', 'p', 'q', 'r', 's', 't', 'x', 'y',
        'z', '@',
    ]
}

/// The colour code at place `i` of the palette.
fn colour_at(i: usize) -> (r: &'static str)
    requires
        i < 13,
    ensures
        r@ == palette()[i as int],
{
    proof {
        reveal_strlit("r");
        reveal_strlit("g");
        reveal_strlit("b");
        reveal_strlit("c");
        reveal_strlit("m");
        reveal_strlit("y");
        reveal_strlit("a");
        reveal_strlit("lr");
        reveal_strlit("lg");
        reveal_strlit("lb");
        reveal_strlit("lc");
        reveal_strlit("lm");
        reveal_strlit("ly");
    }
    let r = if i == 0 {
        "r"
    } else if i == 1 {
        "g"
    } else if i == 2 {
        "b"
    } else if i == 3 {
        "c"
    } else if i == 4 {
        "m"
    } else if i == 5 {
        "y"
    } else if i == 6 {
        "lr"
    } else if i == 7 {
        "lg"
    } else if i == 8 {
        "lb"
    } else if i == 9 {
        "lc"
    } else if i == 10 {
        "lm"
    } else if i == 11 {
        "ly"
    } else {
        "a"
    };
    assert(r@ =~= palette()[i as int]);
    r
}

/// The ready-made player sprites: one for each colour of the palette and
/// each of the letters, colour by colour.
pub fn generate_player_sprites() -> (sprites: Vec<Sprite>)
    ensures
        sprites@.len() == 13 * 24,
        forall|c: int, l: int|
            0 <= c < 13 && 0 <= l < 24 ==> (#[trigger] sprites@[c * 24 + l])@ == SpriteView::Player(
                palette()[c],
                sprite_letters()[l],
            ),
{
    let mut letters: Vec<char> = Vec::new();
    letters.push('a');
    letters.push('b');
    letters.push('c');
    letters.push('d');
    letters.push('e');
    letters.push('f');
    letters.push('g');
    letters.push('h');
    letters.push('i');
    letters.push('j');
    letters.push('k');
    letters.push('l');
    letters.push('m');
    letters.push('n');
    letters.push('o');
    letters.push('p');
    letters.push('q');
    letters.push('r');
    letters.push('s');
    letters.push('t');
    letters.push('x');
    letters.push('y');
    letters.push('z');
    letters.push('@');
    assert(letters@ =~= sprite_letters());
    let mut sprites: Vec<Sprite> = Vec::new();
    let mut c: usize = 0;
    while c < 13
        invariant
            c <= 13,
            letters@ == sprite_letters(),
            sprites@.len() == c * 24,
            forall|i: int, l: int|
                0 <= i < c && 0 <= l < 24 ==> (#[trigger] sprites@[i * 24 + l])@ == SpriteView::Player(
                    palette()[i],
                    sprite_letters()[l],
                ),
        decreases 13 - c,
    {
        let colour = colour_at(c);
        let mut l: usize = 0;
        while l < 24
            invariant
                c < 13,
                l <= 24,
                colour@ == palette()[c as int],
                letters@ == sprite_letters(),
                sprites@.len() == c * 24 + l,
                forall|i: int, k: int|
                    0 <= i < c && 0 <= k < 24 ==> (#[trigger] sprites@[i * 24 + k])@ == SpriteView::Player(
                        palette()[i],
                        sprite_letters()[k],
                    ),
                forall|k: int|
                    0 <= k < l ==> (#[trigger] sprites@[c * 24 + k])@ == SpriteView::Player(
                        palette()[c as int],
                        sprite_letters()[k],
                    ),
            decreases 24 - l,
        {
            let ghost before = sprites@;
            sprites.push(Sprite::Player(colour, letters[l]));
            proof {
                assert forall|i: int, k: int|
                    0 <= i < c && 0 <= k < 24 implies
                    (#[trigger] sprites@[i * 24 + k])@ == SpriteView::Player(palette()[i], sprite_letters()[k]) by {
                    assert(i * 24 + k < c * 24) by (nonlinear_arith)
                        requires
                            0 <= i < c,
                            0 <= k < 24,
                    ;
                    assert(sprites@[i * 24 + k] == before[i * 24 + k]);
                }
                assert forall|k: int|
                    0 <= k < l + 1 implies
                    (#[trigger] sprites@[c * 24 + k])@ == SpriteView::Player(palette()[c as int], sprite_letters()[k]) by {
                    if k < l {
                        assert(sprites@[c * 24 + k] == before[c * 24 + k]);
                    }
                }
            }
            l += 1;
        }
        c += 1;
    }
    sprites
}

} // verus!
