use vstd::prelude::*;
use vstd::string::StringSliceAdditionalSpecFns;
use crate::text::chars_of;

verus! {

/// What `UnicodeCategories::is_letter` of unicode_categories says of a
/// character: whether its general category is one of the letter categories.
pub uninterp spec fn is_letter(c: char) -> bool;

/// What `UnicodeCategories::is_number` of unicode_categories says of a
/// character: whether its general category is one of the number categories.
pub uninterp spec fn is_number(c: char) -> bool;

/// Whether the character is connector punctuation: the underscore, the
/// undertie, the character tie, the inverted undertie, the two vertical
/// low lines, the three low lines that are dashed, centred or wavy, and the
/// underscore of full width.
pub open spec fn is_connector(c: char) -> bool {
    c == '\u{005F}' || c == '\u{203F}' || c == '\u{2040}' || c == '\u{2054}' || c == '\u{FE33}' || c == '\u{FE34}' || c
        == '\u{FE4D}' || c == '\u{FE4E}' || c == '\u{FE4F}' || c == '\u{FF3F}'
}

/// Calls `UnicodeCategories::is_letter` of unicode_categories, which looks
/// the character up in the tables of the letter categories. The contract
/// names the answer and claims nothing more of it.
#[verifier::external_body]
fn letter(c: char) -> (r: bool)
    ensures
        r == is_letter(c),
{
    unicode_categories::UnicodeCategories::is_letter(c)
}

/// Calls `UnicodeCategories::is_number` of unicode_categories, which looks
/// the character up in the tables of the number categories. The contract
/// names the answer and claims nothing more of it.
#[verifier::external_body]
fn number(c: char) -> (r: bool)
    ensures
        r == is_number(c),
{
    unicode_categories::UnicodeCategories::is_number(c)
}

/// Calls `UnicodeCategories::is_punctuation_connector` of
/// unicode_categories, which looks the character up in the table of that
/// category. The contract claims that the table holds the ten characters
/// of `is_connector` and no other.
#[verifier::external_body]
fn connector(c: char) -> (r: bool)
    ensures
        r == is_connector(c),
{
    unicode_categories::UnicodeCategories::is_punctuation_connector(c)
}

/// Why a name is refused.
#[derive(Debug, Clone, Copy, PartialEq, Eq, Structural)]
pub enum NameRefusal {
    TooLong,
    Empty,
    TildeMismatch,
    Character,
    Change,
    Taken,
}

impl NameRefusal {
    /// The kind of error that the player is told.
    pub open spec fn spec_typ(self) -> &'static str {
        match self {
            NameRefusal::Change => "invalidaction",
            NameRefusal::Taken => "nametaken",
            _ => "invalidname",
        }
    }

    /// The words that the player is told.
    pub open spec fn spec_text(self) -> &'static str {
        match self {
            NameRefusal::TooLong => "A name can not be longer than 99 bytes",
            NameRefusal::Empty => "A name must have at least one character",
            NameRefusal::TildeMismatch => "A tilde name must match your username",
            NameRefusal::Character => "A name can only contain letters, numbers and underscores",
            NameRefusal::Change => "You can not change your name",
            NameRefusal::Taken => "Another connection to this player exists already",
        }
    }

    pub fn typ(&self) -> (r: &'static str)
        ensures
            r == self.spec_typ(),
    {
        match self {
            NameRefusal::Change => "invalidaction",
            NameRefusal::Taken => "nametaken",
            _ => "invalidname",
        }
    }

    pub fn text(&self) -> (r: &'static str)
        ensures
            r == self.spec_text(),
    {
        match self {
            NameRefusal::TooLong => "A name can not be longer than 99 bytes",
            NameRefusal::Empty => "A name must have at least one character",
            NameRefusal::TildeMismatch => "A tilde name must match your username",
            NameRefusal::Character => "A name can only contain letters, numbers and underscores",
            NameRefusal::Change => "You can not change your name",
            NameRefusal::Taken => "Another connection to this player exists already",
        }
    }
}

/// Whether a character can stand in a name: a letter, a number or a
/// connector such as the underscore.
pub open spec fn name_char(c: char) -> bool {
    is_letter(c) || is_number(c) || is_connector(c)
}

/// Why the name is refused, if it is, where `fits` says of each
/// character whether it can stand in a name. A name has at most 99 bytes
/// and at least one character. A name that begins with a tilde must be
/// the tilde and the user name that the transport vouches for; any other
/// name consists of characters that fit. A connection that has a name
/// gets no other, and no name goes to two connections.
pub open spec fn refusal_for(
    name: Seq<char>,
    bytes: int,
    fits: Seq<bool>,
    vouched: Option<Seq<char>>,
    named: bool,
    taken: bool,
) -> Option<NameRefusal> {
    if bytes > 99 {
        Some(NameRefusal::TooLong)
    } else if name.len() == 0 {
        Some(NameRefusal::Empty)
    } else if name[0] == '~' && vouched != Some(name.drop_first()) {
        Some(NameRefusal::TildeMismatch)
    } else if name[0] != '~' && exists|i: int| 0 <= i < fits.len() && !#[trigger] fits[i] {
        Some(NameRefusal::Character)
    } else if named {
        Some(NameRefusal::Change)
    } else if taken {
        Some(NameRefusal::Taken)
    } else {
        None
    }
}

/// Why the name is refused, if it is: as `refusal_for` says, with the
/// letters, numbers and connectors as the characters that fit.
pub open spec fn name_refusal(name: Seq<char>, bytes: int, vouched: Option<Seq<char>>, named: bool, taken: bool) -> Option<NameRefusal> {
    refusal_for(name, bytes, name.map_values(|c: char| name_char(c)), vouched, named, taken)
}

/// The number of bytes of a text as `str::len` counts them.
pub open spec fn byte_length(text: &str) -> int {
    (text.spec_bytes().len() as usize) as int
}

/// Decides whether a connection can take a name of `bytes` bytes that
/// consists of `chars`, see `refusal_for`.
#[verifier::loop_isolation(false)]
pub fn judge_name(
    bytes: usize,
    chars: &Vec<char>,
    fits: &Vec<bool>,
    vouched: Option<&Vec<char>>,
    named: bool,
    taken: bool,
) -> (r: Result<(), NameRefusal>)
    ensures
        r == (match refusal_for(
            chars@,
            bytes as int,
            fits@,
            match vouched {
                Some(v) => Some(v@),
                None => None,
            },
            named,
            taken,
        ) {
            Some(refusal) => Err::<(), NameRefusal>(refusal),
            None => Ok(()),
        }),
{
    if bytes > 99 {
        return Err(NameRefusal::TooLong);
    }
    if chars.len() == 0 {
        return Err(NameRefusal::Empty);
    }
    if chars[0] == '~' {
        let same = match vouched {
            Some(user) => {
                let mut same = user.len() == chars.len() - 1;
                if same {
                    let mut i: usize = 0;
                    while same && i < user.len()
                        invariant
                            user@.len() == chars@.len() - 1,
                            i <= user@.len(),
                            same ==> forall|k: int| 0 <= k < i ==> user@[k] == chars@[k + 1],
                            !same ==> user@ != chars@.drop_first(),
                        decreases user@.len() - i,
                    {
                        if user[i] != chars[i + 1] {
                            same = false;
                            assert(user@[i as int] != chars@.drop_first()[i as int]);
                        }
                        i += 1;
                    }
                    proof {
                        if same {
                            assert(user@ =~= chars@.drop_first());
                        }
                    }
                } else {
                    assert(user@.len() != chars@.drop_first().len());
                }
                same
            },
            None => false,
        };
        if !same {
            return Err(NameRefusal::TildeMismatch);
        }
    } else {
        let mut i: usize = 0;
        while i < fits.len()
            invariant
                i <= fits@.len(),
                forall|k: int| 0 <= k < i ==> #[trigger] fits@[k],
            decreases fits@.len() - i,
        {
            if !fits[i] {
                return Err(NameRefusal::Character);
            }
            i += 1;
        }
    }
    if named {
        Err(NameRefusal::Change)
    } else if taken {
        Err(NameRefusal::Taken)
    } else {
        Ok(())
    }
}

/// Decides whether a connection can take `name`, see `name_refusal`.
/// `vouched` is the user name that the transport vouches for, `named`
/// says whether the connection has a name already, and `taken` whether
/// another connection has this one.
pub fn check_name(name: &str, vouched: Option<&str>, named: bool, taken: bool) -> (r: Result<(), NameRefusal>)
    ensures
        r == (match name_refusal(
            name@,
            byte_length(name),
            match vouched {
                Some(v) => Some(v@),
                None => None,
            },
            named,
            taken,
        ) {
            Some(refusal) => Err::<(), NameRefusal>(refusal),
            None => Ok(()),
        }),
{
    let chars = chars_of(name);
    let mut fits: Vec<bool> = Vec::new();
    let mut i: usize = 0;
    while i < chars.len()
        invariant
            i <= chars@.len(),
            fits@.len() == i,
            forall|k: int| 0 <= k < i ==> fits@[k] == name_char(chars@[k]),
        decreases chars@.len() - i,
    {
        let c = chars[i];
        fits.push(letter(c) || number(c) || connector(c));
        i += 1;
    }
    assert(fits@ =~= name@.map_values(|c: char| name_char(c)));
    match vouched {
        Some(v) => {
            let user = chars_of(v);
            judge_name(name.len(), &chars, &fits, Some(&user), named, taken)
        },
        None => judge_name(name.len(), &chars, &fits, None, named, taken),
    }
}

} // verus!
