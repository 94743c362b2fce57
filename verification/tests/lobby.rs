use battilde::lobby::{check_name, judge_name, NameRefusal};

#[test]
fn plain_names_are_taken() {
    assert_eq!(check_name("troido", None, false, false), Ok(()));
    assert_eq!(check_name("a", None, false, false), Ok(()));
    assert_eq!(check_name("player_1", Some("someone"), false, false), Ok(()));
    assert_eq!(check_name("Ünïcödé", None, false, false), Ok(()));
    assert_eq!(check_name("名前", None, false, false), Ok(()));
    assert_eq!(check_name("n٣", None, false, false), Ok(()));
    assert_eq!(check_name("a‿b", None, false, false), Ok(()));
    assert_eq!(check_name("_", None, false, false), Ok(()));
    assert_eq!(check_name("007", None, false, false), Ok(()));
}

#[test]
fn names_have_a_length() {
    assert_eq!(check_name("", None, false, false), Err(NameRefusal::Empty));
    let longest = "a".repeat(99);
    assert_eq!(check_name(&longest, None, false, false), Ok(()));
    let too_long = "a".repeat(100);
    assert_eq!(check_name(&too_long, None, false, false), Err(NameRefusal::TooLong));
    let wide = "é".repeat(50);
    assert_eq!(check_name(&wide, None, false, false), Err(NameRefusal::TooLong));
    let fits = "é".repeat(49);
    assert_eq!(check_name(&fits, None, false, false), Ok(()));
    let bad_and_long = "!".repeat(100);
    assert_eq!(check_name(&bad_and_long, None, true, true), Err(NameRefusal::TooLong));
}

#[test]
fn names_consist_of_letters_numbers_and_connectors() {
    for name in vec!["a b", "a-b", "a!", "~", "a~", "a.b", " ", "a\n", "a\u{0}", "😀", "a+b", "(a)"] {
        if name.starts_with('~') {
            continue;
        }
        assert_eq!(check_name(name, None, false, false), Err(NameRefusal::Character), "{:?}", name);
    }
    assert_eq!(check_name("ab!", Some("ab!"), true, true), Err(NameRefusal::Character));
}

#[test]
fn tilde_names_are_vouched_for() {
    assert_eq!(check_name("~tom", Some("tom"), false, false), Ok(()));
    assert_eq!(check_name("~tom", None, false, false), Err(NameRefusal::TildeMismatch));
    assert_eq!(check_name("~tom", Some("tim"), false, false), Err(NameRefusal::TildeMismatch));
    assert_eq!(check_name("~tom", Some("to"), false, false), Err(NameRefusal::TildeMismatch));
    assert_eq!(check_name("~tom", Some("tomm"), false, false), Err(NameRefusal::TildeMismatch));
    assert_eq!(check_name("~tom", Some("~tom"), false, false), Err(NameRefusal::TildeMismatch));
    assert_eq!(check_name("~", Some(""), false, false), Ok(()));
    assert_eq!(check_name("~", None, false, false), Err(NameRefusal::TildeMismatch));
    assert_eq!(check_name("~a b!", Some("a b!"), false, false), Ok(()));
    assert_eq!(check_name("~é", Some("é"), false, false), Ok(()));
}

#[test]
fn a_connection_has_one_name_and_a_name_one_connection() {
    assert_eq!(check_name("tom", None, true, false), Err(NameRefusal::Change));
    assert_eq!(check_name("tom", None, false, true), Err(NameRefusal::Taken));
    assert_eq!(check_name("tom", None, true, true), Err(NameRefusal::Change));
    assert_eq!(check_name("~tom", Some("tom"), false, true), Err(NameRefusal::Taken));
}

#[test]
fn refusals_have_their_words() {
    assert_eq!(NameRefusal::TooLong.typ(), "invalidname");
    assert_eq!(NameRefusal::Empty.typ(), "invalidname");
    assert_eq!(NameRefusal::TildeMismatch.typ(), "invalidname");
    assert_eq!(NameRefusal::Character.typ(), "invalidname");
    assert_eq!(NameRefusal::Change.typ(), "invalidaction");
    assert_eq!(NameRefusal::Taken.typ(), "nametaken");
    assert_eq!(NameRefusal::TooLong.text(), "A name can not be longer than 99 bytes");
    assert_eq!(NameRefusal::Empty.text(), "A name must have at least one character");
    assert_eq!(NameRefusal::TildeMismatch.text(), "A tilde name must match your username");
    assert_eq!(NameRefusal::Character.text(), "A name can only contain letters, numbers and underscores");
    assert_eq!(NameRefusal::Change.text(), "You can not change your name");
    assert_eq!(NameRefusal::Taken.text(), "Another connection to this player exists already");
}

#[test]
fn judge_name_goes_by_what_it_is_told_of_the_characters() {
    let chars = vec!['a', '!', 'b'];
    assert_eq!(judge_name(3, &chars, &vec![true, true, true], None, false, false), Ok(()));
    assert_eq!(judge_name(3, &chars, &vec![true, false, true], None, false, false), Err(NameRefusal::Character));
    assert_eq!(judge_name(100, &chars, &vec![true, true, true], None, false, false), Err(NameRefusal::TooLong));
    assert_eq!(judge_name(0, &Vec::new(), &Vec::new(), None, false, false), Err(NameRefusal::Empty));
    let tilde = vec!['~', 'x', 'y'];
    let user = vec!['x', 'y'];
    let other = vec!['x', 'z'];
    assert_eq!(judge_name(3, &tilde, &vec![false, false, false], Some(&user), false, false), Ok(()));
    assert_eq!(
        judge_name(3, &tilde, &vec![true, true, true], Some(&other), false, false),
        Err(NameRefusal::TildeMismatch)
    );
    assert_eq!(judge_name(3, &tilde, &vec![true, true, true], None, false, false), Err(NameRefusal::TildeMismatch));
    assert_eq!(judge_name(3, &chars, &vec![true, true, true], None, true, true), Err(NameRefusal::Change));
    assert_eq!(judge_name(3, &chars, &vec![true, true, true], None, false, true), Err(NameRefusal::Taken));
}

#[test]
fn connectors_are_ten_characters() {
    let connectors = vec![
        '\u{005F}', '\u{203F}', '\u{2040}', '\u{2054}', '\u{FE33}', '\u{FE34}', '\u{FE4D}', '\u{FE4E}', '\u{FE4F}',
        '\u{FF3F}',
    ];
    for c in connectors {
        let name = format!("a{}b", c);
        assert_eq!(check_name(&name, None, false, false), Ok(()), "{:?}", c);
    }
    for c in vec!['\u{005E}', '\u{0060}', '\u{2010}', '\u{203E}', '\u{2041}', '\u{2055}', '\u{FE32}', '\u{FE35}', '\u{FE4C}', '\u{FE50}', '\u{FF3E}'] {
        let name = format!("a{}b", c);
        assert_eq!(check_name(&name, None, false, false), Err(NameRefusal::Character), "{:?}", c);
    }
}
