//! Name validation: which folder and file names the store accepts.
use vstd::prelude::*;
use vstd::utf8::encode_utf8;

verus! {

/// The longest name the store accepts, in bytes of its UTF-8 encoding.
pub const MAX_NAME_BYTES: usize = 255;

/// Why a name was rejected.
#[derive(Debug, Clone, Copy, PartialEq, Eq, Structural)]
pub enum InvalidName {
    /// The name holds a forbidden character or a control character.
    IllegalCharacter,
    /// The name is, up to ASCII case, one of the reserved names.
    ReservedName,
    /// The name is longer than [`MAX_NAME_BYTES`] bytes.
    TooLong,
}

/// Control characters: the code points of the general category `Cc`.
pub open spec fn is_control(c: char) -> bool {
    c as u32 <= 0x1f || 0x7f <= c as u32 <= 0x9f
}

/// The characters that no name may hold, besides control characters.
pub open spec fn is_forbidden_char(c: char) -> bool {
    c == '<' || c == '>' || c == ':' || c == '"' || c == '/' || c == '\\' || c == '|' || c == '?'
        || c == '*' || c == ',' || c == ';' || c == '=' || c == '(' || c == ')' || c == '&' || c
        == '#' || c == '\''
}

/// A character that makes a name unusable wherever it stands.
pub open spec fn is_illegal_char(c: char) -> bool {
    is_forbidden_char(c) || is_control(c)
}

/// Some character of `name` is illegal.
pub open spec fn has_illegal_char(name: Seq<char>) -> bool {
    exists|i: int| 0 <= i < name.len() && is_illegal_char(#[trigger] name[i])
}

/// Whether `c` is illegal in a name.
pub fn illegal_char(c: char) -> (res: bool)
    ensures
        res == is_illegal_char(c),
{
    let code: u32 = c as u32;
    c == '<' || c == '>' || c == ':' || c == '"' || c == '/' || c == '\\' || c == '|' || c == '?'
        || c == '*' || c == ',' || c == ';' || c == '=' || c == '(' || c == ')' || c == '&' || c
        == '#' || c == '\'' || code <= 0x1f || (0x7f <= code && code <= 0x9f)
}

/// ASCII letters folded to upper case; every other character unchanged.
pub open spec fn ascii_upper(c: char) -> char {
    if 'a' <= c <= 'z' {
        ((c as u8 - 32) as u8) as char
    } else {
        c
    }
}

/// `name` with its ASCII letters folded to upper case.
pub open spec fn folded(name: Seq<char>) -> Seq<char> {
    Seq::new(name.len(), |i: int| ascii_upper(name[i]))
}

/// The reserved names: `CON`, `PRN`, `AUX`, `NUL`, `COM1` to `COM9` and
/// `LPT1` to `LPT9`, in any mix of upper and lower case.
pub open spec fn is_reserved(name: Seq<char>) -> bool {
    let u = folded(name);
    ||| u == seq!['C', 'O', 'N']
    ||| u == seq!['P', 'R', 'N']
    ||| u == seq!['A', 'U', 'X']
    ||| u == seq!['N', 'U', 'L']
    ||| u.len() == 4 && u[0] == 'C' && u[1] == 'O' && u[2] == 'M' && '1' <= u[3] <= '9'
    ||| u.len() == 4 && u[0] == 'L' && u[1] == 'P' && u[2] == 'T' && '1' <= u[3] <= '9'
}

/// The name's UTF-8 encoding is longer than [`MAX_NAME_BYTES`].
pub open spec fn is_too_long(name: Seq<char>) -> bool {
    encode_utf8(name).len() > MAX_NAME_BYTES
}

/// What the validation finds: the first rule that `name` breaks, if any.
pub open spec fn name_verdict(name: Seq<char>) -> Result<(), InvalidName> {
    if has_illegal_char(name) {
        Err(InvalidName::IllegalCharacter)
    } else if is_reserved(name) {
        Err(InvalidName::ReservedName)
    } else if is_too_long(name) {
        Err(InvalidName::TooLong)
    } else {
        Ok(())
    }
}

/// A name that the store accepts.
pub open spec fn valid_name(name: Seq<char>) -> bool {
    !has_illegal_char(name) && !is_reserved(name) && !is_too_long(name)
}

/// `c` with an ASCII letter folded to upper case.
pub fn to_ascii_upper(c: char) -> (res: char)
    ensures
        res == ascii_upper(c),
{
    if 'a' <= c && c <= 'z' {
        let b: u8 = c as u8;
        (b - 32) as char
    } else {
        c
    }
}

/// Whether some character of `name` is illegal.
pub fn contains_illegal_char(name: &str) -> (res: bool)
    ensures
        res == has_illegal_char(name@),
{
    let mut found = false;
    for c in it: name.chars()
        invariant
            it.seq() == name@,
            found == exists|i: int| 0 <= i < it.index() && is_illegal_char(#[trigger] name@[i]),
    {
        if illegal_char(c) {
            found = true;
        }
    }
    found
}

/// Whether `name` is one of the reserved names, in any ASCII case.
pub fn reserved_name(name: &str) -> (res: bool)
    ensures
        res == is_reserved(name@),
{
    let n = name.unicode_len();
    proof {
        assert(folded(name@).len() == n);
        assert(seq!['C', 'O', 'N'].len() == 3 && seq!['P', 'R', 'N'].len() == 3);
        assert(seq!['A', 'U', 'X'].len() == 3 && seq!['N', 'U', 'L'].len() == 3);
    }
    if n == 3 {
        let a = to_ascii_upper(name.get_char(0));
        let b = to_ascii_upper(name.get_char(1));
        let c = to_ascii_upper(name.get_char(2));
        proof {
            assert(folded(name@) =~= seq![a, b, c]);
            lemma_three(a, b, c, 'C', 'O', 'N');
            lemma_three(a, b, c, 'P', 'R', 'N');
            lemma_three(a, b, c, 'A', 'U', 'X');
            lemma_three(a, b, c, 'N', 'U', 'L');
        }
        (a == 'C' && b == 'O' && c == 'N') || (a == 'P' && b == 'R' && c == 'N') || (a == 'A' && b
            == 'U' && c == 'X') || (a == 'N' && b == 'U' && c == 'L')
    } else if n == 4 {
        let a = to_ascii_upper(name.get_char(0));
        let b = to_ascii_upper(name.get_char(1));
        let c = to_ascii_upper(name.get_char(2));
        let d = to_ascii_upper(name.get_char(3));
        let device = (a == 'C' && b == 'O' && c == 'M') || (a == 'L' && b == 'P' && c == 'T');
        device && '1' <= d && d <= '9'
    } else {
        false
    }
}

proof fn lemma_three(a: char, b: char, c: char, x: char, y: char, z: char)
    ensures
        seq![a, b, c] == seq![x, y, z] <==> a == x && b == y && c == z,
{
    if a == x && b == y && c == z {
        assert(seq![a, b, c] =~= seq![x, y, z]);
    }
    if seq![a, b, c] == seq![x, y, z] {
        assert(seq![a, b, c][0] == seq![x, y, z][0]);
        assert(seq![a, b, c][1] == seq![x, y, z][1]);
        assert(seq![a, b, c][2] == seq![x, y, z][2]);
    }
}

impl InvalidName {
    /// The text shown to the caller: the rule that was broken, with the
    /// whole list of what that rule forbids.
    pub open spec fn text(self) -> Seq<char> {
        match self {
            InvalidName::IllegalCharacter =>
                "You used illegal character in name.\nList of illegal chars: '<', '>', ':', '\"', '/', '\\', '|', '?', '*', ',', ';', '=', '(', ')', '&', '#', '''"@,
            InvalidName::ReservedName =>
                "You used illegal name.\nList of illegal names: 'CON', 'PRN', 'AUX', 'NUL', 'COM1', 'COM2', 'COM3', 'COM4', 'COM5', 'COM6', 'COM7', 'COM8', 'COM9', 'LPT1', 'LPT2', 'LPT3', 'LPT4', 'LPT5', 'LPT6', 'LPT7', 'LPT8', 'LPT9'"@,
            InvalidName::TooLong => "Name is too long"@,
        }
    }

    /// The message for this rejection.
    pub fn message(&self) -> (res: String)
        ensures
            res@ == self.text(),
    {
        match self {
            InvalidName::IllegalCharacter => String::from_str(
                "You used illegal character in name.\nList of illegal chars: '<', '>', ':', '\"', '/', '\\', '|', '?', '*', ',', ';', '=', '(', ')', '&', '#', '''",
            ),
            InvalidName::ReservedName => String::from_str(
                "You used illegal name.\nList of illegal names: 'CON', 'PRN', 'AUX', 'NUL', 'COM1', 'COM2', 'COM3', 'COM4', 'COM5', 'COM6', 'COM7', 'COM8', 'COM9', 'LPT1', 'LPT2', 'LPT3', 'LPT4', 'LPT5', 'LPT6', 'LPT7', 'LPT8', 'LPT9'",
            ),
            InvalidName::TooLong => String::from_str("Name is too long"),
        }
    }
}

/// Validates a folder or file name before it reaches the database or the
/// disk.
///
/// A name is rejected when it holds a forbidden or control character, when
/// it is a reserved name in any ASCII case, or when it is longer than
/// [`MAX_NAME_BYTES`] bytes; the rules are tried in this order and the
/// first one broken is reported. Every other name is accepted.
pub fn check_name(name: &str) -> (res: Result<(), InvalidName>)
    ensures
        res == name_verdict(name@),
        res is Ok <==> valid_name(name@),
        has_illegal_char(name@) ==> res is Err,
        is_reserved(name@) ==> res is Err,
{
    if contains_illegal_char(name) {
        return Err(InvalidName::IllegalCharacter);
    }
    if reserved_name(name) {
        return Err(InvalidName::ReservedName);
    }
    if name.as_bytes().len() > MAX_NAME_BYTES {
        return Err(InvalidName::TooLong);
    }
    Ok(())
}

/// Reservedness looks only at the ASCII-case-folded name: a name that
/// differs from a reserved one in the case of ASCII letters alone is
/// reserved too, and so rejected.
pub proof fn lemma_reserved_ignores_ascii_case(name: Seq<char>, other: Seq<char>)
    requires
        is_reserved(other),
        name.len() == other.len(),
        forall|i: int| 0 <= i < name.len() ==> ascii_upper(name[i]) == ascii_upper(other[i]),
    ensures
        is_reserved(name),
        name_verdict(name) is Err,
{
    assert(folded(name) =~= folded(other));
}

/// A name with an illegal character anywhere is rejected, whatever else
/// it holds.
pub proof fn lemma_illegal_char_rejected(name: Seq<char>, i: int)
    requires
        0 <= i < name.len(),
        is_illegal_char(name[i]),
    ensures
        name_verdict(name) == Err::<(), InvalidName>(InvalidName::IllegalCharacter),
{
}

} // verus!
