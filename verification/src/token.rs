//! Identifier tokens: short random strings for a host that brings no id of
//! its own.

use vstd::prelude::*;

verus! {

/// The number of characters in a generated id.
pub const ID_LENGTH: usize = 8;

/// An ASCII letter or digit.
pub open spec fn is_alphanumeric(c: char) -> bool {
    ||| '0' <= c <= '9'
    ||| 'A' <= c <= 'Z'
    ||| 'a' <= c <= 'z'
}

/// A lower-case ASCII letter or a digit.
pub open spec fn is_lower_alphanumeric(c: char) -> bool {
    ||| '0' <= c <= '9'
    ||| 'a' <= c <= 'z'
}

/// `c` in lower case where it is an upper-case ASCII letter, else `c`.
pub open spec fn lowered(c: char) -> char {
    if 'A' <= c <= 'Z' {
        ((c as u8) + 32) as char
    } else {
        c
    }
}

/// What an id looks like: `ID_LENGTH` characters, each a lower-case ASCII
/// letter or a digit.
pub open spec fn is_id(token: Seq<char>) -> bool {
    &&& token.len() == ID_LENGTH
    &&& forall|i: int| 0 <= i < token.len() ==> is_lower_alphanumeric(#[trigger] token[i])
}

/// `String::push` of std, taken on trust: the string afterwards is the
/// string before with `c` appended.
pub assume_specification[ String::push ](text: &mut String, c: char)
    ensures
        final(text)@ == old(text)@.push(c),
;

/// Draws one character with `rand::Rng::sample` from the distribution
/// `rand::distributions::Alphanumeric`, on the generator that
/// `rand::thread_rng` gives. Taken on trust: the character is one of the 62
/// ASCII letters and digits, the set that the distribution picks from.
/// Which of them comes, nothing says. The call takes no input; it fails
/// only where the system has no seed for the generator.
#[verifier::external_body]
fn sample_alphanumeric() -> (c: char)
    ensures
        is_alphanumeric(c),
{
    rand::Rng::sample(&mut rand::thread_rng(), rand::distributions::Alphanumeric)
}

/// Lowers one character.
pub fn lower(c: char) -> (l: char)
    ensures
        l == lowered(c),
{
    if 'A' <= c && c <= 'Z' {
        ((c as u8) + 32) as char
    } else {
        c
    }
}

/// The string of the sampled characters, each in lower case.
pub fn token_of(samples: &Vec<char>) -> (token: String)
    ensures
        token@ == samples@.map_values(|c: char| lowered(c)),
{
    let mut token = String::new();
    let mut i: usize = 0;
    while i < samples.len()
        invariant
            i <= samples@.len(),
            token@ == samples@.take(i as int).map_values(|c: char| lowered(c)),
        decreases samples@.len() - i,
    {
        token.push(lower(samples[i]));
        assert(token@ =~= samples@.take(i as int + 1).map_values(|c: char| lowered(c)));
        i += 1;
    }
    assert(samples@.take(i as int) =~= samples@);
    token
}

/// A fresh random id.
pub fn id() -> (token: String)
    ensures
        is_id(token@),
{
    let mut samples: Vec<char> = Vec::new();
    while samples.len() < ID_LENGTH
        invariant
            samples@.len() <= ID_LENGTH,
            forall|i: int| 0 <= i < samples@.len() ==> is_alphanumeric(#[trigger] samples@[i]),
        decreases ID_LENGTH - samples@.len(),
    {
        samples.push(sample_alphanumeric());
    }
    token_of(&samples)
}

} // verus!
