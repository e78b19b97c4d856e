//! Drawing a password of a requested length uniformly from a built alphabet.

use vstd::prelude::*;

use rand::Rng;

use crate::alphabet::Alphabet;
use crate::options::MAX_PASSWORD_LENGTH;

verus! {

/// Why a sampling request was rejected.
#[derive(Clone, Copy, Debug, PartialEq, Eq, Structural)]
pub enum GenerationError {
    /// Every character class was disabled, so there is nothing to draw from.
    EmptyAlphabet,
    /// The requested length is zero or above `MAX_PASSWORD_LENGTH`.
    InvalidLength,
}

/// Relies on `rand::Rng::gen_range` over `0..bound` on `rand::thread_rng`:
/// it returns a uniformly distributed index below `bound`, and panics only
/// on an empty range, which the precondition rules out. Nothing more is
/// assumed of the result: it is freshly random on every call.
#[verifier::external_body]
fn random_index(bound: usize) -> (r: usize)
    requires
        bound > 0,
    ensures
        r < bound,
{
    rand::thread_rng().gen_range(0..bound)
}

/// Relies on `String::push`: it appends exactly the given character.
#[verifier::external_body]
fn push_char(s: &mut String, c: char)
    ensures
        final(s)@ == old(s)@.push(c),
{
    s.push(c)
}

/// Draws passwords from an alphabet, one independently and uniformly chosen
/// character at a time.
pub struct PasswordSampler;

impl PasswordSampler {
    /// Samples a password of exactly `length` characters, each drawn with
    /// replacement from the full index range of `alphabet`. An empty
    /// alphabet is rejected before an invalid length.
    pub fn sample(alphabet: &Alphabet, length: u8) -> (r: Result<String, GenerationError>)
        ensures
            alphabet@.len() == 0 <==> r == Err::<String, GenerationError>(
                GenerationError::EmptyAlphabet,
            ),
            alphabet@.len() > 0 && (length == 0 || length > MAX_PASSWORD_LENGTH) <==> r
                == Err::<String, GenerationError>(GenerationError::InvalidLength),
            r is Ok <==> alphabet@.len() > 0 && 1 <= length <= MAX_PASSWORD_LENGTH,
            r matches Ok(p) ==> p@.len() == length && (forall|i: int|
                0 <= i < p@.len() ==> alphabet@.contains(#[trigger] p@[i])),
    {
        if alphabet.is_empty() {
            return Err(GenerationError::EmptyAlphabet);
        }
        if length == 0 || length > MAX_PASSWORD_LENGTH {
            return Err(GenerationError::InvalidLength);
        }

        let mut password = String::new();
        let alphabet_len = alphabet.len();
        let mut drawn: u8 = 0;
        while drawn < length
            invariant
                drawn <= length,
                alphabet_len == alphabet@.len(),
                alphabet_len > 0,
                password@.len() == drawn,
                forall|i: int| 0 <= i < password@.len() ==> alphabet@.contains(
                    #[trigger] password@[i],
                ),
            decreases length - drawn,
        {
            let index = random_index(alphabet_len);
            let c = alphabet.characters[index];
            push_char(&mut password, c);
            drawn = drawn + 1;
        }
        Ok(password)
    }
}

} // verus!
