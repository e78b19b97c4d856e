//! Generation options: which character classes are enabled and how long the
//! generated password should be.

use vstd::prelude::*;

verus! {

/// The default length of a generated password.
pub const DEFAULT_PASSWORD_LENGTH: u8 = 16;

/// The largest password length the sampler accepts.
pub const MAX_PASSWORD_LENGTH: u8 = 128;

/// Which character classes may appear in a generated password, and the
/// requested password length. Supported lengths are `1..=MAX_PASSWORD_LENGTH`.
#[derive(Clone, Copy, Debug, PartialEq, Eq, Structural)]
pub struct RandomPasswordOptions {
    pub include_lowercase: bool,
    pub include_numbers: bool,
    pub include_special_characters: bool,
    pub include_uppercase: bool,
    pub length: u8,
}

/// The same options under the name the application-state code uses.
pub type PasswordGeneratorOptions = RandomPasswordOptions;

/// At least one character class is enabled, so an alphabet built from these
/// options is non-empty.
pub open spec fn any_class_enabled(o: RandomPasswordOptions) -> bool {
    o.include_lowercase || o.include_uppercase || o.include_numbers
        || o.include_special_characters
}

/// The options a fresh generator starts with: every class enabled, at the
/// default length.
pub open spec fn default_options() -> RandomPasswordOptions {
    RandomPasswordOptions {
        include_lowercase: true,
        include_numbers: true,
        include_special_characters: true,
        include_uppercase: true,
        length: DEFAULT_PASSWORD_LENGTH,
    }
}

impl Default for RandomPasswordOptions {
    /// All character classes enabled, at the default length.
    fn default() -> (o: Self)
        ensures
            o == default_options(),
    {
        Self {
            include_lowercase: true,
            include_numbers: true,
            include_special_characters: true,
            include_uppercase: true,
            length: DEFAULT_PASSWORD_LENGTH,
        }
    }
}

} // verus!
