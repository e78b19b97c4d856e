//! The application-facing generator state: the live options, the password
//! on display, and the recent-password history, with the operations the
//! event loop invokes on them.

use vstd::prelude::*;

use crate::alphabet::AlphabetBuilder;
use crate::alphabet::alphabet_spec;
use crate::history::RecentHistory;
use crate::history::canonical;
use crate::history::record_spec;
use crate::options::DEFAULT_PASSWORD_LENGTH;
use crate::options::MAX_PASSWORD_LENGTH;
use crate::options::RandomPasswordOptions;
use crate::options::any_class_enabled;
use crate::options::default_options;
use crate::persist::encode_history;
use crate::persist::json_array_of;
use crate::persist::load_history;
use crate::persist::loaded_history_spec;
use crate::sampler::PasswordSampler;

verus! {

/// A freshly generated password together with the alphabet it was drawn
/// from.
#[derive(Clone, Debug)]
pub struct RandomPassword {
    pub characters: Vec<char>,
    pub password: String,
}

impl RandomPassword {
    /// Builds the alphabet the options call for and draws a password of the
    /// requested length from it.
    pub fn new(options: RandomPasswordOptions) -> (r: Self)
        requires
            any_class_enabled(options),
            1 <= options.length <= MAX_PASSWORD_LENGTH,
        ensures
            r.characters@ == alphabet_spec(options),
            r.characters@.no_duplicates(),
            r.password@.len() == options.length,
            forall|i: int| 0 <= i < r.password@.len() ==> alphabet_spec(options).contains(
                #[trigger] r.password@[i],
            ),
    {
        let alphabet = AlphabetBuilder::build(&options);
        proof {
            crate::alphabet::lemma_alphabet_empty_iff_no_class(options);
        }
        match PasswordSampler::sample(&alphabet, options.length) {
            Ok(password) => RandomPassword { characters: alphabet.characters, password },
            Err(_) => vstd::pervasive::unreached(),
        }
    }
}

impl Default for RandomPassword {
    /// A password drawn with every class enabled at the default length.
    fn default() -> (r: Self)
        ensures
            r.characters@ == alphabet_spec(default_options()),
            r.password@.len() == DEFAULT_PASSWORD_LENGTH,
            forall|i: int| 0 <= i < r.password@.len() ==> alphabet_spec(
                default_options(),
            ).contains(#[trigger] r.password@[i]),
    {
        Self::new(RandomPasswordOptions::default())
    }
}

/// The whole application state: what the operator has configured, what is
/// on display, and what was generated recently.
#[derive(Clone, Debug)]
pub struct PasswordGenerator {
    pub options: RandomPasswordOptions,
    pub password: String,
    pub recent_passwords: RecentHistory,
}

impl PasswordGenerator {
    /// The state is well formed: its history is within capacity and free of
    /// duplicates.
    pub open spec fn wf(self) -> bool {
        canonical(self.recent_passwords@)
    }

    /// Handles a generate request. With no character class enabled the
    /// password field is replaced by an explanatory message and the history
    /// is untouched; otherwise a fresh password of the configured length is
    /// drawn and recorded as the most recent history entry.
    pub fn generate(&mut self)
        requires
            old(self).wf(),
            1 <= old(self).options.length <= MAX_PASSWORD_LENGTH,
        ensures
            final(self).wf(),
            final(self).options == old(self).options,
            !any_class_enabled(old(self).options) ==> {
                &&& final(self).password@ == "At least one of checkboxes should be checked"@
                &&& final(self).recent_passwords@ == old(self).recent_passwords@
            },
            any_class_enabled(old(self).options) ==> {
                &&& final(self).password@.len() == old(self).options.length
                &&& forall|i: int|
                    0 <= i < final(self).password@.len() ==> alphabet_spec(
                        old(self).options,
                    ).contains(#[trigger] final(self).password@[i])
                &&& final(self).recent_passwords@ == record_spec(
                    old(self).recent_passwords@,
                    final(self).password@,
                )
            },
    {
        let any = self.options.include_lowercase || self.options.include_uppercase
            || self.options.include_numbers || self.options.include_special_characters;
        if !any {
            self.password = "At least one of checkboxes should be checked".to_owned();
            return ;
        }
        let fresh = RandomPassword::new(self.options);
        self.password = fresh.password;
        self.recent_passwords.record(self.password.clone());
    }

    /// The save step: the password on display becomes the most recent
    /// history entry, and the payload to persist comes back.
    pub fn save_payload(&mut self) -> (r: String)
        requires
            old(self).wf(),
        ensures
            final(self).wf(),
            final(self).options == old(self).options,
            final(self).password == old(self).password,
            final(self).recent_passwords@ == record_spec(
                old(self).recent_passwords@,
                old(self).password@,
            ),
            r@ == json_array_of(final(self).recent_passwords@),
    {
        self.recent_passwords.record(self.password.clone());
        encode_history(&self.recent_passwords)
    }

    /// The startup state: default options, a freshly drawn password, and
    /// the history the persisted payload stands for.
    pub fn from_saved(payload: Option<String>) -> (g: Self)
        ensures
            g.wf(),
            g.options == default_options(),
            g.password@.len() == DEFAULT_PASSWORD_LENGTH,
            forall|i: int| 0 <= i < g.password@.len() ==> alphabet_spec(
                default_options(),
            ).contains(#[trigger] g.password@[i]),
            g.recent_passwords@ == loaded_history_spec(payload.deep_view()),
    {
        let fresh = RandomPassword::default();
        PasswordGenerator {
            options: RandomPasswordOptions::default(),
            password: fresh.password,
            recent_passwords: load_history(payload),
        }
    }
}

impl Default for PasswordGenerator {
    /// The state before any persisted history is loaded: default options, a
    /// freshly drawn password, and an empty history.
    fn default() -> (g: Self)
        ensures
            g.wf(),
            g.options == default_options(),
            g.password@.len() == DEFAULT_PASSWORD_LENGTH,
            forall|i: int| 0 <= i < g.password@.len() ==> alphabet_spec(
                default_options(),
            ).contains(#[trigger] g.password@[i]),
            g.recent_passwords@ == Seq::<Seq<char>>::empty(),
    {
        let fresh = RandomPassword::default();
        PasswordGenerator {
            options: RandomPasswordOptions::default(),
            password: fresh.password,
            recent_passwords: RecentHistory::new(),
        }
    }
}

} // verus!
