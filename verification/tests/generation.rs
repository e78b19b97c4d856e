use password_generator::alphabet::AlphabetBuilder;
use password_generator::generator::PasswordGenerator;
use password_generator::generator::RandomPassword;
use password_generator::options::PasswordGeneratorOptions;
use password_generator::options::RandomPasswordOptions;
use password_generator::sampler::GenerationError;
use password_generator::sampler::PasswordSampler;

#[test]
fn it_generates_lowercase_only_password() {
    let options = RandomPasswordOptions {
        include_lowercase: true,
        include_uppercase: false,
        include_numbers: false,
        include_special_characters: false,
        ..Default::default()
    };

    let random_password = RandomPassword::new(options);

    for character in random_password.password.chars() {
        assert!(character.is_ascii_lowercase());
    }
}

#[test]
fn it_generates_uppercase_only_password() {
    let options = RandomPasswordOptions {
        include_lowercase: false,
        include_uppercase: true,
        include_numbers: false,
        include_special_characters: false,
        ..Default::default()
    };

    let random_password = RandomPassword::new(options);

    for character in random_password.password.chars() {
        assert!(character.is_ascii_uppercase());
    }
}

#[test]
fn it_generates_numbers_only_password() {
    let options = RandomPasswordOptions {
        include_lowercase: false,
        include_uppercase: false,
        include_numbers: true,
        include_special_characters: false,
        ..Default::default()
    };

    let random_password = RandomPassword::new(options);

    for character in random_password.password.chars() {
        assert!(character.is_ascii_digit());
    }
}

#[test]
fn it_generates_special_characters_only_password() {
    let options = RandomPasswordOptions {
        include_lowercase: false,
        include_uppercase: false,
        include_numbers: false,
        include_special_characters: true,
        ..Default::default()
    };

    let random_password = RandomPassword::new(options);

    for character in random_password.password.chars() {
        assert!(character.is_ascii_punctuation());
    }
}

#[test]
fn it_generates_lower_upper_numbers_special_characters_password() {
    let random_password = RandomPassword::default();

    for character in random_password.password.chars() {
        assert!(character.is_ascii_alphanumeric() || character.is_ascii_punctuation());
    }

    assert_eq!(random_password.password.len(), 16);
}

#[test]
fn it_generates_random_password_with_length() {
    let options = RandomPasswordOptions {
        length: 30,
        ..Default::default()
    };

    let random_password = RandomPassword::new(options);

    for character in random_password.password.chars() {
        assert!(
            character.is_ascii_alphanumeric()
                || character.is_ascii_digit()
                || character.is_ascii_punctuation()
        );
    }

    assert_eq!(random_password.password.len(), 30);
}

#[test]
fn default_options_enable_every_class_at_length_sixteen() {
    let options = RandomPasswordOptions::default();
    assert!(options.include_lowercase);
    assert!(options.include_uppercase);
    assert!(options.include_numbers);
    assert!(options.include_special_characters);
    assert_eq!(options.length, 16);
}

#[test]
fn generator_options_name_the_same_options() {
    let options: PasswordGeneratorOptions = PasswordGeneratorOptions {
        include_lowercase: false,
        include_uppercase: true,
        include_numbers: false,
        include_special_characters: false,
        ..Default::default()
    };
    let password = RandomPassword::new(options).password;
    assert_eq!(password.len(), 16);
    assert!(password.chars().all(|c| c.is_ascii_uppercase()));
}

#[test]
fn alphabet_lists_enabled_classes_in_order() {
    let options = RandomPasswordOptions {
        include_lowercase: true,
        include_uppercase: false,
        include_numbers: true,
        include_special_characters: false,
        ..Default::default()
    };
    let alphabet = AlphabetBuilder::build(&options);
    let expected: Vec<char> = ('a'..='z').chain('0'..='9').collect();
    assert_eq!(alphabet.characters, expected);
}

#[test]
fn full_alphabet_has_75_distinct_characters() {
    let options = RandomPasswordOptions::default();
    let alphabet = AlphabetBuilder::build(&options);
    assert_eq!(alphabet.len(), 75);
    let mut seen = alphabet.characters.clone();
    seen.sort();
    seen.dedup();
    assert_eq!(seen.len(), 75);
}

#[test]
fn all_flags_false_build_empty_alphabet_and_sampling_fails() {
    let options = RandomPasswordOptions {
        include_lowercase: false,
        include_uppercase: false,
        include_numbers: false,
        include_special_characters: false,
        ..Default::default()
    };
    let alphabet = AlphabetBuilder::build(&options);
    assert!(alphabet.is_empty());
    assert_eq!(alphabet.len(), 0);
    let sampled = PasswordSampler::sample(&alphabet, 16);
    assert_eq!(sampled, Err(GenerationError::EmptyAlphabet));
}

#[test]
fn zero_and_oversized_lengths_are_rejected() {
    let options = RandomPasswordOptions::default();
    let alphabet = AlphabetBuilder::build(&options);
    assert_eq!(
        PasswordSampler::sample(&alphabet, 0),
        Err(GenerationError::InvalidLength)
    );
    assert_eq!(
        PasswordSampler::sample(&alphabet, 129),
        Err(GenerationError::InvalidLength)
    );
    assert!(PasswordSampler::sample(&alphabet, 128).is_ok());
    assert!(PasswordSampler::sample(&alphabet, 1).is_ok());
}

#[test]
fn sampled_characters_come_from_the_alphabet() {
    let options = RandomPasswordOptions {
        include_lowercase: false,
        include_uppercase: false,
        include_numbers: true,
        include_special_characters: false,
        length: 64,
        ..Default::default()
    };
    let alphabet = AlphabetBuilder::build(&options);
    let password = PasswordSampler::sample(&alphabet, 64).unwrap();
    assert_eq!(password.chars().count(), 64);
    for character in password.chars() {
        assert!(alphabet.characters.contains(&character));
    }
}

#[test]
fn generate_with_no_class_enabled_reports_a_message() {
    let mut state = PasswordGenerator::default();
    state.options.include_lowercase = false;
    state.options.include_uppercase = false;
    state.options.include_numbers = false;
    state.options.include_special_characters = false;
    state.generate();
    assert_eq!(state.password, "At least one of checkboxes should be checked");
    assert_eq!(state.recent_passwords.len(), 0);
}

#[test]
fn generate_records_the_new_password() {
    let mut state = PasswordGenerator::default();
    state.options.length = 20;
    state.generate();
    assert_eq!(state.password.len(), 20);
    assert_eq!(state.recent_passwords.len(), 1);
    assert_eq!(state.recent_passwords.snapshot()[0], state.password);
}
