//! Building a candidate-character alphabet from the enabled character
//! classes, in the fixed order lowercase, uppercase, digits, specials.

use vstd::prelude::*;

use crate::options::RandomPasswordOptions;

verus! {

/// The `n` consecutive characters whose codes start at `lo`.
pub open spec fn char_range(lo: int, n: int) -> Seq<char> {
    Seq::new(n as nat, |i: int| (lo + i) as char)
}

/// The 26 ASCII lowercase letters, in order.
pub open spec fn lowercase_chars() -> Seq<char> {
    char_range('a' as int, 26)
}

/// The 26 ASCII uppercase letters, in order.
pub open spec fn uppercase_chars() -> Seq<char> {
    char_range('A' as int, 26)
}

/// The 10 ASCII digits, in order.
pub open spec fn digit_chars() -> Seq<char> {
    char_range('0' as int, 10)
}

/// The fixed set of special characters, with no duplicates.
pub open spec fn special_chars() -> Seq<char> {
    seq!['!', '@', '#', '$', '%', '&', '^', '(', ')', '[', ']', '-', '+']
}

/// The alphabet that a set of options determines: the enabled classes,
/// concatenated in the fixed class order.
pub open spec fn alphabet_spec(o: RandomPasswordOptions) -> Seq<char> {
    (if o.include_lowercase {
        lowercase_chars()
    } else {
        Seq::empty()
    }) + (if o.include_uppercase {
        uppercase_chars()
    } else {
        Seq::empty()
    }) + (if o.include_numbers {
        digit_chars()
    } else {
        Seq::empty()
    }) + (if o.include_special_characters {
        special_chars()
    } else {
        Seq::empty()
    })
}

/// `c` is an ASCII lowercase letter.
pub open spec fn is_lowercase_char(c: char) -> bool {
    'a' <= c <= 'z'
}

/// `c` is an ASCII uppercase letter.
pub open spec fn is_uppercase_char(c: char) -> bool {
    'A' <= c <= 'Z'
}

/// `c` is an ASCII digit.
pub open spec fn is_digit_char(c: char) -> bool {
    '0' <= c <= '9'
}

/// `c` belongs to the fixed special-character set.
pub open spec fn is_special_char(c: char) -> bool {
    special_chars().contains(c)
}

/// `c` belongs to one of the character classes that the options enable.
pub open spec fn in_enabled_class(o: RandomPasswordOptions, c: char) -> bool {
    ||| o.include_lowercase && is_lowercase_char(c)
    ||| o.include_uppercase && is_uppercase_char(c)
    ||| o.include_numbers && is_digit_char(c)
    ||| o.include_special_characters && is_special_char(c)
}

proof fn lemma_char_range_contains(lo: int, n: int, c: char)
    requires
        0 <= lo,
        0 <= n,
        lo + n <= 128,
    ensures
        char_range(lo, n).contains(c) <==> lo <= (c as int) && (c as int) < lo + n,
{
    if lo <= (c as int) && (c as int) < lo + n {
        let i = c as int - lo;
        assert(char_range(lo, n)[i] == c);
        assert(char_range(lo, n).contains(c));
    } else {
        assert(char_range(lo, n).len() == n);
        assert forall|i: int|
            0 <= i < char_range(lo, n).len() implies char_range(lo, n)[i] != c by {
            assert(char_range(lo, n)[i] == (lo + i) as char);
            assert(((lo + i) as char) as int == lo + i);
        }
        assert(!char_range(lo, n).contains(c));
    }
}

proof fn lemma_add_contains(a: Seq<char>, b: Seq<char>, c: char)
    ensures
        (a + b).contains(c) <==> a.contains(c) || b.contains(c),
{
    if a.contains(c) {
        let i = choose|i: int| 0 <= i < a.len() && a[i] == c;
        assert((a + b)[i] == c);
    }
    if b.contains(c) {
        let i = choose|i: int| 0 <= i < b.len() && b[i] == c;
        assert((a + b)[a.len() + i] == c);
    }
    if (a + b).contains(c) {
        let i = choose|i: int| 0 <= i < (a + b).len() && (a + b)[i] == c;
        if i < a.len() {
            assert(a[i] == c);
        } else {
            assert(b[i - a.len()] == c);
        }
    }
}

/// The alphabet holds exactly the characters of the enabled classes: a
/// character can appear in it if and only if some enabled class contains it.
pub proof fn lemma_alphabet_membership(o: RandomPasswordOptions, c: char)
    ensures
        alphabet_spec(o).contains(c) <==> in_enabled_class(o, c),
{
    let l = if o.include_lowercase {
        lowercase_chars()
    } else {
        Seq::empty()
    };
    let u = if o.include_uppercase {
        uppercase_chars()
    } else {
        Seq::empty()
    };
    let d = if o.include_numbers {
        digit_chars()
    } else {
        Seq::empty()
    };
    let s = if o.include_special_characters {
        special_chars()
    } else {
        Seq::empty()
    };
    lemma_add_contains(l + u + d, s, c);
    lemma_add_contains(l + u, d, c);
    lemma_add_contains(l, u, c);
    lemma_char_range_contains('a' as int, 26, c);
    lemma_char_range_contains('A' as int, 26, c);
    lemma_char_range_contains('0' as int, 10, c);
}

proof fn lemma_no_dup_append(a: Seq<char>, b: Seq<char>)
    requires
        a.no_duplicates(),
        b.no_duplicates(),
        forall|c: char| !(a.contains(c) && #[trigger] b.contains(c)),
    ensures
        (a + b).no_duplicates(),
{
    assert forall|i: int, j: int|
        0 <= i < (a + b).len() && 0 <= j < (a + b).len() && i != j implies (a + b)[i] != (a
        + b)[j] by {
        if i < a.len() && j < a.len() {
            assert((a + b)[i] == a[i] && (a + b)[j] == a[j]);
        } else if i >= a.len() && j >= a.len() {
            assert((a + b)[i] == b[i - a.len()] && (a + b)[j] == b[j - a.len()]);
        } else if i < a.len() && j >= a.len() {
            assert((a + b)[i] == a[i] && (a + b)[j] == b[j - a.len()]);
            if a[i] == b[j - a.len()] {
                assert(a.contains(a[i]));
                assert(b.contains(a[i]));
            }
        } else {
            assert((a + b)[j] == a[j] && (a + b)[i] == b[i - a.len()]);
            if a[j] == b[i - a.len()] {
                assert(a.contains(a[j]));
                assert(b.contains(a[j]));
            }
        }
    }
}

proof fn lemma_char_range_no_dup(lo: int, n: int)
    requires
        0 <= lo,
        0 <= n,
        lo + n <= 128,
    ensures
        char_range(lo, n).no_duplicates(),
{
    assert forall|i: int, j: int|
        0 <= i < char_range(lo, n).len() && 0 <= j < char_range(lo, n).len() && i
        != j implies char_range(lo, n)[i] != char_range(lo, n)[j] by {
        assert(char_range(lo, n)[i] == (lo + i) as char);
        assert(char_range(lo, n)[j] == (lo + j) as char);
        assert(((lo + i) as char) as int == lo + i);
        assert(((lo + j) as char) as int == lo + j);
    }
}

/// No character appears twice in the alphabet that a set of options
/// determines: the classes are pairwise disjoint and each is itself
/// duplicate-free.
pub proof fn lemma_alphabet_no_duplicates(o: RandomPasswordOptions)
    ensures
        alphabet_spec(o).no_duplicates(),
{
    let l = if o.include_lowercase {
        lowercase_chars()
    } else {
        Seq::empty()
    };
    let u = if o.include_uppercase {
        uppercase_chars()
    } else {
        Seq::empty()
    };
    let d = if o.include_numbers {
        digit_chars()
    } else {
        Seq::empty()
    };
    let s = if o.include_special_characters {
        special_chars()
    } else {
        Seq::empty()
    };
    lemma_char_range_no_dup('a' as int, 26);
    lemma_char_range_no_dup('A' as int, 26);
    lemma_char_range_no_dup('0' as int, 10);
    assert(special_chars().no_duplicates());
    assert forall|c: char| !(l.contains(c) && #[trigger] u.contains(c)) by {
        lemma_char_range_contains('a' as int, 26, c);
        lemma_char_range_contains('A' as int, 26, c);
    }
    lemma_no_dup_append(l, u);
    assert forall|c: char| !((l + u).contains(c) && #[trigger] d.contains(c)) by {
        lemma_add_contains(l, u, c);
        lemma_char_range_contains('a' as int, 26, c);
        lemma_char_range_contains('A' as int, 26, c);
        lemma_char_range_contains('0' as int, 10, c);
    }
    lemma_no_dup_append(l + u, d);
    assert forall|c: char| !((l + u + d).contains(c) && #[trigger] s.contains(c)) by {
        lemma_add_contains(l + u, d, c);
        lemma_add_contains(l, u, c);
        lemma_char_range_contains('a' as int, 26, c);
        lemma_char_range_contains('A' as int, 26, c);
        lemma_char_range_contains('0' as int, 10, c);
    }
    lemma_no_dup_append(l + u + d, s);
}

/// The alphabet is empty exactly when no character class is enabled.
pub proof fn lemma_alphabet_empty_iff_no_class(o: RandomPasswordOptions)
    ensures
        alphabet_spec(o).len() == 0 <==> !crate::options::any_class_enabled(o),
{
}

/// With a single class enabled, every alphabet character belongs to that
/// class: only-lowercase options yield only lowercase letters, and likewise
/// for the other three classes.
pub proof fn lemma_single_class_alphabet(o: RandomPasswordOptions, c: char)
    requires
        alphabet_spec(o).contains(c),
    ensures
        o.include_lowercase && !o.include_uppercase && !o.include_numbers
            && !o.include_special_characters ==> is_lowercase_char(c),
        o.include_uppercase && !o.include_lowercase && !o.include_numbers
            && !o.include_special_characters ==> is_uppercase_char(c),
        o.include_numbers && !o.include_lowercase && !o.include_uppercase
            && !o.include_special_characters ==> is_digit_char(c),
        o.include_special_characters && !o.include_lowercase && !o.include_uppercase
            && !o.include_numbers ==> is_special_char(c),
        is_lowercase_char(c) || is_uppercase_char(c) || is_digit_char(c) || is_special_char(c),
{
    lemma_alphabet_membership(o, c);
}

/// An ordered sequence of candidate characters for password sampling.
#[derive(Clone, Debug)]
pub struct Alphabet {
    pub characters: Vec<char>,
}

impl View for Alphabet {
    type V = Seq<char>;

    open spec fn view(&self) -> Seq<char> {
        self.characters@
    }
}

impl Alphabet {
    /// How many candidate characters the alphabet holds.
    pub fn len(&self) -> (n: usize)
        ensures
            n == self@.len(),
    {
        self.characters.len()
    }

    /// The alphabet offers no candidate characters at all.
    pub fn is_empty(&self) -> (b: bool)
        ensures
            b == (self@.len() == 0),
    {
        self.characters.len() == 0
    }
}

/// Appends the characters whose codes run from `lo` to `hi` inclusive.
fn push_ascii_range(characters: &mut Vec<char>, lo: u8, hi: u8)
    requires
        lo <= hi < 128,
    ensures
        final(characters)@ == old(characters)@ + char_range(lo as int, hi - lo + 1),
{
    let mut code: u8 = lo;
    while code <= hi
        invariant
            lo <= code <= hi + 1,
            hi < 128,
            characters@ == old(characters)@ + char_range(lo as int, code - lo),
        decreases hi + 1 - code,
    {
        characters.push(code as char);
        assert(characters@ =~= old(characters)@ + char_range(lo as int, code + 1 - lo));
        code = code + 1;
    }
    assert(characters@ =~= old(characters)@ + char_range(lo as int, hi - lo + 1));
}

/// Builds the candidate alphabet that a set of options determines.
pub struct AlphabetBuilder;

impl AlphabetBuilder {
    /// Appends each enabled class in the fixed order; with no class enabled
    /// the alphabet comes out empty, which is a valid state here: the
    /// sampler, not the builder, rejects it.
    pub fn build(options: &RandomPasswordOptions) -> (alphabet: Alphabet)
        ensures
            alphabet@ == alphabet_spec(*options),
            alphabet@.no_duplicates(),
    {
        proof {
            lemma_alphabet_no_duplicates(*options);
        }
        let mut characters: Vec<char> = Vec::new();

        if options.include_lowercase {
            push_ascii_range(&mut characters, 97, 122);
        }
        if options.include_uppercase {
            push_ascii_range(&mut characters, 65, 90);
        }
        if options.include_numbers {
            push_ascii_range(&mut characters, 48, 57);
        }
        if options.include_special_characters {
            characters.push('!');
            characters.push('@');
            characters.push('#');
            characters.push('$');
            characters.push('%');
            characters.push('&');
            characters.push('^');
            characters.push('(');
            characters.push(')');
            characters.push('[');
            characters.push(']');
            characters.push('-');
            characters.push('+');
        }

        assert(characters@ =~= alphabet_spec(*options));
        Alphabet { characters }
    }
}

} // verus!
