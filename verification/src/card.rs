//! A single drill item and the parser that reads one from a line of text.
//!
//! A line holds exactly two comma-separated fields, `word,translation`, both
//! non-empty. Anything else is a classified parse failure. The separator has
//! no quoting or escaping: a field that itself contains a comma is read as
//! extra fields.

use vstd::prelude::*;
use vstd::string::StrSliceExecFns;

verus! {

/// Index of the first occurrence of `c` in `s`, if there is one.
pub open spec fn find_char(s: Seq<char>, c: char) -> Option<int>
    decreases s.len(),
{
    if s.len() == 0 {
        Option::None
    } else if s[0] == c {
        Option::Some(0int)
    } else {
        match find_char(s.drop_first(), c) {
            Option::None => Option::None,
            Option::Some(i) => Option::Some(i + 1),
        }
    }
}

/// `find_char` returns the index of `c` where `c` first occurs.
proof fn lemma_find_char_at(s: Seq<char>, c: char, i: int)
    requires
        0 <= i < s.len(),
        s[i] == c,
        forall|j: int| 0 <= j < i ==> s[j] != c,
    ensures
        find_char(s, c) == Option::Some(i),
    decreases i,
{
    if i > 0 {
        assert(forall|j: int| 0 <= j < i - 1 ==> s.drop_first()[j] == s[j + 1]);
        lemma_find_char_at(s.drop_first(), c, i - 1);
    }
}

/// `find_char` returns nothing where `c` does not occur.
proof fn lemma_find_char_none(s: Seq<char>, c: char)
    requires
        forall|j: int| 0 <= j < s.len() ==> s[j] != c,
    ensures
        find_char(s, c) is None,
    decreases s.len(),
{
    if s.len() > 0 {
        assert(forall|j: int| 0 <= j < s.len() - 1 ==> s.drop_first()[j] == s[j + 1]);
        lemma_find_char_none(s.drop_first(), c);
    }
}

/// What parsing one line of text yields: the word and translation fields,
/// or the failure that classifies the line.
///
/// The line is cut at its first comma; the part before is the word, which
/// must be non-empty. The remainder is the translation, which must be
/// non-empty and must not contain a further comma: a third field of any
/// content is refused. A line without a comma has no second field at all,
/// so it fails on the missing translation unless it is entirely empty, in
/// which case the word itself is missing.
pub open spec fn parse_line(s: Seq<char>) -> Result<(Seq<char>, Seq<char>), CardFromStrError> {
    match find_char(s, ',') {
        Option::None => if s.len() == 0 {
            Result::Err(CardFromStrError::MissingWord)
        } else {
            Result::Err(CardFromStrError::MissingTranslation)
        },
        Option::Some(i) => if i == 0 {
            Result::Err(CardFromStrError::MissingWord)
        } else {
            let word = s.subrange(0, i);
            let rest = s.subrange(i + 1, s.len() as int);
            match find_char(rest, ',') {
                Option::None => if rest.len() == 0 {
                    Result::Err(CardFromStrError::MissingTranslation)
                } else {
                    Result::Ok((word, rest))
                },
                Option::Some(j) => if j == 0 {
                    Result::Err(CardFromStrError::MissingTranslation)
                } else {
                    Result::Err(CardFromStrError::TooManyFields)
                },
            }
        },
    }
}

/// Index of the first `c` in `s`, counted in characters.
fn find_char_in(s: &str, c: char) -> (r: Option<usize>)
    ensures
        match r {
            Option::Some(i) => find_char(s@, c) == Option::Some(i as int) && i < s@.len(),
            Option::None => find_char(s@, c) is None,
        },
{
    let n = s.unicode_len();
    let mut k: usize = 0;
    while k < n
        invariant
            n == s@.len(),
            k <= n,
            forall|j: int| 0 <= j < k ==> s@[j] != c,
        decreases n - k,
    {
        if s.get_char(k) == c {
            proof {
                lemma_find_char_at(s@, c, k as int);
            }
            return Some(k);
        }
        k = k + 1;
    }
    proof {
        lemma_find_char_none(s@, c);
    }
    None
}

/// A single drill item: a prompt and the answer expected for it.
///
/// Both fields are non-empty ([`Card::wf`]); parsing refuses a line that
/// would give an empty one, so a well-formed card is the only kind that can
/// be built from text.
#[derive(Debug, Clone)]
pub struct Card {
    /// The prompt shown to the user. Non-empty.
    pub word: String,
    /// The expected answer, compared verbatim against the trimmed reply.
    /// Non-empty, and not trimmed itself.
    pub translation: String,
}

impl Card {
    /// Both fields are non-empty.
    pub open spec fn wf(self) -> bool {
        self.word@.len() > 0 && self.translation@.len() > 0
    }

    /// Parse one line of text into a card, or classify why it is not one.
    ///
    /// [`parse_line`] is the exact statement: the result is `Ok` exactly on
    /// lines of two non-empty comma-separated fields, and each failure kind
    /// comes on the lines `parse_line` assigns it to.
    pub fn from_str(s: &str) -> (r: Result<Card, CardFromStrError>)
        ensures
            r is Ok <==> parse_line(s@) is Ok,
            r matches Ok(card) ==> parse_line(s@) matches Ok(fields) && card.word@ == fields.0
                && card.translation@ == fields.1 && card.wf(),
            r matches Err(e) ==> parse_line(s@) matches Err(f) && e == f,
    {
        let n = s.unicode_len();
        match find_char_in(s, ',') {
            None => {
                if n == 0 {
                    Err(CardFromStrError::MissingWord)
                } else {
                    Err(CardFromStrError::MissingTranslation)
                }
            },
            Some(i) => {
                if i == 0 {
                    Err(CardFromStrError::MissingWord)
                } else {
                    let rest = s.substring_char(i + 1, n);
                    match find_char_in(rest, ',') {
                        Some(j) => {
                            if j == 0 {
                                Err(CardFromStrError::MissingTranslation)
                            } else {
                                Err(CardFromStrError::TooManyFields)
                            }
                        },
                        None => {
                            if rest.unicode_len() == 0 {
                                Err(CardFromStrError::MissingTranslation)
                            } else {
                                let word = s.substring_char(0, i).to_owned();
                                let translation = rest.to_owned();
                                Ok(Card { word, translation })
                            }
                        },
                    }
                }
            },
        }
    }
}

/// Why a line of text is not a record.
#[derive(Debug, Clone, Copy, PartialEq, Eq, Structural)]
pub enum CardFromStrError {
    /// The first field is absent or empty.
    MissingWord,
    /// The second field is absent or empty.
    MissingTranslation,
    /// A third field, of any content, follows the second.
    TooManyFields,
}

impl CardFromStrError {
    /// The stable human-readable message for this failure kind.
    pub fn message(&self) -> (r: &'static str)
        ensures
            r@ == self.message_spec(),
    {
        match self {
            CardFromStrError::MissingWord => "missing word",
            CardFromStrError::MissingTranslation => "missing translation",
            CardFromStrError::TooManyFields => "too many fields",
        }
    }

    /// The characters of [`CardFromStrError::message`].
    pub open spec fn message_spec(self) -> Seq<char> {
        match self {
            CardFromStrError::MissingWord => "missing word"@,
            CardFromStrError::MissingTranslation => "missing translation"@,
            CardFromStrError::TooManyFields => "too many fields"@,
        }
    }
}

} // verus!
