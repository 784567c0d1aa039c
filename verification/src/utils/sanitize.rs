//! Strategies that check keys and collections and make them fit for a store.

use crate::error::{Error, ErrorModel, Result};
use crate::hash::{blake3_hex, digest_hex};
use crate::text::{chars_in_bytes, split_at_byte, splits_at_byte};
use vstd::prelude::*;
#[allow(unused_imports)]
use vstd::string::*;
use vstd::utf8::encode_utf8;

verus! {

/// How keys and collections are checked and made fit for a store.
pub trait SanitizationStrategy {
    /// Why a value is not acceptable, if it is not.
    spec fn fault(&self, value: Seq<char>) -> Option<ErrorModel>;

    /// Whether a value can be sanitized.
    spec fn can_sanitize(&self, value: Seq<char>) -> bool;

    /// What a value becomes for storage.
    spec fn sanitized(&self, value: Seq<char>) -> Seq<char>;

    /// Checks that a value is acceptable.
    fn validate(&self, value: &str) -> (result: Result<()>)
        ensures
            match result {
                Ok(_) => self.fault(value@) is None,
                Err(e) => self.fault(value@) == Some(e@),
            },
    ;

    /// What a value becomes for storage.
    fn sanitize(&self, value: &str) -> (text: String)
        requires
            self.can_sanitize(value@),
        ensures
            text@ == self.sanitized(value@),
    ;
}

/// Takes every value as it is.
#[derive(Debug, Clone, Copy, PartialEq, Eq, Structural)]
pub struct PassthroughStrategy;

impl SanitizationStrategy for PassthroughStrategy {
    open spec fn fault(&self, value: Seq<char>) -> Option<ErrorModel> {
        None
    }

    open spec fn can_sanitize(&self, value: Seq<char>) -> bool {
        true
    }

    open spec fn sanitized(&self, value: Seq<char>) -> Seq<char> {
        value
    }

    fn validate(&self, _value: &str) -> (result: Result<()>) {
        Ok(())
    }

    fn sanitize(&self, value: &str) -> (text: String) {
        value.to_owned()
    }
}

/// Refuses values in which certain characters occur, and takes these out.
#[derive(Debug, PartialEq, Eq)]
pub struct CharacterBlacklistStrategy {
    invalid_chars: Vec<char>,
}

/// The first character of a text that is among some others.
pub open spec fn first_among(value: Seq<char>, chars: Seq<char>) -> Option<char>
    decreases value.len(),
{
    if value.len() == 0 {
        None
    } else if chars.contains(value[0]) {
        Some(value[0])
    } else {
        first_among(value.skip(1), chars)
    }
}

/// A text without certain characters.
pub open spec fn without(value: Seq<char>, chars: Seq<char>) -> Seq<char> {
    value.filter(|c: char| !chars.contains(c))
}

impl CharacterBlacklistStrategy {
    /// The characters that are refused.
    pub closed spec fn invalid(&self) -> Seq<char> {
        self.invalid_chars@
    }

    pub fn new(invalid_chars: Vec<char>) -> (strategy: Self)
        ensures
            strategy.invalid() == invalid_chars@,
    {
        CharacterBlacklistStrategy { invalid_chars }
    }

    fn refuses(&self, c: char) -> (refused: bool)
        ensures
            refused == self.invalid().contains(c),
    {
        let mut i: usize = 0;
        while i < self.invalid_chars.len()
            invariant
                i <= self.invalid_chars@.len(),
                forall|j: int| 0 <= j < i ==> self.invalid_chars@[j] != c,
            decreases self.invalid_chars@.len() - i,
        {
            if self.invalid_chars[i] == c {
                return true;
            }
            i += 1;
        }
        false
    }
}

impl SanitizationStrategy for CharacterBlacklistStrategy {
    open spec fn fault(&self, value: Seq<char>) -> Option<ErrorModel> {
        match first_among(value, self.invalid()) {
            Some(c) => Some(
                ErrorModel::InvalidKey("character '"@ + seq![c] + "' is not allowed"@),
            ),
            None => None,
        }
    }

    open spec fn can_sanitize(&self, value: Seq<char>) -> bool {
        true
    }

    open spec fn sanitized(&self, value: Seq<char>) -> Seq<char> {
        without(value, self.invalid())
    }

    fn validate(&self, value: &str) -> (result: Result<()>) {
        let n: usize = value.unicode_len();
        let mut i: usize = 0;
        assert(value@.skip(0) =~= value@);
        while i < n
            invariant
                i <= n,
                n == value@.len(),
                first_among(value@, self.invalid()) == first_among(
                    value@.skip(i as int),
                    self.invalid(),
                ),
            decreases n - i,
        {
            let c = value.get_char(i);
            if self.refuses(c) {
                let mut message = "character '".to_owned();
                message.push(c);
                message.append("' is not allowed");
                assert(message@ =~= "character '"@ + seq![c] + "' is not allowed"@);
                return Err(Error::InvalidKey(message));
            }
            assert(value@.skip(i as int).skip(1) =~= value@.skip(i + 1));
            i += 1;
        }
        Ok(())
    }

    fn sanitize(&self, value: &str) -> (text: String) {
        let ghost keep = |c: char| !self.invalid().contains(c);
        let mut text = String::new();
        let n: usize = value.unicode_len();
        let mut i: usize = 0;
        proof {
            assert(value@.take(0) =~= Seq::empty());
            reveal(Seq::filter);
        }
        while i < n
            invariant
                i <= n,
                n == value@.len(),
                keep == (|c: char| !self.invalid().contains(c)),
                text@ == value@.take(i as int).filter(keep),
            decreases n - i,
        {
            let c = value.get_char(i);
            proof {
                let next = value@.take(i + 1);
                assert(next.drop_last() =~= value@.take(i as int));
                assert(next.last() == c);
                reveal(Seq::filter);
            }
            if !self.refuses(c) {
                text.push(c);
            }
            i += 1;
        }
        assert(value@.take(n as int) =~= value@);
        text
    }
}

proof fn lemma_first_among(value: Seq<char>, chars: Seq<char>)
    ensures
        first_among(value, chars) is None <==> (forall|i: int|
            0 <= i < value.len() ==> !chars.contains(#[trigger] value[i])),
    decreases value.len(),
{
    if value.len() > 0 {
        let rest = value.skip(1);
        lemma_first_among(rest, chars);
        if first_among(value, chars) is None {
            assert forall|i: int| 0 <= i < value.len() implies !chars.contains(
                #[trigger] value[i],
            ) by {
                if i > 0 {
                    assert(rest[i - 1] == value[i]);
                }
            }
        } else if !chars.contains(value[0]) {
            let i = choose|i: int| 0 <= i < rest.len() && chars.contains(#[trigger] rest[i]);
            assert(value[i + 1] == rest[i]);
        }
    }
}

proof fn lemma_without(value: Seq<char>, chars: Seq<char>)
    ensures
        forall|i: int|
            0 <= i < without(value, chars).len() ==> !chars.contains(
                #[trigger] without(value, chars)[i],
            ),
        (forall|i: int| 0 <= i < value.len() ==> !chars.contains(#[trigger] value[i]))
            ==> without(value, chars) == value,
    decreases value.len(),
{
    reveal(Seq::filter);
    if value.len() > 0 {
        let front = value.drop_last();
        lemma_without(front, chars);
        if forall|i: int| 0 <= i < value.len() ==> !chars.contains(#[trigger] value[i]) {
            assert forall|i: int| 0 <= i < front.len() implies !chars.contains(
                #[trigger] front[i],
            ) by {
                assert(value[i] == front[i]);
            }
            assert(!chars.contains(value[value.len() - 1]));
            assert(without(value, chars) =~= value);
        }
    }
}

/// What the blacklist makes of a value is acceptable to it; a value that is acceptable is kept as
/// it is, and so sanitizing twice is sanitizing once.
pub proof fn law_blacklist_settles(strategy: CharacterBlacklistStrategy, value: Seq<char>)
    ensures
        strategy.fault(strategy.sanitized(value)) is None,
        strategy.fault(value) is None ==> strategy.sanitized(value) == value,
        strategy.sanitized(strategy.sanitized(value)) == strategy.sanitized(value),
{
    let clean = strategy.sanitized(value);
    lemma_without(value, strategy.invalid());
    lemma_first_among(clean, strategy.invalid());
    lemma_first_among(value, strategy.invalid());
    lemma_without(clean, strategy.invalid());
}

/// Replaces what exceeds a length by its digest.
#[derive(Debug, Clone, Copy, PartialEq, Eq, Structural)]
pub struct HashExcessLengthStrategy {
    max_length: usize,
}

impl HashExcessLengthStrategy {
    /// The longest value that is kept as it is, in bytes.
    pub closed spec fn max(&self) -> nat {
        self.max_length as nat
    }

    pub fn new(max_length: usize) -> (strategy: Self)
        ensures
            strategy.max() == max_length,
    {
        HashExcessLengthStrategy { max_length }
    }
}

impl SanitizationStrategy for HashExcessLengthStrategy {
    open spec fn fault(&self, value: Seq<char>) -> Option<ErrorModel> {
        if value.len() == 0 {
            Some(ErrorModel::InvalidKey("empty value"@))
        } else {
            None
        }
    }

    /// A value that is too long must have a character that ends where the length does.
    open spec fn can_sanitize(&self, value: Seq<char>) -> bool {
        encode_utf8(value).len() <= self.max() || splits_at_byte(value, self.max())
    }

    open spec fn sanitized(&self, value: Seq<char>) -> Seq<char> {
        if encode_utf8(value).len() <= self.max() {
            value
        } else {
            let kept = chars_in_bytes(value, self.max());
            value.take(kept) + seq!['_'] + blake3_hex(encode_utf8(value.skip(kept)))
        }
    }

    fn validate(&self, value: &str) -> (result: Result<()>) {
        if value.is_empty() {
            Err(Error::InvalidKey("empty value".to_owned()))
        } else {
            Ok(())
        }
    }

    fn sanitize(&self, value: &str) -> (text: String) {
        if value.as_bytes().len() <= self.max_length {
            return value.to_owned();
        }
        match split_at_byte(value, self.max_length) {
            Some((prefix, suffix)) => {
                let mut text = prefix.to_owned();
                text.push('_');
                text.append(digest_hex(suffix.as_bytes()).as_str());
                assert(text@ =~= self.sanitized(value@));
                text
            },
            None => value.to_owned(),
        }
    }
}

/// Taking characters out works character by character, wherever a text is cut: an allowed one
/// stays, any other goes, and the order stays.
pub proof fn law_blacklist_by_character(
    strategy: CharacterBlacklistStrategy,
    a: Seq<char>,
    b: Seq<char>,
    c: char,
)
    ensures
        strategy.sanitized(a + b) == strategy.sanitized(a) + strategy.sanitized(b),
        strategy.sanitized(seq![c]) == if strategy.invalid().contains(c) {
            Seq::<char>::empty()
        } else {
            seq![c]
        },
        strategy.sanitized(Seq::<char>::empty()) == Seq::<char>::empty(),
{
    let allowed = |c: char| !strategy.invalid().contains(c);
    Seq::filter_distributes_over_add(a, b, allowed);
    reveal(Seq::filter);
    reveal_with_fuel(Seq::filter, 2);
    assert(seq![c].drop_last() =~= Seq::<char>::empty());
    assert(seq![c].filter(allowed) =~= if strategy.invalid().contains(c) {
        Seq::<char>::empty()
    } else {
        seq![c]
    });
}

/// A text is refused exactly where it holds a character that is not allowed.
pub proof fn law_blacklist_refuses(strategy: CharacterBlacklistStrategy, value: Seq<char>)
    ensures
        strategy.fault(value) is Some <==> exists|i: int|
            0 <= i < value.len() && strategy.invalid().contains(#[trigger] value[i]),
        first_among(value, strategy.invalid()) matches Some(c) ==> exists|i: int|
            {
                &&& 0 <= i < value.len()
                &&& #[trigger] value[i] == c
                &&& strategy.invalid().contains(c)
                &&& forall|j: int| 0 <= j < i ==> !strategy.invalid().contains(#[trigger] value[j])
            },
    decreases value.len(),
{
    if value.len() > 0 && !strategy.invalid().contains(value[0]) {
        let rest = value.skip(1);
        law_blacklist_refuses(strategy, rest);
        if first_among(rest, strategy.invalid()) is Some {
            let c = first_among(rest, strategy.invalid())->Some_0;
            let i = choose|i: int|
                {
                    &&& 0 <= i < rest.len()
                    &&& #[trigger] rest[i] == c
                    &&& strategy.invalid().contains(c)
                    &&& forall|j: int|
                        0 <= j < i ==> !strategy.invalid().contains(#[trigger] rest[j])
                };
            assert(value[i + 1] == c);
            assert forall|j: int| 0 <= j < i + 1 implies !strategy.invalid().contains(
                #[trigger] value[j],
            ) by {
                if j > 0 {
                    assert(rest[j - 1] == value[j]);
                }
            }
        } else if exists|i: int|
            0 <= i < value.len() && strategy.invalid().contains(#[trigger] value[i]) {
            let i = choose|i: int|
                0 <= i < value.len() && strategy.invalid().contains(#[trigger] value[i]);
            assert(rest[i - 1] == value[i]);
        }
    }
}

/// A text that fits is kept as it is. Of a longer one the first bytes that fit are kept, followed
/// by `_` and a digest of all that was cut off.
pub proof fn law_excess_is_hashed(
    strategy: HashExcessLengthStrategy,
    kept: Seq<char>,
    excess: Seq<char>,
)
    ensures
        encode_utf8(kept).len() <= strategy.max() ==> strategy.sanitized(kept) == kept,
        encode_utf8(kept).len() == strategy.max() && excess.len() > 0 ==> strategy.sanitized(
            kept + excess,
        ) == kept + seq!['_'] + blake3_hex(encode_utf8(excess)),
        strategy.fault(kept) is Some <==> kept.len() == 0,
{
    let whole = kept + excess;
    if encode_utf8(kept).len() == strategy.max() && excess.len() > 0 {
        crate::text::lemma_encode_concat(kept, excess);
        crate::text::lemma_encode_len(excess);
        assert(whole.take(kept.len() as int) =~= kept);
        crate::text::lemma_chars_in_bytes(whole, strategy.max(), kept.len() as int);
        assert(whole.skip(kept.len() as int) =~= excess);
    }
}

/// A value that is passed through is never refused and never changed.
pub proof fn law_passthrough(strategy: PassthroughStrategy, value: Seq<char>)
    ensures
        strategy.fault(value) is None,
        strategy.can_sanitize(value),
        strategy.sanitized(value) == value,
{
}

} // verus!
