//! Which store is used, and how it is set up.

use crate::value::json::Json;
use vstd::prelude::*;
#[allow(unused_imports)]
use vstd::string::*;

verus! {

/// The lower-case form of an ASCII letter; any other character as it is.
pub open spec fn lower_char(c: char) -> char {
    if 'A' <= c <= 'Z' {
        ((c as u32 + 32) as u8) as char
    } else {
        c
    }
}

/// A text with its ASCII letters in lower case.
pub open spec fn lower_text(s: Seq<char>) -> Seq<char> {
    s.map_values(|c: char| lower_char(c))
}

fn lower(s: &str) -> (text: String)
    ensures
        text@ == lower_text(s@),
{
    let mut text = String::new();
    let n: usize = s.unicode_len();
    let mut i: usize = 0;
    while i < n
        invariant
            i <= n,
            n == s@.len(),
            text@ =~= lower_text(s@).take(i as int),
        decreases n - i,
    {
        let c = s.get_char(i);
        if 'A' <= c && c <= 'Z' {
            text.push(((c as u32 + 32) as u8) as char);
        } else {
            text.push(c);
        }
        i += 1;
    }
    assert(lower_text(s@).take(n as int) =~= lower_text(s@));
    text
}

/// The name of a store, in lower case, and its settings.
#[derive(Debug, PartialEq, Eq)]
pub struct StoreConfig {
    pub store: String,
    pub config: Json,
}

impl StoreConfig {
    pub fn new(store: &str, config: Json) -> (made: Self)
        ensures
            made.store@ == lower_text(store@),
            made.config == config,
    {
        StoreConfig { store: lower(store), config }
    }

    /// A store in memory, without settings.
    pub fn memory() -> (made: Self)
        ensures
            made.store@ == "memory"@,
            made.config == Json::Null,
    {
        let made = StoreConfig::new("memory", Json::Null);
        proof {
            reveal_strlit("memory");
            assert(lower_text("memory"@) =~= "memory"@);
        }
        made
    }

    /// A store in Redis.
    pub fn redis(config: Json) -> (made: Self)
        ensures
            made.store@ == "redis"@,
            made.config == config,
    {
        let made = StoreConfig::new("redis", config);
        proof {
            reveal_strlit("redis");
            assert(lower_text("redis"@) =~= "redis"@);
        }
        made
    }
}

/// The case of a name makes no difference: a name in lower case stays as it is.
pub proof fn law_lower_settles(s: Seq<char>)
    ensures
        lower_text(lower_text(s)) == lower_text(s),
{
    assert(lower_text(lower_text(s)) =~= lower_text(s));
}

/// Lower case keeps the length, turns each ASCII capital into the letter 32 places on, and leaves
/// every other character.
pub proof fn law_lower_text(s: Seq<char>, i: int)
    requires
        0 <= i < s.len(),
    ensures
        lower_text(s).len() == s.len(),
        'A' <= s[i] <= 'Z' ==> lower_text(s)[i] as u32 == s[i] as u32 + 32,
        !('A' <= s[i] <= 'Z') ==> lower_text(s)[i] == s[i],
{
}

} // verus!
