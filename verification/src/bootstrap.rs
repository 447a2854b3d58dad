//! The API key of a first start.

use crate::chance::random_below;
use crate::config::settings::Settings;
use crate::text::{
    chars_of, concat3, contains_string, matches_at, skip_repeated, string_of, strip_repeated,
    trim_range, trimmed, views,
};
use vstd::prelude::*;

verus! {

/// The number of characters of a generated key.
pub const KEY_LENGTH: usize = 32;

/// The characters a generated key is made of.
pub open spec fn charset() -> Seq<char> {
    "ABCDEFGHIJKLMNOPQRSTUVWXYZabcdefghijklmnopqrstuvwxyz0123456789"@
}

/// The characters a generated key is made of.
pub fn charset_chars() -> (chars: Vec<char>)
    ensures
        chars@ == charset(),
        chars@.len() == 62,
{
    proof {
        reveal_strlit("ABCDEFGHIJKLMNOPQRSTUVWXYZabcdefghijklmnopqrstuvwxyz0123456789");
    }
    chars_of("ABCDEFGHIJKLMNOPQRSTUVWXYZabcdefghijklmnopqrstuvwxyz0123456789")
}

/// The key that a series of draws gives: for each draw the character of
/// the set at the place of the draw, counted round the set.
pub open spec fn key_of(draws: Seq<usize>) -> Seq<char> {
    Seq::new(draws.len(), |i: int| charset()[(draws[i] % 62) as int])
}

/// The key that a series of draws gives.
pub fn key_from_draws(draws: &Vec<usize>) -> (key: String)
    ensures
        key@ == key_of(draws@),
{
    let set = charset_chars();
    let mut chars: Vec<char> = Vec::new();
    let mut i: usize = 0;
    while i < draws.len()
        invariant
            i <= draws.len(),
            set@ == charset(),
            set@.len() == 62,
            chars@.len() == i,
            forall|j: int| 0 <= j < i ==> chars@[j] == charset()[(draws@[j] % 62) as int],
        decreases draws.len() - i,
    {
        chars.push(set[draws[i] % 62]);
        i = i + 1;
    }
    assert(chars@ =~= key_of(draws@));
    string_of(&chars)
}

/// Generate a random 32-character ASCII API key.
pub fn generate_api_key() -> (key: String)
    ensures
        key@.len() == KEY_LENGTH,
        forall|i: int| 0 <= i < key@.len() ==> charset().contains(#[trigger] key@[i]),
{
    proof {
        reveal_strlit("ABCDEFGHIJKLMNOPQRSTUVWXYZabcdefghijklmnopqrstuvwxyz0123456789");
    }
    let mut draws: Vec<usize> = Vec::new();
    let mut i: usize = 0;
    while i < KEY_LENGTH
        invariant
            i <= KEY_LENGTH,
            draws@.len() == i,
        decreases KEY_LENGTH - i,
    {
        draws.push(random_below(62));
        i = i + 1;
    }
    let key = key_from_draws(&draws);
    assert forall|i: int| 0 <= i < key@.len() implies charset().contains(#[trigger] key@[i]) by {
        assert(key@[i] == charset()[(draws@[i] % 62) as int]);
    }
    key
}

/// The lines that a generated key is saved with.
pub open spec fn env_entry_of(key: Seq<char>) -> Seq<char> {
    "\n# Gateway API Key (auto-generated)\nGEN_GATEWAY_API_KEY="@ + key + "\n"@
}

/// The lines that a generated key is saved with.
pub fn env_entry(key: &str) -> (entry: String)
    ensures
        entry@ == env_entry_of(key@),
{
    concat3("\n# Gateway API Key (auto-generated)\nGEN_GATEWAY_API_KEY=", key, "\n")
}

/// The API keys of the settings once the key of this start is known: the
/// key is added where authentication is enabled and no key is configured,
/// and where keys are configured and the key is not among them.
pub open spec fn keys_with(enabled: bool, keys: Seq<Seq<char>>, key: Seq<char>) -> Seq<Seq<char>> {
    if keys.len() == 0 {
        if enabled {
            seq![key]
        } else {
            keys
        }
    } else if keys.contains(key) {
        keys
    } else {
        keys.push(key)
    }
}

/// Makes the key of this start known to the settings.
pub fn adopt_api_key(settings: &mut Settings, key: String)
    ensures
        views(final(settings).auth.api_keys@) == keys_with(
            old(settings).auth.enabled,
            views(old(settings).auth.api_keys@),
            key@,
        ),
        final(settings).auth.enabled == old(settings).auth.enabled,
        final(settings).auth.bypass_paths == old(settings).auth.bypass_paths,
        final(settings).server == old(settings).server,
        final(settings).rate_limit == old(settings).rate_limit,
        final(settings).storage == old(settings).storage,
        final(settings).logging == old(settings).logging,
        final(settings).backends == old(settings).backends,
{
    let ghost before = settings.auth.api_keys@;
    if settings.auth.enabled && settings.auth.api_keys.len() == 0 {
        settings.auth.api_keys.push(key);
        assert(views(settings.auth.api_keys@) =~= seq![key@]);
    } else if settings.auth.api_keys.len() > 0 {
        if !contains_string(&settings.auth.api_keys, key.as_str()) {
            settings.auth.api_keys.push(key);
            assert(views(settings.auth.api_keys@) =~= views(before).push(key@));
        }
    }
}

/// What a line of the environment file that holds the key begins with.
pub open spec fn key_lead() -> Seq<char> {
    "GEN_GATEWAY_API_KEY="@
}

/// The key on a line of the environment file: where the line begins with
/// the lead, what follows the lead, as often as it stands there, without
/// the white space around it, if anything is left.
pub open spec fn key_on_line(line: Seq<char>) -> Option<Seq<char>> {
    if key_lead().is_prefix_of(line) && trimmed(strip_repeated(line, key_lead())).len() > 0 {
        Some(trimmed(strip_repeated(line, key_lead())))
    } else {
        None
    }
}

/// The key that an environment file holds: the key on the first line that
/// holds one.
pub open spec fn key_in(contents: Seq<char>) -> Option<Seq<char>> {
    key_from(contents, 0)
}

/// The key in an environment file from `start` on, where a line begins:
/// the key on the first line that holds one.
pub open spec fn key_from(contents: Seq<char>, start: int) -> Option<Seq<char>>
    decreases contents.len() - start,
    via key_from_decreases
{
    if start < 0 || start > contents.len() {
        None
    } else {
        let end = line_end(contents, start);
        match key_on_line(contents.subrange(start, end)) {
            Some(key) => Some(key),
            None => if end < contents.len() {
                key_from(contents, end + 1)
            } else {
                None
            },
        }
    }
}

#[via_fn]
proof fn key_from_decreases(contents: Seq<char>, start: int) {
    if 0 <= start <= contents.len() {
        lemma_line_end(contents, start);
    }
}

/// Where the line that begins at `start` ends: at the next line feed, or
/// at the end of the file.
pub open spec fn line_end(contents: Seq<char>, start: int) -> int
    decreases contents.len() - start,
{
    if start < 0 || start >= contents.len() {
        contents.len() as int
    } else if contents[start] == '\n' {
        start
    } else {
        line_end(contents, start + 1)
    }
}

/// A line ends at or after its start and within the file.
pub proof fn lemma_line_end(contents: Seq<char>, start: int)
    requires
        0 <= start <= contents.len(),
    ensures
        start <= line_end(contents, start) <= contents.len(),
    decreases contents.len() - start,
{
    if start < contents.len() && contents[start] != '\n' {
        lemma_line_end(contents, start + 1);
    }
}

/// The key that an environment file holds, if it holds one.
pub fn find_api_key(contents: &str) -> (key: Option<String>)
    ensures
        key is Some <==> key_in(contents@) is Some,
        key matches Some(k) ==> Some(k@) == key_in(contents@),
{
    let chars = chars_of(contents);
    proof {
        reveal_strlit("GEN_GATEWAY_API_KEY=");
    }
    let lead = chars_of("GEN_GATEWAY_API_KEY=");
    let mut start: usize = 0;
    loop
        invariant
            start <= chars.len(),
            chars@ == contents@,
            lead@ == key_lead(),
            key_in(contents@) == key_from(chars@, start as int),
        decreases chars.len() - start,
    {
        let mut end: usize = start;
        while end < chars.len() && chars[end] != '\n'
            invariant
                start <= end <= chars.len(),
                line_end(chars@, start as int) == line_end(chars@, end as int),
            decreases chars.len() - end,
        {
            end = end + 1;
        }
        let ghost line = chars@.subrange(start as int, end as int);
        if end - start >= lead.len() && matches_at(&chars, &lead, start) {
            proof {
                assert(chars@.subrange(start as int, start + lead@.len()) =~= line.subrange(
                    0,
                    lead@.len() as int,
                ));
            }
            let at = skip_repeated(&chars, start, end, &lead);
            let key = trim_range(&chars, at, end);
            if key.as_str().unicode_len() > 0 {
                return Some(key);
            }
        } else {
            proof {
                if end - start >= lead.len() {
                    assert(chars@.subrange(start as int, start + lead@.len()) =~= line.subrange(
                        0,
                        lead@.len() as int,
                    ));
                }
            }
        }
        if end == chars.len() {
            return None;
        }
        start = end + 1;
    }
}

/// Where the API key of this start comes from.
#[derive(Clone, Debug)]
pub enum KeySource {
    /// The environment holds the key.
    Environment(String),
    /// The environment file holds the key, which is to be set in the environment.
    File(String),
    /// No key is known: one is to be generated, saved and set in the environment.
    Fresh,
}

/// Where the API key comes from, given the value of its variable if the
/// environment has it, and the contents of the environment file if there
/// is one: the environment first, where its value is not empty, then the
/// file.
pub open spec fn source_of(variable: Option<Seq<char>>, file: Option<Seq<char>>) -> Option<
    (bool, Seq<char>),
> {
    if variable is Some && variable.unwrap().len() > 0 {
        Some((true, variable.unwrap()))
    } else if file is Some && key_in(file.unwrap()) is Some {
        Some((false, key_in(file.unwrap()).unwrap()))
    } else {
        None
    }
}

/// Load or generate the API key: says where the key comes from.
pub fn load_or_generate_api_key(variable: Option<&str>, file: Option<&str>) -> (source: KeySource)
    ensures
        match source_of(
            match variable {
                Some(v) => Some(v@),
                None => None,
            },
            match file {
                Some(f) => Some(f@),
                None => None,
            },
        ) {
            Some((from_environment, key)) => if from_environment {
                source is Environment && source->Environment_0@ == key
            } else {
                source is File && source->File_0@ == key
            },
            None => source is Fresh,
        },
{
    if let Some(value) = variable {
        if value.unicode_len() > 0 {
            return KeySource::Environment(value.to_string());
        }
    }
    if let Some(contents) = file {
        if let Some(key) = find_api_key(contents) {
            return KeySource::File(key);
        }
    }
    KeySource::Fresh
}

} // verus!
