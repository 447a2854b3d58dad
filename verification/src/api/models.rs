//! API request and response models (OpenAI compatible).

use crate::text::{chars_of, string_of};
use vstd::prelude::*;

verus! {

/// Image generation request (OpenAI compatible).
#[derive(Debug, Clone)]
pub struct GenerateImageRequest {
    /// The prompt to generate images from.
    pub prompt: String,
    /// The model to use for generation.
    pub model: Option<String>,
    /// Number of images to generate.
    pub n: u32,
    /// The size of the generated images, as in `1024x1024`.
    pub size: String,
    /// The format of the response: `url`, `b64_json` or `file`.
    pub response_format: String,
    /// Negative prompt.
    pub negative_prompt: Option<String>,
    /// Random seed for reproducibility.
    pub seed: Option<i64>,
    /// Guidance scale, as the bits of its single-precision value.
    pub guidance_scale: Option<u32>,
    /// Number of inference steps.
    pub num_inference_steps: Option<u32>,
    /// Specific backend to use.
    pub backend: Option<String>,
}

pub fn default_n() -> (r: u32)
    ensures
        r == 1,
{
    1
}

pub fn default_size() -> (r: String)
    ensures
        r@ == "1024x1024"@,
{
    "1024x1024".to_string()
}

pub fn default_response_format() -> (r: String)
    ensures
        r@ == "url"@,
{
    "url".to_string()
}

/// Each side of an image whose size string does not parse.
pub const DEFAULT_SIDE: u32 = 1024;

/// Whether a character is a decimal digit.
pub open spec fn is_digit(c: char) -> bool {
    '0' <= c && c <= '9'
}

/// The value of a decimal digit.
pub open spec fn digit_value(c: char) -> nat {
    (c as u32 - '0' as u32) as nat
}

/// The digit of a value below ten.
pub open spec fn digit_char(d: nat) -> char {
    if d == 0 {
        '0'
    } else if d == 1 {
        '1'
    } else if d == 2 {
        '2'
    } else if d == 3 {
        '3'
    } else if d == 4 {
        '4'
    } else if d == 5 {
        '5'
    } else if d == 6 {
        '6'
    } else if d == 7 {
        '7'
    } else if d == 8 {
        '8'
    } else {
        '9'
    }
}

/// Every character is a decimal digit.
pub open spec fn all_digits(s: Seq<char>) -> bool {
    forall|i: int| 0 <= i < s.len() ==> is_digit(#[trigger] s[i])
}

/// The number that a sequence of decimal digits writes.
pub open spec fn decimal_value(s: Seq<char>) -> nat
    decreases s.len(),
{
    if s.len() == 0 {
        0
    } else {
        decimal_value(s.drop_last()) * 10 + digit_value(s.last())
    }
}

/// A number in decimal digits, without leading zeros.
pub open spec fn decimal(n: nat) -> Seq<char>
    decreases n,
{
    if n < 10 {
        seq![digit_char(n)]
    } else {
        decimal(n / 10).push(digit_char(n % 10))
    }
}

/// The number that decimal digits write, where there is at least one digit
/// and the number has 32 bits.
pub open spec fn parsed_digits(digits: Seq<char>) -> Option<u32> {
    if digits.len() > 0 && all_digits(digits) && decimal_value(digits) <= u32::MAX {
        Some(decimal_value(digits) as u32)
    } else {
        None
    }
}

/// The number that a string writes: an optional plus sign, then decimal
/// digits, at least one, that write a number of 32 bits. Anything else
/// writes no number.
pub open spec fn parsed_u32(s: Seq<char>) -> Option<u32> {
    if s.len() > 0 && s[0] == '+' {
        parsed_digits(s.skip(1))
    } else {
        parsed_digits(s)
    }
}

/// How often `c` stands in `s`.
pub open spec fn count_of(s: Seq<char>, c: char) -> nat
    decreases s.len(),
{
    if s.len() == 0 {
        0
    } else {
        count_of(s.drop_last(), c) + if s.last() == c {
            1nat
        } else {
            0nat
        }
    }
}

/// Width and height of a size string: where exactly one `x` stands in it
/// and what stands before it and what stands after it each write a number,
/// those two numbers; in every other case 1024 by 1024.
pub open spec fn size_of(size: Seq<char>) -> (u32, u32) {
    if count_of(size, 'x') == 1 {
        let at = size.index_of('x');
        match (parsed_u32(size.take(at)), parsed_u32(size.skip(at + 1))) {
            (Some(width), Some(height)) => (width, height),
            _ => (DEFAULT_SIDE, DEFAULT_SIDE),
        }
    } else {
        (DEFAULT_SIDE, DEFAULT_SIDE)
    }
}

/// A size string: the width, an `x`, the height.
pub open spec fn size_string(width: u32, height: u32) -> Seq<char> {
    decimal(width as nat) + seq!['x'] + decimal(height as nat)
}

/// The digits of a number are digits and write that number.
pub proof fn lemma_decimal(n: nat)
    ensures
        decimal(n).len() > 0,
        all_digits(decimal(n)),
        decimal_value(decimal(n)) == n,
        count_of(decimal(n), 'x') == 0,
        decimal(n)[0] != '+',
    decreases n,
{
    if n < 10 {
        assert(decimal(n).drop_last() =~= Seq::<char>::empty());
        assert(decimal_value(decimal(n).drop_last()) == 0);
        assert(count_of(decimal(n).drop_last(), 'x') == 0);
    } else {
        lemma_decimal(n / 10);
        assert(decimal(n).drop_last() =~= decimal(n / 10));
    }
}

/// Counting in a string made of two parts.
pub proof fn lemma_count_of_add(a: Seq<char>, b: Seq<char>, c: char)
    ensures
        count_of(a + b, c) == count_of(a, c) + count_of(b, c),
    decreases b.len(),
{
    if b.len() == 0 {
        assert(a + b =~= a);
    } else {
        assert((a + b).drop_last() =~= a + b.drop_last());
        lemma_count_of_add(a, b.drop_last(), c);
    }
}

/// A number written in decimal digits is read back as itself.
pub proof fn lemma_parse_decimal(n: u32)
    ensures
        parsed_u32(decimal(n as nat)) == Some(n),
{
    lemma_decimal(n as nat);
}

/// A character that stands in a string is counted.
pub proof fn lemma_count_some(s: Seq<char>, c: char, a: int)
    requires
        0 <= a < s.len(),
        s[a] == c,
    ensures
        count_of(s, c) >= 1,
    decreases s.len(),
{
    if a < s.len() - 1 {
        lemma_count_some(s.drop_last(), c, a);
    }
}

/// A character that stands at two places is counted twice.
pub proof fn lemma_count_two(s: Seq<char>, c: char, a: int, b: int)
    requires
        0 <= a < b < s.len(),
        s[a] == c,
        s[b] == c,
    ensures
        count_of(s, c) >= 2,
    decreases s.len(),
{
    if b < s.len() - 1 {
        lemma_count_two(s.drop_last(), c, a, b);
    } else {
        lemma_count_some(s.drop_last(), c, a);
    }
}

/// A character that is counted once stands at one place, and `index_of`
/// finds that place.
pub proof fn lemma_count_one(s: Seq<char>, c: char, a: int)
    requires
        0 <= a < s.len(),
        s[a] == c,
        count_of(s, c) == 1,
    ensures
        s.index_of(c) == a,
{
    let found = s.index_of(c);
    assert(s.contains(c));
    assert(0 <= found < s.len() && s[found] == c);
    if found < a {
        lemma_count_two(s, c, found, a);
    }
    if a < found {
        lemma_count_two(s, c, a, found);
    }
}

/// Writing a width and a height as a size string and reading the string
/// back gives the width and the height.
pub proof fn lemma_size_round_trip(width: u32, height: u32)
    ensures
        size_of(size_string(width, height)) == (width, height),
{
    let w = decimal(width as nat);
    let h = decimal(height as nat);
    let s = size_string(width, height);
    lemma_decimal(width as nat);
    lemma_decimal(height as nat);
    lemma_count_of_add(w, seq!['x'], 'x');
    lemma_count_of_add(w + seq!['x'], h, 'x');
    assert(seq!['x'].drop_last() =~= Seq::<char>::empty());
    assert(seq!['x'].last() == 'x');
    assert(count_of(Seq::<char>::empty(), 'x') == 0);
    assert(count_of(seq!['x'], 'x') == 1);
    assert(s[w.len() as int] == 'x');
    lemma_count_one(s, 'x', w.len() as int);
    let at = s.index_of('x');
    assert(s.take(at) =~= w);
    assert(s.skip(at + 1) =~= h);
    lemma_parse_decimal(width);
    lemma_parse_decimal(height);
}

/// The number that a sequence of characters writes, if it writes one.
pub fn parse_u32(s: &Vec<char>, from: usize, to: usize) -> (r: Option<u32>)
    requires
        from <= to <= s.len(),
    ensures
        r == parsed_u32(s@.subrange(from as int, to as int)),
{
    let ghost part = s@.subrange(from as int, to as int);
    let start: usize = if from < to && s[from] == '+' {
        from + 1
    } else {
        from
    };
    let ghost digits = s@.subrange(start as int, to as int);
    proof {
        if from < to && part[0] == '+' {
            assert(part.skip(1) =~= digits);
        } else {
            assert(part =~= digits);
        }
    }
    if start == to {
        return None;
    }
    let mut value: u64 = 0;
    let mut i: usize = start;
    assert(digits.take(0) =~= Seq::<char>::empty());
    while i < to
        invariant
            start <= i <= to,
            to <= s.len(),
            digits == s@.subrange(start as int, to as int),
            parsed_digits(digits) == parsed_u32(s@.subrange(from as int, to as int)),
            all_digits(digits.take(i - start)),
            value == decimal_value(digits.take(i - start)),
            value <= u32::MAX,
        decreases to - i,
    {
        let c = s[i];
        proof {
            assert(digits.take(i - start + 1).drop_last() =~= digits.take(i - start));
            assert(digits.take(i - start + 1).last() == c);
            assert(digits[i - start] == c);
        }
        if !('0' <= c && c <= '9') {
            assert(!is_digit(digits[i - start]));
            return None;
        }
        let next = value * 10 + (c as u32 - '0' as u32) as u64;
        assert(next == decimal_value(digits.take(i - start + 1)));
        if next > u32::MAX as u64 {
            proof {
                lemma_value_grows(digits, i - start + 1);
            }
            return None;
        }
        proof {
            assert forall|j: int| 0 <= j < digits.take(i - start + 1).len() implies is_digit(
                #[trigger] digits.take(i - start + 1)[j],
            ) by {
                if j < i - start {
                    assert(is_digit(digits.take(i - start)[j]));
                }
            }
        }
        value = next;
        i = i + 1;
    }
    assert(digits.take(to - start) =~= digits);
    Some(value as u32)
}

/// A number does not get smaller when more digits follow.
pub proof fn lemma_value_grows(s: Seq<char>, n: int)
    requires
        0 <= n <= s.len(),
    ensures
        decimal_value(s.take(n)) <= decimal_value(s),
    decreases s.len() - n,
{
    if n < s.len() {
        lemma_value_grows(s, n + 1);
        assert(s.take(n + 1).drop_last() =~= s.take(n));
    } else {
        assert(s.take(n) =~= s);
    }
}

impl GenerateImageRequest {
    /// Parse size string into width and height.
    pub fn parse_size(&self) -> (size: (u32, u32))
        ensures
            size == size_of(self.size@),
    {
        let chars = chars_of(self.size.as_str());
        let mut count: usize = 0;
        let mut at: usize = 0;
        let mut i: usize = 0;
        assert(chars@.take(0) =~= Seq::<char>::empty());
        while i < chars.len()
            invariant
                i <= chars.len(),
                count <= i,
                count == count_of(chars@.take(i as int), 'x'),
                count > 0 ==> at < i && chars@[at as int] == 'x',
            decreases chars.len() - i,
        {
            proof {
                assert(chars@.take(i + 1).drop_last() =~= chars@.take(i as int));
            }
            if chars[i] == 'x' {
                at = i;
                count = count + 1;
            }
            i = i + 1;
        }
        assert(chars@.take(chars@.len() as int) =~= chars@);
        if count != 1 {
            return (DEFAULT_SIDE, DEFAULT_SIDE);
        }
        proof {
            lemma_count_one(chars@, 'x', at as int);
            assert(chars@.subrange(0, at as int) =~= chars@.take(at as int));
            assert(chars@.subrange(at + 1, chars@.len() as int) =~= chars@.skip(at + 1));
        }
        match (parse_u32(&chars, 0, at), parse_u32(&chars, at + 1, chars.len())) {
            (Some(width), Some(height)) => (width, height),
            _ => (DEFAULT_SIDE, DEFAULT_SIDE),
        }
    }

    /// The size string of a width and a height.
    pub fn format_size(width: u32, height: u32) -> (size: String)
        ensures
            size@ == size_string(width, height),
    {
        let mut chars = digits_of(width);
        chars.push('x');
        let mut tail = digits_of(height);
        chars.append(&mut tail);
        string_of(&chars)
    }
}

/// The decimal digits of a number.
pub fn digits_of(n: u32) -> (digits: Vec<char>)
    ensures
        digits@ == decimal(n as nat),
    decreases n,
{
    let last = digit_of((n % 10) as u8);
    if n < 10 {
        let mut digits: Vec<char> = Vec::new();
        digits.push(last);
        assert(digits@ =~= decimal(n as nat));
        digits
    } else {
        let mut digits = digits_of(n / 10);
        digits.push(last);
        digits
    }
}

/// The digit of a value below ten.
pub fn digit_of(d: u8) -> (c: char)
    requires
        d < 10,
    ensures
        c == digit_char(d as nat),
{
    if d == 0 {
        '0'
    } else if d == 1 {
        '1'
    } else if d == 2 {
        '2'
    } else if d == 3 {
        '3'
    } else if d == 4 {
        '4'
    } else if d == 5 {
        '5'
    } else if d == 6 {
        '6'
    } else if d == 7 {
        '7'
    } else if d == 8 {
        '8'
    } else {
        '9'
    }
}

/// Image data in the response.
#[derive(Debug, Clone)]
pub struct ImageData {
    /// Base64 encoded image (when response_format is b64_json).
    pub b64_json: Option<String>,
    /// URL to the generated image (when response_format is url).
    pub url: Option<String>,
    /// Revised prompt (if the model modified the prompt).
    pub revised_prompt: Option<String>,
}

/// Image generation response (OpenAI compatible).
#[derive(Debug, Clone)]
pub struct GenerateImageResponse {
    /// Unix timestamp of creation.
    pub created: i64,
    /// List of generated images.
    pub data: Vec<ImageData>,
}

/// Backend information for management API.
#[derive(Debug, Clone)]
pub struct BackendInfo {
    pub name: String,
    pub protocol: String,
    pub endpoints: Vec<String>,
    pub healthy: bool,
    pub weight: u32,
    pub enabled: bool,
}

/// Backend list response.
#[derive(Debug, Clone)]
pub struct BackendListResponse {
    pub backends: Vec<BackendInfo>,
}

/// Add backend request.
#[derive(Debug, Clone)]
pub struct AddBackendRequest {
    pub name: String,
    pub protocol: String,
    pub endpoints: Vec<String>,
    pub health_check_path: String,
    pub health_check_interval_secs: u64,
    pub timeout_ms: u64,
    pub weight: u32,
    /// Backend type: `image` or `text`.
    pub backend_type: String,
}

pub fn default_protocol() -> (r: String)
    ensures
        r@ == "http"@,
{
    "http".to_string()
}

pub fn default_backend_type() -> (r: String)
    ensures
        r@ == "image"@,
{
    "image".to_string()
}

pub fn default_health_check_path() -> (r: String)
    ensures
        r@ == "/health"@,
{
    "/health".to_string()
}

pub fn default_health_check_interval() -> (r: u64)
    ensures
        r == 30,
{
    30
}

pub fn default_timeout() -> (r: u64)
    ensures
        r == 60000,
{
    60000
}

pub fn default_weight() -> (r: u32)
    ensures
        r == 1,
{
    1
}

/// Health check response.
#[derive(Debug, Clone)]
pub struct HealthResponse {
    pub status: String,
    pub version: String,
    pub backends: BackendHealthSummary,
}

#[derive(Debug, Clone)]
pub struct BackendHealthSummary {
    pub total: usize,
    pub healthy: usize,
    pub unhealthy: usize,
}

/// Generic success response.
#[derive(Debug, Clone)]
pub struct SuccessResponse {
    pub success: bool,
    pub message: String,
}

} // verus!
