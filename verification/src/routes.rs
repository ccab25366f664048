//! The small handlers: the greeting, the redirect target, the media types the
//! manifest endpoint accepts, and the milk rate limit.
use vstd::prelude::*;
use leaky_bucket::RateLimiter;
use crate::text::chars_of;

verus! {

broadcast use vstd::string::group_string_axioms;

/// The greeting served at the root.
pub fn index() -> (r: &'static str)
    ensures
        r@ == "Hello, bird!"@,
{
    "Hello, bird!"
}

/// Where the seek endpoint redirects to (with a `302 Found`).
pub fn seek() -> (r: &'static str)
    ensures
        r@ == "https://www.youtube.com/watch?v=9Gc4QTqslN4"@,
{
    "https://www.youtube.com/watch?v=9Gc4QTqslN4"
}

// ---------------------------------------------------------------------------
// Media types
// ---------------------------------------------------------------------------

/// A character code with ASCII upper-case letters folded to lower case.
pub open spec fn ascii_fold(n: u32) -> u32 {
    if 65 <= n <= 90 {
        (n + 32) as u32
    } else {
        n
    }
}

/// Equality up to ASCII case (`str::eq_ignore_ascii_case`).
pub open spec fn eq_ignore_ascii_case(a: Seq<char>, b: Seq<char>) -> bool {
    &&& a.len() == b.len()
    &&& forall|i: int| 0 <= i < a.len() ==> #[trigger] ascii_fold(a[i] as u32) == ascii_fold(b[i] as u32)
}

/// Whether two texts are equal up to ASCII case.
pub fn ascii_case_insensitive_eq(a: &str, b: &str) -> (r: bool)
    ensures
        r == eq_ignore_ascii_case(a@, b@),
{
    let x = chars_of(a);
    let y = chars_of(b);
    if x.len() != y.len() {
        return false;
    }
    for i in 0..x.len()
        invariant
            x@ == a@,
            y@ == b@,
            x@.len() == y@.len(),
            forall|j: int| 0 <= j < i ==> #[trigger] ascii_fold(x@[j] as u32) == ascii_fold(y@[j] as u32),
    {
        let p = x[i] as u32;
        let q = y[i] as u32;
        let fp = if 65 <= p && p <= 90 {
            p + 32
        } else {
            p
        };
        let fq = if 65 <= q && q <= 90 {
            q + 32
        } else {
            q
        };
        if fp != fq {
            assert(ascii_fold(a@[i as int] as u32) != ascii_fold(b@[i as int] as u32));
            return false;
        }
    }
    true
}

/// A media type: its top-level type and its subtype (`text/html` has top
/// `text` and sub `html`). Both compare without regard to ASCII case.
pub struct MediaType {
    pub top: String,
    pub sub: String,
}

impl MediaType {
    /// The media type is `top/sub`, up to ASCII case.
    pub open spec fn spec_is(&self, top: Seq<char>, sub: Seq<char>) -> bool {
        eq_ignore_ascii_case(self.top@, top) && eq_ignore_ascii_case(self.sub@, sub)
    }

    fn is(&self, top: &str, sub: &str) -> (r: bool)
        ensures
            r == self.spec_is(top@, sub@),
    {
        ascii_case_insensitive_eq(self.top.as_str(), top) && ascii_case_insensitive_eq(
            self.sub.as_str(),
            sub,
        )
    }

    /// Whether this is `application/json`.
    pub fn is_json(&self) -> (r: bool)
        ensures
            r == self.spec_is("application"@, "json"@),
    {
        self.is("application", "json")
    }
}

/// Recognising the manifest formats that are not built into the media type.
pub trait ContentTypeExt {
    /// Whether this is `application/toml`.
    fn is_toml(&self) -> bool;

    /// Whether this is `application/yaml`.
    fn is_yaml(&self) -> bool;
}

impl ContentTypeExt for MediaType {
    fn is_toml(&self) -> (r: bool)
        ensures
            r == self.spec_is("application"@, "toml"@),
    {
        self.is("application", "toml")
    }

    fn is_yaml(&self) -> (r: bool)
        ensures
            r == self.spec_is("application"@, "yaml"@),
    {
        self.is("application", "yaml")
    }
}

/// A manifest in YAML, JSON or TOML form.
pub open spec fn manifest_media_type(m: MediaType) -> bool {
    ||| m.spec_is("application"@, "yaml"@)
    ||| m.spec_is("application"@, "json"@)
    ||| m.spec_is("application"@, "toml"@)
}

/// Admission of a manifest request by its content type.
pub struct ContentTypeGuard;

impl ContentTypeGuard {
    /// Admits the request (`Some`) when it declares a YAML, JSON or TOML
    /// content type; otherwise it is passed on as an unsupported media type
    /// (`None`).
    pub fn from_content_type(content_type: Option<&MediaType>) -> (r: Option<ContentTypeGuard>)
        ensures
            r is Some <==> (content_type matches Some(m) && manifest_media_type(*m)),
    {
        match content_type {
            Some(ct) => {
                if ct.is_yaml() || ct.is_json() || ct.is_toml() {
                    Some(ContentTypeGuard)
                } else {
                    None
                }
            },
            None => None,
        }
    }
}

// ---------------------------------------------------------------------------
// Milk, rate limited
// ---------------------------------------------------------------------------

/// The refusal of a milk request (answered with `429 Too Many Requests`).
#[derive(Debug, PartialEq, Eq)]
pub enum MilkResponse {
    A(String),
}

/// The reply to a milk request.
pub open spec fn milk_reply_is(r: Result<String, MilkResponse>, acquired: bool) -> bool {
    if acquired {
        r matches Ok(s) && s@ == "Milk withdrawn\n"@
    } else {
        r matches Err(MilkResponse::A(s)) && s@ == "No milk available\n"@
    }
}

/// The reply to a milk request, given whether a token was taken from the bucket.
pub fn milk_outcome(acquired: bool) -> (r: Result<String, MilkResponse>)
    ensures
        milk_reply_is(r, acquired),
{
    if acquired {
        Ok("Milk withdrawn\n".to_string())
    } else {
        Err(MilkResponse::A("No milk available\n".to_string()))
    }
}

/// `leaky_bucket::RateLimiter`, carried through without looking inside.
#[verifier::external_type_specification]
#[verifier::external_body]
pub struct ExRateLimiter(RateLimiter);

/// Calls `leaky_bucket::RateLimiter::try_acquire`, which takes `permits`
/// tokens when the bucket holds that many and says whether it did. The answer
/// depends on the time and on the calls made before, so nothing is stated
/// of it.
#[verifier::external_body]
fn try_acquire(bucket: &RateLimiter, permits: usize) -> bool {
    bucket.try_acquire(permits)
}

/// The number of tokens one milk withdrawal takes from the bucket.
pub fn milk_permits() -> (n: usize)
    ensures
        n == 1,
{
    1
}

/// Withdraws milk when the bucket has a token left: one of the two replies,
/// according to whether the token could be taken.
pub fn get_milk(bucket: &RateLimiter) -> (r: Result<String, MilkResponse>)
    ensures
        milk_reply_is(r, true) || milk_reply_is(r, false),
{
    let acquired = try_acquire(bucket, milk_permits());
    milk_outcome(acquired)
}

} // verus!
