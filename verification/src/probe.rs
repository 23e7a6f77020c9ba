//! The capability prober: what the answer to a metadata request says about a resource, and
//! which download strategy follows from it.

use vstd::prelude::*;
use vstd::pervasive::unreached;
use vstd::string::StringExecFns;

verus! {

/// The text that `reqwest::StatusCode` displays for a status code: the number, a space,
/// and the canonical reason phrase of the code or, for a code that has none, a fixed
/// placeholder.
pub uninterp spec fn status_line(code: u16) -> Seq<char>;

/// Renders a status code as `reqwest::StatusCode` displays it. `StatusCode::from_u16`
/// accepts exactly the codes from 100 to 999; no other code is rendered.
#[verifier::external_body]
fn render_status(code: u16) -> (text: Option<String>)
    ensures
        text is Some <==> 100 <= code <= 999,
        text matches Some(shown) ==> shown@ == status_line(code),
{
    reqwest::StatusCode::from_u16(code).ok().map(|status| status.to_string())
}

/// The status code of an HTTP response: a number from 100 to 999.
#[derive(Clone, Copy, Debug)]
pub struct HttpStatus {
    code: u16,
}

/// The request that a response answers.
#[derive(Clone, Copy, Debug, PartialEq, Eq, Structural)]
pub enum Request {
    /// The metadata request of the prober.
    Head,
    /// The request for the whole resource.
    Get,
    /// The request of one worker for its range.
    Range,
}

impl HttpStatus {
    #[verifier::type_invariant]
    spec fn in_range(self) -> bool {
        100 <= self.code <= 999
    }

    /// The number of the status.
    pub closed spec fn value(self) -> u16 {
        self.code
    }

    /// Whether the status reports success: a code from 200 to 299.
    pub open spec fn success(self) -> bool {
        200 <= self.value() <= 299
    }

    /// Accepts a status code from 100 to 999.
    pub fn new(code: u16) -> (status: Option<HttpStatus>)
        ensures
            status is Some <==> 100 <= code <= 999,
            status matches Some(s) ==> s.value() == code,
    {
        if 100 <= code && code <= 999 {
            Some(HttpStatus { code })
        } else {
            None
        }
    }

    /// The number of the status.
    pub fn code(&self) -> (code: u16)
        ensures
            code == self.value(),
            100 <= code <= 999,
    {
        proof {
            use_type_invariant(self);
        }
        self.code
    }

    /// Whether the status reports success.
    pub fn is_success(&self) -> (b: bool)
        ensures
            b == self.success(),
    {
        200 <= self.code && self.code <= 299
    }

    /// The status as it is shown in messages, as in `404 Not Found`.
    pub fn display(&self) -> (text: String)
        ensures
            text@ == status_line(self.value()),
    {
        proof {
            use_type_invariant(self);
        }
        match render_status(self.code) {
            Some(shown) => shown,
            None => unreached(),
        }
    }
}

impl Request {
    /// How the message about a refused response of this request begins.
    pub open spec fn refusal_prefix(self) -> Seq<char> {
        match self {
            Request::Head => "HEAD HTTP error: "@,
            Request::Get => "HTTP error: "@,
            Request::Range => "Range HTTP error: "@,
        }
    }

    /// Whether a response with this status is accepted. A worker accepts partial content
    /// and every other success; the prober and the single stream accept every success.
    pub open spec fn accepts(self, status: HttpStatus) -> bool {
        match self {
            Request::Range => status.value() == 206 || status.success(),
            _ => status.success(),
        }
    }
}

/// Accepts or refuses the status of a response. A refusal carries the message of the
/// failure, which names the request and the status.
pub fn check_status(request: Request, status: &HttpStatus) -> (r: Result<(), String>)
    ensures
        r is Ok <==> request.accepts(*status),
        r matches Err(message) ==> message@ == request.refusal_prefix() + status_line(
            status.value(),
        ),
{
    let accepted: bool = match request {
        Request::Range => status.code() == 206 || status.is_success(),
        _ => status.is_success(),
    };
    if accepted {
        Ok(())
    } else {
        let mut message: String = match request {
            Request::Head => "HEAD HTTP error: ".to_owned(),
            Request::Get => "HTTP error: ".to_owned(),
            Request::Range => "Range HTTP error: ".to_owned(),
        };
        let shown = status.display();
        message.append(shown.as_str());
        Err(message)
    }
}

/// Whether a byte is a decimal digit.
pub open spec fn is_digit(b: u8) -> bool {
    48 <= b <= 57
}

/// Whether all bytes are decimal digits.
pub open spec fn all_digits(s: Seq<u8>) -> bool {
    forall|i: int| 0 <= i < s.len() ==> is_digit(#[trigger] s[i])
}

/// The number that a run of decimal digits writes.
pub open spec fn digits_value(s: Seq<u8>) -> nat
    decreases s.len(),
{
    if s.len() == 0 {
        0
    } else {
        digits_value(s.drop_last()) * 10 + (s.last() - 48) as nat
    }
}

/// The digits of a number text: the text without its leading plus sign, if it has one.
pub open spec fn unsigned_digits(s: Seq<u8>) -> Seq<u8> {
    if s.len() > 0 && s[0] == 43 {
        s.skip(1)
    } else {
        s
    }
}

/// The length that a `Content-Length` value declares: the value must be an optional plus
/// sign followed by at least one decimal digit and nothing else, and the number must fit
/// in 64 bits.
pub open spec fn declared_length(s: Seq<u8>) -> Option<u64> {
    let digits = unsigned_digits(s);
    if digits.len() > 0 && all_digits(digits) && digits_value(digits) <= u64::MAX {
        Some(digits_value(digits) as u64)
    } else {
        None
    }
}

/// A run of digits writes no smaller a number than any of its beginnings.
proof fn lemma_digits_value_grows(s: Seq<u8>, k: int)
    requires
        0 <= k <= s.len(),
        all_digits(s),
    ensures
        digits_value(s.take(k)) <= digits_value(s),
    decreases s.len(),
{
    if k < s.len() {
        assert(s.drop_last().take(k) =~= s.take(k));
        lemma_digits_value_grows(s.drop_last(), k);
    } else {
        assert(s.take(k) =~= s);
    }
}

/// Parses the value of a `Content-Length` header.
pub fn parse_length(value: &[u8]) -> (n: Option<u64>)
    ensures
        n == declared_length(value@),
{
    let len: usize = value.len();
    let first: usize = if len > 0 && value[0] == 43 {
        1
    } else {
        0
    };
    let ghost digits = unsigned_digits(value@);
    assert(digits =~= value@.skip(first as int));
    if first == len {
        return None;
    }
    let mut i: usize = first;
    let mut n: u64 = 0;
    while i < len
        invariant
            first <= i <= len,
            len == value@.len(),
            digits == unsigned_digits(value@),
            digits == value@.skip(first as int),
            all_digits(digits.take(i - first)),
            n == digits_value(digits.take(i - first)),
        decreases len - i,
    {
        let b: u8 = value[i];
        let ghost k = i - first;
        assert(digits.take(k + 1).drop_last() =~= digits.take(k));
        assert(digits.take(k + 1).last() == b);
        if b < 48 || b > 57 {
            assert(!is_digit(digits[k]));
            return None;
        }
        assert(all_digits(digits.take(k + 1))) by {
            assert forall|j: int| 0 <= j < k + 1 implies is_digit(
                #[trigger] digits.take(k + 1)[j],
            ) by {
                if j < k {
                    assert(digits.take(k)[j] == digits.take(k + 1)[j]);
                }
            }
        }
        let next: Option<u64> = match n.checked_mul(10) {
            Some(tens) => tens.checked_add((b - 48) as u64),
            None => None,
        };
        match next {
            Some(v) => {
                n = v;
            },
            None => {
                proof {
                    assert(digits_value(digits.take(k + 1)) == n * 10 + (b - 48));
                    if all_digits(digits) {
                        lemma_digits_value_grows(digits, k + 1);
                    }
                }
                return None;
            },
        }
        i = i + 1;
    }
    assert(digits.take(len - first) =~= digits);
    Some(n)
}

/// The total size that a response declares: the parsed `Content-Length`, and 0, which
/// stands for "unknown", where the header is missing or does not parse.
pub open spec fn declared_total(value: Option<Seq<u8>>) -> u64 {
    match value {
        Some(v) => match declared_length(v) {
            Some(n) => n,
            None => 0,
        },
        None => 0,
    }
}

/// A byte that a header value may show as text: printable ASCII or a tab.
pub open spec fn visible_ascii(b: u8) -> bool {
    32 <= b < 127 || b == 9
}

/// Whether a header value reads as text.
pub open spec fn readable(s: Seq<u8>) -> bool {
    forall|i: int| 0 <= i < s.len() ==> visible_ascii(#[trigger] s[i])
}

/// The lower-case form of an ASCII letter; every other byte stands for itself.
pub open spec fn lower_byte(b: u8) -> u8 {
    if 65 <= b <= 90 {
        (b + 32) as u8
    } else {
        b
    }
}

/// Whether the word `bytes`, in any mix of upper and lower case, stands at position `k`.
pub open spec fn bytes_token_at(s: Seq<u8>, k: int) -> bool {
    &&& 0 <= k
    &&& k + 5 <= s.len()
    &&& lower_byte(s[k]) == 98
    &&& lower_byte(s[k + 1]) == 121
    &&& lower_byte(s[k + 2]) == 116
    &&& lower_byte(s[k + 3]) == 101
    &&& lower_byte(s[k + 4]) == 115
}

/// Whether an `Accept-Ranges` value advertises byte ranges: it reads as text and holds
/// the word `bytes` somewhere, in any case.
pub open spec fn advertises_bytes(s: Seq<u8>) -> bool {
    readable(s) && exists|k: int| bytes_token_at(s, k)
}

/// Whether a response with this `Accept-Ranges` header, if it has one, supports ranges.
pub open spec fn declared_ranges(value: Option<Seq<u8>>) -> bool {
    match value {
        Some(v) => advertises_bytes(v),
        None => false,
    }
}

fn fold_byte(b: u8) -> (l: u8)
    ensures
        l == lower_byte(b),
{
    if 65 <= b && b <= 90 {
        b + 32
    } else {
        b
    }
}

fn is_readable(value: &[u8]) -> (b: bool)
    ensures
        b == readable(value@),
{
    let mut i: usize = 0;
    while i < value.len()
        invariant
            i <= value.len(),
            forall|j: int| 0 <= j < i ==> visible_ascii(#[trigger] value@[j]),
        decreases value.len() - i,
    {
        let b: u8 = value[i];
        if !((32 <= b && b < 127) || b == 9) {
            return false;
        }
        i = i + 1;
    }
    true
}

/// Tells whether an `Accept-Ranges` value advertises byte ranges.
pub fn accepts_byte_ranges(value: &[u8]) -> (b: bool)
    ensures
        b == advertises_bytes(value@),
{
    if !is_readable(value) {
        return false;
    }
    let len: usize = value.len();
    if len < 5 {
        return false;
    }
    let mut k: usize = 0;
    while k <= len - 5
        invariant
            5 <= len == value@.len(),
            k <= len - 4,
            readable(value@),
            forall|j: int| 0 <= j < k ==> !bytes_token_at(value@, j),
        decreases len - k,
    {
        if fold_byte(value[k]) == 98 && fold_byte(value[k + 1]) == 121 && fold_byte(value[k + 2])
            == 116 && fold_byte(value[k + 3]) == 101 && fold_byte(value[k + 4]) == 115 {
            assert(bytes_token_at(value@, k as int));
            return true;
        }
        k = k + 1;
    }
    false
}

/// What the prober learns about a resource.
#[derive(Clone, Copy, Debug, PartialEq, Eq, Structural)]
pub struct Capability {
    /// Size of the resource in bytes; 0 where it is unknown.
    pub total_size: u64,
    /// Whether the server advertises byte ranges.
    pub supports_ranges: bool,
}

/// How a resource is fetched.
#[derive(Clone, Copy, Debug, PartialEq, Eq, Structural)]
pub enum Strategy {
    /// One sequential request for the whole resource.
    SingleStream,
    /// One request per range of the range plan, all at once.
    ParallelRanges,
}

/// The bytes of a header value, where the header is present.
pub open spec fn header_bytes(value: Option<&[u8]>) -> Option<Seq<u8>> {
    match value {
        Some(v) => Some(v@),
        None => None,
    }
}

/// Reads the capability of a resource off the answer to the metadata request: a refused
/// status fails the probe, and the two headers give size and range support.
pub fn probe(status: &HttpStatus, content_length: Option<&[u8]>, accept_ranges: Option<
    &[u8],
>) -> (r: Result<Capability, String>)
    ensures
        r is Ok <==> status.success(),
        r matches Ok(capability) ==> capability == (Capability {
            total_size: declared_total(header_bytes(content_length)),
            supports_ranges: declared_ranges(header_bytes(accept_ranges)),
        }),
        r matches Err(message) ==> message@ == Request::Head.refusal_prefix() + status_line(
            status.value(),
        ),
{
    match check_status(Request::Head, status) {
        Err(message) => Err(message),
        Ok(()) => {
            let total_size: u64 = total_size_of(content_length);
            let supports_ranges: bool = match accept_ranges {
                Some(v) => accepts_byte_ranges(v),
                None => false,
            };
            Ok(Capability { total_size, supports_ranges })
        },
    }
}

/// The total size that a response declares in its `Content-Length` header, if it has one;
/// 0 where it declares none that parses.
pub fn total_size_of(content_length: Option<&[u8]>) -> (total: u64)
    ensures
        total == declared_total(header_bytes(content_length)),
{
    match content_length {
        Some(v) => match parse_length(v) {
            Some(n) => n,
            None => 0,
        },
        None => 0,
    }
}

impl Capability {
    /// The strategy for a resource: ranges in parallel where the size is known and the
    /// server supports ranges, a single stream otherwise.
    pub open spec fn strategy(self) -> Strategy {
        if self.total_size == 0 || !self.supports_ranges {
            Strategy::SingleStream
        } else {
            Strategy::ParallelRanges
        }
    }

    /// Chooses the strategy for a resource.
    pub fn choose_strategy(&self) -> (s: Strategy)
        ensures
            s == self.strategy(),
    {
        if self.total_size == 0 || !self.supports_ranges {
            Strategy::SingleStream
        } else {
            Strategy::ParallelRanges
        }
    }
}

} // verus!
