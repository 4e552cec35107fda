use crate::command::{object_keys, str_json, value_at};
use crate::json::{get_member, json_text_of, member, to_json_text, Json};
use crate::types::{
    all_digits, decimal_text, decimal_value, is_digit, is_u64_text, parse_u64, push_char,
    push_str, unsigned_digits, write_decimal, Id,
};
use vstd::prelude::*;
use vstd::string::{StrSliceExecFns, StringSliceAdditionalSpecFns};

verus! {

/// The index of the first `c` in `s`, or its length where it holds none.
pub open spec fn first_index_of(s: Seq<char>, c: char) -> int
    decreases s.len(),
{
    if s.len() == 0 {
        0
    } else if s[0] == c {
        0
    } else {
        1 + first_index_of(s.drop_first(), c)
    }
}

proof fn lemma_first_index_of(s: Seq<char>, c: char, k: int)
    requires
        0 <= k <= s.len(),
        k < s.len() ==> s[k] == c,
        forall|j: int| 0 <= j < k ==> s[j] != c,
    ensures
        first_index_of(s, c) == k,
    decreases s.len(),
{
    if s.len() > 0 && k > 0 {
        lemma_first_index_of(s.drop_first(), c, k - 1);
    }
}

/// The first three digits of a fraction, padded with zeros, as thousandths.
pub open spec fn thousandths(f: Seq<char>) -> Seq<char> {
    if f.len() >= 3 {
        f.take(3)
    } else {
        f + Seq::new((3 - f.len()) as nat, |i: int| '0')
    }
}

/// A decimal fraction in thousandths, rounded up.
pub open spec fn fraction_millis(f: Seq<char>) -> nat {
    decimal_value(thousandths(f)) + if exists|i: int| 3 <= i < f.len() && f[i] != '0' {
        1nat
    } else {
        0nat
    }
}

/// The milliseconds that a reset-after header gives: a decimal number of seconds, with an
/// optional fraction, rounded up to a whole millisecond; `None` where the text is no such
/// number or the result does not fit in 64 bits.
pub open spec fn reset_after_millis(s: Seq<char>) -> Option<u64> {
    let k = first_index_of(s, '.');
    let whole = s.take(k);
    let fraction = if k < s.len() {
        s.skip(k + 1)
    } else {
        Seq::empty()
    };
    if is_u64_text(whole) && (k < s.len() ==> fraction.len() > 0 && all_digits(fraction)) {
        let v = decimal_value(unsigned_digits(whole)) * 1000 + fraction_millis(fraction);
        if v <= u64::MAX {
            Some(v as u64)
        } else {
            None
        }
    } else {
        None
    }
}

/// Reads a reset-after header into milliseconds.
pub fn parse_reset_after_millis(s: &str) -> (r: Option<u64>)
    ensures
        r == reset_after_millis(s@),
{
    let n = s.unicode_len();
    let mut k: usize = 0;
    while k < n && s.get_char(k) != '.'
        invariant
            k <= n,
            n == s@.len(),
            forall|j: int| 0 <= j < k ==> s@[j] != '.',
        decreases n - k,
    {
        k = k + 1;
    }
    proof {
        lemma_first_index_of(s@, '.', k as int);
    }
    let whole = s.substring_char(0, k);
    assert(whole@ =~= s@.take(k as int));
    let seconds = match parse_u64(whole) {
        Some(v) => v,
        None => return None,
    };
    let ghost fraction = if k < n {
        s@.skip(k + 1)
    } else {
        Seq::<char>::empty()
    };
    if k < n && k + 1 == n {
        return None;
    }
    // The first three digits of the fraction, and whether any later digit is not zero.
    let mut millis: u64 = 0;
    let mut rounded_up = false;
    let mut i: usize = if k < n {
        k + 1
    } else {
        n
    };
    let start = i;
    assert(fraction =~= s@.subrange(start as int, n as int));
    assert(s@.subrange(start as int, start as int) =~= Seq::<char>::empty());
    while i < n
        invariant
            start <= i <= n,
            n == s@.len(),
            k <= n,
            k < n ==> start == k + 1,
            first_index_of(s@, '.') == k,
            is_u64_text(s@.take(k as int)),
            seconds == decimal_value(unsigned_digits(s@.take(k as int))),
            fraction == (if k < n {
                s@.skip(k + 1)
            } else {
                Seq::<char>::empty()
            }),
            fraction =~= s@.subrange(start as int, n as int),
            all_digits(s@.subrange(start as int, i as int)),
            i - start <= 3 ==> millis == decimal_value(s@.subrange(start as int, i as int)),
            i - start > 3 ==> millis == decimal_value(s@.subrange(start as int, start + 3)),
            rounded_up == exists|j: int| start + 3 <= j < i && s@[j] != '0',
            millis < 1000,
        decreases n - i,
    {
        let c = s.get_char(i);
        if !('0' <= c && c <= '9') {
            assert(!is_digit(fraction[i - start]));
            return None;
        }
        let ghost prefix = s@.subrange(start as int, i + 1);
        assert(prefix.drop_last() =~= s@.subrange(start as int, i as int));
        assert(forall|j: int| 0 <= j < prefix.len() ==> prefix[j] == s@[start + j]);
        if i - start < 3 {
            assert(decimal_value(prefix) == millis * 10 + (c as int - '0' as int));
            millis = millis * 10 + ((c as u32) - 48) as u64;
            assert(millis < 1000) by {
                lemma_small_decimal(prefix);
            }
        } else if c != '0' {
            rounded_up = true;
        }
        i = i + 1;
    }
    assert(fraction.len() == n - start);
    let ghost head = thousandths(fraction);
    if n - start >= 3 {
        assert(head =~= s@.subrange(start as int, start + 3));
    } else {
        let mut padded: usize = n - start;
        let ghost digits = s@.subrange(start as int, n as int);
        assert(digits + Seq::new(0, |i: int| '0') =~= digits);
        proof {
            lemma_small_decimal(digits);
        }
        while padded < 3
            invariant
                n - start <= padded <= 3,
                digits.len() == n - start,
                all_digits(digits),
                millis == decimal_value(
                    digits + Seq::new((padded - digits.len()) as nat, |i: int| '0'),
                ),
                millis < 1000,
                padded < 3 ==> millis < 100,
            decreases 3 - padded,
        {
            let ghost before = digits + Seq::new((padded - digits.len()) as nat, |i: int| '0');
            let ghost after = digits + Seq::new((padded + 1 - digits.len()) as nat, |i: int| '0');
            assert(after.drop_last() =~= before);
            assert(after.last() == '0');
            assert(forall|j: int| 0 <= j < after.len() ==> is_digit(#[trigger] after[j])) by {
                assert forall|j: int| 0 <= j < after.len() implies is_digit(#[trigger] after[j]) by {
                    if j < digits.len() {
                        assert(after[j] == digits[j]);
                    }
                }
            }
            millis = millis * 10;
            padded = padded + 1;
            proof {
                if padded < 3 {
                    lemma_small_decimal(after);
                }
            }
        }
        assert(head =~= digits + Seq::new((3 - digits.len()) as nat, |i: int| '0'));
    }
    proof {
        if rounded_up {
            let j = choose|j: int| start + 3 <= j < n && s@[j] != '0';
            assert(fraction[j - start] != '0');
        } else {
            assert forall|j: int| 3 <= j < fraction.len() implies fraction[j] == '0' by {
                assert(fraction[j] == s@[start + j]);
            }
        }
    }
    let extra: u64 = if rounded_up {
        1
    } else {
        0
    };
    if seconds > (u64::MAX - millis - extra) / 1000 {
        assert(seconds * 1000 + millis + extra > u64::MAX) by (nonlinear_arith)
            requires
                seconds > (u64::MAX - millis - extra) / 1000,
                millis + extra <= 1000,
        ;
        return None;
    }
    assert(seconds * 1000 + millis + extra <= u64::MAX) by (nonlinear_arith)
        requires
            seconds <= (u64::MAX - millis - extra) / 1000,
            millis + extra <= 1000,
    ;
    Some(seconds * 1000 + millis + extra)
}

proof fn lemma_small_decimal(s: Seq<char>)
    requires
        s.len() <= 3,
        all_digits(s),
    ensures
        s.len() <= 1 ==> decimal_value(s) < 10,
        s.len() <= 2 ==> decimal_value(s) < 100,
        decimal_value(s) < 1000,
    decreases s.len(),
{
    if s.len() > 0 {
        lemma_small_decimal(s.drop_last());
        assert(is_digit(s[s.len() - 1]));
    }
}

/// The instant (in milliseconds) before which a route may not be called again, from the
/// remaining-calls and reset-after headers of a response received at `now`: only where no calls
/// remain and the reset-after header reads; the sum saturates.
pub open spec fn rate_limit_end_of(
    now: u64,
    remaining: Option<Seq<char>>,
    reset_after: Option<Seq<char>>,
) -> Option<u64> {
    match (remaining, reset_after) {
        (Some(rem), Some(ra)) => if is_u64_text(rem) && decimal_value(unsigned_digits(rem)) == 0 {
            match reset_after_millis(ra) {
                Some(ms) => Some(
                    if now + ms <= u64::MAX {
                        (now + ms) as u64
                    } else {
                        u64::MAX
                    },
                ),
                None => None,
            }
        } else {
            None
        },
        _ => None,
    }
}

/// The rate-limit signal of a response received at `now` (milliseconds), from the text of its
/// `X-RateLimit-Remaining` and `X-RateLimit-Reset-After` headers where present.
pub fn rate_limit_end(now: u64, remaining: Option<&str>, reset_after: Option<&str>) -> (r: Option<
    u64,
>)
    ensures
        r == rate_limit_end_of(
            now,
            match remaining {
                Some(t) => Some(t@),
                None => None,
            },
            match reset_after {
                Some(t) => Some(t@),
                None => None,
            },
        ),
{
    let rem = match remaining {
        Some(t) => t,
        None => return None,
    };
    let ra = match reset_after {
        Some(t) => t,
        None => return None,
    };
    match parse_u64(rem) {
        Some(0) => {},
        _ => return None,
    }
    match parse_reset_after_millis(ra) {
        Some(ms) => Some(now.saturating_add(ms)),
        None => None,
    }
}

/// How long (in milliseconds) a call at `now` must wait for the resume instant of the route's
/// previous response to pass.
pub open spec fn wait_of(resume_at: Option<u64>, now: u64) -> u64 {
    match resume_at {
        Some(at) => if now < at {
            (at - now) as u64
        } else {
            0
        },
        None => 0,
    }
}

pub fn wait_millis(resume_at: Option<u64>, now: u64) -> (r: u64)
    ensures
        r == wait_of(resume_at, now),
{
    match resume_at {
        Some(at) => if now < at {
            at - now
        } else {
            0
        },
        None => 0,
    }
}

/// After a response at `now` that leaves no calls and resets after `reset_after`, a call on the
/// same route at any later `t` before the reset is deferred exactly until the computed instant
/// `now + reset_after`, and a call at or after that instant is not deferred.
pub proof fn lemma_call_deferred_until_reset(
    now: u64,
    remaining: Seq<char>,
    reset_after: Seq<char>,
    t: u64,
)
    requires
        is_u64_text(remaining),
        decimal_value(unsigned_digits(remaining)) == 0,
        reset_after_millis(reset_after) is Some,
        now + reset_after_millis(reset_after)->0 <= u64::MAX,
        now <= t,
    ensures
        rate_limit_end_of(now, Some(remaining), Some(reset_after)) == Some(
            (now + reset_after_millis(reset_after)->0) as u64,
        ),
        t < now + reset_after_millis(reset_after)->0 ==> t + wait_of(
            rate_limit_end_of(now, Some(remaining), Some(reset_after)),
            t,
        ) == now + reset_after_millis(reset_after)->0 && wait_of(
            rate_limit_end_of(now, Some(remaining), Some(reset_after)),
            t,
        ) > 0,
        t >= now + reset_after_millis(reset_after)->0 ==> wait_of(
            rate_limit_end_of(now, Some(remaining), Some(reset_after)),
            t,
        ) == 0,
{
}

pub open spec fn is_unreserved(b: u8) -> bool {
    (0x30 <= b <= 0x39) || (0x41 <= b <= 0x5a) || (0x61 <= b <= 0x7a) || b == 0x2d || b == 0x2e
        || b == 0x5f || b == 0x7e
}

/// An upper-case hexadecimal digit.
pub open spec fn hex_digit(d: u8) -> char {
    if d < 10 {
        (0x30 + d) as char
    } else {
        (0x37 + d) as char
    }
}

pub open spec fn percent_encoded_byte(b: u8) -> Seq<char> {
    if is_unreserved(b) {
        seq![b as char]
    } else {
        seq!['%', hex_digit(b / 16), hex_digit(b % 16)]
    }
}

/// Bytes as a URL path segment: unreserved bytes stand as they are, every other byte as `%`
/// and two upper-case hexadecimal digits.
pub open spec fn percent_encoded(bytes: Seq<u8>) -> Seq<char>
    decreases bytes.len(),
{
    if bytes.len() == 0 {
        Seq::empty()
    } else {
        percent_encoded(bytes.drop_last()) + percent_encoded_byte(bytes.last())
    }
}

fn hex_char(d: u8) -> (c: char)
    requires
        d < 16,
    ensures
        c == hex_digit(d),
{
    if d < 10 {
        (0x30 + d) as char
    } else {
        (0x37 + d) as char
    }
}

/// Percent-encodes the UTF-8 bytes of a string, for use in a URL path.
pub fn url_encode(data: &str) -> (r: String)
    ensures
        r@ == percent_encoded(data.spec_bytes()),
{
    let bytes = data.as_bytes();
    let mut out = String::new();
    let mut i: usize = 0;
    assert(bytes@.subrange(0, 0) =~= Seq::<u8>::empty());
    while i < bytes.len()
        invariant
            i <= bytes@.len(),
            bytes@ == data.spec_bytes(),
            out@ == percent_encoded(bytes@.subrange(0, i as int)),
        decreases bytes@.len() - i,
    {
        let b = bytes[i];
        let ghost before = out@;
        assert(bytes@.subrange(0, i + 1).drop_last() =~= bytes@.subrange(0, i as int));
        if (0x30 <= b && b <= 0x39) || (0x41 <= b && b <= 0x5a) || (0x61 <= b && b <= 0x7a) || b
            == 0x2d || b == 0x2e || b == 0x5f || b == 0x7e {
            push_char(&mut out, b as char);
            assert(out@ =~= before + seq![b as char]);
        } else {
            push_char(&mut out, '%');
            push_char(&mut out, hex_char(b / 16));
            push_char(&mut out, hex_char(b % 16));
            assert(out@ =~= before + seq!['%', hex_digit(b / 16), hex_digit(b % 16)]);
        }
        i = i + 1;
    }
    assert(bytes@.subrange(0, bytes@.len() as int) =~= bytes@);
    out
}

/// An endpoint path without its leading `/`.
pub open spec fn relative_path(endpoint: Seq<char>) -> Seq<char> {
    if endpoint.len() > 0 && endpoint[0] == '/' {
        endpoint.drop_first()
    } else {
        endpoint
    }
}

/// The full URL of an endpoint of the service's request API.
pub fn api_url(endpoint: &str) -> (r: String)
    ensures
        r@ == "https://discord.com/api/"@ + relative_path(endpoint@),
{
    let mut out = "https://discord.com/api/".to_owned();
    let n = endpoint.unicode_len();
    if n > 0 && endpoint.get_char(0) == '/' {
        let rest = endpoint.substring_char(1, n);
        assert(rest@ =~= endpoint@.drop_first());
        push_str(&mut out, rest);
    } else {
        push_str(&mut out, endpoint);
    }
    out
}

/// The path of a channel's messages, optionally of those before a given message.
pub fn channel_messages_endpoint(channel: Id, before: Option<Id>) -> (r: String)
    ensures
        r@ == "/channels/"@ + decimal_text(channel.0 as nat) + "/messages"@ + match before {
            Some(m) => "?before="@ + decimal_text(m.0 as nat),
            None => Seq::empty(),
        },
{
    let mut out = "/channels/".to_owned();
    write_decimal(&mut out, channel.0);
    push_str(&mut out, "/messages");
    match before {
        Some(m) => {
            let ghost base = out@;
            push_str(&mut out, "?before=");
            write_decimal(&mut out, m.0);
            assert(out@ =~= base + ("?before="@ + decimal_text(m.0 as nat)));
        },
        None => {
            assert(out@ =~= out@ + Seq::<char>::empty());
        },
    }
    out
}

/// The path that adds the client's own reaction with an emoji to a message.
pub fn reaction_endpoint(channel: Id, message: Id, emoji: &str) -> (r: String)
    ensures
        r@ == "/channels/"@ + decimal_text(channel.0 as nat) + "/messages/"@ + decimal_text(
            message.0 as nat,
        ) + "/reactions/"@ + percent_encoded(emoji.spec_bytes()) + "/@me"@,
{
    let mut out = "/channels/".to_owned();
    write_decimal(&mut out, channel.0);
    push_str(&mut out, "/messages/");
    write_decimal(&mut out, message.0);
    push_str(&mut out, "/reactions/");
    let encoded = url_encode(emoji);
    push_str(&mut out, encoded.as_str());
    push_str(&mut out, "/@me");
    out
}

/// The body of a request that posts a message: `{"content": <content>}`.
pub fn create_message_body(content: &str) -> (r: String)
    ensures
        exists|j: Json|
            #![auto]
            object_keys(j, seq!["content"@]) && str_json(value_at(j, 0), content@) && r@
                == json_text_of(j),
{
    let j = Json::Object(vec![("content".to_owned(), Json::Str(content.to_owned()))]);
    to_json_text(&j)
}

/// The protocol version that the streaming endpoint is asked for.
pub const GATEWAY_VERSION: &'static str = "8";

/// The port of a secure transport.
pub const WSS_PORT: u16 = 443;

/// The URL that `base` becomes with the query pairs appended, or `None` where `base` is not a
/// URL.
pub uninterp spec fn url_with_params_of(base: Seq<char>, params: Seq<(Seq<char>, Seq<char>)>) -> Option<
    Seq<char>,
>;

/// The host of a URL, or `None` where the text is not a URL or has no host.
pub uninterp spec fn url_host_of(url: Seq<char>) -> Option<Seq<char>>;

pub open spec fn pairs_view(params: Seq<(&str, &str)>) -> Seq<(Seq<char>, Seq<char>)> {
    params.map_values(|p: (&str, &str)| (p.0@, p.1@))
}

pub open spec fn opt_string_view(r: Option<String>) -> Option<Seq<char>> {
    match r {
        Some(s) => Some(s@),
        None => None,
    }
}

/// Relies on `url::Url::parse_with_params` and the URL's `Display`: the result depends on the
/// base and the pairs alone.
#[verifier::external_body]
fn url_with_params(base: &str, params: &[(&str, &str)]) -> (r: Option<String>)
    ensures
        opt_string_view(r) == url_with_params_of(base@, pairs_view(params@)),
{
    url::Url::parse_with_params(base, params.iter()).ok().map(|u| u.to_string())
}

/// Relies on `url::Url::parse` and `Url::host_str`: the host depends on the text alone.
#[verifier::external_body]
fn url_host(url: &str) -> (r: Option<String>)
    ensures
        opt_string_view(r) == url_host_of(url@),
{
    url::Url::parse(url).ok().and_then(|u| u.host_str().map(|h| h.to_owned()))
}

/// Where the streaming transport is to be opened.
#[derive(Debug)]
pub struct GatewayEndpoint {
    /// The endpoint URL with the version and encoding query parameters.
    pub url: String,
    pub host: String,
    pub port: u16,
}

/// The endpoint metadata did not give a usable URL.
#[derive(Clone, Copy, Debug, PartialEq, Eq, Structural)]
pub enum GatewayError {
    /// The response body has no string member `url`.
    MissingUrl,
    /// The URL does not parse.
    InvalidUrl,
    /// The URL names no host.
    NoHost,
}

/// The query pairs that the streaming endpoint is opened with.
pub open spec fn gateway_params() -> Seq<(Seq<char>, Seq<char>)> {
    seq![("v"@, GATEWAY_VERSION@), ("encoding"@, "json"@)]
}

/// Resolves the streaming endpoint from the body of the endpoint-metadata response
/// (`{"url": ...}`): appends the protocol version and encoding to its URL, and finds the host.
pub fn gateway_endpoint(body: &Json) -> (r: Result<GatewayEndpoint, GatewayError>)
    ensures
        match body {
            Json::Object(fields) => match member(fields@, "url"@) {
                Some(Json::Str(base)) => match url_with_params_of(base@, gateway_params()) {
                    Some(u) => match url_host_of(u) {
                        Some(h) => r matches Ok(e) && e.url@ == u && e.host@ == h && e.port
                            == WSS_PORT,
                        None => r == Err::<GatewayEndpoint, GatewayError>(GatewayError::NoHost),
                    },
                    None => r == Err::<GatewayEndpoint, GatewayError>(GatewayError::InvalidUrl),
                },
                _ => r == Err::<GatewayEndpoint, GatewayError>(GatewayError::MissingUrl),
            },
            _ => r == Err::<GatewayEndpoint, GatewayError>(GatewayError::MissingUrl),
        },
{
    let base = match body {
        Json::Object(fields) => match get_member(fields, "url") {
            Some(Json::Str(base)) => base.as_str(),
            _ => return Err(GatewayError::MissingUrl),
        },
        _ => return Err(GatewayError::MissingUrl),
    };
    let params = [("v", GATEWAY_VERSION), ("encoding", "json")];
    assert(pairs_view(params@) =~= gateway_params());
    let url = match url_with_params(base, &params) {
        Some(u) => u,
        None => return Err(GatewayError::InvalidUrl),
    };
    let host = match url_host(url.as_str()) {
        Some(h) => h,
        None => return Err(GatewayError::NoHost),
    };
    Ok(GatewayEndpoint { url, host, port: WSS_PORT })
}

} // verus!
