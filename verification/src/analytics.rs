//! Request analytics: how a served request is recorded (its device class,
//! the client address that the trusted proxy reports, the lengths that the
//! stored texts are cut to) and the window that an analytics query reads.
use vstd::prelude::*;
use crate::deployment::{clamp, clamp_i64, like_pattern};
use crate::text::{
    append_str, chars_of, contains_chars, contains_seq, copy_range, decimal, decimal_i64, lower,
    lower_chars, split, split_chars, string_from, string_of, trim, trim_chars, trim_str, upper,
    upper_chars,
};

verus! {

/// The device class of a user agent, before lower-casing.
pub open spec fn device_class(ua: Seq<char>) -> Seq<char> {
    let l = lower(ua);
    if contains_seq(l, "mobile"@) || contains_seq(l, "android"@) || contains_seq(l, "iphone"@) {
        "mobile"@
    } else if contains_seq(l, "tablet"@) || contains_seq(l, "ipad"@) {
        "tablet"@
    } else if l.len() == 0 {
        "unknown"@
    } else {
        "desktop"@
    }
}

/// Classifies a user agent as `mobile`, `tablet`, `desktop`, or `unknown`
/// when it is empty; the test ignores ASCII case.
pub fn device_type(user_agent: &str) -> (r: &'static str)
    ensures
        r@ == device_class(user_agent@),
{
    let ua = chars_of(user_agent);
    let ua = lower_chars(ua.as_slice());
    let mobile = chars_of("mobile");
    let android = chars_of("android");
    let iphone = chars_of("iphone");
    let tablet = chars_of("tablet");
    let ipad = chars_of("ipad");
    if contains_chars(ua.as_slice(), mobile.as_slice()) || contains_chars(
        ua.as_slice(),
        android.as_slice(),
    ) || contains_chars(ua.as_slice(), iphone.as_slice()) {
        "mobile"
    } else if contains_chars(ua.as_slice(), tablet.as_slice()) || contains_chars(
        ua.as_slice(),
        ipad.as_slice(),
    ) {
        "tablet"
    } else if ua.len() == 0 {
        "unknown"
    } else {
        "desktop"
    }
}

/// The first `n` characters of `s`.
pub open spec fn first_chars(s: Seq<char>, n: nat) -> Seq<char> {
    if s.len() <= n {
        s
    } else {
        s.take(n as int)
    }
}

/// Keeps at most `n` characters of a text.
pub fn truncate_chars(s: &str, n: usize) -> (r: String)
    ensures
        r@ == first_chars(s@, n as nat),
{
    let chars = chars_of(s);
    if chars.len() <= n {
        string_of(chars.as_slice())
    } else {
        let kept = copy_range(chars.as_slice(), 0, n);
        string_of(kept.as_slice())
    }
}

/// A request's duration in whole milliseconds, saturated at `i64::MAX`.
pub fn duration_millis(millis: u128) -> (r: i64)
    ensures
        r as int == if millis > i64::MAX as u128 {
            i64::MAX as int
        } else {
            millis as int
        },
{
    if millis > 9223372036854775807u128 {
        i64::MAX
    } else {
        millis as i64
    }
}

/// The name under which a request's protocol is stored.
pub fn protocol_name(https: bool) -> (r: &'static str)
    ensures
        r@ == if https {
            "https"@
        } else {
            "http"@
        },
{
    if https {
        "https"
    } else {
        "http"
    }
}

/// The headers, in order of trust, that carry the client's address when a
/// proxy stands in front of the server.
pub fn client_ip_headers() -> (r: Vec<&'static str>)
    ensures
        r@.len() == 3,
        r@[0]@ == "cf-connecting-ip"@,
        r@[1]@ == "x-real-ip"@,
        r@[2]@ == "x-forwarded-for"@,
{
    vec!["cf-connecting-ip", "x-real-ip", "x-forwarded-for"]
}

/// The address a forwarding header names: its first comma-separated entry,
/// trimmed.
pub open spec fn forwarded_entry(value: Seq<char>) -> Seq<char> {
    trim(split(value, ',')[0])
}

/// The candidate client address in a forwarding header's value.
pub fn forwarded_address(value: &str) -> (r: String)
    ensures
        r@ == forwarded_entry(value@),
{
    let chars = chars_of(value);
    let pieces = split_chars(chars.as_slice(), ',');
    proof {
        crate::text::lemma_split_by_len(value@, crate::text::equals(','));
    }
    let first = trim_chars(pieces[0].as_slice());
    string_of(first.as_slice())
}

/// The index of the first candidate that was present and read as an IP
/// address, or the number of candidates when there is none.
pub open spec fn first_address(candidates: Seq<Option<String>>, is_ip: Seq<bool>) -> nat
    decreases candidates.len(),
{
    if candidates.len() == 0 || is_ip.len() == 0 {
        0
    } else if candidates[0] is Some && is_ip[0] {
        0
    } else {
        1 + first_address(candidates.drop_first(), is_ip.drop_first())
    }
}

/// The client address to record: the first candidate (one per header of
/// `client_ip_headers`, in that order) that parsed as an IP address, else
/// the peer address of the connection.
pub open spec fn chosen_client_ip(
    candidates: Seq<Option<String>>,
    is_ip: Seq<bool>,
    peer: Option<String>,
) -> Option<Seq<char>> {
    let k = first_address(candidates, is_ip);
    if k < candidates.len() && k < is_ip.len() {
        Some(candidates[k as int]->0@)
    } else {
        match peer {
            Some(p) => Some(p@),
            None => None,
        }
    }
}

proof fn lemma_first_address_step(candidates: Seq<Option<String>>, is_ip: Seq<bool>, i: int)
    requires
        0 <= i < candidates.len(),
        i < is_ip.len(),
        forall|j: int| 0 <= j < i ==> !(candidates[j] is Some && is_ip[j]),
    ensures
        first_address(candidates, is_ip) == i + first_address(
            candidates.skip(i),
            is_ip.skip(i),
        ),
    decreases i,
{
    if i == 0 {
        assert(candidates.skip(0) == candidates);
        assert(is_ip.skip(0) == is_ip);
    } else {
        assert(!(candidates[0] is Some && is_ip[0]));
        assert(candidates.drop_first().skip(i - 1) == candidates.skip(i));
        assert(is_ip.drop_first().skip(i - 1) == is_ip.skip(i));
        assert forall|j: int| 0 <= j < i - 1 implies !(candidates.drop_first()[j] is Some
            && is_ip.drop_first()[j]) by {
            assert(candidates.drop_first()[j] == candidates[j + 1]);
            assert(is_ip.drop_first()[j] == is_ip[j + 1]);
        }
        lemma_first_address_step(candidates.drop_first(), is_ip.drop_first(), i - 1);
    }
}

proof fn lemma_first_address_none(candidates: Seq<Option<String>>, is_ip: Seq<bool>)
    requires
        forall|j: int|
            0 <= j < candidates.len() && j < is_ip.len() ==> !(candidates[j] is Some && is_ip[j]),
    ensures
        first_address(candidates, is_ip) >= candidates.len() || first_address(candidates, is_ip)
            >= is_ip.len(),
    decreases candidates.len(),
{
    if candidates.len() > 0 && is_ip.len() > 0 {
        assert forall|j: int|
            0 <= j < candidates.drop_first().len() && j < is_ip.drop_first().len() implies !(
        candidates.drop_first()[j] is Some && is_ip.drop_first()[j]) by {
            assert(candidates.drop_first()[j] == candidates[j + 1]);
            assert(is_ip.drop_first()[j] == is_ip[j + 1]);
        }
        lemma_first_address_none(candidates.drop_first(), is_ip.drop_first());
    }
}

/// Picks the client address from the forwarding candidates and whether each
/// parsed as an IP address, falling back to the connection's peer.
pub fn client_ip(candidates: &Vec<Option<String>>, is_ip: &Vec<bool>, peer: Option<String>) -> (r:
    Option<String>)
    ensures
        match r {
            Some(s) => chosen_client_ip(candidates@, is_ip@, peer) == Some(s@),
            None => chosen_client_ip(candidates@, is_ip@, peer) is None,
        },
{
    let mut i: usize = 0;
    while i < candidates.len() && i < is_ip.len()
        invariant
            i <= candidates.len(),
            forall|j: int| 0 <= j < i ==> j < is_ip.len() && !(candidates[j] is Some && is_ip[j]),
        decreases candidates.len() - i,
    {
        if is_ip[i] {
            match &candidates[i] {
                Some(value) => {
                    proof {
                        lemma_first_address_step(candidates@, is_ip@, i as int);
                    }
                    return Some(value.clone());
                },
                None => {},
            }
        }
        i += 1;
    }
    proof {
        lemma_first_address_none(candidates@, is_ip@);
    }
    match peer {
        Some(p) => Some(p),
        None => None,
    }
}

/// One served request, as the analytics table stores it.
#[derive(Debug, Clone)]
pub struct RequestRecord {
    pub site_id: String,
    pub host: Option<String>,
    pub method: String,
    pub path: String,
    pub status: u16,
    pub duration_ms: i64,
    pub protocol: &'static str,
    pub ip_address: Option<String>,
    pub country: Option<String>,
    pub device_type: &'static str,
    pub user_agent: Option<String>,
    pub referer: Option<String>,
}

/// What a served request is recorded with: the longest texts are cut short.
pub open spec fn cut(value: Option<String>, n: nat) -> Option<Seq<char>> {
    match value {
        Some(v) => Some(first_chars(v@, n)),
        None => None,
    }
}

pub open spec fn option_text(value: Option<String>) -> Option<Seq<char>> {
    match value {
        Some(v) => Some(v@),
        None => None,
    }
}

fn truncate_option(value: &Option<String>, n: usize) -> (r: Option<String>)
    ensures
        option_text(r) == cut(*value, n as nat),
{
    match value {
        Some(v) => Some(truncate_chars(v.as_str(), n)),
        None => None,
    }
}

/// Builds the record of a served request: the path (with its query) is cut
/// to 2048 characters, the user agent to 512, the referer to 2048; the
/// device class is that of the user agent, or of the empty text when there
/// is none.
pub fn request_record(
    site_id: String,
    host: Option<String>,
    method: String,
    path: &str,
    status: u16,
    millis: u128,
    https: bool,
    ip_address: Option<String>,
    country: Option<String>,
    user_agent: Option<String>,
    referer: Option<String>,
) -> (r: RequestRecord)
    ensures
        r.site_id == site_id,
        r.host == host,
        r.method == method,
        r.path@ == first_chars(path@, 2048),
        r.status == status,
        r.duration_ms as int == if millis > i64::MAX as u128 {
            i64::MAX as int
        } else {
            millis as int
        },
        r.protocol@ == if https {
            "https"@
        } else {
            "http"@
        },
        r.ip_address == ip_address,
        r.country == country,
        r.device_type@ == device_class(
            match user_agent {
                Some(ua) => ua@,
                None => Seq::empty(),
            },
        ),
        option_text(r.user_agent) == cut(user_agent, 512),
        option_text(r.referer) == cut(referer, 2048),
{
    let device = match &user_agent {
        Some(ua) => device_type(ua.as_str()),
        None => {
            let d = device_type("");
            proof {
                reveal_strlit("");
                assert(""@ =~= Seq::<char>::empty());
            }
            d
        },
    };
    let kept_agent = truncate_option(&user_agent, 512);
    let kept_referer = truncate_option(&referer, 2048);
    RequestRecord {
        site_id,
        host,
        method,
        path: truncate_chars(path, 2048),
        status,
        duration_ms: duration_millis(millis),
        protocol: protocol_name(https),
        ip_address,
        country,
        device_type: device,
        user_agent: kept_agent,
        referer: kept_referer,
    }
}

/// The query of the analytics view, with the defaults its fields take when
/// they are left out.
#[derive(Debug, Clone)]
pub struct DaysQuery {
    pub days: i64,
    pub search: String,
    pub limit: i64,
    pub offset: i64,
    pub status: Option<i64>,
    pub method: String,
    pub device: String,
    pub country: String,
}

pub fn default_days() -> (r: i64)
    ensures
        r == 30,
{
    30
}

pub fn default_limit() -> (r: i64)
    ensures
        r == 50,
{
    50
}

/// What an analytics query reads: how many days back, the search and its
/// `LIKE` pattern, the filters, and the page of requests.
#[derive(Debug, Clone)]
pub struct AnalyticsWindow {
    pub days: i64,
    pub since: String,
    pub search: String,
    pub pattern: String,
    pub status: i64,
    pub method: String,
    pub device: String,
    pub country: String,
    pub limit: i64,
    pub offset: i64,
}

/// The SQLite time modifier that reaches `days` days back.
pub open spec fn days_back(days: int) -> Seq<char> {
    seq!['-'] + decimal(days) + " days"@
}

/// Reads the window of an analytics query: days within 1..=365, the
/// status filter within 0..=599 (0 when absent, meaning any), the method
/// trimmed and upper-cased, the other filters trimmed, at most 200 and at
/// least 1 request per page, and no negative offset.
pub fn analytics_window(query: &DaysQuery) -> (w: AnalyticsWindow)
    ensures
        w.days == clamp(query.days as int, 1, 365),
        w.since@ == days_back(w.days as int),
        w.search@ == trim(query.search@),
        w.pattern@ == seq!['%'] + trim(query.search@) + seq!['%'],
        w.status == clamp(
            match query.status {
                Some(s) => s as int,
                None => 0,
            },
            0,
            599,
        ),
        w.method@ == upper(trim(query.method@)),
        w.device@ == trim(query.device@),
        w.country@ == trim(query.country@),
        w.limit == clamp(query.limit as int, 1, 200),
        w.offset == if query.offset < 0 {
            0
        } else {
            query.offset
        },
{
    let days = clamp_i64(query.days, 1, 365);
    let mut since = string_from("-");
    let number = decimal_i64(days);
    append_str(&mut since, number.as_str());
    append_str(&mut since, " days");
    let search = trim_str(query.search.as_str());
    let search = string_of(search.as_slice());
    let pattern = like_pattern(search.as_str());
    let status = match query.status {
        Some(s) => s,
        None => 0,
    };
    let method = trim_str(query.method.as_str());
    let method = upper_chars(method.as_slice());
    let device = trim_str(query.device.as_str());
    let country = trim_str(query.country.as_str());
    proof {
        reveal_strlit("-");
    }
    AnalyticsWindow {
        days,
        since,
        search,
        pattern,
        status: clamp_i64(status, 0, 599),
        method: string_of(method.as_slice()),
        device: string_of(device.as_slice()),
        country: string_of(country.as_slice()),
        limit: clamp_i64(query.limit, 1, 200),
        offset: if query.offset < 0 {
            0
        } else {
            query.offset
        },
    }
}

} // verus!
