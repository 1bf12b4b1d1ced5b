//! The server's settings, read from the values of its environment
//! variables: which are accepted, the defaults, and the errors that refuse
//! a configuration.
use vstd::prelude::*;
use crate::deployment::{digits_value, lemma_digits_read_back, lemma_digits_value_grows};
use crate::dns::{IpAddress, domain_ok, valid_domain};
use crate::text::{
    decimal, digits,
    char_is_digit, chars_of, copy_range, equals, is_digit, lower, lower_chars, split, split_chars,
    str_eq, string_from, string_of, trim, trim_chars, trim_end_by, trim_end_matches_chars,
    trim_start_by, trim_start_matches_chars, trim_str, views,
};

verus! {

/// The digits of an unsigned number's text: what follows an optional `+`.
pub open spec fn unsigned_digits(s: Seq<char>) -> Seq<char> {
    if s.len() > 0 && s[0] == '+' {
        s.drop_first()
    } else {
        s
    }
}

/// The value of an unsigned decimal text no greater than `limit`: an
/// optional `+`, then one or more digits (`str::parse` for an unsigned
/// integer type whose largest value is `limit`).
pub open spec fn parse_unsigned(s: Seq<char>, limit: int) -> Option<int> {
    let d = unsigned_digits(s);
    if d.len() == 0 || exists|i: int| 0 <= i < d.len() && !is_digit(#[trigger] d[i]) {
        None
    } else if digits_value(d) > limit {
        None
    } else {
        Some(digits_value(d))
    }
}

/// Reads an unsigned decimal number no greater than `limit`.
pub fn parse_unsigned_text(text: &str, limit: u64) -> (r: Option<u64>)
    ensures
        match r {
            Some(v) => parse_unsigned(text@, limit as int) == Some(v as int),
            None => parse_unsigned(text@, limit as int) is None,
        },
{
    let s = chars_of(text);
    let d: Vec<char> = if s.len() > 0 && s[0] == '+' {
        copy_range(s.as_slice(), 1, s.len())
    } else {
        s.clone()
    };
    proof {
        if s@.len() > 0 && s@[0] == '+' {
            assert(d@ =~= s@.drop_first());
        }
    }
    if d.len() == 0 {
        return None;
    }
    let mut value: u64 = 0;
    let mut i: usize = 0;
    proof {
        assert(d@.take(0) =~= Seq::<char>::empty());
    }
    while i < d.len()
        invariant
            i <= d.len(),
            d@ == unsigned_digits(text@),
            d@.len() > 0,
            value == digits_value(d@.take(i as int)),
            value <= limit,
            forall|j: int| 0 <= j < i ==> is_digit(#[trigger] d@[j]),
        decreases d.len() - i,
    {
        let c = d[i];
        proof {
            assert(d@.take(i as int + 1).drop_last() == d@.take(i as int));
            assert(d@.take(i as int + 1).last() == c);
        }
        if !char_is_digit(c) {
            assert(!is_digit(d@[i as int]));
            return None;
        }
        let digit = (c as u32 - 48) as u64;
        if limit < digit || value > (limit - digit) / 10 {
            proof {
                let l = limit as int;
                let v = value as int;
                let dd = digit as int;
                if l >= dd {
                    assert(v * 10 + dd > l) by (nonlinear_arith)
                        requires
                            v > (l - dd) / 10,
                            0 <= dd <= 9,
                    ;
                } else {
                    assert(v * 10 + dd > l) by (nonlinear_arith)
                        requires
                            l < dd,
                            v >= 0,
                    ;
                }
                assert(digits_value(d@.take(i as int + 1)) > limit);
                if forall|j: int| 0 <= j < d@.len() ==> is_digit(#[trigger] d@[j]) {
                    lemma_digits_value_grows(d@, i as int + 1);
                }
            }
            return None;
        }
        proof {
            let l = limit as int;
            let v = value as int;
            let dd = digit as int;
            assert(v * 10 + dd <= l) by (nonlinear_arith)
                requires
                    v <= (l - dd) / 10,
                    0 <= dd <= l,
            ;
        }
        value = value * 10 + digit;
        i += 1;
    }
    proof {
        assert(d@.take(d@.len() as int) == d@);
    }
    Some(value)
}

/// The raw values of the server's environment variables; `None` where a
/// variable is unset or not valid Unicode.
#[derive(Debug, Clone)]
pub struct ConfigVars {
    pub secure_cookies: Option<String>,
    pub chimney_https_port: Option<String>,
    pub chimney_acme_email: Option<String>,
    pub release_retention: Option<String>,
    pub expected_ips: Option<String>,
    pub webhook_secret: Option<String>,
    pub public_url: Option<String>,
    pub base_domain: Option<String>,
}

/// The settings read from the environment: the entries of the expected-IP
/// list as text, and the addresses they were read as.
#[derive(Debug, Clone)]
pub struct Settings {
    pub secure_cookies: bool,
    pub chimney_https_port: Option<u16>,
    pub chimney_acme_email: Option<String>,
    pub release_retention: usize,
    pub expected_ips: Vec<String>,
    pub expected_addresses: Vec<IpAddress>,
    pub webhook_secret: Option<String>,
    pub public_url: Option<String>,
    pub base_domain: Option<String>,
}

/// Why a configuration is refused.
#[derive(Debug, Clone, Copy, PartialEq, Eq, Structural)]
pub enum ConfigError {
    HttpsPort,
    RetentionNotANumber,
    RetentionZero,
    ExpectedIp,
    BaseDomain,
    AcmeEmailRequired,
}

impl ConfigError {
    pub open spec fn text(self) -> Seq<char> {
        match self {
            ConfigError::HttpsPort => "BLANK_CHIMNEY_HTTPS_PORT must be a port"@,
            ConfigError::RetentionNotANumber => "BLANK_RELEASE_RETENTION must be a positive integer"@,
            ConfigError::RetentionZero => "BLANK_RELEASE_RETENTION must be at least 1"@,
            ConfigError::ExpectedIp => "BLANK_EXPECTED_IPS contains an invalid IP address"@,
            ConfigError::BaseDomain => "BLANK_BASE_DOMAIN must be a valid base domain"@,
            ConfigError::AcmeEmailRequired => "BLANK_CHIMNEY_ACME_EMAIL is required when Chimney HTTPS is enabled"@,
        }
    }

    /// The message the error is reported with.
    pub fn message(&self) -> (r: String)
        ensures
            r@ == self.text(),
    {
        match self {
            ConfigError::HttpsPort => string_from("BLANK_CHIMNEY_HTTPS_PORT must be a port"),
            ConfigError::RetentionNotANumber => string_from(
                "BLANK_RELEASE_RETENTION must be a positive integer",
            ),
            ConfigError::RetentionZero => string_from("BLANK_RELEASE_RETENTION must be at least 1"),
            ConfigError::ExpectedIp => string_from(
                "BLANK_EXPECTED_IPS contains an invalid IP address",
            ),
            ConfigError::BaseDomain => string_from("BLANK_BASE_DOMAIN must be a valid base domain"),
            ConfigError::AcmeEmailRequired => string_from(
                "BLANK_CHIMNEY_ACME_EMAIL is required when Chimney HTTPS is enabled",
            ),
        }
    }
}

pub open spec fn text_of(v: Option<String>) -> Option<Seq<char>> {
    match v {
        Some(s) => Some(s@),
        None => None,
    }
}

/// A switch is on when its value is `1`, `true` or `yes`.
pub open spec fn flag_on(v: Option<Seq<char>>) -> bool {
    match v {
        Some(s) => s == "1"@ || s == "true"@ || s == "yes"@,
        None => false,
    }
}

/// A value that is more than blanks, kept as it is.
pub open spec fn non_blank(v: Option<Seq<char>>) -> Option<Seq<char>> {
    match v {
        Some(s) => if trim(s).len() > 0 {
            Some(s)
        } else {
            None
        },
        None => None,
    }
}

/// A value that is not empty.
pub open spec fn non_empty(v: Option<Seq<char>>) -> Option<Seq<char>> {
    match v {
        Some(s) => if s.len() > 0 {
            Some(s)
        } else {
            None
        },
        None => None,
    }
}

/// The public URL without trailing slashes, when anything is left.
pub open spec fn public_url_of(v: Option<Seq<char>>) -> Option<Seq<char>> {
    match v {
        Some(s) => non_empty(Some(trim_end_by(s, equals('/')))),
        None => None,
    }
}

/// The base domain trimmed of blanks and of dots at either end, in lower
/// case, when anything is left.
pub open spec fn base_domain_of(v: Option<Seq<char>>) -> Option<Seq<char>> {
    match v {
        Some(s) => non_empty(
            Some(lower(trim_end_by(trim_start_by(trim(s), equals('.')), equals('.')))),
        ),
        None => None,
    }
}

/// The entries of a comma-separated list, trimmed, the empty ones left out.
pub open spec fn list_entries(pieces: Seq<Seq<char>>) -> Seq<Seq<char>>
    decreases pieces.len(),
{
    if pieces.len() == 0 {
        Seq::empty()
    } else {
        let rest = list_entries(pieces.drop_last());
        let t = trim(pieces.last());
        if t.len() == 0 {
            rest
        } else {
            rest.push(t)
        }
    }
}

/// The text of the release retention: its value, or `5` when unset.
pub open spec fn retention_text(v: Option<Seq<char>>) -> Seq<char> {
    match v {
        Some(s) => s,
        None => "5"@,
    }
}

/// The entries of the expected-IP list: its comma-separated entries,
/// trimmed, the empty ones left out; none when it is unset.
pub open spec fn ip_entries(vars: ConfigVars) -> Seq<Seq<char>> {
    list_entries(
        split(
            match vars.expected_ips {
                Some(v) => v@,
                None => Seq::empty(),
            },
            ',',
        ),
    )
}

/// Every entry was read as an IP address: one reading per entry, none
/// refused.
pub open spec fn addresses_ok(entry_count: nat, parsed: Seq<Option<IpAddress>>) -> bool {
    parsed.len() == entry_count && forall|i: int| 0 <= i < parsed.len() ==> #[trigger] parsed[i] is Some
}

/// What the environment's values give, with the expected-IP entries read
/// as `parsed`: the first error in the order in which the values are read,
/// or the settings.
pub open spec fn settings_outcome(vars: ConfigVars, parsed: Seq<Option<IpAddress>>) -> Result<(), ConfigError> {
    let port_text = non_blank(text_of(vars.chimney_https_port));
    let port_ok = match port_text {
        Some(t) => parse_unsigned(t, 65535) is Some,
        None => true,
    };
    let retention = parse_unsigned(retention_text(text_of(vars.release_retention)), usize::MAX as int);
    let domain = base_domain_of(text_of(vars.base_domain));
    if !port_ok {
        Err(ConfigError::HttpsPort)
    } else if retention is None {
        Err(ConfigError::RetentionNotANumber)
    } else if retention == Some(0int) {
        Err(ConfigError::RetentionZero)
    } else if !addresses_ok(ip_entries(vars).len(), parsed) {
        Err(ConfigError::ExpectedIp)
    } else if domain is Some && !domain_ok(domain->0) {
        Err(ConfigError::BaseDomain)
    } else if port_text is Some && non_blank(text_of(vars.chimney_acme_email)) is None {
        Err(ConfigError::AcmeEmailRequired)
    } else {
        Ok(())
    }
}

fn option_string(v: &Option<String>) -> (r: Option<Vec<char>>)
    ensures
        match r {
            Some(c) => text_of(*v) == Some(c@),
            None => v is None,
        },
{
    match v {
        Some(s) => Some(chars_of(s.as_str())),
        None => None,
    }
}

fn keep_non_blank(v: &Option<String>) -> (r: Option<String>)
    ensures
        text_of(r) == non_blank(text_of(*v)),
{
    match v {
        Some(s) => {
            let t = trim_str(s.as_str());
            if t.len() > 0 {
                Some(s.clone())
            } else {
                None
            }
        },
        None => None,
    }
}

fn list_entries_exec(text: &str) -> (r: Vec<String>)
    ensures
        r@.map_values(|s: String| s@) == list_entries(split(text@, ',')),
{
    let chars = chars_of(text);
    let pieces = split_chars(chars.as_slice(), ',');
    let mut r: Vec<String> = Vec::new();
    let mut i: usize = 0;
    proof {
        assert(views(pieces@).take(0) =~= Seq::<Seq<char>>::empty());
        assert(r@.map_values(|s: String| s@) =~= Seq::<Seq<char>>::empty());
    }
    while i < pieces.len()
        invariant
            i <= pieces.len(),
            views(pieces@) == split(text@, ','),
            r@.map_values(|s: String| s@) == list_entries(views(pieces@).take(i as int)),
        decreases pieces.len() - i,
    {
        let t = trim_chars(pieces[i].as_slice());
        let ghost before = r@;
        proof {
            let p = views(pieces@);
            assert(p.take(i as int + 1).drop_last() == p.take(i as int));
            assert(p.take(i as int + 1).last() == pieces@[i as int]@);
        }
        if t.len() > 0 {
            let s = string_of(t.as_slice());
            r.push(s);
            proof {
                assert(r@.map_values(|s: String| s@) =~= before.map_values(|s: String| s@).push(
                    t@,
                ));
            }
        }
        i += 1;
    }
    proof {
        assert(views(pieces@).take(pieces@.len() as int) == views(pieces@));
    }
    r
}

/// The addresses read, when every reading gave one.
fn all_addresses(parsed: &Vec<Option<IpAddress>>) -> (r: Option<Vec<IpAddress>>)
    ensures
        match r {
            Some(a) => (forall|i: int| 0 <= i < parsed@.len() ==> #[trigger] parsed@[i] is Some)
                && a@ == parsed@.map_values(|o: Option<IpAddress>| o.unwrap()),
            None => exists|i: int| 0 <= i < parsed@.len() && !(#[trigger] parsed@[i] is Some),
        },
{
    let mut expected_addresses: Vec<IpAddress> = Vec::new();
    let mut i: usize = 0;
    while i < parsed.len()
        invariant
            i <= parsed.len(),
            expected_addresses@ == parsed@.take(i as int).map_values(
                |o: Option<IpAddress>| o.unwrap(),
            ),
            forall|j: int| 0 <= j < i ==> #[trigger] parsed@[j] is Some,
        decreases parsed.len() - i,
    {
        match parsed[i] {
            Some(a) => {
                expected_addresses.push(a);
                proof {
                    assert(parsed@.take(i as int + 1) =~= parsed@.take(i as int).push(parsed@[i as int]));
                }
            },
            None => {
                assert(!(parsed@[i as int] is Some));
                return None;
            },
        }
        i += 1;
    }
    proof {
        assert(parsed@.take(parsed@.len() as int) =~= parsed@);
    }
    Some(expected_addresses)
}

/// The entries of the expected-IP list, which the caller reads as IP
/// addresses before it asks for the settings.
pub fn expected_ip_entries(vars: &ConfigVars) -> (r: Vec<String>)
    ensures
        r@.map_values(|s: String| s@) == ip_entries(*vars),
{
    match &vars.expected_ips {
        Some(v) => list_entries_exec(v.as_str()),
        None => {
            let empty = string_from("");
            let r = list_entries_exec(empty.as_str());
            proof {
                reveal_strlit("");
                assert(""@ =~= Seq::<char>::empty());
            }
            r
        },
    }
}

/// Reads the settings from the environment's values, given how each entry
/// of the expected-IP list (`expected_ip_entries`, in order) was read as an
/// IP address: a switch is on for `1`, `true` or `yes`; a blank HTTPS port
/// or ACME e-mail counts as unset; the release retention defaults to 5 and
/// must be a positive number; every expected-IP entry must be an address;
/// an empty webhook secret counts as unset; the public URL loses its
/// trailing slashes; the base domain is trimmed of blanks and dots, put in
/// lower case, and must be a valid host name; HTTPS needs an ACME e-mail.
pub fn settings(vars: &ConfigVars, parsed: &Vec<Option<IpAddress>>) -> (r: Result<
    Settings,
    ConfigError,
>)
    ensures
        match r {
            Ok(s) => {
                &&& settings_outcome(*vars, parsed@) is Ok
                &&& s.expected_addresses@ == parsed@.map_values(|o: Option<IpAddress>| o.unwrap())
                &&& s.release_retention >= 1
                &&& (s.chimney_https_port is Some ==> s.chimney_acme_email is Some)
                &&& s.secure_cookies == flag_on(text_of(vars.secure_cookies))
                &&& match non_blank(text_of(vars.chimney_https_port)) {
                    Some(t) => s.chimney_https_port is Some && parse_unsigned(t, 65535) == Some(
                        s.chimney_https_port->0 as int,
                    ),
                    None => s.chimney_https_port is None,
                }
                &&& text_of(s.chimney_acme_email) == non_blank(text_of(vars.chimney_acme_email))
                &&& parse_unsigned(retention_text(text_of(vars.release_retention)), usize::MAX as int)
                    == Some(s.release_retention as int)
                &&& s.expected_ips@.map_values(|x: String| x@) == ip_entries(*vars)
                &&& text_of(s.webhook_secret) == non_empty(text_of(vars.webhook_secret))
                &&& text_of(s.public_url) == public_url_of(text_of(vars.public_url))
                &&& text_of(s.base_domain) == base_domain_of(text_of(vars.base_domain))
            },
            Err(e) => settings_outcome(*vars, parsed@) == Err::<(), ConfigError>(e),
        },
{
    let secure_cookies = match &vars.secure_cookies {
        Some(v) => {
            let on = str_eq(v.as_str(), "1") || str_eq(v.as_str(), "true") || str_eq(
                v.as_str(),
                "yes",
            );
            on
        },
        None => false,
    };
    let port_text = keep_non_blank(&vars.chimney_https_port);
    let chimney_https_port: Option<u16> = match &port_text {
        Some(t) => match parse_unsigned_text(t.as_str(), 65535) {
            Some(p) => Some(p as u16),
            None => {
                return Err(ConfigError::HttpsPort);
            },
        },
        None => None,
    };
    let chimney_acme_email = keep_non_blank(&vars.chimney_acme_email);
    let retention_value = match &vars.release_retention {
        Some(v) => parse_unsigned_text(v.as_str(), usize::MAX as u64),
        None => {
            let five = string_from("5");
            parse_unsigned_text(five.as_str(), usize::MAX as u64)
        },
    };
    let release_retention: usize = match retention_value {
        Some(n) => n as usize,
        None => {
            return Err(ConfigError::RetentionNotANumber);
        },
    };
    if release_retention == 0 {
        return Err(ConfigError::RetentionZero);
    }
    let expected_ips = expected_ip_entries(vars);
    if parsed.len() != expected_ips.len() {
        return Err(ConfigError::ExpectedIp);
    }
    let expected_addresses = match all_addresses(parsed) {
        Some(a) => a,
        None => {
            return Err(ConfigError::ExpectedIp);
        },
    };
    let webhook_secret = match &vars.webhook_secret {
        Some(v) => if v.as_str().is_empty() {
            None
        } else {
            Some(v.clone())
        },
        None => None,
    };
    let public_url = match &vars.public_url {
        Some(v) => {
            let c = chars_of(v.as_str());
            let t = trim_end_matches_chars(c.as_slice(), '/');
            if t.len() > 0 {
                Some(string_of(t.as_slice()))
            } else {
                None
            }
        },
        None => None,
    };
    let base_domain = match &vars.base_domain {
        Some(v) => {
            let t = trim_str(v.as_str());
            let t = trim_start_matches_chars(t.as_slice(), '.');
            let t = trim_end_matches_chars(t.as_slice(), '.');
            let t = lower_chars(t.as_slice());
            if t.len() > 0 {
                Some(string_of(t.as_slice()))
            } else {
                None
            }
        },
        None => None,
    };
    match &base_domain {
        Some(d) => {
            if !valid_domain(d.as_str()) {
                return Err(ConfigError::BaseDomain);
            }
        },
        None => {},
    }
    if port_text.is_some() && chimney_acme_email.is_none() {
        return Err(ConfigError::AcmeEmailRequired);
    }
    proof {
        reveal_strlit("5");
    }
    Ok(
        Settings {
            secure_cookies,
            chimney_https_port,
            chimney_acme_email,
            release_retention,
            expected_ips,
            expected_addresses,
            webhook_secret,
            public_url,
            base_domain,
        },
    )
}

/// An unset release retention keeps five releases.
pub proof fn lemma_retention_default()
    ensures
        parse_unsigned(retention_text(None), usize::MAX as int) == Some(5int),
{
    reveal_strlit("5");
    let t = retention_text(None);
    assert(t =~= seq!['5']);
    assert(unsigned_digits(t) == t);
    assert(t.drop_last() =~= Seq::<char>::empty());
    assert(digits_value(t) == digits_value(t.drop_last()) * 10 + (t.last() as int - 48));
}

/// A retention written as a number's decimal text is read as that number.
pub proof fn lemma_retention_reads_back(n: usize)
    ensures
        parse_unsigned(retention_text(Some(decimal(n as int))), usize::MAX as int) == Some(
            n as int,
        ),
{
    let t = decimal(n as int);
    lemma_digits_read_back(n as nat);
    assert(t == digits(n as nat));
    assert(unsigned_digits(t) == t);
}

} // verus!
