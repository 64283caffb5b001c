//! Join invites: `medium://join?v=1&control=<url>&control_key=<key>`.
use vstd::prelude::*;
use crate::text::{chars_of, dec, eq_str, extend, extend_str, push_dec, split, split_chars, split_once, split_once_chars, string_of};

verus! {

/// A parsed join invite.
#[derive(Debug)]
pub struct Invite {
    pub version: u32,
    pub control_url: String,
    pub control_key: String,
}

/// Why an invite could not be read or written.
#[derive(Debug)]
pub enum InviteError {
    MissingScheme,
    UnsupportedScheme(String),
    MissingQuery,
    UnsupportedPath(String),
    InvalidParameter(String),
    InvalidVersion(String),
    EmptyControlUrl,
    EmptyControlKey,
    MissingVersion,
    MissingControlUrl,
    MissingControlKey,
    UnsupportedVersion(u32),
    InvalidControlUrl(String),
    UnsupportedControlUrlScheme(String),
    ControlUrlMissingHost,
    ControlKeyRequired,
}

/// The plain value of an invite error.
pub enum InviteFailure {
    MissingScheme,
    UnsupportedScheme(Seq<char>),
    MissingQuery,
    UnsupportedPath(Seq<char>),
    InvalidParameter(Seq<char>),
    InvalidVersion(Seq<char>),
    EmptyControlUrl,
    EmptyControlKey,
    MissingVersion,
    MissingControlUrl,
    MissingControlKey,
    UnsupportedVersion(u32),
    InvalidControlUrl(Seq<char>),
    UnsupportedControlUrlScheme(Seq<char>),
    ControlUrlMissingHost,
    ControlKeyRequired,
}

impl View for InviteError {
    type V = InviteFailure;

    open spec fn view(&self) -> InviteFailure {
        match self {
            InviteError::MissingScheme => InviteFailure::MissingScheme,
            InviteError::UnsupportedScheme(s) => InviteFailure::UnsupportedScheme(s@),
            InviteError::MissingQuery => InviteFailure::MissingQuery,
            InviteError::UnsupportedPath(s) => InviteFailure::UnsupportedPath(s@),
            InviteError::InvalidParameter(s) => InviteFailure::InvalidParameter(s@),
            InviteError::InvalidVersion(s) => InviteFailure::InvalidVersion(s@),
            InviteError::EmptyControlUrl => InviteFailure::EmptyControlUrl,
            InviteError::EmptyControlKey => InviteFailure::EmptyControlKey,
            InviteError::MissingVersion => InviteFailure::MissingVersion,
            InviteError::MissingControlUrl => InviteFailure::MissingControlUrl,
            InviteError::MissingControlKey => InviteFailure::MissingControlKey,
            InviteError::UnsupportedVersion(v) => InviteFailure::UnsupportedVersion(*v),
            InviteError::InvalidControlUrl(s) => InviteFailure::InvalidControlUrl(s@),
            InviteError::UnsupportedControlUrlScheme(s) => InviteFailure::UnsupportedControlUrlScheme(s@),
            InviteError::ControlUrlMissingHost => InviteFailure::ControlUrlMissingHost,
            InviteError::ControlKeyRequired => InviteFailure::ControlKeyRequired,
        }
    }
}

/// The message of each invite error.
pub open spec fn invite_message(f: InviteFailure) -> Seq<char> {
    match f {
        InviteFailure::MissingScheme => "invite must include a scheme"@,
        InviteFailure::UnsupportedScheme(s) => "unsupported invite scheme "@ + s,
        InviteFailure::MissingQuery => "invite must include query parameters"@,
        InviteFailure::UnsupportedPath(s) => "unsupported invite path "@ + s,
        InviteFailure::InvalidParameter(s) => "invalid invite parameter "@ + s,
        InviteFailure::InvalidVersion(s) => "invalid invite version "@ + s,
        InviteFailure::EmptyControlUrl => "invite control URL cannot be empty"@,
        InviteFailure::EmptyControlKey => "invite control key cannot be empty"@,
        InviteFailure::MissingVersion => "invite is missing version"@,
        InviteFailure::MissingControlUrl => "invite is missing control URL"@,
        InviteFailure::MissingControlKey => "invite is missing control key"@,
        InviteFailure::UnsupportedVersion(v) => "unsupported invite version "@ + dec(v as nat),
        InviteFailure::InvalidControlUrl(s) => "invalid control URL "@ + s,
        InviteFailure::UnsupportedControlUrlScheme(s) => "unsupported control URL scheme "@ + s,
        InviteFailure::ControlUrlMissingHost => "control URL must include a host"@,
        InviteFailure::ControlKeyRequired => "control key cannot be empty"@,
    }
}

impl InviteError {
    /// The error as a message.
    pub fn message(&self) -> (m: String)
        ensures
            m@ == invite_message(self@),
    {
        let mut out: Vec<char> = Vec::new();
        match self {
            InviteError::MissingScheme => extend_str(&mut out, "invite must include a scheme"),
            InviteError::UnsupportedScheme(s) => {
                extend_str(&mut out, "unsupported invite scheme ");
                extend_str(&mut out, s.as_str());
            },
            InviteError::MissingQuery => extend_str(&mut out, "invite must include query parameters"),
            InviteError::UnsupportedPath(s) => {
                extend_str(&mut out, "unsupported invite path ");
                extend_str(&mut out, s.as_str());
            },
            InviteError::InvalidParameter(s) => {
                extend_str(&mut out, "invalid invite parameter ");
                extend_str(&mut out, s.as_str());
            },
            InviteError::InvalidVersion(s) => {
                extend_str(&mut out, "invalid invite version ");
                extend_str(&mut out, s.as_str());
            },
            InviteError::EmptyControlUrl => extend_str(&mut out, "invite control URL cannot be empty"),
            InviteError::EmptyControlKey => extend_str(&mut out, "invite control key cannot be empty"),
            InviteError::MissingVersion => extend_str(&mut out, "invite is missing version"),
            InviteError::MissingControlUrl => extend_str(&mut out, "invite is missing control URL"),
            InviteError::MissingControlKey => extend_str(&mut out, "invite is missing control key"),
            InviteError::UnsupportedVersion(v) => {
                extend_str(&mut out, "unsupported invite version ");
                push_dec(&mut out, *v as u64);
            },
            InviteError::InvalidControlUrl(s) => {
                extend_str(&mut out, "invalid control URL ");
                extend_str(&mut out, s.as_str());
            },
            InviteError::UnsupportedControlUrlScheme(s) => {
                extend_str(&mut out, "unsupported control URL scheme ");
                extend_str(&mut out, s.as_str());
            },
            InviteError::ControlUrlMissingHost => extend_str(&mut out, "control URL must include a host"),
            InviteError::ControlKeyRequired => extend_str(&mut out, "control key cannot be empty"),
        }
        string_of(&out)
    }
}

/// `c` is an ASCII digit.
pub open spec fn is_digit(c: char) -> bool {
    '0' <= c && c <= '9'
}

/// The number the decimal digits `d` denote.
pub open spec fn digits_value(d: Seq<char>) -> nat
    decreases d.len(),
{
    if d.len() == 0 {
        0
    } else {
        digits_value(d.drop_last()) * 10 + ((d.last() as u32) - 0x30) as nat
    }
}

/// The text after an optional leading `+`.
pub open spec fn digits_part(s: Seq<char>) -> Seq<char> {
    if s.len() > 0 && s[0] == '+' { s.drop_first() } else { s }
}

/// Every character is an ASCII digit.
pub open spec fn all_digits(d: Seq<char>) -> bool {
    forall|i: int| 0 <= i < d.len() ==> is_digit(#[trigger] d[i])
}

/// `u32::from_str`: an optional `+`, then one or more ASCII digits, denoting at most `u32::MAX`.
pub open spec fn parse_u32_spec(s: Seq<char>) -> Option<u32> {
    let d = digits_part(s);
    if d.len() == 0 || !all_digits(d) || digits_value(d) > u32::MAX {
        None
    } else {
        Some(digits_value(d) as u32)
    }
}

/// Parses a decimal `u32` as `str::parse::<u32>` does.
pub fn parse_u32(s: &[char]) -> (r: Option<u32>)
    ensures
        r == parse_u32_spec(s@),
{
    let start: usize = if s.len() > 0 && s[0] == '+' { 1 } else { 0 };
    let ghost d = digits_part(s@);
    assert(d =~= s@.skip(start as int));
    if start >= s.len() {
        return None;
    }
    let mut value: u64 = 0;
    let mut i = start;
    while i < s.len()
        invariant
            start <= i <= s@.len(),
            d == s@.skip(start as int),
            d == digits_part(s@),
            forall|k: int| start <= k < i ==> is_digit(#[trigger] s@[k]),
            value == digits_value(s@.subrange(start as int, i as int)),
            value <= u32::MAX,
        decreases s@.len() - i,
    {
        let c = s[i];
        if !('0' <= c && c <= '9') {
            assert(d[i - start] == s@[i as int]);
            assert(!is_digit(d[i - start]));
            assert(!(forall|k: int| 0 <= k < d.len() ==> is_digit(#[trigger] d[k])));
            assert(parse_u32_spec(s@) is None);
            return None;
        }
        let digit = (c as u32 - 0x30) as u64;
        assert(s@.subrange(start as int, i + 1).drop_last() =~= s@.subrange(start as int, i as int));
        let next = value * 10 + digit;
        if next > 0xffff_ffff {
            proof {
                assert(s@.subrange(start as int, i + 1) =~= d.take(i + 1 - start));
                assert(digits_value(s@.subrange(start as int, i + 1)) == next);
                if forall|k: int| 0 <= k < d.len() ==> is_digit(#[trigger] d[k]) {
                    lemma_digits_value_grows(d, (i + 1 - start) as int);
                    assert(digits_value(d) > u32::MAX);
                }
                assert(parse_u32_spec(s@) is None);
            }
            return None;
        }
        value = next;
        i = i + 1;
    }
    assert(s@.subrange(start as int, s@.len() as int) =~= d);
    assert forall|k: int| 0 <= k < d.len() implies is_digit(#[trigger] d[k]) by {
        assert(d[k] == s@[k + start]);
    }
    Some(value as u32)
}

proof fn lemma_digits_value_grows(d: Seq<char>, n: int)
    requires
        0 <= n <= d.len(),
        forall|i: int| 0 <= i < d.len() ==> is_digit(#[trigger] d[i]),
    ensures
        digits_value(d) >= digits_value(d.take(n)),
    decreases d.len(),
{
    if n < d.len() {
        assert(is_digit(d.last()));
        assert(d.drop_last().take(n) =~= d.take(n));
        assert forall|i: int| 0 <= i < d.drop_last().len() implies is_digit(#[trigger] d.drop_last()[i]) by {
            assert(d.drop_last()[i] == d[i]);
        }
        lemma_digits_value_grows(d.drop_last(), n);
    } else {
        assert(d.take(n) =~= d);
    }
}

/// What has been read of an invite's parameters: version, control URL, control key.
pub type InviteFields = (Option<u32>, Option<Seq<char>>, Option<Seq<char>>);

/// Reads one `key=value` parameter; unknown keys are ignored.
pub open spec fn pair_step(st: InviteFields, pair: Seq<char>) -> Result<InviteFields, InviteFailure> {
    match split_once(pair, "="@) {
        None => Err(InviteFailure::InvalidParameter(pair)),
        Some(kv) => if kv.0 == "v"@ {
            match parse_u32_spec(kv.1) {
                Some(n) => Ok((Some(n), st.1, st.2)),
                None => Err(InviteFailure::InvalidVersion(kv.1)),
            }
        } else if kv.0 == "control"@ {
            if kv.1.len() == 0 {
                Err(InviteFailure::EmptyControlUrl)
            } else {
                Ok((st.0, Some(kv.1), st.2))
            }
        } else if kv.0 == "control_key"@ {
            if kv.1.len() == 0 {
                Err(InviteFailure::EmptyControlKey)
            } else {
                Ok((st.0, st.1, Some(kv.1)))
            }
        } else {
            Ok(st)
        },
    }
}

/// Reads the parameters in order, stopping at the first bad one.
pub open spec fn pairs_fold(st: InviteFields, pairs: Seq<Seq<char>>) -> Result<InviteFields, InviteFailure>
    decreases pairs.len(),
{
    if pairs.len() == 0 {
        Ok(st)
    } else {
        match pair_step(st, pairs[0]) {
            Err(e) => Err(e),
            Ok(next) => pairs_fold(next, pairs.drop_first()),
        }
    }
}

/// The invite that read parameters make: all three must be present, and the version must be 1.
pub open spec fn invite_from_fields(r: Result<InviteFields, InviteFailure>) -> Result<(u32, Seq<char>, Seq<char>), InviteFailure> {
    match r {
        Err(e) => Err(e),
        Ok(st) => match st.0 {
            None => Err(InviteFailure::MissingVersion),
            Some(v) => match st.1 {
                None => Err(InviteFailure::MissingControlUrl),
                Some(u) => match st.2 {
                    None => Err(InviteFailure::MissingControlKey),
                    Some(k) => if v != 1 {
                        Err(InviteFailure::UnsupportedVersion(v))
                    } else {
                        Ok((v, u, k))
                    },
                },
            },
        },
    }
}

/// What reading an invite gives: `(version, control URL, control key)`, or the first problem.
pub open spec fn parse_invite_spec(raw: Seq<char>) -> Result<(u32, Seq<char>, Seq<char>), InviteFailure> {
    match split_once(raw, "://"@) {
        None => Err(InviteFailure::MissingScheme),
        Some(sr) => if sr.0 != "medium"@ {
            Err(InviteFailure::UnsupportedScheme(sr.0))
        } else {
            match split_once(sr.1, "?"@) {
                None => Err(InviteFailure::MissingQuery),
                Some(pq) => if pq.0 != "join"@ {
                    Err(InviteFailure::UnsupportedPath(pq.0))
                } else {
                    invite_from_fields(pairs_fold((None, None, None), split(pq.1, '&')))
                },
            }
        },
    }
}

/// The plain value of an optional character vector.
pub open spec fn opt_view(o: Option<Vec<char>>) -> Option<Seq<char>> {
    match o {
        Some(v) => Some(v@),
        None => None,
    }
}

/// Reads a join invite; see `parse_invite_spec`.
pub fn parse_invite(raw: &str) -> (r: Result<Invite, InviteError>)
    ensures
        match parse_invite_spec(raw@) {
            Ok(t) => r matches Ok(inv) && inv.version == t.0 && inv.control_url@ == t.1 && inv.control_key@ == t.2,
            Err(f) => r matches Err(e) && e@ == f,
        },
{
    let raw_chars = chars_of(raw);
    let sep = chars_of("://");
    let (scheme, remainder) = match split_once_chars(&raw_chars, &sep) {
        Some(p) => p,
        None => {
            return Err(InviteError::MissingScheme);
        },
    };
    if !eq_str(&scheme, "medium") {
        return Err(InviteError::UnsupportedScheme(string_of(&scheme)));
    }
    let qmark = chars_of("?");
    let (path, query) = match split_once_chars(&remainder, &qmark) {
        Some(p) => p,
        None => {
            return Err(InviteError::MissingQuery);
        },
    };
    if !eq_str(&path, "join") {
        return Err(InviteError::UnsupportedPath(string_of(&path)));
    }
    let pairs = split_chars(&query, '&');
    let ghost pv = split(query@, '&');
    let eq = chars_of("=");
    let mut version: Option<u32> = None;
    let mut control_url: Option<Vec<char>> = None;
    let mut control_key: Option<Vec<char>> = None;
    let mut i: usize = 0;
    assert(pv.skip(0) =~= pv);
    while i < pairs.len()
        invariant
            i <= pairs@.len(),
            pairs@.len() == pv.len(),
            eq@ == "="@,
            parse_invite_spec(raw@) == invite_from_fields(pairs_fold((None, None, None), pv)),
            forall|k: int| 0 <= k < pairs@.len() ==> #[trigger] pairs@[k]@ == pv[k],
            pairs_fold((None, None, None), pv) == pairs_fold(
                (version, opt_view(control_url), opt_view(control_key)),
                pv.skip(i as int),
            ),
        decreases pairs@.len() - i,
    {
        let pair = &pairs[i];
        assert(pv.skip(i as int).drop_first() =~= pv.skip(i + 1));
        assert(pv.skip(i as int)[0] == pair@);
        let (key, value) = match split_once_chars(pair, &eq) {
            Some(p) => p,
            None => {
                return Err(InviteError::InvalidParameter(string_of(pair)));
            },
        };
        if eq_str(&key, "v") {
            match parse_u32(&value) {
                Some(n) => {
                    version = Some(n);
                },
                None => {
                    return Err(InviteError::InvalidVersion(string_of(&value)));
                },
            }
        } else if eq_str(&key, "control") {
            if value.len() == 0 {
                return Err(InviteError::EmptyControlUrl);
            }
            control_url = Some(value);
        } else if eq_str(&key, "control_key") {
            if value.len() == 0 {
                return Err(InviteError::EmptyControlKey);
            }
            control_key = Some(value);
        }
        i = i + 1;
    }
    assert(pv.skip(pv.len() as int).len() == 0);
    let version = match version {
        Some(v) => v,
        None => {
            return Err(InviteError::MissingVersion);
        },
    };
    let control_url = match control_url {
        Some(u) => u,
        None => {
            return Err(InviteError::MissingControlUrl);
        },
    };
    let control_key = match control_key {
        Some(k) => k,
        None => {
            return Err(InviteError::MissingControlKey);
        },
    };
    if version != 1 {
        return Err(InviteError::UnsupportedVersion(version));
    }
    Ok(Invite { version, control_url: string_of(&control_url), control_key: string_of(&control_key) })
}

} // verus!
