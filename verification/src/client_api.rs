//! Control URLs and join invites as a client writes them.
use vstd::prelude::*;
use crate::invite::{
    InviteError, InviteFailure, all_digits, digits_part, digits_value, invite_from_fields, pair_step, pairs_fold,
    parse_invite_spec, parse_u32_spec,
};
use crate::text::{lemma_trim_end_char_keeps, lemma_split_once_first, chars_of, eq_str, extend_str, lacks, lemma_split_cons, lemma_split_once_char, lemma_split_single, split, split_once, string_of, trim_end_char, trim_end_char_chars};

verus! {

/// What `url::Url::parse` makes of a text, as scheme, whether there is a host, and the
/// serialization; `None` when it is no URL.
pub uninterp spec fn url_parse_of(raw: Seq<char>) -> Option<(Seq<char>, bool, Seq<char>)>;

/// `reqwest::Url::parse` (the `url` crate's `Url::parse`), then `scheme()`, `host_str().is_some()`
/// and `as_str()` of the result; the parse error becomes `None`. `scheme()` is the serialization
/// up to its `scheme_end`, and the serialization holds `:` there (the crate's own invariant), so
/// the serialization starts with the scheme and a colon.
#[verifier::external_body]
fn parse_url(raw: &str) -> (r: Option<(String, bool, String)>)
    ensures
        match url_parse_of(raw@) {
            Some(p) => r matches Some(q) && q.0@ == p.0 && q.1 == p.1 && q.2@ == p.2,
            None => r is None,
        },
        r matches Some(q) ==> q.2@.len() > q.0@.len() && q.2@.take(q.0@.len() as int) == q.0@ && q.2@[q.0@.len() as int] == ':',
{
    match reqwest::Url::parse(raw) {
        Ok(url) => Some((url.scheme().to_string(), url.host_str().is_some(), url.as_str().to_string())),
        Err(_) => None,
    }
}

/// A control URL as stored: an `http` or `https` URL with a host, serialized, without trailing
/// slashes.
pub open spec fn control_url_spec(raw: Seq<char>, parts: Option<(Seq<char>, bool, Seq<char>)>) -> Result<Seq<char>, InviteFailure> {
    match parts {
        None => Err(InviteFailure::InvalidControlUrl(raw)),
        Some(p) => if p.0 != "http"@ && p.0 != "https"@ {
            Err(InviteFailure::UnsupportedControlUrlScheme(p.0))
        } else if !p.1 {
            Err(InviteFailure::ControlUrlMissingHost)
        } else {
            Ok(trim_end_char(p.2, '/'))
        },
    }
}

/// The control URL made from a parsed URL (scheme, has a host, serialization) of `raw`.
pub fn control_url_from_parts(raw: &str, parts: Option<(String, bool, String)>) -> (r: Result<String, InviteError>)
    ensures
        match control_url_spec(raw@, match parts {
            Some(q) => Some((q.0@, q.1, q.2@)),
            None => None,
        }) {
            Ok(u) => r matches Ok(s) && s@ == u,
            Err(f) => r matches Err(e) && e@ == f,
        },
{
    let (scheme, has_host, serialized) = match parts {
        Some(p) => p,
        None => {
            return Err(InviteError::InvalidControlUrl(raw.to_owned()));
        },
    };
    let sv = chars_of(scheme.as_str());
    if !eq_str(&sv, "http") && !eq_str(&sv, "https") {
        return Err(InviteError::UnsupportedControlUrlScheme(scheme));
    }
    if !has_host {
        return Err(InviteError::ControlUrlMissingHost);
    }
    let chars = chars_of(serialized.as_str());
    let trimmed = trim_end_char_chars(&chars, '/');
    Ok(string_of(&trimmed))
}

/// Parses and normalises a control URL (see `control_url_spec`).
pub fn normalize_control_url(raw: &str) -> (r: Result<String, InviteError>)
    ensures
        match control_url_spec(raw@, url_parse_of(raw@)) {
            Ok(u) => r matches Ok(s) && s@ == u,
            Err(f) => r matches Err(e) && e@ == f,
        },
        r matches Ok(s) ==> s@.len() > 0,
{
    let parts = parse_url(raw);
    proof {
        if parts is Some && control_url_spec(raw@, url_parse_of(raw@)) is Ok {
            let q = parts->0;
            assert(q.2@[q.0@.len() as int] != '/');
            lemma_trim_end_char_keeps(q.2@, '/', q.0@.len() as int);
        }
    }
    control_url_from_parts(raw, parts)
}

/// The text of a join invite for a control URL and key.
pub open spec fn invite_text(url: Seq<char>, key: Seq<char>) -> Seq<char> {
    "medium"@ + "://"@ + "join"@ + "?"@ + "v=1"@ + "&"@ + "control="@ + url + "&"@ + "control_key="@ + key
}

/// The join invite for a control URL and key: the URL normalised, the key required.
pub open spec fn join_invite_spec(control_url: Seq<char>, key: Seq<char>) -> Result<Seq<char>, InviteFailure> {
    match control_url_spec(control_url, url_parse_of(control_url)) {
        Err(e) => Err(e),
        Ok(url) => if key.len() == 0 {
            Err(InviteFailure::ControlKeyRequired)
        } else {
            Ok(invite_text(url, key))
        },
    }
}

/// Writes the join invite for a control URL and key, in the `control_key=` form that
/// `parse_invite` reads (the invite tests and the invite parser require it; an older
/// `token=` form, still seen in one bootstrap example, is not written). Reading the invite back
/// gives version 1, the normalised control URL and the key whenever neither holds `&`, the
/// parameter separator.
pub fn format_join_invite(control_url: &str, control_key: &str) -> (r: Result<String, InviteError>)
    ensures
        match join_invite_spec(control_url@, control_key@) {
            Ok(t) => r matches Ok(s) && s@ == t,
            Err(f) => r matches Err(e) && e@ == f,
        },
        r matches Ok(s) ==> (lacks(control_key@, '&') && lacks(control_url_spec(control_url@, url_parse_of(control_url@))->Ok_0, '&')
            ==> parse_invite_spec(s@) == Ok::<(u32, Seq<char>, Seq<char>), InviteFailure>(
                (1u32, control_url_spec(control_url@, url_parse_of(control_url@))->Ok_0, control_key@))),
{
    let url = normalize_control_url(control_url)?;
    proof {
        if lacks(control_key@, '&') && lacks(url@, '&') && control_key@.len() > 0 {
            lemma_invite_roundtrip(url@, control_key@);
        }
    }
    let key = chars_of(control_key);
    if key.len() == 0 {
        return Err(InviteError::ControlKeyRequired);
    }
    let mut out: Vec<char> = Vec::new();
    extend_str(&mut out, "medium");
    extend_str(&mut out, "://");
    extend_str(&mut out, "join");
    extend_str(&mut out, "?");
    extend_str(&mut out, "v=1");
    extend_str(&mut out, "&");
    extend_str(&mut out, "control=");
    extend_str(&mut out, url.as_str());
    extend_str(&mut out, "&");
    extend_str(&mut out, "control_key=");
    extend_str(&mut out, control_key);
    Ok(string_of(&out))
}


/// Reading the invite written for a control URL and key gives version 1, that URL and that key,
/// when neither holds a `&` (the parameter separator) and both are non-empty.
pub proof fn lemma_invite_roundtrip(url: Seq<char>, key: Seq<char>)
    requires
        url.len() > 0,
        key.len() > 0,
        lacks(url, '&'),
        lacks(key, '&'),
    ensures
        parse_invite_spec(invite_text(url, key)) == Ok::<(u32, Seq<char>, Seq<char>), InviteFailure>((1u32, url, key)),
{
    reveal_strlit("medium");
    reveal_strlit("://");
    reveal_strlit("join");
    reveal_strlit("?");
    reveal_strlit("v=1");
    reveal_strlit("&");
    reveal_strlit("control=");
    reveal_strlit("control_key=");
    reveal_strlit("v");
    reveal_strlit("control");
    reveal_strlit("control_key");
    reveal_strlit("=");
    reveal_strlit("http");
    assert("="@ =~= seq!['=']);
    assert("?"@ =~= seq!['?']);
    let tail_key = "control_key="@ + key;
    let tail_url = "control="@ + url;
    let q = "v=1"@ + "&"@ + tail_url + "&"@ + tail_key;
    let r = "join"@ + "?"@ + q;
    let t = invite_text(url, key);
    assert(t =~= "medium"@ + "://"@ + r);
    lemma_split_once_first("medium"@, "://"@, r);
    assert(r =~= "join"@ + seq!['?'] + q);
    lemma_split_once_char("join"@, '?', q);
    // The parameters.
    assert(q =~= "v=1"@ + seq!['&'] + (tail_url + seq!['&'] + tail_key));
    lemma_split_cons("v=1"@, '&', tail_url + seq!['&'] + tail_key);
    assert(lacks(tail_url, '&')) by {
        assert forall|i: int| 0 <= i < tail_url.len() implies #[trigger] tail_url[i] != '&' by {
            if i >= 8 {
                assert(tail_url[i] == url[i - 8]);
            }
        }
    }
    assert(lacks(tail_key, '&')) by {
        assert forall|i: int| 0 <= i < tail_key.len() implies #[trigger] tail_key[i] != '&' by {
            if i >= 12 {
                assert(tail_key[i] == key[i - 12]);
            }
        }
    }
    lemma_split_cons(tail_url, '&', tail_key);
    lemma_split_single(tail_key, '&');
    let pairs = split(q, '&');
    assert(pairs =~= seq!["v=1"@, tail_url, tail_key]);
    // v=1
    assert("v=1"@ =~= "v"@ + seq!['='] + "1"@) by { reveal_strlit("1"); }
    lemma_split_once_char("v"@, '=', "1"@);
    reveal_strlit("1");
    assert(digits_part("1"@) =~= "1"@);
    assert(all_digits("1"@));
    assert(digits_value("1"@) == 1) by {
        assert("1"@.drop_last() =~= Seq::<char>::empty());
        assert("1"@.last() == '1');
        assert(('1' as u32) == 0x31);
        assert(digits_value(Seq::<char>::empty()) == 0);
    }
    assert(parse_u32_spec("1"@) == Some(1u32));
    let s1 = (Some(1u32), None::<Seq<char>>, None::<Seq<char>>);
    assert(split_once("v=1"@, "="@) == Some(("v"@, "1"@)));
    assert(pair_step((None, None, None), "v=1"@) == Ok::<_, InviteFailure>(s1));
    // control=<url>
    assert(tail_url =~= "control"@ + seq!['='] + url);
    lemma_split_once_char("control"@, '=', url);
    assert("control"@ != "v"@) by { assert("control"@.len() != "v"@.len()); }
    let s2 = (Some(1u32), Some(url), None::<Seq<char>>);
    assert(pair_step(s1, tail_url) == Ok::<_, InviteFailure>(s2));
    // control_key=<key>
    assert(tail_key =~= "control_key"@ + seq!['='] + key);
    lemma_split_once_char("control_key"@, '=', key);
    assert("control_key"@ != "v"@) by { assert("control_key"@.len() != "v"@.len()); }
    assert("control_key"@ != "control"@) by { assert("control_key"@.len() != "control"@.len()); }
    let s3 = (Some(1u32), Some(url), Some(key));
    assert(pair_step(s2, tail_key) == Ok::<_, InviteFailure>(s3));
    assert(pairs.drop_first() =~= seq![tail_url, tail_key]);
    assert(pairs.drop_first().drop_first() =~= seq![tail_key]);
    assert(pairs.drop_first().drop_first().drop_first() =~= Seq::<Seq<char>>::empty());
    assert(pairs_fold(s3, Seq::<Seq<char>>::empty()) == Ok::<_, InviteFailure>(s3));
    assert(pairs_fold(s2, seq![tail_key]) == Ok::<_, InviteFailure>(s3));
    assert(pairs_fold(s1, seq![tail_url, tail_key]) == Ok::<_, InviteFailure>(s3));
    assert(pairs_fold((None, None, None), pairs) == Ok::<_, InviteFailure>(s3));
    assert(split_once(t, "://"@) == Some(("medium"@, r)));
    assert(split_once(r, "?"@) == Some(("join"@, q)));
    assert(invite_from_fields(Ok(s3)) == Ok::<(u32, Seq<char>, Seq<char>), InviteFailure>((1u32, url, key)));
}

/// Reading back the invite `format_join_invite` writes gives version 1, the control URL as it
/// normalises it (the URL parser's serialization without trailing slashes) and the key, whenever
/// that normalised URL is not empty and neither it nor the key (which must not be empty) holds
/// `&`.
pub proof fn lemma_format_join_invite_reads_back(control_url: Seq<char>, key: Seq<char>)
    requires
        control_url_spec(control_url, url_parse_of(control_url)) matches Ok(u) && u.len() > 0 && lacks(u, '&'),
        key.len() > 0,
        lacks(key, '&'),
    ensures
        join_invite_spec(control_url, key) matches Ok(t) && parse_invite_spec(t)
            == Ok::<(u32, Seq<char>, Seq<char>), InviteFailure>((1u32, control_url_spec(control_url, url_parse_of(control_url))->Ok_0, key)),
{
    let u = control_url_spec(control_url, url_parse_of(control_url))->Ok_0;
    lemma_invite_roundtrip(u, key);
}

} // verus!
