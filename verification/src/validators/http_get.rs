//! The validator that sends one GET request.
//!
//! Its configuration: `url`, the address, a template over the collected
//! values; `header_name` and `header_value`, one header whose value is a
//! template; `api_key_field`, in their place, the name of the collected value
//! to send as a bearer token; and any number of `headers.<Name>` entries,
//! each of which adds the header `<Name>` with the entry's value, a template.

use crate::error::{Failure, GetapiError};
use crate::recipe::template::{expand, expanded};
use crate::strmap::{lemma_pairs_push, lookup, pairs_of, Pairs, StrMap};
use crate::text::{chars_of, concat, concat3, slice_of, starts_with, string_of};
use crate::validators::{
    is_success, judged, requested, HttpMethod, HttpRequest, Refusal, RefusalModel, RequestModel,
};
use vstd::prelude::*;

verus! {

/// What the keys of extra headers begin with.
pub const EXTRA_HEADER: &'static str = "headers.";

/// The refusal for a configuration without `url`: it is fatal.
pub open spec fn lacks_url() -> RefusalModel {
    RefusalModel::Fatal(Failure::ValidationFailed("http_get validator requires 'url' in config"@))
}

/// The header that carries the credential, where `header_value` is the
/// expanded value of the configured header, if one is configured: the header
/// named by `header_name` with that value, or else the collected value named
/// by `api_key_field` as a bearer token, or none. A bearer token that has
/// not been collected fails the check, but is not fatal.
pub open spec fn credential_with(
    header_value: Option<Seq<char>>,
    values: Pairs,
    config: Pairs,
) -> Result<Pairs, RefusalModel> {
    if lookup(config, "header_name"@) is Some && header_value is Some {
        Ok(seq![(lookup(config, "header_name"@)->0, header_value->0)])
    } else if lookup(config, "api_key_field"@) is Some {
        let field = lookup(config, "api_key_field"@)->0;
        match lookup(values, field) {
            Some(key) => Ok(seq![("Authorization"@, "Bearer "@ + key)]),
            None => Err(RefusalModel::Failed(Failure::ValidationFailed(field + " not found"@))),
        }
    } else {
        Ok(Seq::empty())
    }
}

/// The header that carries the credential. Where `header_name` and
/// `header_value` are both configured the value is expanded, and a value
/// that cannot be expanded is fatal.
pub open spec fn credential_header(values: Pairs, config: Pairs) -> Result<Pairs, RefusalModel> {
    if lookup(config, "header_name"@) is Some && lookup(config, "header_value"@) is Some {
        match expanded(lookup(config, "header_value"@)->0, values) {
            Ok(v) => credential_with(Some(v), values, config),
            Err(e) => Err(RefusalModel::Fatal(e)),
        }
    } else {
        credential_with(None, values, config)
    }
}

/// The name of the header that the configuration key `key` asks for: what
/// follows `headers.`, for a key that begins so.
pub open spec fn extra_header_name(key: Seq<char>) -> Option<Seq<char>> {
    if EXTRA_HEADER@.is_prefix_of(key) {
        Some(key.skip(EXTRA_HEADER@.len() as int))
    } else {
        None
    }
}

/// The headers after those of `headers` that the entries of `entries` ask
/// for, in the order of the entries. The first entry whose value cannot be
/// expanded refuses the whole, fatally.
pub open spec fn with_extra_headers(headers: Pairs, values: Pairs, entries: Pairs) -> Result<
    Pairs,
    RefusalModel,
>
    decreases entries.len(),
{
    if entries.len() == 0 {
        Ok(headers)
    } else {
        match with_extra_headers(headers, values, entries.drop_last()) {
            Err(e) => Err(e),
            Ok(before) => match extra_header_name(entries.last().0) {
                Some(name) => match expanded(entries.last().1, values) {
                    Ok(v) => Ok(before.push((name, v))),
                    Err(e) => Err(RefusalModel::Fatal(e)),
                },
                None => Ok(before),
            },
        }
    }
}

/// The request that checks the collected `values`. A configuration without
/// `url` is refused before anything is expanded; that, and a template that
/// cannot be expanded, is fatal.
pub open spec fn request(values: Pairs, config: Pairs) -> Result<RequestModel, RefusalModel> {
    match lookup(config, "url"@) {
        None => Err(lacks_url()),
        Some(template) => match expanded(template, values) {
            Err(e) => Err(RefusalModel::Fatal(e)),
            Ok(url) => match credential_header(values, config) {
                Err(e) => Err(e),
                Ok(first) => match with_extra_headers(first, values, config) {
                    Err(e) => Err(e),
                    Ok(headers) => Ok(
                        RequestModel { method: HttpMethod::Get, url, headers, body: None },
                    ),
                },
            },
        },
    }
}

/// The configuration is in order as far as it is read, and only the bearer
/// token that it refers to has not been collected.
pub open spec fn lacks_credential(values: Pairs, config: Pairs) -> bool {
    &&& lookup(config, "url"@) is Some
    &&& expanded(lookup(config, "url"@)->0, values) is Ok
    &&& !(lookup(config, "header_name"@) is Some && lookup(config, "header_value"@) is Some)
    &&& lookup(config, "api_key_field"@) is Some
    &&& lookup(values, lookup(config, "api_key_field"@)->0) is None
}

/// What the status of the response means. A refused request fails the check
/// and does not stop the run.
pub open spec fn verdict(url: Seq<char>, status: u16, status_text: Seq<char>) -> Result<
    (),
    RefusalModel,
> {
    if is_success(status) {
        Ok(())
    } else {
        Err(
            RefusalModel::Failed(
                Failure::ValidationFailed("HTTP GET "@ + url + " returned "@ + status_text),
            ),
        )
    }
}

/// Extra headers are refused fatally or not at all.
pub proof fn lemma_extra_headers_never_fail_softly(headers: Pairs, values: Pairs, entries: Pairs)
    ensures
        !(with_extra_headers(headers, values, entries) matches Err(RefusalModel::Failed(_))),
    decreases entries.len(),
{
    if entries.len() > 0 {
        lemma_extra_headers_never_fail_softly(headers, values, entries.drop_last());
    }
}

/// Once the first entries are refused, the whole is refused in the same way.
pub proof fn lemma_extra_headers_fail(headers: Pairs, values: Pairs, entries: Pairs, n: int)
    requires
        0 <= n <= entries.len(),
        with_extra_headers(headers, values, entries.take(n)) is Err,
    ensures
        with_extra_headers(headers, values, entries) == with_extra_headers(
            headers,
            values,
            entries.take(n),
        ),
    decreases entries.len() - n,
{
    if n < entries.len() {
        assert(entries.take(n + 1).drop_last() =~= entries.take(n));
        lemma_extra_headers_fail(headers, values, entries, n + 1);
    } else {
        assert(entries.take(n) =~= entries);
    }
}

/// The header that carries the credential, where `header_value` is the
/// expanded value of the configured header, if one is configured.
pub fn credential(header_value: Option<String>, values: &StrMap, config: &StrMap) -> (r: Result<
    Vec<(String, String)>,
    Refusal,
>)
    ensures
        match r {
            Ok(h) => credential_with(
                match header_value {
                    Some(v) => Some(v@),
                    None => None,
                },
                values@,
                config@,
            ) == Ok::<Pairs, RefusalModel>(pairs_of(h@)),
            Err(e) => credential_with(
                match header_value {
                    Some(v) => Some(v@),
                    None => None,
                },
                values@,
                config@,
            ) == Err::<Pairs, RefusalModel>(e@),
        },
{
    let mut headers: Vec<(String, String)> = Vec::new();
    assert(pairs_of(headers@) =~= Seq::empty());
    let name = config.get("header_name");
    if name.is_some() && header_value.is_some() {
        let n = name.unwrap().clone();
        let v = header_value.unwrap();
        proof {
            lemma_pairs_push(headers@, n, v);
        }
        headers.push((n, v));
        assert(pairs_of(headers@) =~= seq![(n@, v@)]);
        Ok(headers)
    } else if let Some(field) = config.get("api_key_field") {
        match values.get(field.as_str()) {
            Some(key) => {
                let n = "Authorization".to_owned();
                let v = concat("Bearer ", key.as_str());
                proof {
                    lemma_pairs_push(headers@, n, v);
                }
                headers.push((n, v));
                assert(pairs_of(headers@) =~= seq![(n@, v@)]);
                Ok(headers)
            },
            None => Err(
                Refusal::Failed(
                    GetapiError::ValidationFailed(concat(field.as_str(), " not found")),
                ),
            ),
        }
    } else {
        Ok(headers)
    }
}

/// The name of the header that the configuration key `key` asks for.
pub fn extra_header(key: &str) -> (r: Option<String>)
    ensures
        match r {
            Some(name) => extra_header_name(key@) == Some(name@),
            None => extra_header_name(key@) is None,
        },
{
    let text = chars_of(key);
    let marker = chars_of(EXTRA_HEADER);
    if starts_with(&text, &marker) {
        let name = string_of(&slice_of(&text, marker.len(), text.len()));
        assert(text@.skip(marker@.len() as int) =~= text@.subrange(
            marker@.len() as int,
            text@.len() as int,
        ));
        Some(name)
    } else {
        None
    }
}

/// Builds the request that checks the collected `values`.
#[verifier::loop_isolation(false)]
pub fn validate(values: &StrMap, config: &StrMap) -> (r: Result<HttpRequest, Refusal>)
    ensures
        requested(r) == request(values@, config@),
{
    let template = match config.get("url") {
        Some(t) => t,
        None => {
            return Err(
                Refusal::Fatal(
                    GetapiError::ValidationFailed(
                        "http_get validator requires 'url' in config".to_owned(),
                    ),
                ),
            );
        },
    };
    let url = match expand(template.as_str(), values) {
        Ok(u) => u,
        Err(e) => { return Err(Refusal::Fatal(e)); },
    };
    let header_value = match config.get("header_value") {
        Some(t) => if config.contains_key("header_name") {
            match expand(t.as_str(), values) {
                Ok(v) => Some(v),
                Err(e) => { return Err(Refusal::Fatal(e)); },
            }
        } else {
            None
        },
        None => None,
    };
    let mut headers = match credential(header_value, values, config) {
        Ok(h) => h,
        Err(e) => { return Err(e); },
    };
    let ghost first = pairs_of(headers@);
    let ghost entries = config@;
    let mut i: usize = 0;
    assert(entries.take(0) =~= Seq::empty());
    while i < config.len()
        invariant
            i <= config@.len(),
            entries == config@,
            with_extra_headers(first, values@, entries.take(i as int)) == Ok::<
                Pairs,
                RefusalModel,
            >(pairs_of(headers@)),
        decreases config@.len() - i,
    {
        assert(entries.take(i as int + 1).drop_last() =~= entries.take(i as int));
        assert(entries.take(i as int + 1).last() == entries[i as int]);
        if let Some(name) = extra_header(config.key_at(i).as_str()) {
            match expand(config.value_at(i).as_str(), values) {
                Ok(v) => {
                    proof {
                        lemma_pairs_push(headers@, name, v);
                    }
                    headers.push((name, v));
                },
                Err(e) => {
                    proof {
                        lemma_extra_headers_fail(first, values@, entries, i as int + 1);
                    }
                    return Err(Refusal::Fatal(e));
                },
            }
        }
        i += 1;
    }
    assert(entries.take(i as int) =~= entries);
    Ok(HttpRequest { method: HttpMethod::Get, url, headers, body: None })
}

/// Judges the response by its status.
pub fn judge(url: &str, status: u16, status_text: &str) -> (r: Result<(), Refusal>)
    ensures
        judged(r) == verdict(url@, status, status_text@),
{
    if 200 <= status && status < 300 {
        Ok(())
    } else {
        let head = concat3("HTTP GET ", url, " returned ");
        Err(Refusal::Failed(GetapiError::ValidationFailed(concat(head.as_str(), status_text))))
    }
}

} // verus!
