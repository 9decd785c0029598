//! The validator that asks a token endpoint for a token with the client
//! credentials grant.
//!
//! Its configuration: `token_url`, the endpoint, a template over the
//! collected values; `client_id_field` and `client_secret_field`, the names
//! of the collected values to use; `grant_type`, by default
//! `client_credentials`; `scope`, if any; and `auth_method`, `basic` by
//! default, anything else to send the credentials in the body.

use crate::error::{Failure, GetapiError};
use crate::recipe::template::{expand, expanded};
use crate::strmap::{lemma_pairs_push, lookup, pairs_of, Pairs, StrMap};
use crate::text::{concat, concat3, str_eq, string_of};
use crate::validators::{
    is_success, judged, requested, HttpMethod, HttpRequest, Refusal, RefusalModel, RequestModel,
};
use vstd::prelude::*;
use vstd::utf8::encode_utf8;

verus! {

/// The character that stands for the six bits `i` in base 64.
pub open spec fn digit(i: int) -> char {
    if i < 26 {
        ('A' as int + i) as char
    } else if i < 52 {
        ('a' as int + (i - 26)) as char
    } else if i < 62 {
        ('0' as int + (i - 52)) as char
    } else if i == 62 {
        '+'
    } else {
        '/'
    }
}

/// The base 64 encoding of `bytes`, padded with `=` to a multiple of four
/// characters.
pub open spec fn base64(bytes: Seq<u8>) -> Seq<char>
    decreases bytes.len(),
{
    if bytes.len() == 0 {
        Seq::empty()
    } else if bytes.len() == 1 {
        let b0 = bytes[0] as int;
        seq![digit(b0 / 4), digit((b0 % 4) * 16), '=', '=']
    } else if bytes.len() == 2 {
        let b0 = bytes[0] as int;
        let b1 = bytes[1] as int;
        seq![digit(b0 / 4), digit((b0 % 4) * 16 + b1 / 16), digit((b1 % 16) * 4), '=']
    } else {
        let b0 = bytes[0] as int;
        let b1 = bytes[1] as int;
        let b2 = bytes[2] as int;
        seq![
            digit(b0 / 4),
            digit((b0 % 4) * 16 + b1 / 16),
            digit((b1 % 16) * 4 + b2 / 64),
            digit(b2 % 64),
        ] + base64(bytes.skip(3))
    }
}

/// The value stored under `key`, or `default` where there is none.
pub open spec fn setting(config: Pairs, key: Seq<char>, default: Seq<char>) -> Seq<char> {
    match lookup(config, key) {
        Some(v) => v,
        None => default,
    }
}

/// The form body that names the grant and, where one is configured, the
/// scope.
pub open spec fn grant_body(config: Pairs) -> Seq<char> {
    "grant_type="@ + setting(config, "grant_type"@, "client_credentials"@) + match lookup(
        config,
        "scope"@,
    ) {
        Some(scope) => "&scope="@ + scope,
        None => Seq::empty(),
    }
}

/// The request that sends the credentials `id` and `secret` to `url`: in a
/// basic authorization header, or in the form body where the configuration
/// asks for another method.
pub open spec fn token_request(
    url: Seq<char>,
    id: Seq<char>,
    secret: Seq<char>,
    config: Pairs,
) -> RequestModel {
    let form = ("Content-Type"@, "application/x-www-form-urlencoded"@);
    if setting(config, "auth_method"@, "basic"@) == "basic"@ {
        RequestModel {
            method: HttpMethod::Post,
            url,
            headers: seq![
                form,
                ("Authorization"@, "Basic "@ + base64(encode_utf8(id + ":"@ + secret))),
            ],
            body: Some(grant_body(config)),
        }
    } else {
        RequestModel {
            method: HttpMethod::Post,
            url,
            headers: seq![form],
            body: Some(grant_body(config) + "&client_id="@ + id + "&client_secret="@ + secret),
        }
    }
}

/// The refusal for a setting that the configuration lacks: it is fatal.
pub open spec fn lacks(key: Seq<char>) -> RefusalModel {
    RefusalModel::Fatal(
        Failure::ValidationFailed("oauth2_client_credentials requires '"@ + key + "' in config"@),
    )
}

/// The refusal for a credential that has not been collected: the check
/// fails, and the run goes on.
pub open spec fn not_collected(field: Seq<char>) -> RefusalModel {
    RefusalModel::Failed(Failure::ValidationFailed(field + " not found in collected values"@))
}

/// The request that checks the collected `values` against the endpoint
/// `url`. The configuration must name the two fields, and the fields must
/// have been collected; what is missing is reported in that order.
pub open spec fn request_to(url: Seq<char>, values: Pairs, config: Pairs) -> Result<
    RequestModel,
    RefusalModel,
> {
    match lookup(config, "client_id_field"@) {
        None => Err(lacks("client_id_field"@)),
        Some(id_field) => match lookup(config, "client_secret_field"@) {
            None => Err(lacks("client_secret_field"@)),
            Some(secret_field) => match lookup(values, id_field) {
                None => Err(not_collected(id_field)),
                Some(id) => match lookup(values, secret_field) {
                    None => Err(not_collected(secret_field)),
                    Some(secret) => Ok(token_request(url, id, secret, config)),
                },
            },
        },
    }
}

/// The request that checks the collected `values`. The configuration must
/// name the endpoint, whose template is expanded before anything else is
/// looked at; a missing name and a template that cannot be expanded are
/// fatal.
pub open spec fn request(values: Pairs, config: Pairs) -> Result<RequestModel, RefusalModel> {
    match lookup(config, "token_url"@) {
        None => Err(lacks("token_url"@)),
        Some(template) => match expanded(template, values) {
            Err(e) => Err(RefusalModel::Fatal(e)),
            Ok(url) => request_to(url, values, config),
        },
    }
}

/// The configuration is in order, and only a credential that it refers to
/// has not been collected.
pub open spec fn lacks_credential(values: Pairs, config: Pairs) -> bool {
    &&& lookup(config, "token_url"@) is Some
    &&& expanded(lookup(config, "token_url"@)->0, values) is Ok
    &&& lookup(config, "client_id_field"@) is Some
    &&& lookup(config, "client_secret_field"@) is Some
    &&& (lookup(values, lookup(config, "client_id_field"@)->0) is None || lookup(
        values,
        lookup(config, "client_secret_field"@)->0,
    ) is None)
}

/// What the status of the token response means. A refused request fails the
/// check and does not stop the run.
pub open spec fn verdict(status: u16, status_text: Seq<char>, body: Seq<char>) -> Result<
    (),
    RefusalModel,
> {
    if is_success(status) {
        Ok(())
    } else {
        Err(
            RefusalModel::Failed(
                Failure::ValidationFailed(
                    "OAuth2 token request returned "@ + status_text + ": "@ + body,
                ),
            ),
        )
    }
}

/// The character that stands for the six bits `i` in base 64.
fn digit_of(i: u8) -> (c: char)
    requires
        i < 64,
    ensures
        c == digit(i as int),
{
    if i < 26 {
        (65u8 + i) as char
    } else if i < 52 {
        (97u8 + (i - 26)) as char
    } else if i < 62 {
        (48u8 + (i - 52)) as char
    } else if i == 62 {
        '+'
    } else {
        '/'
    }
}

/// Encodes the bytes of `input` in base 64, with padding.
pub fn base64_encode(input: &str) -> (out: String)
    ensures
        out@ == base64(encode_utf8(input@)),
{
    let bytes = input.as_bytes();
    let ghost all = bytes@;
    let n = bytes.len();
    let mut out: Vec<char> = Vec::new();
    let mut i: usize = 0;
    assert(all.skip(0) =~= all);
    while i < n
        invariant
            i <= n == all.len(),
            all == bytes@,
            out@ + base64(all.skip(i as int)) == base64(all),
        decreases n - i,
    {
        let ghost rest = all.skip(i as int);
        let ghost done = out@;
        let b0 = bytes[i];
        assert(rest[0] == b0);
        out.push(digit_of(b0 / 4));
        if n - i == 1 {
            out.push(digit_of((b0 % 4) * 16));
            out.push('=');
            out.push('=');
            assert(out@ =~= done + base64(rest));
            assert(all.skip(n as int) =~= Seq::empty());
            i = n;
        } else if n - i == 2 {
            let b1 = bytes[i + 1];
            assert(rest[1] == b1);
            out.push(digit_of((b0 % 4) * 16 + b1 / 16));
            out.push(digit_of((b1 % 16) * 4));
            out.push('=');
            assert(out@ =~= done + base64(rest));
            assert(all.skip(n as int) =~= Seq::empty());
            i = n;
        } else {
            let b1 = bytes[i + 1];
            let b2 = bytes[i + 2];
            assert(rest[1] == b1 && rest[2] == b2);
            out.push(digit_of((b0 % 4) * 16 + b1 / 16));
            out.push(digit_of((b1 % 16) * 4 + b2 / 64));
            out.push(digit_of(b2 % 64));
            assert(rest.skip(3) =~= all.skip(i as int + 3));
            assert(out@ + base64(all.skip(i as int + 3)) =~= done + base64(rest));
            i += 3;
        }
    }
    string_of(&out)
}

fn require<'a>(config: &'a StrMap, key: &str) -> (r: Result<&'a String, Refusal>)
    ensures
        match r {
            Ok(v) => lookup(config@, key@) == Some(v@),
            Err(e) => lookup(config@, key@) is None && e@ == lacks(key@),
        },
{
    match config.get(key) {
        Some(v) => Ok(v),
        None => Err(
            Refusal::Fatal(
                GetapiError::ValidationFailed(
                    concat3("oauth2_client_credentials requires '", key, "' in config"),
                ),
            ),
        ),
    }
}

fn collected<'a>(values: &'a StrMap, field: &str) -> (r: Result<&'a String, Refusal>)
    ensures
        match r {
            Ok(v) => lookup(values@, field@) == Some(v@),
            Err(e) => lookup(values@, field@) is None && e@ == not_collected(field@),
        },
{
    match values.get(field) {
        Some(v) => Ok(v),
        None => Err(
            Refusal::Failed(
                GetapiError::ValidationFailed(concat(field, " not found in collected values")),
            ),
        ),
    }
}

/// Builds the request that checks the collected `values` against the
/// endpoint `url`.
pub fn validate_at(url: String, values: &StrMap, config: &StrMap) -> (r: Result<
    HttpRequest,
    Refusal,
>)
    ensures
        requested(r) == request_to(url@, values@, config@),
{
    let id_field = match require(config, "client_id_field") {
        Ok(f) => f,
        Err(e) => { return Err(e); },
    };
    let secret_field = match require(config, "client_secret_field") {
        Ok(f) => f,
        Err(e) => { return Err(e); },
    };
    let id = match collected(values, id_field.as_str()) {
        Ok(v) => v,
        Err(e) => { return Err(e); },
    };
    let secret = match collected(values, secret_field.as_str()) {
        Ok(v) => v,
        Err(e) => { return Err(e); },
    };
    let grant = match config.get("grant_type") {
        Some(g) => concat("grant_type=", g.as_str()),
        None => concat("grant_type=", "client_credentials"),
    };
    let mut body = match config.get("scope") {
        Some(scope) => concat3(grant.as_str(), "&scope=", scope.as_str()),
        None => grant,
    };
    assert(body@ =~= grant_body(config@));
    let basic = match config.get("auth_method") {
        Some(m) => str_eq(m.as_str(), "basic"),
        None => true,
    };
    let mut headers: Vec<(String, String)> = Vec::new();
    assert(pairs_of(headers@) =~= Seq::empty());
    let form_name = "Content-Type".to_owned();
    let form_value = "application/x-www-form-urlencoded".to_owned();
    proof {
        lemma_pairs_push(headers@, form_name, form_value);
    }
    headers.push((form_name, form_value));
    if basic {
        let credentials = concat3(id.as_str(), ":", secret.as_str());
        let name = "Authorization".to_owned();
        let value = concat("Basic ", base64_encode(credentials.as_str()).as_str());
        proof {
            lemma_pairs_push(headers@, name, value);
        }
        headers.push((name, value));
        assert(pairs_of(headers@) =~= seq![(form_name@, form_value@), (name@, value@)]);
    } else {
        let with_id = concat3(body.as_str(), "&client_id=", id.as_str());
        body = concat3(with_id.as_str(), "&client_secret=", secret.as_str());
        assert(pairs_of(headers@) =~= seq![(form_name@, form_value@)]);
    }
    Ok(HttpRequest { method: HttpMethod::Post, url, headers, body: Some(body) })
}

/// Builds the request that checks the collected `values`.
pub fn validate(values: &StrMap, config: &StrMap) -> (r: Result<HttpRequest, Refusal>)
    ensures
        requested(r) == request(values@, config@),
{
    let template = match require(config, "token_url") {
        Ok(t) => t,
        Err(e) => { return Err(e); },
    };
    match expand(template.as_str(), values) {
        Ok(url) => validate_at(url, values, config),
        Err(e) => Err(Refusal::Fatal(e)),
    }
}

/// Judges the token response by its status.
pub fn judge(status: u16, status_text: &str, body: &str) -> (r: Result<(), Refusal>)
    ensures
        judged(r) == verdict(status, status_text@, body@),
{
    if 200 <= status && status < 300 {
        Ok(())
    } else {
        let head = concat3("OAuth2 token request returned ", status_text, ": ");
        Err(Refusal::Failed(GetapiError::ValidationFailed(concat(head.as_str(), body))))
    }
}

} // verus!
