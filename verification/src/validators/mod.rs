//! The validators: routines that check whether collected credentials work
//! against a live endpoint. A validator says which request is to be sent and
//! judges the response; sending is the caller's part.

pub mod http_get;
pub mod oauth2;

use crate::error::{Failure, GetapiError};
use crate::recipe::types::optional_text;
use crate::strmap::{lookup, pairs_of, Pairs, StrMap};
use crate::text::{join, join_strings, lemma_texts_push, str_eq, texts};
use vstd::prelude::*;

verus! {

/// The name of the validator that sends a GET request.
pub const HTTP_GET: &'static str = "http_get";

/// The name of the validator that asks for a token with client credentials.
pub const OAUTH2: &'static str = "oauth2_client_credentials";

/// How a request is sent.
#[derive(Debug, Clone, Copy, PartialEq, Eq)]
pub enum HttpMethod {
    Get,
    Post,
}

/// A request that a validator wants sent.
#[derive(Debug, Clone, PartialEq, Eq)]
pub struct HttpRequest {
    pub method: HttpMethod,
    pub url: String,
    /// The headers, in the order in which they are to be added.
    pub headers: Vec<(String, String)>,
    pub body: Option<String>,
}

/// The mathematical model of an `HttpRequest`.
pub struct RequestModel {
    pub method: HttpMethod,
    pub url: Seq<char>,
    pub headers: Pairs,
    pub body: Option<Seq<char>>,
}

impl View for HttpRequest {
    type V = RequestModel;

    open spec fn view(&self) -> RequestModel {
        RequestModel {
            method: self.method,
            url: self.url@,
            headers: pairs_of(self.headers@),
            body: optional_text(self.body),
        }
    }
}

/// Why a validator does not say that the credentials work.
#[derive(Debug, Clone, PartialEq, Eq)]
pub enum Refusal {
    /// The recipe is at fault: it names a validator that does not exist, its
    /// configuration lacks a key that the validator requires, or one of its
    /// templates cannot be expanded. The run cannot go on.
    Fatal(GetapiError),
    /// The check itself failed: a credential that it refers to has not been
    /// collected, the request could not be sent, or the server refused it.
    /// The user is warned and the run goes on.
    Failed(GetapiError),
}

/// The mathematical model of a `Refusal`.
pub enum RefusalModel {
    Fatal(Failure),
    Failed(Failure),
}

impl View for Refusal {
    type V = RefusalModel;

    open spec fn view(&self) -> RefusalModel {
        match self {
            Refusal::Fatal(e) => RefusalModel::Fatal(e@),
            Refusal::Failed(e) => RefusalModel::Failed(e@),
        }
    }
}

impl Refusal {
    /// Whether the refusal stops the run.
    pub fn is_fatal(&self) -> (r: bool)
        ensures
            r == (self@ is Fatal),
    {
        match self {
            Refusal::Fatal(_) => true,
            Refusal::Failed(_) => false,
        }
    }
}

/// The view of what building a request returns.
pub open spec fn requested(r: Result<HttpRequest, Refusal>) -> Result<RequestModel, RefusalModel> {
    match r {
        Ok(q) => Ok(q@),
        Err(e) => Err(e@),
    }
}

/// The view of a verdict.
pub open spec fn judged(r: Result<(), Refusal>) -> Result<(), RefusalModel> {
    match r {
        Ok(_) => Ok(()),
        Err(e) => Err(e@),
    }
}

/// The names of the validators, in the order in which they are looked up.
pub open spec fn known() -> Seq<Seq<char>> {
    seq![HTTP_GET@, OAUTH2@]
}

/// Whether a response with this status code counts as a success: the codes
/// from 200 to 299 do.
pub open spec fn is_success(status: u16) -> bool {
    200 <= status < 300
}

/// The refusal for a validator that does not exist: it is fatal, and names
/// the validator asked for and those that there are.
pub open spec fn unknown(method: Seq<char>) -> RefusalModel {
    RefusalModel::Fatal(Failure::ValidatorNotFound(method, join(known(), ", "@)))
}

/// The request with which the validator `method` checks the collected
/// `values`, as `config` sets it up.
pub open spec fn request_for(method: Seq<char>, values: Pairs, config: Pairs) -> Result<
    RequestModel,
    RefusalModel,
> {
    if method == HTTP_GET@ {
        http_get::request(values, config)
    } else if method == OAUTH2@ {
        oauth2::request(values, config)
    } else {
        Err(unknown(method))
    }
}

/// Whether the validator `method` finds its configuration in order and lacks
/// only a credential that the configuration refers to.
pub open spec fn lacks_credential(method: Seq<char>, values: Pairs, config: Pairs) -> bool {
    if method == HTTP_GET@ {
        http_get::lacks_credential(values, config)
    } else if method == OAUTH2@ {
        oauth2::lacks_credential(values, config)
    } else {
        false
    }
}

/// What the validator `method` makes of the response to its request to `url`:
/// success for a status code from 200 to 299, else a failure that carries
/// what the server answered and does not stop the run.
pub open spec fn verdict(
    method: Seq<char>,
    url: Seq<char>,
    status: u16,
    status_text: Seq<char>,
    body: Seq<char>,
) -> Result<(), RefusalModel> {
    if method == HTTP_GET@ {
        http_get::verdict(url, status, status_text)
    } else if method == OAUTH2@ {
        oauth2::verdict(status, status_text, body)
    } else {
        Err(unknown(method))
    }
}

/// Which failures to build a request are fatal. A request is refused without
/// stopping the run exactly where the configuration is in order and only a
/// credential that it refers to has not been collected; every other refusal
/// is fatal: a validator that does not exist, a required key that the
/// configuration lacks, a template that cannot be expanded.
pub proof fn theorem_fatal_refusals(method: Seq<char>, values: Pairs, config: Pairs)
    ensures
        request_for(method, values, config) matches Err(RefusalModel::Failed(_))
            <==> lacks_credential(method, values, config),
        request_for(method, values, config) matches Err(RefusalModel::Fatal(_))
            <==> request_for(method, values, config) is Err && !lacks_credential(
            method,
            values,
            config,
        ),
        method != HTTP_GET@ && method != OAUTH2@ ==> request_for(method, values, config) == Err::<
            RequestModel,
            RefusalModel,
        >(unknown(method)),
        method == HTTP_GET@ && lookup(config, "url"@) is None ==> request_for(
            method,
            values,
            config,
        ) matches Err(RefusalModel::Fatal(_)),
        method != HTTP_GET@ && method == OAUTH2@ && (lookup(config, "token_url"@) is None
            || lookup(config, "client_id_field"@) is None || lookup(
            config,
            "client_secret_field"@,
        ) is None) ==> request_for(method, values, config) matches Err(RefusalModel::Fatal(_)),
{
    if method == HTTP_GET@ {
        http_get::lemma_extra_headers_never_fail_softly(
            match http_get::credential_header(values, config) {
                Ok(h) => h,
                Err(_) => Seq::empty(),
            },
            values,
            config,
        );
    }
}

/// A response never stops the run: whatever the server of a validator that
/// exists answers, the verdict is success or a failure of the check.
pub proof fn theorem_responses_are_not_fatal(
    method: Seq<char>,
    url: Seq<char>,
    status: u16,
    status_text: Seq<char>,
    body: Seq<char>,
)
    requires
        method == HTTP_GET@ || method == OAUTH2@,
    ensures
        !(verdict(method, url, status, status_text, body) matches Err(RefusalModel::Fatal(_))),
        verdict(method, url, status, status_text, body) is Ok <==> is_success(status),
{
}

/// The names of the validators, joined for a message.
fn known_names() -> (out: String)
    ensures
        out@ == join(known(), ", "@),
{
    let mut names: Vec<String> = Vec::new();
    let first = HTTP_GET.to_owned();
    let second = OAUTH2.to_owned();
    proof {
        lemma_texts_push(names@, first);
        lemma_texts_push(names@.push(first), second);
        assert(texts(names@) =~= Seq::<Seq<char>>::empty());
    }
    names.push(first);
    names.push(second);
    assert(texts(names@) =~= known());
    join_strings(&names, ", ")
}

/// The refusal for the validator `method`, which does not exist.
fn not_found(method: &str) -> (r: Refusal)
    ensures
        r@ == unknown(method@),
{
    Refusal::Fatal(GetapiError::ValidatorNotFound(method.to_owned(), known_names()))
}

/// Looks the validator `method` up and has it build the request that checks
/// the collected `values`. A validator that does not exist is a fatal
/// refusal.
pub fn run(method: &str, values: &StrMap, config: &StrMap) -> (r: Result<HttpRequest, Refusal>)
    ensures
        requested(r) == request_for(method@, values@, config@),
{
    if str_eq(method, HTTP_GET) {
        http_get::validate(values, config)
    } else if str_eq(method, OAUTH2) {
        oauth2::validate(values, config)
    } else {
        Err(not_found(method))
    }
}

/// Judges the response to the request that the validator `method` had sent
/// to `url`. `status_text` is the status as the server worded it.
pub fn judge(method: &str, url: &str, status: u16, status_text: &str, body: &str) -> (r: Result<
    (),
    Refusal,
>)
    ensures
        judged(r) == verdict(method@, url@, status, status_text@, body@),
{
    if str_eq(method, HTTP_GET) {
        http_get::judge(url, status, status_text)
    } else if str_eq(method, OAUTH2) {
        oauth2::judge(status, status_text, body)
    } else {
        Err(not_found(method))
    }
}

/// The refusal for a request that could not be sent, or whose response did
/// not arrive, for the reason `why`: the check failed, and the run goes on.
pub fn unsent(why: &str) -> (r: Refusal)
    ensures
        r@ == RefusalModel::Failed(Failure::Http(why@)),
{
    Refusal::Failed(GetapiError::Http(why.to_owned()))
}

} // verus!
