//! The Cloudflare DNS backend's decisions: where its token comes from, the
//! URLs it calls, what it sends, how it reads a response, and whether a
//! record is created, updated or left alone.

use vstd::prelude::*;
use vstd::utf8::encode_utf8;

use crate::config::CloudflareRecordConfig;
use crate::text::{decimal, push_decimal};

verus! {

broadcast use vstd::string::group_string_axioms;

/// Errors of the Cloudflare backend.
#[derive(Debug, PartialEq, Eq)]
pub enum BackendError {
    /// Neither `api_token` nor `api_token_env` is configured.
    MissingApiToken,
    /// The API reported success but returned no result.
    EmptyResponse,
    /// The API reported errors (`code: message`, joined by `; `).
    Api(String),
    /// The token holds a character that an HTTP header value cannot.
    InvalidAuthorizationHeader,
}

/// Where the API token comes from.
#[derive(Debug, PartialEq, Eq)]
pub enum TokenSource {
    /// Written in the configuration.
    Inline(String),
    /// Read from this environment variable.
    Environment(String),
}

/// Where the API token comes from: the configured token if there is one,
/// else the configured environment variable.
pub fn api_token_source(config: &CloudflareRecordConfig) -> (r: Result<TokenSource, BackendError>)
    ensures
        match (config.api_token, config.api_token_env) {
            (Some(t), _) => r == Ok::<TokenSource, BackendError>(TokenSource::Inline(t)),
            (None, Some(v)) => r == Ok::<TokenSource, BackendError>(TokenSource::Environment(v)),
            (None, None) => r == Err::<TokenSource, BackendError>(BackendError::MissingApiToken),
        },
{
    match (&config.api_token, &config.api_token_env) {
        (Some(token), _) => Ok(TokenSource::Inline(token.clone())),
        (None, Some(name)) => Ok(TokenSource::Environment(name.clone())),
        (None, None) => Err(BackendError::MissingApiToken),
    }
}

/// The value of the `Authorization` header for a token.
pub fn authorization_value(token: &str) -> (v: String)
    ensures
        v@ == "Bearer "@ + token@,
{
    let mut v = String::from_str("Bearer ");
    v.append(token);
    v
}

#[verifier::external_type_specification]
#[verifier::external_body]
pub struct ExHeaderValue(reqwest::header::HeaderValue);

#[verifier::external_type_specification]
#[verifier::external_body]
pub struct ExInvalidHeaderValue(reqwest::header::InvalidHeaderValue);

/// Whether bytes can stand in an HTTP header value: each is a tab, or at
/// least 32 and not 127.
pub open spec fn header_value_bytes(bytes: Seq<u8>) -> bool {
    forall|i: int| 0 <= i < bytes.len() ==> #[trigger] bytes[i] == 9 || (bytes[i] >= 32 && bytes[i] != 127)
}

/// A header value together with the bytes it holds.
pub struct ModelledHeaderValue {
    value: reqwest::header::HeaderValue,
    model: Ghost<Seq<u8>>,
}

impl ModelledHeaderValue {
    /// The bytes the header value holds.
    pub closed spec fn bytes(self) -> Seq<u8> {
        self.model@
    }

    /// The header value handed to the HTTP client.
    pub closed spec fn header(self) -> reqwest::header::HeaderValue {
        self.value
    }

    /// The header value, for the HTTP client.
    pub fn into_value(self) -> (v: reqwest::header::HeaderValue)
        ensures
            v == self.header(),
    {
        self.value
    }
}

/// `HeaderValue::from_str`: a header value holding a copy of the text's
/// UTF-8 bytes (`try_from_generic` with `Bytes::copy_from_slice`). Its source
/// checks each byte and fails exactly when one is neither a tab nor at least
/// 32 and other than 127.
#[verifier::external_body]
fn header_value(text: &str) -> (r: Result<ModelledHeaderValue, reqwest::header::InvalidHeaderValue>)
    ensures
        r is Ok <==> header_value_bytes(encode_utf8(text@)),
        r matches Ok(h) ==> h.bytes() == encode_utf8(text@),
{
    match reqwest::header::HeaderValue::from_str(text) {
        Ok(value) => Ok(ModelledHeaderValue { value, model: Ghost(encode_utf8(text@)) }),
        Err(error) => Err(error),
    }
}

/// The `Authorization` header for a token, holding `Bearer ` and the token;
/// an error when the token holds a character that a header value cannot.
pub fn authorization_header(token: &str) -> (r: Result<ModelledHeaderValue, BackendError>)
    ensures
        r is Ok <==> header_value_bytes(encode_utf8("Bearer "@ + token@)),
        r matches Ok(h) ==> h.bytes() == encode_utf8("Bearer "@ + token@),
        r is Err ==> r matches Err(BackendError::InvalidAuthorizationHeader),
{
    let value = authorization_value(token);
    match header_value(value.as_str()) {
        Ok(header) => Ok(header),
        Err(_) => Err(BackendError::InvalidAuthorizationHeader),
    }
}

pub open spec fn api_base() -> Seq<char> {
    "https://api.cloudflare.com/client/v4"@
}

/// The URL of the DNS records of a zone.
pub open spec fn records_url_spec(zone_id: Seq<char>) -> Seq<char> {
    api_base() + "/zones/"@ + zone_id + "/dns_records"@
}

/// The URL listing, and creating, the DNS records of a zone.
pub fn records_url(zone_id: &str) -> (url: String)
    ensures
        url@ == records_url_spec(zone_id@),
{
    let mut url = String::from_str("https://api.cloudflare.com/client/v4");
    url.append("/zones/");
    url.append(zone_id);
    url.append("/dns_records");
    url
}

/// The URL of one DNS record of a zone.
pub fn record_url(zone_id: &str, record_id: &str) -> (url: String)
    ensures
        url@ == records_url_spec(zone_id@) + "/"@ + record_id@,
{
    let mut url = records_url(zone_id);
    url.append("/");
    url.append(record_id);
    url
}

/// A DNS record as the API lists it.
pub struct ExistingRecord {
    pub id: String,
    pub content: String,
}

/// What to do to bring a record to an address.
#[derive(Debug, PartialEq, Eq)]
pub enum UpsertAction {
    /// The first listed record already holds the address.
    AlreadyCurrent,
    /// Update the record with this id.
    Update(String),
    /// No record is listed: create one.
    Create,
}

/// Decides between leaving, updating and creating a record, from the
/// records listed under its name and type and the address in text form.
/// Only the first listed record is considered.
pub fn plan_upsert(existing: &Vec<ExistingRecord>, ip_text: &str) -> (action: UpsertAction)
    ensures
        existing@.len() == 0 ==> action == UpsertAction::Create,
        existing@.len() > 0 && existing@[0].content@ == ip_text@ ==> action
            == UpsertAction::AlreadyCurrent,
        existing@.len() > 0 && existing@[0].content@ != ip_text@ ==> action == UpsertAction::Update(
            existing@[0].id,
        ),
{
    if existing.len() == 0 {
        return UpsertAction::Create;
    }
    let first = &existing[0];
    let content = first.content.as_str();
    let same = {
        let a = String::from_str(content);
        let b = String::from_str(ip_text);
        a == b
    };
    if same {
        UpsertAction::AlreadyCurrent
    } else {
        UpsertAction::Update(first.id.clone())
    }
}

/// What is sent to create or update a record.
pub struct RecordPayload {
    pub record_type: &'static str,
    pub name: String,
    pub content: String,
    pub ttl: u32,
    pub proxied: Option<bool>,
}

/// The settings of a record that a write sends along.
pub struct BackendSettings {
    pub zone_id: String,
    pub ttl: u32,
    pub proxied: Option<bool>,
}

impl BackendSettings {
    /// The zone, TTL and proxying of a record's configuration.
    pub fn from_config(config: &CloudflareRecordConfig) -> (s: Self)
        ensures
            s.zone_id == config.zone_id,
            s.ttl == config.ttl,
            s.proxied == config.proxied,
    {
        BackendSettings { zone_id: config.zone_id.clone(), ttl: config.ttl, proxied: config.proxied }
    }

    /// The body of a create or update request for a record.
    pub fn payload(&self, record_type: &'static str, name: &str, ip_text: &str) -> (p: RecordPayload)
        ensures
            p.record_type == record_type,
            p.name@ == name@,
            p.content@ == ip_text@,
            p.ttl == self.ttl,
            p.proxied == self.proxied,
    {
        RecordPayload {
            record_type,
            name: String::from_str(name),
            content: String::from_str(ip_text),
            ttl: self.ttl,
            proxied: self.proxied,
        }
    }
}

/// An error the API reports.
pub struct ApiError {
    pub code: u64,
    pub message: String,
}

/// The envelope of every API response.
pub struct CloudflareResponse<T> {
    pub success: bool,
    pub errors: Vec<ApiError>,
    pub result: Option<T>,
}

/// One reported error as text: `code: message`.
pub open spec fn api_error_text(e: ApiError) -> Seq<char> {
    decimal(e.code as nat) + seq![':', ' '] + e.message@
}

/// The reported errors as text, joined by `; `.
pub open spec fn api_errors_text(errors: Seq<ApiError>) -> Seq<char>
    decreases errors.len(),
{
    if errors.len() == 0 {
        Seq::empty()
    } else if errors.len() == 1 {
        api_error_text(errors[0])
    } else {
        api_errors_text(errors.drop_last()) + seq![';', ' '] + api_error_text(errors.last())
    }
}

impl<T> CloudflareResponse<T> {
    /// The result of a successful response, or the errors of a failed one.
    pub fn into_result(self) -> (r: Result<T, BackendError>)
        ensures
            self.success && self.result is Some ==> r == Ok::<T, BackendError>(self.result->0),
            self.success && self.result is None ==> r == Err::<T, BackendError>(
                BackendError::EmptyResponse,
            ),
            !self.success ==> (r matches Err(BackendError::Api(m)) && m@ == api_errors_text(
                self.errors@,
            )),
    {
        if self.success {
            match self.result {
                Some(v) => Ok(v),
                None => Err(BackendError::EmptyResponse),
            }
        } else {
            let mut message = String::new();
            let mut i: usize = 0;
            while i < self.errors.len()
                invariant
                    i <= self.errors@.len(),
                    message@ == api_errors_text(self.errors@.take(i as int)),
                decreases self.errors@.len() - i,
            {
                let ghost before = message@;
                assert(self.errors@.take(i + 1).drop_last() =~= self.errors@.take(i as int));
                if i > 0 {
                    message.append("; ");
                    proof {
                        reveal_strlit("; ");
                    }
                }
                let e = &self.errors[i];
                push_decimal(&mut message, e.code);
                message.append(": ");
                message.append(e.message.as_str());
                proof {
                    reveal_strlit(": ");
                    if i == 0 {
                        assert(self.errors@.take(1) =~= seq![self.errors@[0]]);
                    }
                    assert(message@ =~= api_errors_text(self.errors@.take(i + 1)));
                }
                i = i + 1;
            }
            assert(self.errors@.take(self.errors@.len() as int) =~= self.errors@);
            Err(BackendError::Api(message))
        }
    }
}

} // verus!
