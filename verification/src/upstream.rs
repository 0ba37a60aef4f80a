use vstd::prelude::*;

verus! {

use crate::error::Error;

/// Mathematical model of a start request.
#[verifier::ext_equal]
pub struct StartRequestV {
    pub purpose: Seq<char>,
    pub auth_method: Seq<char>,
    pub comm_url: Seq<char>,
    pub attr_url: Seq<char>,
    pub attr_id: Seq<char>,
}

/// What the broker asks the authority to start: the guest's purpose and
/// chosen method, the guest's return address, the callback address the
/// authority must report the result to, and the session identifier that
/// address ends in. The transport serializes it; the broker only builds it.
#[derive(Debug)]
pub struct StartRequest {
    pub purpose: String,
    pub auth_method: String,
    pub comm_url: String,
    pub attr_url: String,
    pub attr_id: String,
}

impl View for StartRequest {
    type V = StartRequestV;

    open spec fn view(&self) -> StartRequestV {
        StartRequestV {
            purpose: self.purpose@,
            auth_method: self.auth_method@,
            comm_url: self.comm_url@,
            attr_url: self.attr_url@,
            attr_id: self.attr_id@,
        }
    }
}

/// The authority's answer to a start request: where to send the guest's
/// browser. Relayed to the guest verbatim.
#[derive(Debug)]
pub struct ClientUrlResponse {
    pub client_url: String,
}

impl View for ClientUrlResponse {
    type V = Seq<char>;

    open spec fn view(&self) -> Seq<char> {
        self.client_url@
    }
}

/// The client url that the authority's response body carries, when the body
/// is a json object with a string field `client_url`. A pure function of
/// the body text; the parse below is believed to compute it.
pub uninterp spec fn client_url_of(body: Seq<char>) -> Option<Seq<char>>;

/// Relies on serde_json's `from_str` for `Value`, with `Value::get` and
/// `Value::as_str`: reads the `client_url` string field of a json body, and
/// refuses every body without one. Deterministic in the body text alone.
#[verifier::external_body]
fn parse_client_url(body: &str) -> (r: Option<String>)
    ensures
        match r {
            Some(u) => client_url_of(body@) == Some(u@),
            None => client_url_of(body@) is None,
        },
{
    let value: serde_json::Value = match serde_json::from_str(body) {
        Ok(v) => v,
        Err(_) => return None,
    };
    let url = value.get("client_url")?.as_str()?;
    Some(String::from(url))
}

/// Parses the authority's response to a start request, failing closed: a
/// body of any unexpected shape is `UpstreamError`, never a partial accept.
pub fn parse_client_url_response(body: &str) -> (r: Result<ClientUrlResponse, Error>)
    ensures
        match r {
            Ok(resp) => client_url_of(body@) == Some(resp@),
            Err(e) => e == Error::UpstreamError && client_url_of(body@) is None,
        },
{
    match parse_client_url(body) {
        Some(u) => Ok(ClientUrlResponse { client_url: u }),
        None => Err(Error::UpstreamError),
    }
}

} // verus!
