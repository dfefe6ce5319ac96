//! The answer to a query as one JSON object: the services found, and who
//! provides them.

use vstd::prelude::*;
use vstd::string::{StrSliceExecFns, StringExecFns};
use vstd::utf8::encode_utf8;
use crate::json::{collect, json_string, quote, JsonError};
use crate::service::{service_json, Service};
use crate::text::{join, join_strings, string_views};

verus! {

/// The JSON object for an answer, given its services as JSON objects and
/// its provider as a JSON string.
pub open spec fn response_json(services: Seq<Seq<char>>, provider: Seq<char>) -> Seq<char> {
    "{\"services\":["@ + join(services, seq![',']) + "],\"provider\":"@ + provider + "}"@
}

/// The JSON object for a service.
pub open spec fn json_of(service: Service) -> Seq<char> {
    service_json(
        json_string(service.title@),
        json_string(service.subtitle@),
        json_string(service.id@),
    )
}

/// The JSON objects for a list of services.
pub open spec fn jsons_of(services: Seq<Service>) -> Seq<Seq<char>> {
    Seq::new(services.len(), |i: int| json_of(services[i]))
}

/// The services found, and the name of who provides them.
#[derive(Debug)]
pub struct Response {
    pub services: Vec<Service>,
    pub provider: String,
}

impl Response {
    pub fn new(services: Vec<Service>, provider: String) -> (response: Response)
        ensures
            response.services == services,
            response.provider == provider,
    {
        Response { services, provider }
    }

    /// The JSON object for an answer, given its services as JSON objects
    /// and its provider as a JSON string.
    pub fn assemble_json(services: &Vec<String>, provider: &str) -> (json: String)
        ensures
            json@ == response_json(string_views(services@), provider@),
    {
        proof {
            reveal_strlit(",");
            assert(","@ =~= seq![',']);
        }
        let mut json = String::from_str("{\"services\":[");
        json.append(join_strings(services, ",").as_str());
        json.append("],\"provider\":");
        json.append(provider);
        json.append("}");
        json
    }

    /// This answer as the bytes of a JSON object: the UTF-8 text of the
    /// object that holds its services, in their order, and its provider.
    pub fn serialize_to_json(self) -> (bytes: Vec<u8>)
        ensures
            bytes@ == encode_utf8(
                response_json(jsons_of(self.services@), json_string(self.provider@)),
            ),
    {
        let mut items: Vec<Result<String, JsonError>> = Vec::new();
        let mut i: usize = 0;
        while i < self.services.len()
            invariant
                i <= self.services@.len(),
                items@.len() == i,
                forall|j: int|
                    0 <= j < i ==> ((#[trigger] items@[j]) matches Ok(json) && json@ == json_of(
                        self.services@[j],
                    )),
            decreases self.services@.len() - i,
        {
            items.push(self.services[i].to_json());
            i += 1;
        }
        match (collect(&items), quote(self.provider.as_str())) {
            (Ok(services), Ok(provider)) => {
                assert(string_views(services@) =~= jsons_of(self.services@));
                Response::assemble_json(&services, provider.as_str()).as_str().as_bytes_vec()
            },
            _ => Vec::new(),
        }
    }
}

} // verus!
