//! Configuration structures for the publisher and the display, built once
//! at process start from plain values and validated before anything runs.

use vstd::prelude::*;

use crate::homeassistant::{spec_url_ok, validate_endpoint, Error};
use crate::homeassistant_types::{EntityId, EntityKind};

verus! {

/// How to reach the home-automation backend.
#[derive(Debug)]
pub struct HomeAssistantConfig {
    pub endpoint: String,
    pub access_token: Vec<u8>,
}

/// The publisher's configuration. The password is just a shared secret;
/// anything stronger would be overkill for a personal dashboard.
#[derive(Debug)]
pub struct Config {
    pub port: u16,
    pub password: Vec<u8>,
    pub homeassistant: HomeAssistantConfig,
    pub person_entity_ids: Vec<EntityId>,
    pub photo_directory: String,
    pub privacy_switch_entity_id: Option<EntityId>,
}

impl Config {
    /// Every tracked id really is a person id, and the privacy switch, if
    /// configured, an input-boolean id.
    pub open spec fn wf(&self) -> bool {
        &&& forall|i: int|
            0 <= i < self.person_entity_ids@.len() ==> {
                &&& (#[trigger] self.person_entity_ids@[i]).kind == EntityKind::Person
                &&& self.person_entity_ids@[i].wf()
            }
        &&& match self.privacy_switch_entity_id {
            Some(id) => id.kind == EntityKind::InputBoolean && id.wf(),
            None => true,
        }
    }

    /// A backend endpoint that does not parse as a URL is
    /// configuration-fatal: fail fast, before serving anything.
    pub fn validate(&self) -> (r: Result<(), Error>)
        ensures
            r is Ok <==> spec_url_ok(self.homeassistant.endpoint@),
            r matches Err(e) ==> e matches Error::UrlParse(_),
    {
        validate_endpoint(self.homeassistant.endpoint.as_str())
    }
}

/// One remote publisher the display polls.
#[derive(Debug)]
pub struct Endpoint {
    pub uri: String,
    pub password: Vec<u8>,
}

/// The display's configuration.
#[derive(Debug)]
pub struct DisplayConfig {
    pub endpoints: Vec<Endpoint>,
    pub poll_interval_seconds: u64,
    /// The largest message that can be received from a publisher:
    /// essentially, the limit on embedded photo size.
    pub max_received_message_size: usize,
}

impl DisplayConfig {
    /// An endpoint address that does not parse as a URL is
    /// configuration-fatal: fail fast, before the poll loop starts.
    pub fn validate(&self) -> (r: Result<(), Error>)
        ensures
            r is Ok <==> (forall|i: int|
                0 <= i < self.endpoints@.len() ==> spec_url_ok(
                    (#[trigger] self.endpoints@[i]).uri@,
                )),
            r matches Err(e) ==> e matches Error::UrlParse(_),
    {
        let n = self.endpoints.len();
        let mut i: usize = 0;
        while i < n
            invariant
                n == self.endpoints@.len(),
                i <= n,
                forall|j: int| 0 <= j < i ==> spec_url_ok((#[trigger] self.endpoints@[j]).uri@),
            decreases n - i,
        {
            match validate_endpoint(self.endpoints[i].uri.as_str()) {
                Ok(_) => {},
                Err(e) => {
                    return Err(e);
                },
            }
            i += 1;
        }
        Ok(())
    }
}

/// How often to poll each publisher when the configuration does not say.
pub fn default_poll_interval() -> (r: u64)
    ensures
        r == 60,
{
    60
}

/// The default cap on a received message, sized to admit embedded photos
/// well past the transport's own default.
pub fn default_max_received_message_size() -> (r: usize)
    ensures
        r == 30 * 1024 * 1024,
{
    30 * 1024 * 1024
}

} // verus!
