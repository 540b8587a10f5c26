//! Configuration of the NewRelic-style remote sink: which regional
//! endpoint to post to and under which API key. The HTTP transport lives
//! outside the library; what is resolved here is the decision part of
//! setting one up.

use vstd::prelude::*;

verus! {

use vstd::string::StringExecFns;

/// The ingestion regions on offer, each with its own endpoint.
#[derive(Clone, Copy, Debug, PartialEq, Eq, Structural)]
pub enum NewRelicRegion {
    US,
    EU,
}

/// Remote-sink options: uploading is enabled explicitly and needs both a
/// region and an API key to be of use.
pub struct NewRelicArgs {
    pub newrelic: bool,
    pub newrelic_region: Option<NewRelicRegion>,
    pub newrelic_api_key: Option<String>,
}

/// The resolved target of the NewRelic-style sink.
pub struct NewRelicWriter {
    pub endpoint: String,
    pub api_key: String,
}

impl NewRelicWriter {
    /// Resolve the remote-sink target: one exists exactly when uploading
    /// is enabled and both region and API key are present; the endpoint is
    /// the one the region prescribes.
    pub fn new(args: NewRelicArgs) -> (r: Option<NewRelicWriter>)
        ensures
            r is Some <==> (args.newrelic && args.newrelic_region is Some
                && args.newrelic_api_key is Some),
            r is Some ==> ({
                let w = r->Some_0;
                &&& w.api_key == args.newrelic_api_key->Some_0
                &&& (args.newrelic_region->Some_0 == NewRelicRegion::US ==> w.endpoint@
                    == "https://log-api.newrelic.com/log/v1"@)
                &&& (args.newrelic_region->Some_0 == NewRelicRegion::EU ==> w.endpoint@
                    == "https://log-api.eu.newrelic.com/log/v1"@)
            }),
    {
        if !args.newrelic {
            return None;
        }
        let region = match args.newrelic_region {
            Some(x) => x,
            None => {
                return None;
            },
        };
        let api_key = match args.newrelic_api_key {
            Some(k) => k,
            None => {
                return None;
            },
        };
        let endpoint = match region {
            NewRelicRegion::US => String::from_str("https://log-api.newrelic.com/log/v1"),
            NewRelicRegion::EU => String::from_str("https://log-api.eu.newrelic.com/log/v1"),
        };
        Some(NewRelicWriter { endpoint, api_key })
    }
}

} // verus!
