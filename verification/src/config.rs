//! Static process configuration.  Reading the environment happens outside;
//! the core only holds the resulting values.

use vstd::prelude::*;

verus! {

/// The configuration a running process is handed at startup.
#[derive(Debug)]
pub struct Config {
    pub client_id: String,
    pub client_secret: String,
    pub redirect_uri: String,
    pub database_url: String,
    pub host: String,
    pub port: String,
}

impl Config {
    /// Assemble a configuration from already-resolved values.
    pub fn new(
        client_id: String,
        client_secret: String,
        redirect_uri: String,
        database_url: String,
        host: String,
        port: String,
    ) -> (r: Config)
        ensures
            r.client_id == client_id,
            r.client_secret == client_secret,
            r.redirect_uri == redirect_uri,
            r.database_url == database_url,
            r.host == host,
            r.port == port,
    {
        Config { client_id, client_secret, redirect_uri, database_url, host, port }
    }
}

} // verus!
