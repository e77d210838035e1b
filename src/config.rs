//! Process configuration: where to listen, how many workers, which database.

use vstd::prelude::*;

verus! {

#[derive(Debug, Clone, Default)]
pub struct Config {
    pub server: ServerConfig,
    pub actix: ActixConfig,
    pub postgres: PostgresConfig,
}

#[derive(Debug, Clone, Default)]
pub struct ServerConfig {
    pub ip: String,
    pub port: String,
}

/// The worker pool's size.
#[derive(Debug, Clone, Default)]
pub struct ActixConfig {
    pub connections: usize,
}

#[derive(Debug, Clone, Default)]
pub struct PostgresConfig {
    pub host: String,
    pub username: String,
    pub password: String,
    pub database: String,
}

/// Settings read from the environment.
#[derive(Debug, Clone, Default)]
pub struct Env {
    pub database_url: String,
    pub bind_addr: String,
    pub actix_db_conns: usize,
}

/// `postgres://<username>:<password>@<host>/<database>`.
pub open spec fn spec_database_url(p: PostgresConfig) -> Seq<char> {
    "postgres://"@ + p.username@ + ":"@ + p.password@ + "@"@ + p.host@ + "/"@ + p.database@
}

/// `<ip>:<port>`.
pub open spec fn spec_server_url(s: ServerConfig) -> Seq<char> {
    s.ip@ + ":"@ + s.port@
}

impl PostgresConfig {
    /// The connection URL of the database.
    pub fn database_url(&self) -> (r: String)
        ensures
            r@ == spec_database_url(*self),
    {
        let mut r = String::from_str("postgres://");
        r.append(self.username.as_str());
        r.append(":");
        r.append(self.password.as_str());
        r.append("@");
        r.append(self.host.as_str());
        r.append("/");
        r.append(self.database.as_str());
        r
    }
}

impl ServerConfig {
    /// The address to listen on.
    pub fn server_url(&self) -> (r: String)
        ensures
            r@ == spec_server_url(*self),
    {
        let mut r = self.ip.clone();
        r.append(":");
        r.append(self.port.as_str());
        r
    }
}

} // verus!
