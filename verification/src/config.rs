//! Gateway configuration: listener, rate limiting, request log and the
//! upstream MCP servers.

use crate::text::{decimal, push_char, push_decimal, str_eq};
use crate::vault::{sealable, sealed_text, unsealed_text, Vault, VaultError, NONCE_LEN};
use vstd::prelude::*;

verus! {

/// Token-bucket settings. Rates and sizes are in billionths, so that
/// `nano_requests_per_second == 10_000_000_000` means ten requests per second.
#[derive(Clone, Copy, Debug)]
pub struct RateLimitConfig {
    /// Whether requests are limited at all.
    pub enabled: bool,
    /// Refill rate, in billionths of a request per second.
    pub nano_requests_per_second: u64,
    /// Bucket size, in billionths of a request.
    pub nano_burst: u64,
}

/// Where the request log is kept when the configuration names no file.
pub const DEFAULT_DB_PATH: &'static str = "mcpgw.db";

/// The gateway's own settings.
#[derive(Debug)]
pub struct GatewayConfig {
    pub host: String,
    pub port: u16,
    pub log_level: String,
    pub rate_limit: RateLimitConfig,
    pub db_path: Option<String>,
}

/// One upstream MCP server.
#[derive(Debug)]
pub struct ServerConfig {
    pub name: String,
    pub url: String,
    pub enabled: bool,
    pub api_key: Option<String>,
    pub auth_header: Option<String>,
}

/// The whole configuration.
#[derive(Debug)]
pub struct Config {
    pub gateway: GatewayConfig,
    pub servers: Vec<ServerConfig>,
}

/// The first server in `servers` whose name is `name`.
pub open spec fn server_named(servers: Seq<ServerConfig>, name: Seq<char>) -> Option<ServerConfig>
    decreases servers.len(),
{
    if servers.len() == 0 {
        None
    } else if servers[0].name@ == name {
        Some(servers[0])
    } else {
        server_named(servers.drop_first(), name)
    }
}

/// `server_named` finds a server with that name exactly when there is one.
pub proof fn lemma_server_named(servers: Seq<ServerConfig>, name: Seq<char>)
    ensures
        server_named(servers, name) is None <==> forall|i: int| 0 <= i < servers.len() ==> (#[trigger] servers[i]).name@ != name,
        server_named(servers, name) matches Some(s) ==> s.name@ == name && servers.contains(s),
    decreases servers.len(),
{
    if servers.len() > 0 && servers[0].name@ != name {
        let rest = servers.drop_first();
        lemma_server_named(rest, name);
        if server_named(rest, name) is None {
            assert forall|i: int| 0 <= i < servers.len() implies (#[trigger] servers[i]).name@ != name by {
                if i > 0 {
                    assert(servers[i] == rest[i - 1]);
                }
            }
        } else {
            let s = server_named(rest, name)->0;
            let k = choose|k: int| 0 <= k < rest.len() && rest[k] == s;
            assert(servers[k + 1] == s);
        }
    } else if servers.len() > 0 {
        assert(servers[0] == servers[0]);
    }
}

/// The server configuration after its API key is sealed by a vault whose key
/// is `key`: all else equal, and the new key unseals to the old one.
pub open spec fn sealed_server(key: Seq<u8>, before: ServerConfig, after: ServerConfig) -> bool {
    &&& after.name == before.name
    &&& after.url == before.url
    &&& after.enabled == before.enabled
    &&& after.auth_header == before.auth_header
    &&& match before.api_key {
        None => after.api_key is None,
        Some(plain) => after.api_key matches Some(sealed) && {
            &&& unsealed_text(key, sealed@) == Ok::<Seq<char>, VaultError>(plain@)
            &&& exists|nonce: Seq<u8>| nonce.len() == NONCE_LEN && sealed@ == sealed_text(key, nonce, plain@)
        },
    }
}

impl GatewayConfig {
    /// The request-log path: the configured one, else `mcpgw.db`.
    pub fn db_path_or_default(&self) -> (r: String)
        ensures
            r@ == (match self.db_path {
                Some(p) => p@,
                None => DEFAULT_DB_PATH@,
            }),
    {
        match &self.db_path {
            Some(p) => p.clone(),
            None => DEFAULT_DB_PATH.to_owned(),
        }
    }

    /// The address to listen on: `"{host}:{port}"`.
    pub fn listen_addr(&self) -> (r: String)
        ensures
            r@ == self.host@ + seq![':'] + decimal(self.port as nat),
    {
        let mut addr = self.host.clone();
        push_char(&mut addr, ':');
        push_decimal(&mut addr, self.port as u64);
        addr
    }
}

impl Config {
    /// The first server named `name`.
    pub fn find_server(&self, name: &str) -> (r: Option<&ServerConfig>)
        ensures
            r == (match server_named(self.servers@, name@) {
                Some(s) => Some(&s),
                None => None,
            }),
    {
        let n = self.servers.len();
        let mut i: usize = 0;
        assert(self.servers@.skip(0) == self.servers@);
        while i < n
            invariant
                n == self.servers@.len(),
                i <= n,
                server_named(self.servers@, name@) == server_named(self.servers@.skip(i as int), name@),
            decreases n - i,
        {
            let s = &self.servers[i];
            let ghost rest = self.servers@.skip(i as int);
            assert(rest[0] == *s);
            if str_eq(s.name.as_str(), name) {
                return Some(s);
            }
            assert(rest.drop_first() == self.servers@.skip(i + 1));
            i += 1;
        }
        assert(self.servers@.skip(n as int).len() == 0);
        None
    }

    /// Whether any server carries an API key.
    pub fn has_api_keys(&self) -> (r: bool)
        ensures
            r == exists|i: int| 0 <= i < self.servers@.len() && (#[trigger] self.servers@[i]).api_key is Some,
    {
        let n = self.servers.len();
        let mut i: usize = 0;
        while i < n
            invariant
                n == self.servers@.len(),
                i <= n,
                forall|j: int| 0 <= j < i ==> (#[trigger] self.servers@[j]).api_key is None,
            decreases n - i,
        {
            if self.servers[i].api_key.is_some() {
                assert(self.servers@[i as int].api_key is Some);
                return true;
            }
            i += 1;
        }
        false
    }

    /// Replaces every server's plaintext API key by its sealed form under
    /// `vault`, leaving all else as it was.
    pub fn encrypt_api_keys(&mut self, vault: &Vault)
        requires
            forall|i: int|
                0 <= i < old(self).servers@.len() ==> ((#[trigger] old(self).servers@[i]).api_key matches Some(k)
                    ==> sealable(k@)),
        ensures
            final(self).gateway == old(self).gateway,
            final(self).servers@.len() == old(self).servers@.len(),
            forall|i: int|
                0 <= i < old(self).servers@.len() ==> sealed_server(
                    vault.key(),
                    #[trigger] old(self).servers@[i],
                    final(self).servers@[i],
                ),
    {
        let ghost before = self.servers@;
        let n = self.servers.len();
        let mut i: usize = 0;
        while i < n
            invariant
                n == before.len(),
                self.servers@.len() == n,
                i <= n,
                self.gateway == old(self).gateway,
                before == old(self).servers@,
                forall|j: int| 0 <= j < n ==> ((#[trigger] before[j]).api_key matches Some(k) ==> sealable(k@)),
                forall|j: int| 0 <= j < i ==> sealed_server(vault.key(), #[trigger] before[j], self.servers@[j]),
                forall|j: int| i <= j < n ==> #[trigger] self.servers@[j] == before[j],
            decreases n - i,
        {
            let sealed = match &self.servers[i].api_key {
                Some(plain) => Some(vault.encrypt(plain.as_str())),
                None => None,
            };
            let mut server = self.servers.remove(i);
            server.api_key = sealed;
            self.servers.insert(i, server);
            assert(sealed_server(vault.key(), before[i as int], self.servers@[i as int]));
            i += 1;
        }
    }
}

} // verus!
