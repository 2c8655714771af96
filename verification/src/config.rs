use vstd::prelude::*;

verus! {

/// Paths of the client certificate and its private key used for mutual TLS.
pub struct ClientCertConfig {
    pub cert_path: String,
    pub key_path: String,
}

impl Clone for ClientCertConfig {
    fn clone(&self) -> (res: Self)
        ensures
            res == *self,
    {
        ClientCertConfig { cert_path: self.cert_path.clone(), key_path: self.key_path.clone() }
    }
}

/// TLS settings of a Rack Manager client.
pub struct RmsClientConfig {
    /// Root CA certificate used to verify the server, if any.
    pub root_ca_path: Option<String>,
    /// Client certificate and key, if the client authenticates itself.
    pub client_cert: Option<ClientCertConfig>,
    /// Server name to verify in place of the URL's host, if any.
    pub server_name: Option<String>,
    /// Whether plain `http://` endpoints are refused.
    pub enforce_tls: bool,
}

impl RmsClientConfig {
    /// A configuration made of the given parts.
    pub fn new(
        root_ca_path: Option<String>,
        client_cert: Option<ClientCertConfig>,
        server_name: Option<String>,
        enforce_tls: bool,
    ) -> (res: Self)
        ensures
            res.root_ca_path == root_ca_path,
            res.client_cert == client_cert,
            res.server_name == server_name,
            res.enforce_tls == enforce_tls,
    {
        RmsClientConfig { root_ca_path, client_cert, server_name, enforce_tls }
    }
}

impl Clone for RmsClientConfig {
    fn clone(&self) -> (res: Self)
        ensures
            res == *self,
    {
        let client_cert = match &self.client_cert {
            Some(c) => Some(c.clone()),
            None => None,
        };
        RmsClientConfig {
            root_ca_path: self.root_ca_path.clone(),
            client_cert,
            server_name: self.server_name.clone(),
            enforce_tls: self.enforce_tls,
        }
    }
}

/// How often, and how far apart, a failed connection is tried again.
#[derive(Clone, Copy)]
pub struct RetryConfig {
    /// Number of further attempts after the first one fails.
    pub retries: u32,
    /// Time to wait before each further attempt.
    pub interval: std::time::Duration,
}

/// What a Rack Manager client is built from: the endpoint, its TLS settings
/// and its retry policy.
pub struct RmsApiConfig<'a> {
    pub url: &'a str,
    pub client_config: &'a RmsClientConfig,
    pub retry_config: RetryConfig,
}

impl<'a> RmsApiConfig<'a> {
    /// A configuration for `url` with the given TLS settings and retry policy.
    pub fn new(url: &'a str, client_config: &'a RmsClientConfig, retry_config: RetryConfig) -> (res: Self)
        ensures
            res.url == url,
            res.client_config == client_config,
            res.retry_config == retry_config,
    {
        RmsApiConfig { url, client_config, retry_config }
    }

    /// The same configuration with `retry_config` in place of its retry policy.
    pub fn with_retry_config(self, retry_config: RetryConfig) -> (res: Self)
        ensures
            res.url == self.url,
            res.client_config == self.client_config,
            res.retry_config == retry_config,
    {
        RmsApiConfig { url: self.url, client_config: self.client_config, retry_config }
    }
}

} // verus!
