use vstd::prelude::*;

use crate::config::{RetryConfig, RmsApiConfig, RmsClientConfig};
use crate::provider::{RmsTlsConnectionProvider, RmsTlsConnectionProviderV2};

verus! {

broadcast use vstd::string::group_string_axioms;

/// A lazily connecting client of the Rack Manager API: it holds the provider
/// that establishes (and re-establishes) its connection on demand.
pub struct RackManagerApiClient {
    pub provider: RmsTlsConnectionProvider,
}

/// A lazily connecting client of the version-2 Rack Manager API.
pub struct RackManagerV2ApiClient {
    pub provider: RmsTlsConnectionProviderV2,
}

/// Whether `provider` connects to the endpoint of `config` with its TLS
/// settings and retry policy.
pub open spec fn provider_matches(
    url: Seq<char>,
    client_config: RmsClientConfig,
    retry_config: RetryConfig,
    config: RmsApiConfig,
) -> bool {
    &&& url == config.url@
    &&& client_config == *config.client_config
    &&& retry_config == config.retry_config
}

impl Clone for RackManagerApiClient {
    fn clone(&self) -> (res: Self)
        ensures
            res == *self,
    {
        RackManagerApiClient { provider: self.provider.clone() }
    }
}

impl Clone for RackManagerV2ApiClient {
    fn clone(&self) -> (res: Self)
        ensures
            res == *self,
    {
        RackManagerV2ApiClient { provider: self.provider.clone() }
    }
}

impl RackManagerApiClient {
    /// A client whose connections go to the configured endpoint, with the
    /// configured TLS settings and retry policy.
    pub fn new(rms_config: &RmsApiConfig<'_>) -> (res: Self)
        ensures
            provider_matches(
                res.provider.url@,
                res.provider.client_config,
                res.provider.retry_config,
                *rms_config,
            ),
    {
        RackManagerApiClient {
            provider: RmsTlsConnectionProvider {
                url: rms_config.url.to_string(),
                client_config: rms_config.client_config.clone(),
                retry_config: rms_config.retry_config,
            },
        }
    }
}

impl RackManagerV2ApiClient {
    /// Creates a lazy client for version-2 calls to the configured endpoint.
    pub fn new(rms_config: &RmsApiConfig<'_>) -> (res: Self)
        ensures
            provider_matches(
                res.provider.url@,
                res.provider.client_config,
                res.provider.retry_config,
                *rms_config,
            ),
    {
        RackManagerV2ApiClient {
            provider: RmsTlsConnectionProviderV2 {
                url: rms_config.url.to_string(),
                client_config: rms_config.client_config.clone(),
                retry_config: rms_config.retry_config,
            },
        }
    }
}

/// The Rack Manager client used by the API server: the lazy client together
/// with the settings a version-2 client is later built from.
pub struct RackManagerApi {
    pub client: RackManagerApiClient,
    pub config: RmsClientConfig,
    pub api_url: String,
}

impl Clone for RackManagerApi {
    fn clone(&self) -> (res: Self)
        ensures
            res == *self,
    {
        RackManagerApi {
            client: self.client.clone(),
            config: self.config.clone(),
            api_url: self.api_url.clone(),
        }
    }
}

impl RackManagerApi {
    /// Creates a Rack Manager client that can be used in the API server.
    pub fn new(rms_api_config: &RmsApiConfig<'_>) -> (res: Self)
        ensures
            provider_matches(
                res.client.provider.url@,
                res.client.provider.client_config,
                res.client.provider.retry_config,
                *rms_api_config,
            ),
            res.config == *rms_api_config.client_config,
            res.api_url@ == rms_api_config.url@,
    {
        let client = RackManagerApiClient::new(rms_api_config);
        RackManagerApi {
            client,
            config: rms_api_config.client_config.clone(),
            api_url: rms_api_config.url.to_string(),
        }
    }
}

/// Hands out Rack Manager clients that share one configuration.
pub struct RmsClientPool {
    pub client: RackManagerApi,
}

impl RmsClientPool {
    /// A pool whose clients are built from `rms_api_config`.
    pub fn new(rms_api_config: &RmsApiConfig<'_>) -> (res: Self)
        ensures
            provider_matches(
                res.client.client.provider.url@,
                res.client.client.provider.client_config,
                res.client.client.provider.retry_config,
                *rms_api_config,
            ),
            res.client.config == *rms_api_config.client_config,
            res.client.api_url@ == rms_api_config.url@,
    {
        let client = RackManagerApi::new(rms_api_config);
        RmsClientPool { client }
    }

    /// A client for one user of the pool: a copy of the pool's client.
    pub fn create_client(&self) -> (res: RackManagerApi)
        ensures
            res == self.client,
    {
        self.client.clone()
    }
}

impl Clone for RmsClientPool {
    fn clone(&self) -> (res: Self)
        ensures
            res == *self,
    {
        RmsClientPool { client: self.client.clone() }
    }
}

} // verus!
