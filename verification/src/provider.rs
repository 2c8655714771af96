use vstd::prelude::*;

use crate::config::{RetryConfig, RmsApiConfig, RmsClientConfig};
use crate::error::{RmsTlsClientError, RpcCode, RpcStatus};

verus! {

/// A point in time, as signed nanoseconds since the Unix epoch.
pub type UnixNanos = i128;

/// Which credential file changed after the last connection was made.
#[derive(Debug, PartialEq, Eq, Structural, Clone, Copy)]
pub enum StaleFile {
    /// The client certificate was modified after the connection was made.
    Certificate,
    /// The client key was modified after the connection was made, and the
    /// certificate was not.
    Key,
}

/// Whether a connection made at `last_connected` must be replaced, given what
/// was observed of the credential files.
///
/// `cert_mtime` is the modification time of the client certificate, `None`
/// when it could not be read; `key_mtime` likewise for the client key. The
/// connection is stale when either file is known to have changed after it
/// was made; the key matters too, since a client may have been built with the
/// new certificate but the old key, the key being replaced later. A newer
/// certificate is the reason given when both changed. Without a client
/// certificate in the configuration the connection is never stale.
pub open spec fn stale_file_spec(
    has_client_cert: bool,
    cert_mtime: Option<UnixNanos>,
    key_mtime: Option<UnixNanos>,
    last_connected: UnixNanos,
) -> Option<StaleFile> {
    if !has_client_cert {
        None
    } else if cert_mtime matches Some(m) && m > last_connected {
        Some(StaleFile::Certificate)
    } else if key_mtime matches Some(m) && m > last_connected {
        Some(StaleFile::Key)
    } else {
        None
    }
}

/// Decides whether a connection must be replaced because a credential file
/// changed after it was made (see `stale_file_spec`).
pub fn stale_file(
    client_config: &RmsClientConfig,
    cert_mtime: Option<UnixNanos>,
    key_mtime: Option<UnixNanos>,
    last_connected: UnixNanos,
) -> (res: Option<StaleFile>)
    ensures
        res == stale_file_spec(client_config.client_cert is Some, cert_mtime, key_mtime, last_connected),
{
    if client_config.client_cert.is_none() {
        return None;
    }
    let cert_newer = match cert_mtime {
        Some(m) => m > last_connected,
        None => false,
    };
    if cert_newer {
        return Some(StaleFile::Certificate);
    }
    let key_newer = match key_mtime {
        Some(m) => m > last_connected,
        None => false,
    };
    if key_newer {
        Some(StaleFile::Key)
    } else {
        None
    }
}

/// What to do after a connection attempt failed.
#[derive(Debug, PartialEq, Eq, Clone, Copy)]
pub enum RetryDecision {
    /// Wait for the given interval, then attempt again.
    RetryAfter(std::time::Duration),
    /// Stop attempting and report the last failure.
    GiveUp,
}

/// The decision taken after the `failures`-th consecutive failed attempt.
pub open spec fn decision_after_failures(config: RetryConfig, failures: nat) -> RetryDecision {
    if failures <= config.retries {
        RetryDecision::RetryAfter(config.interval)
    } else {
        RetryDecision::GiveUp
    }
}

/// Progress of one attempt to connect under a retry policy.
pub struct RetryState {
    config: RetryConfig,
    failures: u64,
}

impl RetryState {
    /// The retry policy this attempt follows.
    pub closed spec fn policy(&self) -> RetryConfig {
        self.config
    }

    /// Number of failed attempts recorded so far.
    pub closed spec fn failures(&self) -> nat {
        self.failures as nat
    }

    /// No more failures are counted than the policy allows attempts.
    #[verifier::type_invariant]
    spec fn wf(&self) -> bool {
        self.failures <= self.config.retries + 1
    }

    /// A fresh attempt under `config`: nothing has failed yet.
    pub fn start(config: RetryConfig) -> (res: Self)
        ensures
            res.policy() == config,
            res.failures() == 0,
    {
        RetryState { config, failures: 0 }
    }

    /// Records one more failed attempt and says whether to try again.
    pub fn record_failure(&mut self) -> (res: RetryDecision)
        ensures
            final(self).policy() == old(self).policy(),
            old(self).failures() <= old(self).policy().retries ==> final(self).failures()
                == old(self).failures() + 1,
            old(self).failures() > old(self).policy().retries ==> final(self).failures()
                == old(self).failures(),
            res == decision_after_failures(old(self).policy(), old(self).failures() + 1),
    {
        proof {
            use_type_invariant(&*self);
        }
        if self.failures <= self.config.retries as u64 {
            self.failures = self.failures + 1;
            if self.failures <= self.config.retries as u64 {
                RetryDecision::RetryAfter(self.config.interval)
            } else {
                RetryDecision::GiveUp
            }
        } else {
            RetryDecision::GiveUp
        }
    }
}


/// Supplies connections to the Rack Manager endpoint, retrying under its
/// retry policy and replacing them when the client credentials change.
pub struct RmsTlsConnectionProvider {
    pub url: String,
    pub client_config: RmsClientConfig,
    pub retry_config: RetryConfig,
}

/// Supplies version-2 connections to the Rack Manager endpoint once the shared
/// endpoint has passed its readiness check.
pub struct RmsTlsConnectionProviderV2 {
    /// Endpoint used by the version-2 client.
    pub url: String,
    /// TLS configuration used by the version-2 client.
    pub client_config: RmsClientConfig,
    /// Retry policy applied while establishing a connection.
    pub retry_config: RetryConfig,
}

impl Clone for RmsTlsConnectionProvider {
    fn clone(&self) -> (res: Self)
        ensures
            res == *self,
    {
        RmsTlsConnectionProvider {
            url: self.url.clone(),
            client_config: self.client_config.clone(),
            retry_config: self.retry_config,
        }
    }
}

impl Clone for RmsTlsConnectionProviderV2 {
    fn clone(&self) -> (res: Self)
        ensures
            res == *self,
    {
        RmsTlsConnectionProviderV2 {
            url: self.url.clone(),
            client_config: self.client_config.clone(),
            retry_config: self.retry_config,
        }
    }
}

impl RmsTlsConnectionProvider {
    /// The client configuration a connection attempt is built from.
    pub fn api_config(&self) -> (res: RmsApiConfig<'_>)
        ensures
            res.url@ == self.url@,
            *res.client_config == self.client_config,
            res.retry_config == self.retry_config,
    {
        RmsApiConfig::new(self.url.as_str(), &self.client_config, self.retry_config)
    }

    /// The retry progress of a fresh attempt to connect.
    pub fn start_connecting(&self) -> (res: RetryState)
        ensures
            res.policy() == self.retry_config,
            res.failures() == 0,
    {
        RetryState::start(self.retry_config)
    }

    /// Which credential file, if any, makes a connection made at
    /// `last_connected` stale.
    pub fn stale_file(
        &self,
        cert_mtime: Option<UnixNanos>,
        key_mtime: Option<UnixNanos>,
        last_connected: UnixNanos,
    ) -> (res: Option<StaleFile>)
        ensures
            res == stale_file_spec(
                self.client_config.client_cert is Some,
                cert_mtime,
                key_mtime,
                last_connected,
            ),
    {
        stale_file(&self.client_config, cert_mtime, key_mtime, last_connected)
    }

    /// Whether a connection made at `last_connected` must be replaced.
    pub fn connection_is_stale(
        &self,
        cert_mtime: Option<UnixNanos>,
        key_mtime: Option<UnixNanos>,
        last_connected: UnixNanos,
    ) -> (res: bool)
        ensures
            res == stale_file_spec(
                self.client_config.client_cert is Some,
                cert_mtime,
                key_mtime,
                last_connected,
            ) is Some,
    {
        stale_file(&self.client_config, cert_mtime, key_mtime, last_connected).is_some()
    }

    /// The endpoint this provider connects to.
    pub fn connection_url(&self) -> (res: &str)
        ensures
            res@ == self.url@,
    {
        self.url.as_str()
    }
}

/// The outcome of establishing a connection, a failure given as the status
/// the caller sees: the service is unavailable, with the error's description.
pub fn connection_result<C>(built: Result<C, RmsTlsClientError>) -> (res: Result<C, RpcStatus>)
    ensures
        built matches Ok(c) ==> res == Ok::<C, RpcStatus>(c),
        built matches Err(e) ==> (res matches Err(status) && status.code == RpcCode::Unavailable
            && status.message@ == e.message_spec()),
{
    match built {
        Ok(c) => Ok(c),
        Err(e) => Err(RpcStatus::from(e)),
    }
}

/// The endpoint and TLS settings a version-2 client is built from.
pub struct V2ClientSettings<'a> {
    pub url: &'a str,
    pub client_config: &'a RmsClientConfig,
}

impl RmsTlsConnectionProviderV2 {
    /// What follows the readiness check of the shared endpoint. When it
    /// failed, the caller sees its error as an unavailable service and no
    /// version-2 client is built; when it passed, the version-2 client is
    /// built from the provider's endpoint and TLS settings.
    pub fn after_readiness_check<R>(&self, readiness: Result<R, RmsTlsClientError>) -> (res: Result<
        V2ClientSettings<'_>,
        RpcStatus,
    >)
        ensures
            readiness matches Err(e) ==> (res matches Err(status) && status.code
                == RpcCode::Unavailable && status.message@ == e.message_spec()),
            readiness is Ok ==> (res matches Ok(settings) && settings.url@ == self.url@
                && *settings.client_config == self.client_config),
    {
        match readiness {
            Err(e) => Err(RpcStatus::from(e)),
            Ok(_) => Ok(V2ClientSettings { url: self.url.as_str(), client_config: &self.client_config }),
        }
    }

    /// The client configuration the readiness check is built from.
    pub fn api_config(&self) -> (res: RmsApiConfig<'_>)
        ensures
            res.url@ == self.url@,
            *res.client_config == self.client_config,
            res.retry_config == self.retry_config,
    {
        RmsApiConfig::new(self.url.as_str(), &self.client_config, self.retry_config)
    }

    /// The retry progress of a fresh readiness check.
    pub fn start_connecting(&self) -> (res: RetryState)
        ensures
            res.policy() == self.retry_config,
            res.failures() == 0,
    {
        RetryState::start(self.retry_config)
    }

    /// Which credential file, if any, makes a connection made at
    /// `last_connected` stale.
    pub fn stale_file(
        &self,
        cert_mtime: Option<UnixNanos>,
        key_mtime: Option<UnixNanos>,
        last_connected: UnixNanos,
    ) -> (res: Option<StaleFile>)
        ensures
            res == stale_file_spec(
                self.client_config.client_cert is Some,
                cert_mtime,
                key_mtime,
                last_connected,
            ),
    {
        stale_file(&self.client_config, cert_mtime, key_mtime, last_connected)
    }

    /// Whether a connection made at `last_connected` must be replaced.
    pub fn connection_is_stale(
        &self,
        cert_mtime: Option<UnixNanos>,
        key_mtime: Option<UnixNanos>,
        last_connected: UnixNanos,
    ) -> (res: bool)
        ensures
            res == stale_file_spec(
                self.client_config.client_cert is Some,
                cert_mtime,
                key_mtime,
                last_connected,
            ) is Some,
    {
        stale_file(&self.client_config, cert_mtime, key_mtime, last_connected).is_some()
    }

    /// The endpoint this provider connects to.
    pub fn connection_url(&self) -> (res: &str)
        ensures
            res@ == self.url@,
    {
        self.url.as_str()
    }
}

/// Without a client certificate in the configuration, no connection is ever
/// stale, whatever was observed of the files.
pub proof fn lemma_no_client_cert_never_stale(
    cert_mtime: Option<UnixNanos>,
    key_mtime: Option<UnixNanos>,
    last_connected: UnixNanos,
)
    ensures
        stale_file_spec(false, cert_mtime, key_mtime, last_connected) is None,
{
}

/// A connection is stale only when the file named in the verdict was observed
/// with a modification time strictly later than the connection.
pub proof fn lemma_stale_means_newer_file(
    has_client_cert: bool,
    cert_mtime: Option<UnixNanos>,
    key_mtime: Option<UnixNanos>,
    last_connected: UnixNanos,
)
    ensures
        stale_file_spec(has_client_cert, cert_mtime, key_mtime, last_connected)
            == Some(StaleFile::Certificate) ==> (cert_mtime matches Some(m) && m > last_connected),
        stale_file_spec(has_client_cert, cert_mtime, key_mtime, last_connected)
            == Some(StaleFile::Key) ==> !(cert_mtime matches Some(m) && m > last_connected) && (
            key_mtime matches Some(m) && m > last_connected),
        stale_file_spec(has_client_cert, cert_mtime, key_mtime, last_connected) is Some
            ==> has_client_cert,
{
}

/// With a client certificate configured, a connection is stale exactly when
/// the certificate or the key is known to have been modified after it was
/// made: a client built with the new certificate but the old key is replaced
/// once the key changes.
pub proof fn lemma_stale_iff_a_credential_file_is_newer(
    has_client_cert: bool,
    cert_mtime: Option<UnixNanos>,
    key_mtime: Option<UnixNanos>,
    last_connected: UnixNanos,
)
    ensures
        stale_file_spec(has_client_cert, cert_mtime, key_mtime, last_connected) is Some
            <==> has_client_cert && ((cert_mtime matches Some(m) && m > last_connected) || (
        key_mtime matches Some(m) && m > last_connected)),
{
}

/// A connection that is stale stays stale when it is taken to have been made
/// earlier.
pub proof fn lemma_staleness_monotone(
    has_client_cert: bool,
    cert_mtime: Option<UnixNanos>,
    key_mtime: Option<UnixNanos>,
    last_connected: UnixNanos,
    earlier: UnixNanos,
)
    requires
        earlier <= last_connected,
    ensures
        stale_file_spec(has_client_cert, cert_mtime, key_mtime, last_connected) is Some
            ==> stale_file_spec(has_client_cert, cert_mtime, key_mtime, earlier) is Some,
{
}

/// The two providers decide staleness alike for the same TLS configuration.
pub proof fn lemma_providers_agree_on_staleness(
    v1: RmsTlsConnectionProvider,
    v2: RmsTlsConnectionProviderV2,
    cert_mtime: Option<UnixNanos>,
    key_mtime: Option<UnixNanos>,
    last_connected: UnixNanos,
)
    requires
        v1.client_config.client_cert is Some <==> v2.client_config.client_cert is Some,
    ensures
        stale_file_spec(v1.client_config.client_cert is Some, cert_mtime, key_mtime, last_connected)
            == stale_file_spec(
            v2.client_config.client_cert is Some,
            cert_mtime,
            key_mtime,
            last_connected,
        ),
{
}

/// When every attempt fails, each of the first `retries` failures is followed
/// by a wait of exactly the configured interval and a new attempt, and the
/// failure after that ends the attempt: `retries + 1` attempts in all, so zero
/// retries means a single attempt.
pub proof fn lemma_attempts_on_persistent_failure(config: RetryConfig, failures: nat)
    requires
        1 <= failures,
    ensures
        failures <= config.retries ==> decision_after_failures(config, failures)
            == RetryDecision::RetryAfter(config.interval),
        failures == config.retries + 1 ==> decision_after_failures(config, failures)
            == RetryDecision::GiveUp,
        (decision_after_failures(config, failures) matches RetryDecision::RetryAfter(d)
            ==> d == config.interval && failures <= config.retries),
{
}

} // verus!
