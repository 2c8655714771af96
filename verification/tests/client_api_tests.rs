use std::time::Duration;

use rms_client::api::{RackManagerApi, RackManagerApiClient, RackManagerV2ApiClient, RmsClientPool};
use rms_client::config::{ClientCertConfig, RetryConfig, RmsApiConfig, RmsClientConfig};
use rms_client::error::{
    unimplemented_error, ConfigurationError, OptionalRpc, RackManagerError, RmsTlsClientError,
    RpcCode, RpcStatus,
};
use rms_client::provider::{
    connection_result, stale_file, RetryDecision, RetryState, RmsTlsConnectionProvider,
    RmsTlsConnectionProviderV2,
    StaleFile,
};

fn tls_config() -> RmsClientConfig {
    RmsClientConfig::new(
        Some("/etc/rms/ca.pem".to_owned()),
        Some(ClientCertConfig {
            cert_path: "/etc/rms/client.pem".to_owned(),
            key_path: "/etc/rms/client.key".to_owned(),
        }),
        None,
        true,
    )
}

fn retry(retries: u32, millis: u64) -> RetryConfig {
    RetryConfig {
        retries,
        interval: Duration::from_millis(millis),
    }
}

#[test]
fn without_client_cert_a_connection_is_never_stale() {
    let config = RmsClientConfig::new(None, None, None, false);
    assert_eq!(stale_file(&config, Some(200), Some(300), 100), None);
    assert_eq!(stale_file(&config, None, Some(300), 100), None);
}

#[test]
fn newer_certificate_makes_the_connection_stale() {
    let config = tls_config();
    assert_eq!(stale_file(&config, Some(101), None, 100), Some(StaleFile::Certificate));
    assert_eq!(stale_file(&config, Some(100), None, 100), None);
    assert_eq!(stale_file(&config, Some(99), None, 100), None);
}

#[test]
fn newer_key_makes_the_connection_stale() {
    let config = tls_config();
    // built with the new certificate but the old key, the key replaced since
    assert_eq!(stale_file(&config, Some(50), Some(150), 100), Some(StaleFile::Key));
    assert_eq!(stale_file(&config, None, Some(500), 100), Some(StaleFile::Key));
    assert_eq!(stale_file(&config, Some(200), Some(300), 100), Some(StaleFile::Certificate));
    assert_eq!(stale_file(&config, Some(50), Some(100), 100), None);
    assert_eq!(stale_file(&config, None, Some(100), 100), None);
    assert_eq!(stale_file(&config, None, None, 100), None);
}

#[test]
fn staleness_handles_times_before_the_epoch() {
    let config = tls_config();
    assert_eq!(stale_file(&config, Some(-5), None, -10), Some(StaleFile::Certificate));
    assert_eq!(stale_file(&config, Some(-10), None, -5), None);
}

#[test]
fn providers_report_staleness_and_url() {
    let v1 = RmsTlsConnectionProvider {
        url: "https://rms.example:50051".to_owned(),
        client_config: tls_config(),
        retry_config: retry(3, 10),
    };
    let v2 = RmsTlsConnectionProviderV2 {
        url: "https://rms.example:50052".to_owned(),
        client_config: tls_config(),
        retry_config: retry(3, 10),
    };
    assert!(v1.connection_is_stale(Some(2_000), None, 1_000));
    assert!(v1.connection_is_stale(Some(500), Some(2_000), 1_000));
    assert!(!v1.connection_is_stale(Some(500), Some(900), 1_000));
    assert_eq!(v2.stale_file(None, Some(2_000), 1_000), Some(StaleFile::Key));
    assert_eq!(v1.connection_url(), "https://rms.example:50051");
    assert_eq!(v2.connection_url(), "https://rms.example:50052");

    let config = v1.api_config();
    assert_eq!(config.url, "https://rms.example:50051");
    assert_eq!(config.retry_config.retries, 3);
    assert!(config.client_config.enforce_tls);
}

#[test]
fn zero_retries_give_up_after_the_first_failure() {
    let mut state = RetryState::start(retry(0, 1000));
    assert_eq!(state.record_failure(), RetryDecision::GiveUp);
    assert_eq!(state.record_failure(), RetryDecision::GiveUp);
}

#[test]
fn each_retry_waits_the_configured_interval() {
    let provider = RmsTlsConnectionProvider {
        url: "http://127.0.0.1:1".to_owned(),
        client_config: RmsClientConfig::new(None, None, None, false),
        retry_config: retry(2, 100),
    };
    let mut state = provider.start_connecting();
    let mut attempts = 1;
    loop {
        match state.record_failure() {
            RetryDecision::RetryAfter(interval) => {
                assert_eq!(interval, Duration::from_millis(100));
                attempts += 1;
            }
            RetryDecision::GiveUp => break,
        }
    }
    assert_eq!(attempts, 3);
}

#[test]
fn clients_are_built_from_the_configuration() {
    let client_config = tls_config();
    let rms_config = RmsApiConfig::new("https://rms.example:50051", &client_config, retry(4, 250));

    let client = RackManagerApiClient::new(&rms_config);
    assert_eq!(client.provider.url, "https://rms.example:50051");
    assert_eq!(client.provider.retry_config.retries, 4);
    assert_eq!(
        client.provider.client_config.client_cert.as_ref().map(|c| c.key_path.as_str()),
        Some("/etc/rms/client.key")
    );

    let v2 = RackManagerV2ApiClient::new(&rms_config);
    assert_eq!(v2.provider.url, "https://rms.example:50051");
    assert_eq!(v2.provider.retry_config.interval, Duration::from_millis(250));

    let api = RackManagerApi::new(&rms_config);
    assert_eq!(api.api_url, "https://rms.example:50051");
    assert_eq!(api.config.root_ca_path.as_deref(), Some("/etc/rms/ca.pem"));
    assert_eq!(api.client.provider.url, "https://rms.example:50051");

    let pool = RmsClientPool::new(&rms_config);
    assert_eq!(pool.client.api_url, "https://rms.example:50051");
    let handed_out = pool.create_client();
    assert_eq!(handed_out.api_url, pool.client.api_url);
    assert_eq!(handed_out.client.provider.retry_config.retries, 4);
}

#[test]
fn retry_config_can_be_replaced() {
    let client_config = RmsClientConfig::new(None, None, None, false);
    let config = RmsApiConfig::new("http://rms", &client_config, retry(1, 1))
        .with_retry_config(retry(7, 20));
    assert_eq!(config.retry_config.retries, 7);
    assert_eq!(config.url, "http://rms");
}

#[test]
fn configuration_errors_render_their_cause() {
    let cases = [
        (
            ConfigurationError::InvalidUri {
                uri_string: "ht tp://x".to_owned(),
                error: "invalid uri character".to_owned(),
            },
            "Invalid URI ht tp://x: invalid uri character",
        ),
        (
            ConfigurationError::CouldNotReadRootCa {
                path: "/ca.pem".to_owned(),
                error: "No such file or directory (os error 2)".to_owned(),
            },
            "Could not read Root CA cert at /ca.pem: No such file or directory (os error 2)",
        ),
        (
            ConfigurationError::CouldNotReadClientCert {
                path: "/c.pem".to_owned(),
                error: "denied".to_owned(),
            },
            "Could not read Client cert at /c.pem: denied",
        ),
        (
            ConfigurationError::CouldNotReadClientKey {
                path: "/c.key".to_owned(),
                error: "denied".to_owned(),
            },
            "Could not read Client key at /c.key: denied",
        ),
        (
            ConfigurationError::InvalidClientCert { error: "bad".to_owned() },
            "Invalid Client cert: bad",
        ),
        (
            ConfigurationError::InvalidClientKey { error: "bad".to_owned() },
            "Invalid Client key: bad",
        ),
        (
            ConfigurationError::InvalidRootCa { error: "bad".to_owned() },
            "Invalid Root CA: bad",
        ),
        (
            ConfigurationError::InvalidHTTPURL { url: "http://rms".to_owned() },
            "Invalid HTTP URL with TLS enforced: http://rms",
        ),
    ];
    for (error, text) in cases {
        assert_eq!(error.message(), text);
    }
}

#[test]
fn tls_errors_become_unavailable_statuses() {
    let connect = RmsTlsClientError::Connection("refused".to_owned());
    assert_eq!(connect.message(), "ConnectError error: refused");
    let status = connect.to_status();
    assert_eq!(status.code, RpcCode::Unavailable);
    assert_eq!(status.message, "ConnectError error: refused");

    let config: RmsTlsClientError =
        ConfigurationError::InvalidHTTPURL { url: "http://rms".to_owned() }.into();
    assert_eq!(
        config.message(),
        "Configuration error: Invalid HTTP URL with TLS enforced: http://rms"
    );

    let tls = RmsTlsClientError::RustTLS("no certificates".to_owned());
    assert_eq!(tls.message(), "Rust TLS error: no certificates");
    assert_eq!(tls.to_status().code, RpcCode::Unavailable);

    let wrapped: RackManagerError = tls.into();
    assert!(matches!(wrapped, RackManagerError::TlsError(RmsTlsClientError::RustTLS(_))));

    let from_status: RackManagerError =
        RpcStatus::new(RpcCode::NotFound, "no such node".to_owned()).into();
    match from_status {
        RackManagerError::ApiInvocationError(status) => {
            assert_eq!(status.code, RpcCode::NotFound);
            assert_eq!(status.message, "no such node");
        }
        other => panic!("unexpected error {other:?}"),
    }
}

#[test]
fn calls_left_out_report_unimplemented() {
    let cases = [
        (
            OptionalRpc::BatchResetSwitchFactoryDefault,
            "BatchResetSwitchFactoryDefault is not implemented by this RmsApi",
        ),
        (
            OptionalRpc::ConfigureScaleUpFabricManagerV2,
            "RackManagerV2 is not implemented by this RmsApi",
        ),
        (
            OptionalRpc::StartSystemValidation,
            "RackManagerV2 is not implemented by this RmsApi",
        ),
        (
            OptionalRpc::GetScaleUpFabricStatus,
            "GetScaleUpFabricStatus is not implemented by this RmsApi",
        ),
        (
            OptionalRpc::BatchCollectSwitchSpdmAttestationEvidence,
            "switch SPDM attestation evidence collection is not implemented",
        ),
    ];
    for (rpc, text) in cases {
        match unimplemented_error(rpc) {
            RackManagerError::ApiInvocationError(status) => {
                assert_eq!(status.code, RpcCode::Unimplemented);
                assert_eq!(status.message, text);
            }
            other => panic!("unexpected error {other:?}"),
        }
    }
}

fn assert_public_type<T>() -> usize {
    std::mem::size_of::<T>()
}

#[test]
fn client_feature_exposes_expected_public_api_paths() {
    let public_api_types = [
        assert_public_type::<RackManagerApi>(),
        assert_public_type::<RmsClientPool>(),
        assert_public_type::<RmsClientConfig>(),
        assert_public_type::<RmsApiConfig<'static>>(),
        assert_public_type::<RetryConfig>(),
        assert_public_type::<RackManagerApiClient>(),
        assert_public_type::<RmsTlsConnectionProvider>(),
        assert_public_type::<RackManagerV2ApiClient>(),
        assert_public_type::<RmsTlsConnectionProviderV2>(),
    ];

    assert_eq!(public_api_types.len(), 9);
}

#[test]
fn tls_errors_convert_into_unavailable_statuses() {
    let error = RmsTlsClientError::Configuration(ConfigurationError::InvalidHTTPURL {
        url: "http://rms".to_owned(),
    });
    let status = RpcStatus::from(error);
    assert_eq!(status.code, RpcCode::Unavailable);
    assert_eq!(
        status.message,
        "Configuration error: Invalid HTTP URL with TLS enforced: http://rms"
    );
}

#[test]
fn version_two_client_is_built_only_after_readiness() {
    let provider = RmsTlsConnectionProviderV2 {
        url: "https://rms.example:50052".to_owned(),
        client_config: tls_config(),
        retry_config: retry(1, 10),
    };
    let failed: Result<(), RmsTlsClientError> =
        Err(RmsTlsClientError::Connection("refused".to_owned()));
    match provider.after_readiness_check(failed) {
        Err(status) => {
            assert_eq!(status.code, RpcCode::Unavailable);
            assert_eq!(status.message, "ConnectError error: refused");
        }
        Ok(_) => panic!("a failed readiness check must not lead to a build"),
    }
    let passed: Result<u8, RmsTlsClientError> = Ok(7);
    let settings = provider.after_readiness_check(passed).unwrap();
    assert_eq!(settings.url, "https://rms.example:50052");
    assert!(settings.client_config.enforce_tls);

    assert_eq!(connection_result::<u8>(Ok(3)).unwrap(), 3);
    let err = connection_result::<u8>(Err(RmsTlsClientError::RustTLS("bad".to_owned()))).unwrap_err();
    assert_eq!(err.code, RpcCode::Unavailable);
    assert_eq!(err.message, "Rust TLS error: bad");
}
