use vstd::prelude::*;

verus! {

/// The canonical gRPC status codes.
#[derive(Debug, PartialEq, Eq, Structural, Clone, Copy)]
pub enum RpcCode {
    /// The call completed successfully (gRPC `OK`).
    Success,
    Cancelled,
    Unknown,
    InvalidArgument,
    DeadlineExceeded,
    NotFound,
    AlreadyExists,
    PermissionDenied,
    ResourceExhausted,
    FailedPrecondition,
    Aborted,
    OutOfRange,
    Unimplemented,
    Internal,
    Unavailable,
    DataLoss,
    Unauthenticated,
}

/// The outcome of a gRPC call that did not succeed: its code and message.
#[derive(Debug)]
pub struct RpcStatus {
    pub code: RpcCode,
    pub message: String,
}

impl RpcStatus {
    /// A status with the given code and message.
    pub fn new(code: RpcCode, message: String) -> (res: Self)
        ensures
            res.code == code,
            res.message@ == message@,
    {
        RpcStatus { code, message }
    }
}

/// Why the TLS settings of a client could not be turned into a client.
///
/// The `error` fields hold the rendered text of the underlying failure.
#[derive(Debug)]
pub enum ConfigurationError {
    InvalidUri { uri_string: String, error: String },
    CouldNotReadRootCa { path: String, error: String },
    CouldNotReadClientCert { path: String, error: String },
    CouldNotReadClientKey { path: String, error: String },
    InvalidClientCert { error: String },
    InvalidClientKey { error: String },
    InvalidRootCa { error: String },
    InvalidHTTPURL { url: String },
}

impl ConfigurationError {
    /// The human-readable description of the error.
    pub open spec fn message_spec(&self) -> Seq<char> {
        match self {
            ConfigurationError::InvalidUri { uri_string, error } => "Invalid URI "@ + uri_string@
                + ": "@ + error@,
            ConfigurationError::CouldNotReadRootCa { path, error } =>
                "Could not read Root CA cert at "@ + path@ + ": "@ + error@,
            ConfigurationError::CouldNotReadClientCert { path, error } =>
                "Could not read Client cert at "@ + path@ + ": "@ + error@,
            ConfigurationError::CouldNotReadClientKey { path, error } =>
                "Could not read Client key at "@ + path@ + ": "@ + error@,
            ConfigurationError::InvalidClientCert { error } => "Invalid Client cert: "@ + error@,
            ConfigurationError::InvalidClientKey { error } => "Invalid Client key: "@ + error@,
            ConfigurationError::InvalidRootCa { error } => "Invalid Root CA: "@ + error@,
            ConfigurationError::InvalidHTTPURL { url } => "Invalid HTTP URL with TLS enforced: "@
                + url@,
        }
    }

    /// Renders the error as text.
    pub fn message(&self) -> (res: String)
        ensures
            res@ == self.message_spec(),
    {
        match self {
            ConfigurationError::InvalidUri { uri_string, error } => {
                let mut s = String::from_str("Invalid URI ");
                s.append(uri_string.as_str());
                s.append(": ");
                s.append(error.as_str());
                s
            },
            ConfigurationError::CouldNotReadRootCa { path, error } => {
                let mut s = String::from_str("Could not read Root CA cert at ");
                s.append(path.as_str());
                s.append(": ");
                s.append(error.as_str());
                s
            },
            ConfigurationError::CouldNotReadClientCert { path, error } => {
                let mut s = String::from_str("Could not read Client cert at ");
                s.append(path.as_str());
                s.append(": ");
                s.append(error.as_str());
                s
            },
            ConfigurationError::CouldNotReadClientKey { path, error } => {
                let mut s = String::from_str("Could not read Client key at ");
                s.append(path.as_str());
                s.append(": ");
                s.append(error.as_str());
                s
            },
            ConfigurationError::InvalidClientCert { error } => {
                let mut s = String::from_str("Invalid Client cert: ");
                s.append(error.as_str());
                s
            },
            ConfigurationError::InvalidClientKey { error } => {
                let mut s = String::from_str("Invalid Client key: ");
                s.append(error.as_str());
                s
            },
            ConfigurationError::InvalidRootCa { error } => {
                let mut s = String::from_str("Invalid Root CA: ");
                s.append(error.as_str());
                s
            },
            ConfigurationError::InvalidHTTPURL { url } => {
                let mut s = String::from_str("Invalid HTTP URL with TLS enforced: ");
                s.append(url.as_str());
                s
            },
        }
    }
}

/// Why a TLS client to the Rack Manager could not be built.
#[derive(Debug)]
pub enum RmsTlsClientError {
    /// The connection could not be established; holds the rendered cause.
    Connection(String),
    /// The client configuration is unusable.
    Configuration(ConfigurationError),
    /// The TLS layer refused the setup; holds the rendered cause.
    RustTLS(String),
}

impl RmsTlsClientError {
    /// The human-readable description of the error.
    pub open spec fn message_spec(&self) -> Seq<char> {
        match self {
            RmsTlsClientError::Connection(e) => "ConnectError error: "@ + e@,
            RmsTlsClientError::Configuration(e) => "Configuration error: "@ + e.message_spec(),
            RmsTlsClientError::RustTLS(e) => "Rust TLS error: "@ + e@,
        }
    }

    /// Renders the error as text.
    pub fn message(&self) -> (res: String)
        ensures
            res@ == self.message_spec(),
    {
        match self {
            RmsTlsClientError::Connection(e) => {
                let mut s = String::from_str("ConnectError error: ");
                s.append(e.as_str());
                s
            },
            RmsTlsClientError::Configuration(e) => {
                let inner = e.message();
                let mut s = String::from_str("Configuration error: ");
                s.append(inner.as_str());
                s
            },
            RmsTlsClientError::RustTLS(e) => {
                let mut s = String::from_str("Rust TLS error: ");
                s.append(e.as_str());
                s
            },
        }
    }

    /// The status a gRPC caller sees for this error: the service is
    /// unavailable, with the error's description as message.
    pub fn to_status(&self) -> (res: RpcStatus)
        ensures
            res.code == RpcCode::Unavailable,
            res.message@ == self.message_spec(),
    {
        RpcStatus { code: RpcCode::Unavailable, message: self.message() }
    }
}

impl From<RmsTlsClientError> for RpcStatus {
    /// The status a gRPC caller sees for a TLS client error: the service is
    /// unavailable, with the error's description as message.
    fn from(value: RmsTlsClientError) -> (res: Self)
        ensures
            res.code == RpcCode::Unavailable,
            res.message@ == value.message_spec(),
    {
        value.to_status()
    }
}

impl vstd::std_specs::convert::FromSpecImpl<RmsTlsClientError> for RpcStatus {
    open spec fn obeys_from_spec() -> bool {
        false
    }

    open spec fn from_spec(v: RmsTlsClientError) -> Self {
        RpcStatus { code: RpcCode::Unavailable, message: arbitrary() }
    }
}

impl From<ConfigurationError> for RmsTlsClientError {
    fn from(value: ConfigurationError) -> (res: Self) {
        RmsTlsClientError::Configuration(value)
    }
}

impl vstd::std_specs::convert::FromSpecImpl<ConfigurationError> for RmsTlsClientError {
    open spec fn obeys_from_spec() -> bool {
        true
    }

    open spec fn from_spec(v: ConfigurationError) -> Self {
        RmsTlsClientError::Configuration(v)
    }
}

/// Why a call to the Rack Manager failed.
#[derive(Debug)]
pub enum RackManagerError {
    /// The connection or the call itself returned this status.
    ApiInvocationError(RpcStatus),
    /// The TLS client could not be built.
    TlsError(RmsTlsClientError),
}

impl From<RpcStatus> for RackManagerError {
    fn from(value: RpcStatus) -> (res: Self) {
        RackManagerError::ApiInvocationError(value)
    }
}

impl vstd::std_specs::convert::FromSpecImpl<RpcStatus> for RackManagerError {
    open spec fn obeys_from_spec() -> bool {
        true
    }

    open spec fn from_spec(v: RpcStatus) -> Self {
        RackManagerError::ApiInvocationError(v)
    }
}

impl From<RmsTlsClientError> for RackManagerError {
    fn from(value: RmsTlsClientError) -> (res: Self) {
        RackManagerError::TlsError(value)
    }
}

impl vstd::std_specs::convert::FromSpecImpl<RmsTlsClientError> for RackManagerError {
    open spec fn obeys_from_spec() -> bool {
        true
    }

    open spec fn from_spec(v: RmsTlsClientError) -> Self {
        RackManagerError::TlsError(v)
    }
}

/// The calls of the Rack Manager API that an implementation may leave out.
#[derive(Debug, PartialEq, Eq, Structural, Clone, Copy)]
pub enum OptionalRpc {
    BatchResetSwitchFactoryDefault,
    ConfigureScaleUpFabricManagerV2,
    StartSystemValidation,
    GetScaleUpFabricStatus,
    BatchCollectSwitchSpdmAttestationEvidence,
}

/// The message of the error an implementation returns for a call it leaves out.
pub open spec fn unimplemented_message(rpc: OptionalRpc) -> Seq<char> {
    match rpc {
        OptionalRpc::BatchResetSwitchFactoryDefault =>
            "BatchResetSwitchFactoryDefault is not implemented by this RmsApi"@,
        OptionalRpc::ConfigureScaleUpFabricManagerV2 =>
            "RackManagerV2 is not implemented by this RmsApi"@,
        OptionalRpc::StartSystemValidation => "RackManagerV2 is not implemented by this RmsApi"@,
        OptionalRpc::GetScaleUpFabricStatus =>
            "GetScaleUpFabricStatus is not implemented by this RmsApi"@,
        OptionalRpc::BatchCollectSwitchSpdmAttestationEvidence =>
            "switch SPDM attestation evidence collection is not implemented"@,
    }
}

/// The error returned by an implementation that leaves out `rpc`: an
/// `Unimplemented` status naming what is missing.
pub fn unimplemented_error(rpc: OptionalRpc) -> (res: RackManagerError)
    ensures
        res matches RackManagerError::ApiInvocationError(status) && status.code
            == RpcCode::Unimplemented && status.message@ == unimplemented_message(rpc),
{
    let message = match rpc {
        OptionalRpc::BatchResetSwitchFactoryDefault => String::from_str(
            "BatchResetSwitchFactoryDefault is not implemented by this RmsApi",
        ),
        OptionalRpc::ConfigureScaleUpFabricManagerV2 => String::from_str(
            "RackManagerV2 is not implemented by this RmsApi",
        ),
        OptionalRpc::StartSystemValidation => String::from_str(
            "RackManagerV2 is not implemented by this RmsApi",
        ),
        OptionalRpc::GetScaleUpFabricStatus => String::from_str(
            "GetScaleUpFabricStatus is not implemented by this RmsApi",
        ),
        OptionalRpc::BatchCollectSwitchSpdmAttestationEvidence => String::from_str(
            "switch SPDM attestation evidence collection is not implemented",
        ),
    };
    RackManagerError::ApiInvocationError(RpcStatus { code: RpcCode::Unimplemented, message })
}

} // verus!
