//! Pluggable transports: what a builder is handed, and how one is selected.
//!
//! Selection is fail-closed: a transport type that is not registered is an
//! error that names it. It never falls back to another transport, so that an
//! explicit selector cannot change the protocol on the wire.

use http::HeaderValue;
use std::time::Duration;
use vstd::prelude::*;
use vstd::string::StringExecFns;

use crate::error::{ErrorKind, IoError};
use crate::outside::quoted_text;
use crate::registry::Registry;

verus! {

use crate::outside::quoted_text_of;

/// What a client transport builder is handed for one connection.
#[derive(Debug, Clone)]
pub struct ClientBuildOptions {
    /// The user agent configured on the endpoint, if any.
    pub user_agent: Option<HeaderValue>,
    /// Bound on establishing the connection.
    pub connect_timeout: Option<Duration>,
    /// Per-stream window asked for on the endpoint.
    pub init_stream_window_size: Option<u32>,
    /// Connection window asked for on the endpoint.
    pub init_connection_window_size: Option<u32>,
    /// Whether the endpoint has transport security configured. A transport that
    /// cannot provide it must refuse.
    pub tls_configured: bool,
}

impl Default for ClientBuildOptions {
    fn default() -> (r: Self)
        ensures
            r == (ClientBuildOptions {
                user_agent: None,
                connect_timeout: None,
                init_stream_window_size: None,
                init_connection_window_size: None,
                tls_configured: false,
            }),
    {
        ClientBuildOptions {
            user_agent: None,
            connect_timeout: None,
            init_stream_window_size: None,
            init_connection_window_size: None,
            tls_configured: false,
        }
    }
}

/// What a server transport builder is handed for one listener.
#[derive(Debug, Clone, Copy, PartialEq, Eq, Structural)]
pub struct ServerBuildOptions {
    /// Most streams open at once on a connection, if bounded.
    pub max_concurrent_streams: Option<u32>,
    /// Initial per-stream flow-control window, if not the default.
    pub init_stream_window_size: Option<u32>,
    /// Whether the server has transport security configured. A transport that
    /// cannot provide it must refuse.
    pub tls_configured: bool,
}

impl Default for ServerBuildOptions {
    fn default() -> (r: Self)
        ensures
            r == (ServerBuildOptions {
                max_concurrent_streams: None,
                init_stream_window_size: None,
                tls_configured: false,
            }),
    {
        ServerBuildOptions {
            max_concurrent_streams: None,
            init_stream_window_size: None,
            tls_configured: false,
        }
    }
}

/// The text for a client transport type that nobody registered.
pub open spec fn unregistered_client(target: Seq<char>, quoted: Seq<char>) -> Seq<char> {
    "endpoint "@ + target + " requests transport type "@ + quoted
        + ", which is not registered with tonic::transport::experimental::client"@
}

/// The text for a server transport type that nobody registered.
pub open spec fn unregistered_server(quoted: Seq<char>) -> Seq<char> {
    "transport type "@ + quoted
        + " is not registered with tonic::transport::experimental::server"@
}

/// Says that no client transport is registered under the quoted name.
pub fn unregistered_client_text(target: &str, quoted: &str) -> (r: String)
    ensures
        r@ == unregistered_client(target@, quoted@),
{
    let mut s = "endpoint ".to_owned();
    s.append(target);
    s.append(" requests transport type ");
    s.append(quoted);
    s.append(", which is not registered with tonic::transport::experimental::client");
    s
}

/// Says that no server transport is registered under the quoted name.
pub fn unregistered_server_text(quoted: &str) -> (r: String)
    ensures
        r@ == unregistered_server(quoted@),
{
    let mut s = "transport type ".to_owned();
    s.append(quoted);
    s.append(" is not registered with tonic::transport::experimental::server");
    s
}

/// The builder for a connection to `target` over `transport_type`. A type that
/// is not registered gives an error that names it.
pub fn select_client<'a, B>(registry: &'a Registry<B>, target: &str, transport_type: &str) -> (r:
    Result<&'a B, String>)
    requires
        registry.wf(),
    ensures
        match r {
            Ok(b) => registry@.contains_key(transport_type@) && registry@[transport_type@] == *b,
            Err(e) => {
                &&& !registry@.contains_key(transport_type@)
                &&& e@ == unregistered_client(target@, quoted_text_of(transport_type@))
            },
        },
{
    match registry.get(transport_type) {
        Some(b) => Ok(b),
        None => Err(unregistered_client_text(target, quoted_text(transport_type).as_str())),
    }
}

/// The end of an attempt to connect. One that its bound cut off is an error; else
/// what the builder gave stands.
pub fn connect_result<T, E>(built: Option<Result<T, E>>) -> (r: Result<Result<T, E>, IoError>)
    ensures
        match built {
            Some(b) => r == Ok::<Result<T, E>, IoError>(b),
            None => r matches Err(e) && e@ == (
                ErrorKind::TimedOut,
                "transport connect timed out"@,
            ),
        },
{
    match built {
        Some(b) => Ok(b),
        None => Err(IoError::new(ErrorKind::TimedOut, "transport connect timed out")),
    }
}

/// The builder for a listener over `transport_type`. A type that is not
/// registered gives an error that names it, before anything is bound.
pub fn select_server<'a, B>(registry: &'a Registry<B>, transport_type: &str) -> (r: Result<
    &'a B,
    String,
>)
    requires
        registry.wf(),
    ensures
        match r {
            Ok(b) => registry@.contains_key(transport_type@) && registry@[transport_type@] == *b,
            Err(e) => {
                &&& !registry@.contains_key(transport_type@)
                &&& e@ == unregistered_server(quoted_text_of(transport_type@))
            },
        },
{
    match registry.get(transport_type) {
        Some(b) => Ok(b),
        None => Err(unregistered_server_text(quoted_text(transport_type).as_str())),
    }
}

/// The errors name what is not registered, and for whom.
pub proof fn law_errors_name_the_type(target: Seq<char>, quoted: Seq<char>)
    ensures
        unregistered_client(target, quoted) == "endpoint "@ + target
            + " requests transport type "@ + quoted
            + ", which is not registered with tonic::transport::experimental::client"@,
        unregistered_server(quoted) == "transport type "@ + quoted
            + " is not registered with tonic::transport::experimental::server"@,
{
}

} // verus!
