//! A shared-memory gRPC transport.
//!
//! Two processes share a segment that holds one byte ring per direction. The
//! rings carry length-prefixed frames; streams, flow control and connection
//! drain are HTTP/2-shaped. This library is the part that decides and computes:
//! the codecs, the rings, the flow-control ledgers and the two ends of a
//! connection as state machines. Sockets, mappings and tasks belong to its
//! caller.
//!
//! The transport registers under the type [`NAME`] on both sides. It is
//! insecure-only and fail-closed about it: an endpoint or server with transport
//! security configured is refused, never downgraded.

use vstd::prelude::*;
use vstd::string::StringExecFns;

mod outside;
pub mod block;
pub mod body;
pub mod client;
pub mod client_laws;
pub mod conduit;
pub mod config;
pub mod conn;
pub mod control;
pub mod deadline;
pub mod error;
pub mod experimental;
pub mod flow;
pub mod frame;
pub mod handshake;
pub mod image;
pub mod le;
pub mod listener;
pub mod pump;
pub mod raw_peer;
pub mod reader;
pub mod reconnect;
pub mod registry;
pub mod ring;
pub mod rpc;
pub mod seg;
pub mod server;
pub mod server_laws;
pub mod table;
pub mod text;
pub mod wake;
pub mod wire;
pub mod writer;

use crate::config::Config;
use crate::error::IoError;
use crate::experimental::{ClientBuildOptions, ServerBuildOptions};
use crate::outside::parse_uri;
use crate::registry::{text_eq, Registry};

pub use crate::server::ShmscConnectInfo;

verus! {

use crate::outside::{endpoint_path, plain_endpoint, plain_path, uri_of_text};

/// The transport type that this transport registers under, on both sides.
pub const NAME: &'static str = "shmsc";

/// The endpoint URI of a target path, such as
/// `shmsc://localhost/tmp/greeter.shmsc`. A URI needs a host, so a placeholder
/// stands there; the transport only reads the path.
pub fn uri(path: &str) -> (r: String)
    ensures
        r@ == "shmsc://localhost"@ + path@,
{
    let mut s = "shmsc://localhost".to_owned();
    s.append(path);
    s
}

/// Whether a URI path names a socket.
pub open spec fn names_socket(path: Seq<char>) -> bool {
    path.len() > 0 && path != "/"@
}

/// The text for an endpoint without a socket path.
pub open spec fn no_socket_path(shown: Seq<char>) -> Seq<char> {
    "shmsc: endpoint URI "@ + shown + " carries no socket path"@
}

/// The socket path in the path of an endpoint URI that is shown as `shown`.
pub fn socket_path(path: String, shown: &str) -> (r: Result<String, String>)
    ensures
        match r {
            Ok(p) => names_socket(path@) && p@ == path@,
            Err(e) => !names_socket(path@) && e@ == no_socket_path(shown@),
        },
{
    if path.as_str().unicode_len() == 0 || text_eq(path.as_str(), "/") {
        let mut s = "shmsc: endpoint URI ".to_owned();
        s.append(shown);
        s.append(" carries no socket path");
        return Err(s);
    }
    Ok(path)
}

/// The socket path that an endpoint URI names, or why it names none.
pub open spec fn uri_target(endpoint: Seq<char>) -> Result<Seq<char>, Seq<char>> {
    match uri_of_text(endpoint) {
        Some((path, shown)) => if names_socket(path) {
            Ok(path)
        } else {
            Err(no_socket_path(shown))
        },
        None => Err(no_socket_path(endpoint)),
    }
}

/// The socket path that an endpoint URI names. The path that [`uri`] was given
/// comes back, as long as a URI can hold it unchanged.
pub fn target_path(endpoint: &str) -> (r: Result<String, String>)
    ensures
        match r {
            Ok(p) => uri_target(endpoint@) == Ok::<Seq<char>, Seq<char>>(p@),
            Err(e) => uri_target(endpoint@) == Err::<Seq<char>, Seq<char>>(e@),
        },
        plain_endpoint(endpoint@) && endpoint_path(endpoint@).len() > 1 ==> (r matches Ok(p) && p@
            == endpoint_path(endpoint@)),
{
    proof {
        reveal_strlit("/");
    }
    match parse_uri(endpoint) {
        Some(u) => socket_path(u.0, u.1.as_str()),
        None => socket_path(String::new(), endpoint),
    }
}

/// The endpoint of a plain path is one from which [`target_path`] takes that path
/// again.
pub proof fn law_uri_keeps_plain_paths(path: Seq<char>)
    requires
        plain_path(path),
        vstd::utf8::encode_utf8("shmsc://localhost"@ + path).len() <= 65534,
    ensures
        plain_endpoint("shmsc://localhost"@ + path),
        endpoint_path("shmsc://localhost"@ + path) == path,
{
    assert(endpoint_path("shmsc://localhost"@ + path) =~= path);
}

/// Tuning knobs of connections and listeners.
#[derive(Debug, Clone, Copy, PartialEq, Eq, Structural)]
pub struct ShmscConfig {
    /// Capacity of each ring: a power of two from 4 KiB to 1 GiB. The client
    /// learns it in the handshake.
    pub ring_size: usize,
    /// Initial per-stream flow-control window in bytes, both directions, chosen
    /// by the server.
    pub stream_window: u32,
    /// Largest DATA payload written as one frame.
    pub max_frame: usize,
    /// Microseconds to spin on a ring before parking; 0 disables spinning.
    pub spin_us: u32,
}

impl Default for ShmscConfig {
    fn default() -> (r: Self)
        ensures
            r == (ShmscConfig {
                ring_size: 0x100_0000,
                stream_window: 0x80_0000,
                max_frame: 0x10_0000,
                spin_us: 0,
            }),
    {
        let d = Config::default();
        ShmscConfig {
            ring_size: d.ring_size,
            stream_window: d.stream_window,
            max_frame: d.max_frame,
            spin_us: d.spin_us,
        }
    }
}

impl ShmscConfig {
    /// The engine configuration for these knobs, with no bound on streams.
    pub fn into_engine(self) -> (r: Config)
        ensures
            r == (Config {
                ring_size: self.ring_size,
                stream_window: self.stream_window,
                max_frame: self.max_frame,
                spin_us: self.spin_us,
                max_streams: None,
            }),
    {
        Config {
            ring_size: self.ring_size,
            stream_window: self.stream_window,
            max_frame: self.max_frame,
            spin_us: self.spin_us,
            max_streams: None,
        }
    }
}

/// The refusal of transport security.
pub open spec fn tls_refusal() -> Seq<char> {
    "shmsc: transport security is not supported; remove the TLS configuration or use a different transport (refusing to silently downgrade)"@
}

/// Why a builder made no transport.
#[derive(Debug)]
pub enum BuildError {
    /// Transport security is configured, and this transport has none.
    Tls,
    /// The endpoint names no socket; holds the text that is shown.
    NoSocketPath(String),
    /// The configuration is not acceptable.
    Config(IoError),
}

impl BuildError {
    /// The text that is shown.
    pub open spec fn text(self) -> Seq<char> {
        match self {
            BuildError::Tls => tls_refusal(),
            BuildError::NoSocketPath(s) => s@,
            BuildError::Config(e) => e.message@,
        }
    }

    /// The text that is shown.
    pub fn message(&self) -> (r: String)
        ensures
            r@ == self.text(),
    {
        match self {
            BuildError::Tls => "shmsc: transport security is not supported; remove the TLS configuration or use a different transport (refusing to silently downgrade)".to_owned(),
            BuildError::NoSocketPath(s) => s.clone(),
            BuildError::Config(e) => e.message.clone(),
        }
    }
}

/// What a failed build says.
pub enum RefusalView {
    Tls,
    NoSocketPath(Seq<char>),
    Config((crate::error::ErrorKind, Seq<char>)),
}

impl View for BuildError {
    type V = RefusalView;

    open spec fn view(&self) -> RefusalView {
        match self {
            BuildError::Tls => RefusalView::Tls,
            BuildError::NoSocketPath(s) => RefusalView::NoSocketPath(s@),
            BuildError::Config(e) => RefusalView::Config(e@),
        }
    }
}

/// A connection to make: where, and with which configuration.
#[derive(Debug)]
pub struct ConnectPlan {
    pub path: String,
    pub config: Config,
}

/// A listener to bind: where, and with which configuration.
#[derive(Debug)]
pub struct BindPlan {
    pub target: String,
    pub config: Config,
}

/// The client-side builder, which dials the socket that the endpoint URI names.
#[derive(Debug, Clone, Copy, PartialEq, Eq, Structural)]
pub struct ShmscClientBuilder {
    pub config: Option<ShmscConfig>,
}

/// The server-side builder, which binds the socket at the target path.
#[derive(Debug, Clone, Copy, PartialEq, Eq, Structural)]
pub struct ShmscServerBuilder {
    pub config: Option<ShmscConfig>,
}

impl Default for ShmscClientBuilder {
    fn default() -> (r: Self)
        ensures
            r.config is None,
    {
        ShmscClientBuilder { config: None }
    }
}

impl Default for ShmscServerBuilder {
    fn default() -> (r: Self)
        ensures
            r.config is None,
    {
        ShmscServerBuilder { config: None }
    }
}

/// The engine configuration of a builder that was given `config`, or else the
/// default.
pub open spec fn engine_config(config: Option<ShmscConfig>) -> Config {
    match config {
        Some(c) => Config {
            ring_size: c.ring_size,
            stream_window: c.stream_window,
            max_frame: c.max_frame,
            spin_us: c.spin_us,
            max_streams: None,
        },
        None => Config {
            ring_size: 0x100_0000,
            stream_window: 0x80_0000,
            max_frame: 0x10_0000,
            spin_us: 0,
            max_streams: None,
        },
    }
}

fn config_or_default(config: Option<ShmscConfig>) -> (r: Config)
    ensures
        r == engine_config(config),
{
    match config {
        Some(c) => c.into_engine(),
        None => ShmscConfig::default().into_engine(),
    }
}

/// What is dialled for an endpoint, or why nothing is.
pub open spec fn dialled(config: Option<ShmscConfig>, tls: bool, target: Seq<char>) -> Result<
    (Seq<char>, Config),
    RefusalView,
> {
    if tls {
        Err(RefusalView::Tls)
    } else {
        match uri_target(target) {
            Err(m) => Err(RefusalView::NoSocketPath(m)),
            Ok(p) => match engine_config(config).error() {
                Some(x) => Err(RefusalView::Config(x)),
                None => Ok((p, engine_config(config).clamped())),
            },
        }
    }
}

/// What is bound for a target, or why nothing is.
pub open spec fn bound(b: ShmscServerBuilder, opts: ServerBuildOptions, target: Seq<char>) -> Result<
    (Seq<char>, Config),
    RefusalView,
> {
    if opts.tls_configured {
        Err(RefusalView::Tls)
    } else {
        match b.listener_config(opts).error() {
            Some(x) => Err(RefusalView::Config(x)),
            None => Ok((target, b.listener_config(opts).clamped())),
        }
    }
}

impl ShmscClientBuilder {
    /// Decides what to dial for an endpoint. A TLS-configured endpoint is always
    /// refused. The windows asked for on the endpoint do not matter: the server
    /// assigns them.
    pub fn build(&self, target: &str, opts: &ClientBuildOptions) -> (r: Result<
        ConnectPlan,
        BuildError,
    >)
        ensures
            if opts.tls_configured {
                r matches Err(BuildError::Tls)
            } else {
                match uri_target(target@) {
                    Err(m) => r matches Err(BuildError::NoSocketPath(e)) && e@ == m,
                    Ok(p) => match engine_config(self.config).error() {
                        Some(x) => r matches Err(BuildError::Config(e)) && e@ == x,
                        None => r matches Ok(plan) && plan.path@ == p && plan.config
                            == engine_config(self.config).clamped() && plan.config.wf(),
                    },
                }
            },
            match r {
                Ok(plan) => dialled(self.config, opts.tls_configured, target@) == Ok::<
                    (Seq<char>, Config),
                    RefusalView,
                >((plan.path@, plan.config)),
                Err(e) => dialled(self.config, opts.tls_configured, target@) == Err::<
                    (Seq<char>, Config),
                    RefusalView,
                >(e@),
            },
    {
        if opts.tls_configured {
            return Err(BuildError::Tls);
        }
        match target_path(target) {
            Err(e) => Err(BuildError::NoSocketPath(e)),
            Ok(path) => match config_or_default(self.config).validated() {
                Err(e) => Err(BuildError::Config(e)),
                Ok(config) => Ok(ConnectPlan { path, config }),
            },
        }
    }
}

impl ShmscServerBuilder {
    /// The engine configuration for a listener: the builder's, with the window
    /// and the stream bound that the options ask for.
    pub open spec fn listener_config(self, opts: ServerBuildOptions) -> Config {
        let base = engine_config(self.config);
        Config {
            stream_window: match opts.init_stream_window_size {
                Some(w) => w,
                None => base.stream_window,
            },
            max_streams: opts.max_concurrent_streams,
            ..base
        }
    }

    /// Decides what to bind. A TLS-configured server is always refused.
    pub fn bind(&self, target: &str, opts: ServerBuildOptions) -> (r: Result<BindPlan, BuildError>)
        ensures
            if opts.tls_configured {
                r matches Err(BuildError::Tls)
            } else {
                match self.listener_config(opts).error() {
                    Some(x) => r matches Err(BuildError::Config(e)) && e@ == x,
                    None => r matches Ok(plan) && plan.target@ == target@ && plan.config
                        == self.listener_config(opts).clamped() && plan.config.wf(),
                }
            },
            match r {
                Ok(plan) => bound(*self, opts, target@) == Ok::<(Seq<char>, Config), RefusalView>(
                    (plan.target@, plan.config),
                ),
                Err(e) => bound(*self, opts, target@) == Err::<(Seq<char>, Config), RefusalView>(
                    e@,
                ),
            },
    {
        if opts.tls_configured {
            return Err(BuildError::Tls);
        }
        let mut cfg = config_or_default(self.config);
        if let Some(w) = opts.init_stream_window_size {
            cfg.stream_window = w;
        }
        cfg.max_streams = opts.max_concurrent_streams;
        match cfg.validated() {
            Err(e) => Err(BuildError::Config(e)),
            Ok(config) => Ok(BindPlan { target: target.to_owned(), config }),
        }
    }
}

/// A client builder with a given configuration, for registering under another
/// name.
pub fn client_builder_with_config(config: ShmscConfig) -> (r: ShmscClientBuilder)
    ensures
        r.config == Some(config),
{
    ShmscClientBuilder { config: Some(config) }
}

/// A server builder with a given configuration, for registering under another
/// name.
pub fn server_builder_with_config(config: ShmscConfig) -> (r: ShmscServerBuilder)
    ensures
        r.config == Some(config),
{
    ShmscServerBuilder { config: Some(config) }
}

/// Registers the default builders under [`NAME`], on both sides. It is called once:
/// neither registry may hold that name.
pub fn register(
    clients: &mut Registry<ShmscClientBuilder>,
    servers: &mut Registry<ShmscServerBuilder>,
)
    requires
        old(clients).wf(),
        old(servers).wf(),
        !old(clients)@.contains_key(NAME@),
        !old(servers)@.contains_key(NAME@),
    ensures
        final(clients).wf(),
        final(servers).wf(),
        final(clients)@ == old(clients)@.insert(NAME@, ShmscClientBuilder { config: None }),
        final(servers)@ == old(servers)@.insert(NAME@, ShmscServerBuilder { config: None }),
{
    proof {
        reveal_strlit("shmsc");
    }
    clients.register(NAME.to_owned(), ShmscClientBuilder::default());
    servers.register(NAME.to_owned(), ShmscServerBuilder::default());
}

/// An endpoint URI names a socket by its path, unless that is empty or a single slash; then
/// it is an error that shows the URI. A text that is no URI is such an error too.
pub proof fn law_sockets_are_named_by_paths(
    endpoint: Seq<char>,
    path: Seq<char>,
    shown: Seq<char>,
)
    ensures
        names_socket(path) <==> path.len() > 1 || (path.len() == 1 && path[0] != '/'),
        uri_of_text(endpoint) == Some((path, shown)) && (path.len() > 1 || (path.len() == 1
            && path[0] != '/')) ==> uri_target(endpoint) == Ok::<Seq<char>, Seq<char>>(path),
        uri_of_text(endpoint) == Some((path, shown)) && !(path.len() > 1 || (path.len() == 1
            && path[0] != '/')) ==> uri_target(endpoint) == Err::<Seq<char>, Seq<char>>(
            "shmsc: endpoint URI "@ + shown + " carries no socket path"@,
        ),
        uri_of_text(endpoint) is None ==> uri_target(endpoint) == Err::<Seq<char>, Seq<char>>(
            "shmsc: endpoint URI "@ + endpoint + " carries no socket path"@,
        ),
{
    reveal_strlit("/");
    if path.len() == 1 && path[0] == '/' {
        assert(path =~= "/"@);
    }
}

/// A builder's knobs are used as they are; without any, rings have 16 MiB, streams a window
/// of 8 MiB, frames at most 1 MiB, and nothing spins. A client bounds no streams.
pub proof fn law_knobs_are_used(config: Option<ShmscConfig>)
    ensures
        engine_config(config).max_streams is None,
        config matches Some(c) ==> engine_config(config).ring_size == c.ring_size
            && engine_config(config).stream_window == c.stream_window && engine_config(
            config,
        ).max_frame == c.max_frame && engine_config(config).spin_us == c.spin_us,
        config is None ==> engine_config(config).ring_size == 16777216 && engine_config(
            config,
        ).stream_window == 8388608 && engine_config(config).max_frame == 1048576
            && engine_config(config).spin_us == 0,
{
}

/// A listener takes the window and the bound on streams from its options, the window only
/// where they name one, and everything else from the builder.
pub proof fn law_options_decide(b: ShmscServerBuilder, opts: ServerBuildOptions)
    ensures
        b.listener_config(opts).max_streams == opts.max_concurrent_streams,
        opts.init_stream_window_size matches Some(w) ==> b.listener_config(opts).stream_window
            == w,
        opts.init_stream_window_size is None ==> b.listener_config(opts).stream_window
            == engine_config(b.config).stream_window,
        b.listener_config(opts).ring_size == engine_config(b.config).ring_size,
        b.listener_config(opts).max_frame == engine_config(b.config).max_frame,
        b.listener_config(opts).spin_us == engine_config(b.config).spin_us,
{
}

/// What is shown where nothing was built.
pub proof fn law_build_errors_are_shown(s: String, e: IoError)
    ensures
        BuildError::Tls.text()
            == "shmsc: transport security is not supported; remove the TLS configuration or use a different transport (refusing to silently downgrade)"@,
        BuildError::NoSocketPath(s).text() == s@,
        BuildError::Config(e).text() == e.message@,
{
}

/// Transport security is never downgraded: where it is configured nothing is dialled and
/// nothing is bound, whatever else holds. Without it everything is that is in order: a
/// socket path, rings of an allowed size and a window.
pub proof fn law_security_is_never_downgraded(
    config: Option<ShmscConfig>,
    b: ShmscServerBuilder,
    opts: ServerBuildOptions,
    target: Seq<char>,
    path: Seq<char>,
)
    ensures
        dialled(config, true, target) == Err::<(Seq<char>, Config), RefusalView>(RefusalView::Tls),
        opts.tls_configured ==> bound(b, opts, target) == Err::<(Seq<char>, Config), RefusalView>(
            RefusalView::Tls,
        ),
        uri_target(target) == Ok::<Seq<char>, Seq<char>>(path) && crate::seg::valid_cap(
            engine_config(config).ring_size as int,
        ) && engine_config(config).stream_window > 0 ==> dialled(config, false, target) == Ok::<
            (Seq<char>, Config),
            RefusalView,
        >((path, engine_config(config).clamped())),
        !opts.tls_configured && crate::seg::valid_cap(b.listener_config(opts).ring_size as int)
            && b.listener_config(opts).stream_window > 0 ==> bound(b, opts, target) == Ok::<
            (Seq<char>, Config),
            RefusalView,
        >((target, b.listener_config(opts).clamped())),
        uri_target(target) matches Err(m) ==> dialled(config, false, target) == Err::<
            (Seq<char>, Config),
            RefusalView,
        >(RefusalView::NoSocketPath(m)),
{
}

} // verus!
