use std::time::Duration;
use tonic_shmsc::experimental::{
    connect_result, select_client, select_server, ClientBuildOptions, ServerBuildOptions,
};
use tonic_shmsc::registry::{RegisterError, Registry};
use tonic_shmsc::{
    client_builder_with_config, register, server_builder_with_config, target_path, uri, BuildError,
    ShmscClientBuilder, ShmscConfig, ShmscServerBuilder, NAME,
};

struct NopBuilder;

#[test]
fn client_register_and_get() {
    let mut reg: Registry<NopBuilder> = Registry::new();
    assert!(reg.get("client-reg-absent").is_none());
    reg.register("client-reg-present".to_string(), NopBuilder);
    assert!(reg.get("client-reg-present").is_some());
}

#[test]
fn server_register_and_get() {
    let mut reg: Registry<NopBuilder> = Registry::new();
    assert!(reg.get("server-reg-absent").is_none());
    reg.register("server-reg-present".to_string(), NopBuilder);
    assert!(reg.get("server-reg-present").is_some());
}

#[test]
fn duplicate_and_empty_names_are_refused() {
    let mut reg: Registry<u32> = Registry::new();
    assert_eq!(reg.check_name(""), Err(RegisterError::EmptyName));
    assert_eq!(reg.check_name("client-reg-dup"), Ok(()));
    reg.register("client-reg-dup".to_string(), 1);
    assert_eq!(reg.check_name("client-reg-dup"), Err(RegisterError::Duplicate));
    assert_eq!(reg.check_name("another"), Ok(()));
    reg.register("another".to_string(), 2);
    assert_eq!(reg.get("client-reg-dup"), Some(&1));
    assert_eq!(reg.get("another"), Some(&2));
}

#[test]
fn plugin_registers_once() {
    let mut clients = Registry::new();
    let mut servers = Registry::new();
    register(&mut clients, &mut servers);
    assert!(clients.get(NAME).is_some());
    assert!(servers.get("shmsc").is_some());
    assert_eq!(clients.check_name(NAME), Err(RegisterError::Duplicate));
    assert_eq!(servers.check_name(NAME), Err(RegisterError::Duplicate));
}

#[test]
fn unregistered_type_fails_closed() {
    let reg: Registry<u32> = Registry::new();
    let e = select_client(&reg, "fake://localhost/nothing-here", "totally-unregistered").unwrap_err();
    assert_eq!(
        e,
        "endpoint fake://localhost/nothing-here requests transport type \"totally-unregistered\", \
         which is not registered with tonic::transport::experimental::client"
    );
    let e = select_server(&reg, "server-reg-\"never\"").unwrap_err();
    assert_eq!(
        e,
        "transport type \"server-reg-\\\"never\\\"\" is not registered with \
         tonic::transport::experimental::server"
    );
}

#[test]
fn connect_bound_cuts_off() {
    let r: Result<Result<u32, u32>, _> = connect_result(None);
    assert_eq!(r.unwrap_err().message, "transport connect timed out");
    let r: Result<Result<u32, u32>, _> = connect_result(Some(Err(3)));
    assert_eq!(r.unwrap(), Err(3));
}

#[test]
fn uri_roundtrip() {
    assert_eq!(uri("/tmp/greeter.shmsc"), "shmsc://localhost/tmp/greeter.shmsc");
    assert_eq!(target_path(&uri("/tmp/greeter.shmsc")).unwrap(), "/tmp/greeter.shmsc");
    // Only the path counts.
    assert_eq!(target_path("shmsc://localhost/a?q=1").unwrap(), "/a");
    let e = target_path("shmsc://localhost/").unwrap_err();
    assert_eq!(e, "shmsc: endpoint URI shmsc://localhost/ carries no socket path");
}

#[test]
fn tls_is_refused() {
    let opts = ClientBuildOptions { tls_configured: true, ..ClientBuildOptions::default() };
    let e = ShmscClientBuilder::default()
        .build("shmsc://localhost/tmp/whatever.sock", &opts)
        .unwrap_err();
    assert!(matches!(e, BuildError::Tls));
    assert!(e.message().contains("transport security"));
    let opts = ServerBuildOptions { tls_configured: true, ..ServerBuildOptions::default() };
    let e = ShmscServerBuilder::default().bind("/tmp/x", opts).unwrap_err();
    assert!(e.message().contains("refusing to silently downgrade"));
}

#[test]
fn client_plan() {
    let opts = ClientBuildOptions {
        connect_timeout: Some(Duration::from_secs(1)),
        init_stream_window_size: Some(1),
        ..ClientBuildOptions::default()
    };
    let plan = ShmscClientBuilder::default().build("shmsc://localhost/s", &opts).unwrap();
    assert_eq!(plan.path, "/s");
    // The server assigns the window.
    assert_eq!(plan.config.stream_window, 8 << 20);
    let e = ShmscClientBuilder::default().build("shmsc://localhost/", &opts).unwrap_err();
    assert!(matches!(e, BuildError::NoSocketPath(_)));
    let bad = ShmscConfig { ring_size: 3, ..ShmscConfig::default() };
    let e = client_builder_with_config(bad).build("shmsc://localhost/s", &opts).unwrap_err();
    assert!(matches!(e, BuildError::Config(_)));
}

#[test]
fn server_plan() {
    let cfg = ShmscConfig { ring_size: 8192, max_frame: 1, ..ShmscConfig::default() };
    let opts = ServerBuildOptions {
        max_concurrent_streams: Some(2),
        init_stream_window_size: Some(1000),
        tls_configured: false,
    };
    let plan = server_builder_with_config(cfg).bind("/tmp/s", opts).unwrap();
    assert_eq!(plan.target, "/tmp/s");
    assert_eq!(plan.config.ring_size, 8192);
    assert_eq!(plan.config.max_frame, 4096);
    assert_eq!(plan.config.stream_window, 1000);
    assert_eq!(plan.config.max_streams, Some(2));
    let zero = ServerBuildOptions { init_stream_window_size: Some(0), ..ServerBuildOptions::default() };
    assert!(server_builder_with_config(cfg).bind("/tmp/s", zero).is_err());
}
