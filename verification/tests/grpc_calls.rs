use protohub::grpc::{
    call_target, check_call_parts, check_endpoint, check_unary, find_service_by_suffix, finish_analysis, grpc_error_message, normalize_grpc_path,
    request_path, resolve_call, resolve_method, services_from_pool, to_string, PoolService, RequestError,
};
use protohub::proto::{merge_service_lines, parse_proto_lightweight, ProtoMethodInfo, ProtoServiceInfo};

fn method(name: &str, client_streaming: bool, server_streaming: bool) -> ProtoMethodInfo {
    ProtoMethodInfo {
        name: name.to_string(),
        request_type: "demo.Req".to_string(),
        response_type: "demo.Rsp".to_string(),
        client_streaming,
        server_streaming,
        line: 1,
    }
}

fn service(name: &str, full_name: &str, methods: Vec<ProtoMethodInfo>) -> ProtoServiceInfo {
    ProtoServiceInfo { name: name.to_string(), full_name: full_name.to_string(), line: 1, methods }
}

fn services() -> Vec<ProtoServiceInfo> {
    vec![
        service("Echo", "demo.Echo", vec![method("Say", false, false), method("Listen", false, true)]),
        service("Echo", "other.Echo", vec![method("Say", false, false)]),
    ]
}

#[test]
fn descriptor_services_are_filtered_to_current_file() {
    let pool = vec![
        PoolService {
            file_name: "imported.proto".to_string(),
            service: service("ImportedService", "demo.ImportedService", vec![method("Imported", false, false)]),
        },
        PoolService {
            file_name: "current.proto".to_string(),
            service: service("CurrentService", "demo.CurrentService", vec![method("Current", false, false)]),
        },
    ];
    let found = services_from_pool(pool, "/tmp/work/current.proto");
    assert_eq!(found.len(), 1);
    assert_eq!(found[0].name, "CurrentService");
}

#[test]
fn services_are_found_by_full_name_then_suffix() {
    let ss = services();
    assert_eq!(resolve_method(&ss, "other.Echo", "Say").ok(), Some((1, 0)));
    assert_eq!(resolve_method(&ss, "Echo", "Say").ok(), Some((0, 0)));
    assert_eq!(find_service_by_suffix(&ss, "r.Echo"), Some(1));
    let missing = resolve_method(&ss, "Nope", "Say").unwrap_err();
    assert_eq!(to_string(&missing), "service not found: Nope");
    let no_method = resolve_method(&ss, "demo.Echo", "Shout").unwrap_err();
    assert_eq!(to_string(&no_method), "method not found: Shout");
}

#[test]
fn streaming_methods_are_recognized_but_not_called() {
    let ss = services();
    assert_eq!(resolve_call(&ss, "demo.Echo", "Say").ok(), Some((0, 0)));
    let err = resolve_call(&ss, "demo.Echo", "Listen").unwrap_err();
    assert!(matches!(err, RequestError::StreamingUnsupported));
    assert_eq!(to_string(&err), "streaming RPC is recognized but not supported in this MVP");
    assert!(check_unary(false, false).is_ok());
    assert!(check_unary(true, false).is_err());
}

#[test]
fn call_targets_fill_in_scheme_authority_and_path() {
    let metadata = vec![
        ("  x-token ".to_string(), " abc ".to_string()),
        ("   ".to_string(), "ignored".to_string()),
    ];
    let t = call_target("localhost:50051", false, None, None, "demo", "demo.Echo", "Say", &metadata);
    assert_eq!(t.uri, "http://localhost:50051");
    assert_eq!(t.authority, "demo");
    assert_eq!(t.origin, Some("http://demo".to_string()));
    assert_eq!(t.path, "/demo.Echo/Say");
    assert_eq!(t.metadata, vec![("x-token".to_string(), "abc".to_string())]);

    let t = call_target(
        "https://api.example.com",
        true,
        Some(" custom/Path ".to_string()),
        Some("  api.example.com ".to_string()),
        "demo",
        "demo.Echo",
        "Say",
        &vec![],
    );
    assert_eq!(t.uri, "https://api.example.com");
    assert_eq!(t.authority, "api.example.com");
    assert_eq!(t.origin, Some("https://api.example.com".to_string()));
    assert_eq!(t.path, "/custom/Path");

    let t = call_target("h:1", true, Some("  ".to_string()), Some(" ".to_string()), "", "E", "M", &vec![]);
    assert_eq!(t.uri, "https://h:1");
    assert_eq!(t.authority, "");
    assert_eq!(t.origin, None);
    assert_eq!(t.path, "/E/M");
}

#[test]
fn grpc_paths_start_with_a_slash_once() {
    assert_eq!(normalize_grpc_path("  demo.Echo/Say "), "/demo.Echo/Say");
    assert_eq!(normalize_grpc_path("/demo.Echo/Say"), "/demo.Echo/Say");
    let once = normalize_grpc_path(" x/y ");
    assert_eq!(normalize_grpc_path(&once), once);
    assert_eq!(normalize_grpc_path(""), "/");
    assert_eq!(request_path(Some("".to_string()), "S", "M"), "/S/M");
}

#[test]
fn error_messages_name_the_status_and_a_hint() {
    let m = grpc_error_message(12, "no such method", "/a/B", "localhost:1", "demo", false);
    assert_eq!(
        m,
        "gRPC Operation is not implemented or not supported: no such method\npath: /a/B\nendpoint: localhost:1\nauthority: demo\ntls: false\nhint: The server is reachable, but this gRPC method path is not registered. Check whether the endpoint is native gRPC, grpc-web/TRPC/HTTP gateway, whether TLS is required, and whether the service package/name matches the server."
    );
    let u = grpc_error_message(14, "down", "/p", "e", "a", true);
    assert!(u.starts_with("gRPC The service is currently unavailable: down\n"));
    assert!(u.contains("tls: true\n"));
    assert!(u.ends_with("hint: The endpoint is unreachable or refused the connection. Check host, port, network, and TLS."));
    let i = grpc_error_message(13, "boom", "/p", "e", "a", true);
    assert!(i.starts_with("gRPC Internal error: boom"));
    assert!(i.ends_with("Check server logs and response type."));
    let other = grpc_error_message(99, "x", "/p", "e", "a", false);
    assert!(other.starts_with("gRPC Unknown error: x"));
    assert!(other.ends_with("hint: The server returned a gRPC status error."));
}

#[test]
fn analysis_takes_descriptor_services_with_reader_lines() {
    let analysis = parse_proto_lightweight(
        "echo.proto",
        "package demo;\nservice Echo {\n  rpc Say (A) returns (B);\n}\n",
    );
    let described = vec![service("Echo", "demo.Echo", vec![method("Say", false, false)])];
    let merged = merge_service_lines(analysis.services.clone(), described);
    assert_eq!(merged[0].line, 2);
    assert_eq!(merged[0].methods[0].line, 3);

    let done = finish_analysis(analysis, Ok(vec![service("Echo", "demo.Echo", vec![method("Say", false, false)])]));
    assert!(done.descriptor_available);
    assert_eq!(done.services[0].line, 2);

    let failed = finish_analysis(
        parse_proto_lightweight("echo.proto", "package demo;\n"),
        Err("bad import".to_string()),
    );
    assert!(!failed.descriptor_available);
    assert_eq!(failed.diagnostics, vec!["Analyzed echo.proto".to_string(), "Descriptor unavailable: bad import".to_string()]);
}

#[test]
fn endpoints_and_origins_must_parse() {
    assert_eq!(check_endpoint("http://localhost:50051", &Some("http://demo".to_string())), Ok(()));
    assert_eq!(check_endpoint("http://localhost:50051", &None), Ok(()));
    assert_eq!(check_endpoint("http://bad host", &None), Err("invalid URI".to_string()));
    let bad_origin = check_endpoint("http://localhost:1", &Some("http://a b".to_string()));
    assert!(bad_origin.is_err());
    assert_ne!(bad_origin, Err("invalid URI".to_string()));
}

#[test]
fn paths_and_metadata_are_checked_in_order() {
    let ok = vec![("x-token".to_string(), "abc".to_string())];
    assert_eq!(check_call_parts("/demo.Echo/Say", &ok), Ok("/demo.Echo/Say".to_string()));
    assert_eq!(check_call_parts("/demo.Echo/Say#frag", &vec![]), Ok("/demo.Echo/Say".to_string()));
    let bad_key = vec![("bad key".to_string(), "v".to_string()), ("x".to_string(), "\u{1}".to_string())];
    assert_eq!(check_call_parts("/p", &bad_key), Err("invalid gRPC metadata key name".to_string()));
    let binary_key = vec![("data-bin".to_string(), "v".to_string())];
    assert_eq!(check_call_parts("/p", &binary_key), Err("invalid gRPC metadata key name".to_string()));
    let bad_value = vec![("ok".to_string(), "v".to_string()), ("x".to_string(), "a\u{1}b".to_string())];
    assert_eq!(check_call_parts("/p", &bad_value), Err("failed to parse metadata value".to_string()));
    let accented = vec![("x".to_string(), "caf\u{e9}\tok".to_string())];
    assert!(check_call_parts("/p", &accented).is_ok());
    let bad_path = check_call_parts("/a b", &bad_key);
    assert!(bad_path.is_err());
    assert_ne!(bad_path, Err("invalid gRPC metadata key name".to_string()));
}
