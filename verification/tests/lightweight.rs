use protohub::proto::{brace_delta, declaration_name, parse_proto_lightweight, parse_rpc_line, parse_rpc_type};

#[test]
fn lightweight_parser_keeps_methods_after_rpc_option_blocks() {
    let analysis = parse_proto_lightweight(
        "voice.proto",
        r#"
syntax = "proto3";
package demo;

service VoiceService {
  rpc First (FirstReq) returns (FirstRsp) {
    option (demo.http) = {
      post: "/first"
    };
  }
  rpc Second (SecondReq) returns (SecondRsp);
}

message FirstReq {}
message FirstRsp {}
message SecondReq {}
message SecondRsp {}
"#,
    );

    let service = analysis
        .services
        .iter()
        .find(|service| service.name == "VoiceService")
        .expect("service");
    assert_eq!(service.methods.len(), 2);
    assert_eq!(service.methods[0].name, "First");
    assert_eq!(service.methods[1].name, "Second");
    assert_eq!(service.methods[1].line, 11);
}

#[test]
fn lightweight_parser_reads_package_symbols_and_full_names() {
    let analysis = parse_proto_lightweight(
        "a/b.proto",
        "package demo.v1;\nmessage Ping{}\nenum Color { RED = 0; }\nservice Echo {\n  rpc Say (stream Ping) returns (stream  Pong );\n}\n",
    );
    assert_eq!(analysis.package_name, "demo.v1");
    assert!(!analysis.descriptor_available);
    assert_eq!(analysis.diagnostics, vec!["Analyzed a/b.proto".to_string()]);
    let kinds: Vec<(String, String, usize)> = analysis
        .symbols
        .iter()
        .map(|s| (s.name.clone(), s.kind.clone(), s.line))
        .collect();
    assert_eq!(
        kinds,
        vec![
            ("Ping".to_string(), "message".to_string(), 2),
            ("Color".to_string(), "enum".to_string(), 3),
            ("Echo".to_string(), "service".to_string(), 4),
        ]
    );
    assert_eq!(analysis.services.len(), 1);
    let echo = &analysis.services[0];
    assert_eq!(echo.full_name, "demo.v1.Echo");
    assert_eq!(echo.line, 4);
    assert_eq!(echo.methods.len(), 1);
    let say = &echo.methods[0];
    assert_eq!(say.name, "Say");
    assert_eq!(say.request_type, "Ping");
    assert_eq!(say.response_type, "Pong");
    assert!(say.client_streaming);
    assert!(say.server_streaming);
    assert_eq!(say.line, 5);
}

#[test]
fn lightweight_parser_without_package_keeps_short_names_and_open_services() {
    let analysis = parse_proto_lightweight(
        "x.proto",
        "service A {\nrpc One (R) returns (S);\nservice B {\n",
    );
    let names: Vec<(&str, &str, usize)> = analysis
        .services
        .iter()
        .map(|s| (s.name.as_str(), s.full_name.as_str(), s.methods.len()))
        .collect();
    assert_eq!(names, vec![("A", "A", 1), ("B", "B", 0)]);
    assert_eq!(analysis.package_name, "");
}

#[test]
fn lightweight_parser_ignores_rpc_lines_outside_services() {
    let analysis = parse_proto_lightweight(
        "x.proto",
        "rpc Lost (A) returns (B);\nservice S {\n}\nrpc After (A) returns (B);\n",
    );
    assert_eq!(analysis.services.len(), 1);
    assert_eq!(analysis.services[0].methods.len(), 0);
}

#[test]
fn lightweight_parser_keeps_a_one_line_service_open() {
    // The service line counts at least one open brace, so `{}` on the same
    // line does not close the service.
    let analysis = parse_proto_lightweight(
        "x.proto",
        "service S {}\nrpc After (A) returns (B);\n",
    );
    assert_eq!(analysis.services.len(), 1);
    assert_eq!(analysis.services[0].methods.len(), 1);
}

#[test]
fn brace_delta_counts_opening_minus_closing() {
    assert_eq!(brace_delta("{ { } x"), 1);
    assert_eq!(brace_delta("}}"), -2);
    assert_eq!(brace_delta(""), 0);
}

#[test]
fn declaration_name_stops_at_space_or_brace() {
    assert_eq!(declaration_name("message Foo{", "message "), Some("Foo".to_string()));
    assert_eq!(declaration_name("message Foo bar", "message "), Some("Foo".to_string()));
    assert_eq!(declaration_name("message ", "message "), Some(String::new()));
    assert_eq!(declaration_name("messages Foo", "message "), None);
}

#[test]
fn rpc_type_reads_stream_prefix() {
    assert_eq!(parse_rpc_type("  stream  Foo "), (true, "Foo".to_string()));
    assert_eq!(parse_rpc_type(" Foo "), (false, "Foo".to_string()));
    assert_eq!(parse_rpc_type("streamFoo"), (false, "streamFoo".to_string()));
}

#[test]
fn rpc_line_needs_parentheses_and_returns() {
    let m = parse_rpc_line("rpc Get(Req) returns (Rsp) {", 7).expect("method");
    assert_eq!(m.name, "Get");
    assert_eq!(m.request_type, "Req");
    assert_eq!(m.response_type, "Rsp");
    assert_eq!(m.line, 7);
    assert!(parse_rpc_line("rpc Get(Req) yields (Rsp)", 1).is_none());
    assert!(parse_rpc_line("rpc Get Req returns (Rsp)", 1).is_none());
    assert!(parse_rpc_line("rpcGet(Req) returns (Rsp)", 1).is_none());
}

#[test]
fn lightweight_reports_everything_in_line_order() {
    let text = "package p;\nmessage A {}\nservice S {\n  rpc One (A) returns (A);\n\n  rpc Two (A) returns (A);\n}\nenum E { X = 0; }\nservice T {\n  rpc Three (A) returns (A);\n}\n";
    let analysis = parse_proto_lightweight("p.proto", text);
    let lines: Vec<usize> = analysis.symbols.iter().map(|s| s.line).collect();
    assert_eq!(lines, vec![2, 3, 8, 9]);
    let services: Vec<(usize, Vec<usize>)> = analysis
        .services
        .iter()
        .map(|s| (s.line, s.methods.iter().map(|m| m.line).collect()))
        .collect();
    assert_eq!(services, vec![(3, vec![4, 6]), (9, vec![10])]);
}
