use protohub::source::{extract_block_from_lines, extract_named_blocks, extract_rpc_source, parse_proto_imports};

#[test]
fn protocol_source_extraction_keeps_rpc_options_and_enums() {
    let source = r#"
enum TaskStatus {
  PROCESSING = 0;
  SUCCESS = 1;
}
service Demo {
  rpc Get (Req) returns (Rsp) {
    option (trpc.api.http) = {
      post: "/demo"
      body: "*"
    };
  }
}
"#;
    let rpc = extract_rpc_source(source, "Get");
    assert!(rpc.contains("option (trpc.api.http)"));
    assert!(rpc.contains("post: \"/demo\""));
    let enums = extract_named_blocks(source, "enum");
    assert!(enums.contains("enum TaskStatus"));
    assert!(enums.contains("SUCCESS = 1"));
}

#[test]
fn block_includes_comments_above_and_stops_at_semicolon() {
    let lines = vec!["// first", "  // second", "rpc A (B) returns (C);", "rpc D (E) returns (F);"];
    assert_eq!(
        extract_block_from_lines(&lines, 2),
        "// first\n  // second\nrpc A (B) returns (C);"
    );
    let lines = vec!["x", "message M {", "  int32 a = 1;", "}", "tail"];
    assert_eq!(extract_block_from_lines(&lines, 1), "message M {\n  int32 a = 1;\n}");
    let lines = vec!["option x", "still open"];
    assert_eq!(extract_block_from_lines(&lines, 0), "option x\nstill open");
}

#[test]
fn rpc_source_is_empty_when_method_is_missing() {
    assert_eq!(extract_rpc_source("service S {\n rpc A (B) returns (C);\n}", "Z"), "");
}

#[test]
fn named_blocks_are_separated_by_blank_lines() {
    let source = "enum A { X = 0; }\nmessage M {}\n  enum B {\n Y = 0;\n}\n";
    assert_eq!(extract_named_blocks(source, "enum"), "enum A { X = 0; }\n\n  enum B {\n Y = 0;\n}");
    assert_eq!(extract_named_blocks(source, "service"), "");
}

#[test]
fn imports_are_read_between_quotes() {
    let source = "syntax = \"proto3\";\nimport \"common/shared.proto\";\n  import public \"b.proto\";\nimport broken\nimportx \"c.proto\";\n";
    assert_eq!(
        parse_proto_imports(source),
        vec!["common/shared.proto".to_string(), "b.proto".to_string()]
    );
}
