use arc_isle::doc::DocValue;
use arc_isle::hosts::{HostsError, HostsParser};
use arc_isle::imports::detect;
use arc_isle::interfaces::InterfacesParser;
use arc_isle::resolver::{assemble, reconcile};
use arc_isle::schema::{
    Host, ImportError, InterfaceDeclError, StatusCode, TypeDeclError, UnknownType, Versioning, VersioningFormat,
};
use arc_isle::tracker::Tracker;
use arc_isle::types::TypesParser;
use arc_isle::versioning::{VersioningError, VersioningParser};

fn string_node(s: &str) -> DocValue {
    DocValue::Str(s.to_string())
}

fn entry(k: &str, v: DocValue) -> (DocValue, DocValue) {
    (string_node(k), v)
}

#[test]
fn status_code_keys_render_back() {
    assert_eq!("200", StatusCode::Fixed(200).as_key());
    assert_eq!("404", StatusCode::Fixed(404).as_key());
    assert_eq!("4xx", StatusCode::Prefix(4).as_key());
    assert_eq!("0", StatusCode::Fixed(0).as_key());
}

#[test]
fn detect_single_import() {
    let source = vec![entry("_import", string_node("types.yaml"))];
    let found = detect(&source, "schema");
    assert_eq!(vec![Ok("schema/types.yaml".to_string())], found);
}

#[test]
fn detect_import_list_keeps_order() {
    let source = vec![entry(
        "_import",
        DocValue::Array(vec![string_node("a.yaml"), DocValue::Int(3), string_node("b.yaml")]),
    )];
    let found = detect(&source, "base");
    assert_eq!(
        vec![
            Ok("base/a.yaml".to_string()),
            Err(ImportError::InvalidImportValue),
            Ok("base/b.yaml".to_string()),
        ],
        found
    );
}

#[test]
fn detect_without_import_is_empty() {
    let source = vec![entry("user", DocValue::Hash(vec![]))];
    assert_eq!(0, detect(&source, "base").len());
}

#[test]
fn detect_invalid_import_value() {
    let source = vec![entry("_import", DocValue::Int(7))];
    assert_eq!(vec![Err(ImportError::InvalidImportValue)], detect(&source, "base"));
}

#[test]
fn hosts_parse_in_order() {
    let main = DocValue::Hash(vec![entry(
        "hosts",
        DocValue::Hash(vec![
            entry("dev", string_node("http://localhost:8080")),
            entry("prod", string_node("https://api.example.test")),
        ]),
    )]);
    let hosts = HostsParser::parse(&main).unwrap();
    assert_eq!(
        vec![
            Host {
                env: "dev".to_string(),
                address: "http://localhost:8080".to_string()
            },
            Host {
                env: "prod".to_string(),
                address: "https://api.example.test".to_string()
            },
        ],
        hosts
    );
}

#[test]
fn hosts_missing_section_fails() {
    let main = DocValue::Hash(vec![]);
    assert_eq!(Err(HostsError::NotFound), HostsParser::parse(&main));
}

#[test]
fn hosts_non_string_address_fails() {
    let main = DocValue::Hash(vec![entry(
        "hosts",
        DocValue::Hash(vec![entry("dev", DocValue::Int(1))]),
    )]);
    assert_eq!(
        Err(HostsError::MissingAddress("dev".to_string())),
        HostsParser::parse(&main)
    );
}

#[test]
fn versioning_headers_format() {
    let main = DocValue::Hash(vec![entry(
        "versioning",
        DocValue::Hash(vec![
            entry("format", string_node("headers")),
            entry("header", string_node("X-API-Version")),
        ]),
    )]);
    assert_eq!(
        Ok(Versioning {
            format: VersioningFormat::Headers,
            header: Some("X-API-Version".to_string()),
        }),
        VersioningParser::parse(&main)
    );
}

#[test]
fn versioning_unknown_format_fails() {
    let main = DocValue::Hash(vec![entry(
        "versioning",
        DocValue::Hash(vec![entry("format", string_node("path"))]),
    )]);
    assert_eq!(
        Err(VersioningError::UnsupportedFormat("path".to_string())),
        VersioningParser::parse(&main)
    );
}

#[test]
fn versioning_missing_header_fails() {
    let main = DocValue::Hash(vec![entry(
        "versioning",
        DocValue::Hash(vec![entry("format", string_node("headers"))]),
    )]);
    assert_eq!(Err(VersioningError::MissingHeader), VersioningParser::parse(&main));
}

#[test]
fn reference_declared_in_later_fragment_resolves() {
    let main = DocValue::Hash(vec![entry(
        "B",
        DocValue::Hash(vec![entry("a", string_node("A"))]),
    )]);
    let imported = vec![Ok(DocValue::Hash(vec![entry(
        "A",
        DocValue::Hash(vec![entry("id", string_node("str"))]),
    )]))];
    let mut parser = TypesParser {
        types_usage: Tracker::new(),
    };
    let types = parser.parse(&main, &imported).unwrap();
    assert_eq!(2, types.len());
    assert!(types[0].is_ok());
    assert!(types[1].is_ok());
    assert_eq!(Ok(()), reconcile(&parser.types_usage));
}

#[test]
fn reference_never_declared_reports_its_site() {
    let main = DocValue::Hash(vec![entry(
        "C",
        DocValue::Hash(vec![entry("x", string_node("missing_thing"))]),
    )]);
    let imported = Vec::new();
    let mut parser = TypesParser {
        types_usage: Tracker::new(),
    };
    let types = parser.parse(&main, &imported).unwrap();
    assert_eq!(1, types.len());
    let err = reconcile(&parser.types_usage).unwrap_err();
    assert_eq!(vec![UnknownType::InTypeDeclaration(0, 0)], err.list);
}

#[test]
fn failed_import_becomes_one_type_entry() {
    let main = DocValue::Hash(vec![]);
    let imported = vec![Err(ImportError::InvalidImportValue)];
    let mut parser = TypesParser {
        types_usage: Tracker::new(),
    };
    let types = parser.parse(&main, &imported).unwrap();
    assert_eq!(
        vec![Err(TypeDeclError::ImportFailure(ImportError::InvalidImportValue))],
        types
    );
}

#[test]
fn non_mapping_types_section_fails() {
    let main = string_node("oops");
    let mut parser = TypesParser {
        types_usage: Tracker::new(),
    };
    assert_eq!(
        Err(TypeDeclError::ImportFailure(ImportError::InvalidInputSource)),
        parser.parse(&main, &Vec::new())
    );
}

#[test]
fn interfaces_parse_declarations_list() {
    let decl = DocValue::Hash(vec![
        entry("path", string_node("news")),
        entry("method", string_node("get")),
    ]);
    let main = DocValue::Hash(vec![entry("declarations", DocValue::Array(vec![decl]))]);
    let mut parser = InterfacesParser {
        types_usage: Tracker::new(),
        types: Vec::new(),
    };
    let results = parser.parse(&main, &Vec::new()).unwrap();
    assert_eq!(1, results.len());
    assert_eq!("news", results[0].as_ref().unwrap().ident);
}

#[test]
fn interfaces_missing_declarations_key_is_one_failure() {
    let main = DocValue::Hash(vec![entry("something", string_node("else"))]);
    let mut parser = InterfacesParser {
        types_usage: Tracker::new(),
        types: Vec::new(),
    };
    let results = parser.parse(&main, &Vec::new()).unwrap();
    assert_eq!(vec![Err(InterfaceDeclError::InvalidInterfaceDeclaration)], results);
}

#[test]
fn whole_run_assembles_schema() {
    let types_main = DocValue::Hash(vec![entry(
        "user",
        DocValue::Hash(vec![entry("id", string_node("str"))]),
    )]);
    let mut types_parser = TypesParser {
        types_usage: Tracker::new(),
    };
    let types = types_parser.parse(&types_main, &Vec::new()).unwrap();

    let decl = DocValue::Hash(vec![
        entry("path", string_node("users/{user_id}")),
        entry("method", string_node("get")),
        entry("response", string_node("user")),
    ]);
    let ifaces_main = DocValue::Hash(vec![entry("declarations", DocValue::Array(vec![decl]))]);
    let mut ifaces_parser = InterfacesParser {
        types_usage: types_parser.types_usage,
        types,
    };
    let interfaces = ifaces_parser.parse(&ifaces_main, &Vec::new()).unwrap();

    let hosts = vec![Host {
        env: "dev".to_string(),
        address: "http://localhost".to_string(),
    }];
    let versioning = Versioning {
        format: VersioningFormat::Headers,
        header: Some("X-API-Version".to_string()),
    };
    let schema = assemble(
        hosts,
        versioning,
        ifaces_parser.types,
        interfaces,
        &ifaces_parser.types_usage,
    )
    .unwrap();
    assert_eq!(1, schema.types.len());
    assert_eq!(1, schema.interfaces.len());
    assert_eq!("users/{user_id}", schema.interfaces[0].as_ref().unwrap().ident);
    assert_eq!(
        vec!["user_id".to_string()],
        schema.interfaces[0].as_ref().unwrap().params
    );
}

#[test]
fn error_descriptions_are_stable() {
    assert_eq!(
        "Type declaration cannot be empty.",
        TypeDeclError::EmptyTypeDeclaration.default_fmt()
    );
    assert_eq!(
        "Primitive user not supported.",
        TypeDeclError::UnsupportedPrimitive("user".to_string()).default_fmt()
    );
    assert_eq!(
        "Import failed: Input source should be a hashmap",
        TypeDeclError::ImportFailure(ImportError::InvalidInputSource).default_fmt()
    );
    assert_eq!("No hosts were specified.", HostsError::NotFound.default_fmt());
    assert_eq!(
        "Missing 'header' key inside 'versioning'.",
        VersioningError::MissingHeader.default_fmt()
    );
}
